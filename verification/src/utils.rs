//! The numeric selection engine: ordered values, indexed values, the
//! priority queue and the Top-K selection built on them, and the one-hot
//! encoding of class indices.

pub mod heap;
pub mod indexed;
pub mod nonan;
pub mod onehot;
pub mod order;
pub mod topk;

pub use heap::MaxHeap;
pub use indexed::IndexedTuple;
pub use nonan::FloatBits;
pub use nonan::NoNaN;
pub use onehot::ClassIndex;
pub use onehot::ToOneHot;
pub use order::Ranked;
pub use topk::top_k_of_floats;
pub use topk::TopK;
