//! The stores: confidence vectors and label sets, each by sample key.

pub mod dataset;
pub mod output;
pub mod records;
pub mod table;

pub use dataset::ClassificationDataset;
pub use output::ClassificationOutput;
pub use records::split_record;
pub use records::Record;
