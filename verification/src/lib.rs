//! Containers for classification results: per-sample confidence vectors and
//! per-sample label sets over a fixed number of classes, together with the
//! numeric selection engine (Top-K by value) that the queries are built on.
//!
//! Every executable function carries a contract over a mathematical model of
//! the data it works on, and every contract is proved.

pub mod errors;
pub mod utils;
pub mod classification;
