//! An array-backed d-ary max-heap over `i32` keys, with its index arithmetic,
//! its heap-order algorithms, a level-by-level rendering and a parser for
//! comma-separated key lists.

pub mod dheap;
pub mod error;
pub mod index;
pub mod levels;
pub mod menu;
pub mod order;
pub mod parse;
pub mod render;
pub mod sift;

pub use crate::dheap::Dheap;
pub use crate::error::HeapError;
