//! A key-to-value map with a designated default value that stands for
//! absence: reading a missing key yields the default, and writing the
//! default removes the key from the backing store. The most recent write is
//! held in a single pending slot and reconciled with the store lazily.

pub mod laws;
pub mod map;
pub mod store;

pub use map::{SimpleMap, ref_to_tuple_to_tuple_of_refs, tuple_of_refs_to_tuple};
pub use store::FnvBuildHasher;
