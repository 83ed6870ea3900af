//! Data point sampling.

pub mod lttb;

pub use lttb::{Cast, DataPoint, Lttb, LttbIterator, LttbSource};
