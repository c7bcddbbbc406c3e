//! A narrow key-value storage façade — point reads and writes, deletes,
//! existence checks, atomic bulk writes and deletes, key counting, and full
//! clear — together with a batched migration pipeline that drains a source
//! sequence of records into a destination store in fixed-size atomic
//! batches, with optional record limiting and byte-volume progress
//! reporting.  Every operation is specified against a contents map from
//! byte-string keys to byte-string values, and verified.

pub mod errors;
pub mod laws;
pub mod model;
pub mod pipeline;
pub mod store;
