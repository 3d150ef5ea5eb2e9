//! A verified in-process model of the DAOS array API: an object store keyed by
//! object identifiers, with the array read, write and resize operations of the
//! client library, proved against a mathematical model of the stored bytes.
pub mod types;
pub mod array;
pub mod names;
pub mod storage;
pub mod mock_daos;
pub mod laws;
