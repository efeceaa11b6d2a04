//! An in-memory book catalog: a collection of book records with a
//! monotonically increasing identifier counter, offering list, get,
//! create, update, delete and search operations, each with a verified
//! contract.

pub mod text;
pub mod store;
pub mod laws;
