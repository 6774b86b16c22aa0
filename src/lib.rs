//! A per-owner task list kept in stable structures: task records, their
//! binary encoding, the pagination policy and the keyed store.

pub mod codec;
pub mod errors;
pub mod paginator;
pub mod service;
pub mod stable;
pub mod store;
pub mod todo;

