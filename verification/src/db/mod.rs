//! The persistent side of a queue: its records, the store that keeps them
//! and the operations that read and change it.

pub mod api;
pub mod laws;
pub mod models;
pub mod state;
pub mod store;
