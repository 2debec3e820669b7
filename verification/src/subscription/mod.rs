pub mod laws;
pub mod manager;
pub mod store;
pub mod watching;
