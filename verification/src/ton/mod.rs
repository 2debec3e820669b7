pub mod address;
pub mod client;
pub mod monitor;
pub mod reading;
pub mod trace;
