pub mod handler;
pub mod message;
