pub mod error;
pub mod ids;
pub mod json;
pub mod text;
