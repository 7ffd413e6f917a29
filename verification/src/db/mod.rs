pub mod models;
pub mod reader;
