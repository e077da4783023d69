pub mod args;
pub mod coordinator;
pub mod endpoint;
pub mod errors;
pub mod service;
pub mod text;
