pub mod serialization;
pub mod server;
