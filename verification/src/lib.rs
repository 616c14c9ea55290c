pub mod communication;
pub mod embedding;
pub mod parser;
pub mod query_manager;
pub mod storage_engine;
