pub mod query_manager;
