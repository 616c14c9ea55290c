pub mod openai_client;
pub mod token_batch;
