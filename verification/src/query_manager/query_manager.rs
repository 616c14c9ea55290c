use crate::embedding::openai_client::{EmbeddingClient, EmbeddingClientView};
use vstd::prelude::*;

verus! {

/// Answers queries with the help of an embedding client.
pub struct QueryManager {
    embedding_client: EmbeddingClient,
}

impl View for QueryManager {
    type V = EmbeddingClientView;

    /// The plain values of the embedding client it holds.
    closed spec fn view(&self) -> EmbeddingClientView {
        self.embedding_client@
    }
}

impl QueryManager {
    /// The embedding client this query manager holds.
    pub closed spec fn held_embedding_client(&self) -> EmbeddingClient {
        self.embedding_client
    }

    /// A query manager that uses `embedding_client`.
    pub fn new(embedding_client: EmbeddingClient) -> (manager: Self)
        ensures
            manager@ == embedding_client@,
            manager.held_embedding_client() == embedding_client,
    {
        QueryManager { embedding_client }
    }
}

} // verus!
