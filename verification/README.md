# rag_engine

A small retrieval library, verified with Verus: PDF pages are split into
paragraph chunks, texts and their embeddings are kept in an in-memory store,
token encodings are padded into model-ready matrices, and the steps of
computing an embedding (local server or OpenAI interface) are decided by a
verified step function.

- `src/` holds the verified library: `storage_engine` (the store),
  `parser` (pages and paragraph chunks), `embedding` (the embedding client's
  decisions and the token batch), `communication` (search request and
  response), `query_manager`.
- `app/` holds the program around it: reading PDF files, HTTP calls, the
  ONNX model, the web handlers and the floating-point similarity.
- Embeddings are held in the library as the IEEE-754 bit patterns of their
  `f64` components; `app/` converts with `f64::to_bits` and `f64::from_bits`.
