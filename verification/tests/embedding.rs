use std::collections::HashMap;

use rag_engine::embedding::openai_client::{EmbedAction, EmbedEvent, EmbeddingClient, EmbeddingData};
use rag_engine::embedding::token_batch::{encode_query_and_batch, pad_batch, with_query_first, TokenEncoding};
use rag_engine::query_manager::query_manager::QueryManager;
use tokenizers::models::wordlevel::WordLevel;
use tokenizers::pre_tokenizers::whitespace::Whitespace;
use tokenizers::Tokenizer;

fn encoding(ids: &[u32]) -> TokenEncoding {
    TokenEncoding { ids: ids.to_vec(), attention_mask: vec![1; ids.len()], type_ids: vec![0; ids.len()] }
}

#[test]
fn pad_batch_pads_rows_to_the_longest() {
    let batch = pad_batch(&vec![encoding(&[5, 6, 7]), encoding(&[8])]);
    assert_eq!(batch.batch_size, 2);
    assert_eq!(batch.padded_token_length, 3);
    assert_eq!(batch.ids, vec![5, 6, 7, 8, 0, 0]);
    assert_eq!(batch.mask, vec![1, 1, 1, 1, 0, 0]);
    assert_eq!(batch.type_ids, vec![0, 0, 0, 0, 0, 0]);
}

#[test]
fn pad_batch_of_nothing_is_empty() {
    let batch = pad_batch(&Vec::new());
    assert_eq!(batch.batch_size, 0);
    assert_eq!(batch.padded_token_length, 0);
    assert!(batch.ids.is_empty());
}

#[test]
fn query_goes_first() {
    let inputs = with_query_first(&vec!["a".to_string(), "b".to_string()], "q");
    assert_eq!(inputs, vec!["q".to_string(), "a".to_string(), "b".to_string()]);
}

#[test]
fn tokenizer_batch_has_a_row_per_text_and_the_query() {
    let mut vocab = HashMap::new();
    vocab.insert("[UNK]".to_string(), 0u32);
    vocab.insert("hello".to_string(), 1u32);
    vocab.insert("world".to_string(), 2u32);
    let model = WordLevel::builder().vocab(vocab.into_iter().collect()).unk_token("[UNK]".to_string()).build().unwrap();
    let mut tokenizer = Tokenizer::new(model);
    tokenizer.with_pre_tokenizer(Some(Whitespace {}));
    let batch = encode_query_and_batch(
        &tokenizer,
        &vec!["hello world".to_string(), "world".to_string()],
        "hello",
    )
    .unwrap();
    assert_eq!(batch.batch_size, 3);
    assert_eq!(batch.padded_token_length, 2);
    assert_eq!(batch.ids, vec![1, 0, 1, 2, 2, 0]);
    assert_eq!(batch.mask, vec![1, 0, 1, 1, 1, 0]);
}

fn client(is_local: bool) -> EmbeddingClient {
    EmbeddingClient::new("key".to_string(), "http://localhost:8080".to_string(), "model-a".to_string(), is_local)
        .expect("an HTTP client can be built here")
}

#[test]
fn local_client_posts_to_the_embeddings_endpoint() {
    let text = "some text".to_string();
    match client(true).embed_step(&text, &EmbedEvent::Start) {
        EmbedAction::PostLocal { url, request } => {
            assert_eq!(url, "http://localhost:8080/v1/embeddings");
            assert_eq!(request.input, "some text");
            assert_eq!(request.model, "model-a");
        }
        _ => panic!("expected a local request"),
    }
}

#[test]
fn remote_client_asks_openai_first() {
    let text = "t".to_string();
    match client(false).embed_step(&text, &EmbedEvent::Start) {
        EmbedAction::RequestOpenAi { model, input } => {
            assert_eq!(model, "model-a");
            assert_eq!(input, "t");
        }
        _ => panic!("expected an OpenAI request"),
    }
}

#[test]
fn local_reply_gives_its_first_item() {
    let text = "t".to_string();
    let reply = EmbedEvent::LocalReply(vec![vec![1, 2], vec![3]]);
    match client(true).embed_step(&text, &reply) {
        EmbedAction::Finish(Some(v)) => assert_eq!(v, vec![1, 2]),
        _ => panic!("expected the first item"),
    }
}

#[test]
fn empty_local_reply_falls_back_to_openai() {
    let text = "t".to_string();
    match client(true).embed_step(&text, &EmbedEvent::LocalReply(Vec::new())) {
        EmbedAction::RequestOpenAi { model, input } => {
            assert_eq!(model, "model-a");
            assert_eq!(input, "t");
        }
        _ => panic!("expected an OpenAI request"),
    }
}

#[test]
fn openai_reply_float_or_base64() {
    let text = "t".to_string();
    let floats = EmbedEvent::OpenAiReply(vec![EmbeddingData::Float(vec![0.5f64.to_bits()]), EmbeddingData::Base64("x".to_string())]);
    match client(false).embed_step(&text, &floats) {
        EmbedAction::Finish(Some(v)) => assert_eq!(f64::from_bits(v[0]), 0.5),
        _ => panic!("expected the float embedding"),
    }
    let base64 = EmbedEvent::OpenAiReply(vec![EmbeddingData::Base64("AAAA".to_string())]);
    assert!(matches!(client(false).embed_step(&text, &base64), EmbedAction::Finish(None)));
}

#[test]
fn query_manager_holds_a_client() {
    let _manager = QueryManager::new(client(false));
}

#[test]
fn client_holds_the_key_and_base_url_it_was_given() {
    let embedding_client = client(false);
    let openai = embedding_client.openai_client();
    assert_eq!(openai.api_key, "key");
    assert_eq!(openai.base_url, "http://localhost:8080");
}
