use rag_engine::communication::serialization::Request;
use rag_engine::communication::server::{greet, search};

#[test]
fn test_search() {
    let payload = Request { query: "Alice".to_string() };
    let response_body = search(payload);
    assert_eq!(response_body.query, "Alice");
}

#[test]
fn search_answers_with_empty_result() {
    let response = search(Request { query: String::new() });
    assert_eq!(response.query, "");
    assert_eq!(response.result, "");
}

#[test]
fn greet_says_hello_whatever_the_name() {
    assert_eq!(greet("bob"), "Hello!");
    assert_eq!(greet(""), "Hello!");
}
