use vstd::prelude::*;

verus! {

/// A search request: the query text a client sends.
#[derive(Debug, PartialEq, Eq)]
pub struct Request {
    pub query: String,
}

/// The answer to a search request: the query echoed back and the result text.
#[derive(Debug)]
pub struct Response {
    pub query: String,
    pub result: String,
}

} // verus!
