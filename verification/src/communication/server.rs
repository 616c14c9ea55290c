use crate::communication::serialization::{Request, Response};
use vstd::prelude::*;

verus! {

/// The body of the answer to the root route, whatever name the route carries.
pub fn greet(name: &str) -> (body: String)
    ensures
        body@ == "Hello!"@,
{
    let _ = name;
    String::from_str("Hello!")
}

/// Answers a search request: the query comes back unchanged and the result is empty.
pub fn search(data: Request) -> (response: Response)
    ensures
        response.query@ == data.query@,
        response.result@ == Seq::<char>::empty(),
{
    Response { query: data.query, result: String::new() }
}

} // verus!
