//! What comes of an HTTP exchange with one of the services, and what it means to the caller.

use vstd::prelude::*;
use crate::text::{begins_with, finishes_with};

verus! {

/// How an HTTP exchange ended.
#[derive(Debug, PartialEq)]
pub enum Reply<T> {
    /// The request did not get through; the transport's message.
    NotSent(String),
    /// The service answered with a status other than success.
    Refused { status: String, body: String },
    /// The service agreed but its answer could not be received; the transport's message.
    Unread(String),
    /// The answer of a service that agreed.
    Received(T),
}

/// What is said where an answer is not the JSON that it should be.
pub open spec fn bad_body() -> Seq<char> {
    "error decoding response body"@
}

/// What is said where a service refuses a request.
pub open spec fn refusal(service: Seq<char>, status: Seq<char>, body: Seq<char>) -> Seq<char> {
    service + " API error ("@ + status + "): "@ + body
}

/// The characters in a result of strings.
pub open spec fn result_view(r: Result<String, String>) -> Result<Seq<char>, Seq<char>> {
    match r {
        Ok(s) => Ok(s@),
        Err(e) => Err(e@),
    }
}

/// `a` followed by `b`.
pub fn concat(a: &str, b: &str) -> (s: String)
    ensures
        s@ == a@ + b@,
{
    let mut s = a.to_owned();
    s.append(b);
    s
}

/// What is said where a service refuses a request.
pub fn refusal_message(service: &str, status: &str, body: &str) -> (s: String)
    ensures
        s@ == refusal(service@, status@, body@),
{
    let mut s = service.to_owned();
    s.append(" API error (");
    s.append(status);
    s.append("): ");
    s.append(body);
    s
}

/// The key for the speech and chat services, which the environment may hold.
pub fn openai_key(key: Option<String>) -> (r: Result<String, String>)
    ensures
        result_view(r) == match key {
            Some(k) => Ok::<Seq<char>, Seq<char>>(k@),
            None => Err("OPENAI_API_KEY environment variable not set"@),
        },
{
    match key {
        Some(k) => Ok(k),
        None => Err("OPENAI_API_KEY environment variable not set".to_owned()),
    }
}

/// What is said of a refusal names the service and ends with the status and the body of the answer,
/// and holds no more than that.
pub proof fn law_a_refusal_says_why(service: Seq<char>, status: Seq<char>, body: Seq<char>)
    ensures
        begins_with(refusal(service, status, body), service + " API error "@),
        refusal(service, status, body).len() == service.len() + " API error "@.len() + status.len()
            + body.len() + 4,
        finishes_with(
            refusal(service, status, body),
            seq!['('] + status + seq![')', ':', ' '] + body,
        ),
{
    reveal_strlit(" API error (");
    reveal_strlit(" API error ");
    reveal_strlit("): ");
    let all = refusal(service, status, body);
    let end = seq!['('] + status + seq![')', ':', ' '] + body;
    let head = service + " API error "@;
    assert(all.take(head.len() as int) == head);
    assert(all.skip(all.len() - end.len()) == end);
}

/// The model of a result holds the characters of what came out, and whether it is an error.
pub proof fn law_results_hold_everything(r: Result<String, String>)
    ensures
        match r {
            Ok(s) => result_view(r) == Ok::<Seq<char>, Seq<char>>(s@),
            Err(e) => result_view(r) == Err::<Seq<char>, Seq<char>>(e@),
        },
{
}

} // verus!
