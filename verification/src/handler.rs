//! The request handler: it picks the store operation that a request's path
//! names, performs it, and answers with a response.

use crate::header::HeaderView;
use crate::parser::{lines_of, parse_request, request_of};
use crate::remote::RemoteAddr;
use crate::request::{parsed_view, ParseError, RequestInfo, RequestLineView};
use crate::response::{Response, ResponseView, Status};
use crate::store::{Queue, TaskStore};
use crate::text::{contains, contains_text, to_chars};
use vstd::prelude::*;
use vstd::string::StringExecFns;

verus! {

/// What a request asks for.
#[derive(Debug, Clone, Copy, PartialEq, Eq)]
pub enum Route {
    /// Add the query string to the store as a task.
    Add,
    /// Take the task that has waited longest.
    Get,
    /// Nothing that the handler knows.
    Unknown,
}

/// The operation that a path names: `Add` where it contains `add`, else
/// `Get` where it contains `get`, else none.
pub open spec fn route_of(path: Seq<char>) -> Route {
    if contains_text(path, "add"@) {
        Route::Add
    } else if contains_text(path, "get"@) {
        Route::Get
    } else {
        Route::Unknown
    }
}

/// The response to a request with the given path and query string, on a
/// store in state `q`.
pub open spec fn response_to(path: Seq<char>, query: Seq<char>, q: Queue) -> ResponseView {
    match route_of(path) {
        Route::Add => ResponseView {
            status: Status::Success,
            body: if q.is_full() {
                "queue full"@
            } else {
                "added ok"@
            },
        },
        Route::Get => ResponseView {
            status: Status::Success,
            body: if q.is_empty() {
                "queue empty"@
            } else {
                q.tasks.last()
            },
        },
        Route::Unknown => ResponseView { status: Status::NotFound, body: "Not Found"@ },
    }
}

/// The store after a request with the given path and query string, from
/// state `q`.
pub open spec fn store_after(path: Seq<char>, query: Seq<char>, q: Queue) -> Queue {
    match route_of(path) {
        Route::Add => q.enqueue(query),
        Route::Get => q.dequeue(),
        Route::Unknown => q,
    }
}

/// The operation that a path names.
pub fn route(path: &str) -> (r: Route)
    ensures
        r == route_of(path@),
{
    let p = to_chars(path);
    let add = to_chars("add");
    let get = to_chars("get");
    if contains(&p, &add) {
        Route::Add
    } else if contains(&p, &get) {
        Route::Get
    } else {
        Route::Unknown
    }
}

/// Performs the store operation that the request names, at most one, and
/// answers with the response to send.
pub fn handle_request(request: &RequestInfo, store: &mut TaskStore) -> (response: Response)
    ensures
        response@ == response_to(
            request@.line.request_script,
            request@.line.query_string,
            old(store)@,
        ),
        final(store)@ == store_after(
            request@.line.request_script,
            request@.line.query_string,
            old(store)@,
        ),
{
    match route(request.request_script.as_str()) {
        Route::Add => {
            let body = match store.enqueue(request.query_string.clone()) {
                Ok(()) => String::from_str("added ok"),
                Err(_) => String::from_str("queue full"),
            };
            Response::new(Status::Success, body)
        },
        Route::Get => {
            let body = match store.dequeue() {
                Ok(task) => task,
                Err(_) => String::from_str("queue empty"),
            };
            Response::new(Status::Success, body)
        },
        Route::Unknown => Response::new(Status::NotFound, String::from_str("Not Found")),
    }
}

/// The response to a request whose request line could not be parsed.
pub fn bad_request() -> (response: Response)
    ensures
        response@ == (ResponseView { status: Status::BadRequest, body: "Bad Request"@ }),
{
    Response::new(Status::BadRequest, String::from_str("Bad Request"))
}

/// The response to what came of parsing a request, on a store in state `q`.
/// A request that is incomplete gets none.
pub open spec fn answer_to(
    parsed: Result<(RequestLineView, HeaderView), ParseError>,
    q: Queue,
) -> Option<ResponseView> {
    match parsed {
        Ok((line, _)) => Some(response_to(line.request_script, line.query_string, q)),
        Err(ParseError::MalformedRequestLine) => Some(
            ResponseView { status: Status::BadRequest, body: "Bad Request"@ },
        ),
        Err(ParseError::Incomplete) => None,
    }
}

/// The store after what came of parsing a request was answered, from state
/// `q`. Only a request that was parsed can change the store.
pub open spec fn store_after_answer(
    parsed: Result<(RequestLineView, HeaderView), ParseError>,
    q: Queue,
) -> Queue {
    match parsed {
        Ok((line, _)) => store_after(line.request_script, line.query_string, q),
        Err(_) => q,
    }
}

/// Answers what came of parsing a request: a request is handled, a request
/// line that could not be parsed gets the response for a bad request, and an
/// incomplete request gets no response.
pub fn respond(parsed: Result<RequestInfo, ParseError>, store: &mut TaskStore) -> (response: Option<
    Response,
>)
    ensures
        match response {
            Some(r) => answer_to(parsed_view(parsed), old(store)@) == Some(r@),
            None => answer_to(parsed_view(parsed), old(store)@) is None,
        },
        final(store)@ == store_after_answer(parsed_view(parsed), old(store)@),
{
    match parsed {
        Ok(info) => Some(handle_request(&info, store)),
        Err(ParseError::MalformedRequestLine) => Some(bad_request()),
        Err(ParseError::Incomplete) => None,
    }
}

/// Serves one client: parses the request that `input` holds, performs the
/// store operation that it names, and hands out the text of the response.
/// There is no response, and the store is left alone, where the input ends
/// before the request does.
pub fn handle_client(input: &[u8], remote: RemoteAddr, store: &mut TaskStore) -> (text: Option<
    String,
>)
    ensures
        match answer_to(request_of(lines_of(input@)), old(store)@) {
            Some(response) => text is Some && text->0@ == response.rendered(),
            None => text is None,
        },
        final(store)@ == store_after_answer(request_of(lines_of(input@)), old(store)@),
{
    match respond(parse_request(input, remote), store) {
        Some(response) => Some(response.render()),
        None => None,
    }
}

} // verus!
