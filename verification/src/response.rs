//! The response value handlers and middleware produce.

use vstd::prelude::*;

verus! {

/// Result of handling one request: a status code plus a body. The transport
/// layer turns it into whatever wire representation it needs.
#[derive(Clone, Debug)]
pub struct Response {
    pub status: u16,
    pub body: String,
}

impl Response {
    /// A response with the given status code and body.
    pub fn new(status: u16, body: String) -> (r: Response)
        ensures
            r.status == status,
            r.body == body,
    {
        Response { status, body }
    }

    /// A success response carrying the given body.
    pub fn ok(body: String) -> (r: Response)
        ensures
            r.status == 200,
            r.body == body,
    {
        Response { status: 200, body }
    }

    /// The response the dispatcher produces when no route matches:
    /// an expected outcome, never an abort.
    pub fn not_found() -> (r: Response)
        ensures
            r.status == 404,
            r.body@ == "Not Found"@,
    {
        Response { status: 404, body: "Not Found".to_owned() }
    }
}

} // verus!
