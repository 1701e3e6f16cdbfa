//! The error that a request handler answers with.

use vstd::prelude::*;
use vstd::string::StringExecFns;
use crate::text::owned;

verus! {

/// A failed request, carrying the reason.
#[derive(Debug)]
pub struct HttpError(pub String);

impl HttpError {
    /// An error with the reason `e`.
    pub fn new(e: String) -> (r: HttpError)
        ensures
            r.0@ == e@,
    {
        HttpError(e)
    }

    /// The status code and body that the error is answered with:
    /// `500` and `Something went wrong: ` followed by the reason.
    pub fn into_response(&self) -> (r: (u16, String))
        ensures
            r.0 == 500,
            r.1@ == "Something went wrong: "@ + self.0@,
    {
        let mut body = owned("Something went wrong: ");
        body.append(self.0.as_str());
        (500, body)
    }
}

/// A failed result with the reason `e`.
pub fn mkerr<T>(e: String) -> (r: Result<T, HttpError>)
    ensures
        r matches Err(h) && h.0@ == e@,
{
    Err(HttpError::new(e))
}

} // verus!
