//! Errors answered to clients: an HTTP status, a message, and whether the
//! body is JSON.
use vstd::prelude::*;

verus! {

/// An error answered to a client.
#[derive(Debug)]
pub struct AppError {
    /// The HTTP status code.
    pub code: u16,
    /// What went wrong.
    pub message: String,
    /// The content type of the body; plain text when absent.
    pub content_type: Option<String>,
}

/// The view of an optional text.
pub open spec fn opt_string(o: Option<String>) -> Option<Seq<char>> {
    match o {
        Some(s) => Some(s@),
        None => None,
    }
}

/// An error with the given status and message and a plain-text body.
pub open spec fn plain_error(e: AppError, code: u16, message: Seq<char>) -> bool {
    e.code == code && e.message@ == message && e.content_type is None
}

/// An error with the given status and message and a JSON body.
pub open spec fn json_error(e: AppError, code: u16, message: Seq<char>) -> bool {
    e.code == code && e.message@ == message && opt_string(e.content_type) == Some(
        "application/json"@,
    )
}

impl AppError {
    /// A `400 Bad Request` error.
    pub fn bad_request(message: &str) -> (r: AppError)
        ensures
            plain_error(r, 400, message@),
    {
        proof {
            broadcast use vstd::string::group_string_axioms;
        }
        AppError { code: 400, message: message.to_string(), content_type: None }
    }

    /// A `404 Not Found` error.
    pub fn not_found(message: &str) -> (r: AppError)
        ensures
            plain_error(r, 404, message@),
    {
        proof {
            broadcast use vstd::string::group_string_axioms;
        }
        AppError { code: 404, message: message.to_string(), content_type: None }
    }

    /// A `500 Internal Server Error` error.
    pub fn internal(message: &str) -> (r: AppError)
        ensures
            plain_error(r, 500, message@),
    {
        proof {
            broadcast use vstd::string::group_string_axioms;
        }
        AppError { code: 500, message: message.to_string(), content_type: None }
    }

    /// The same error with a JSON body.
    pub fn into_json(self) -> (r: AppError)
        ensures
            r.code == self.code,
            r.message@ == self.message@,
            opt_string(r.content_type) == Some("application/json"@),
    {
        proof {
            broadcast use vstd::string::group_string_axioms;
        }
        AppError { code: self.code, message: self.message, content_type: Some("application/json".to_string()) }
    }

    /// Whether the body is JSON (`{"status": .., "error": ..}`) rather than the message itself.
    pub fn is_json(&self) -> (r: bool)
        ensures
            r == (opt_string(self.content_type) == Some("application/json"@)),
    {
        proof {
            reveal_strlit("application/json");
        }
        match &self.content_type {
            Some(t) => crate::text::str_eq(t.as_str(), "application/json"),
            None => false,
        }
    }

    /// The content type of the body: the one set, else `text/plain`.
    pub fn content_type_text(&self) -> (r: String)
        ensures
            r@ == match opt_string(self.content_type) {
                Some(t) => t,
                None => "text/plain"@,
            },
    {
        proof {
            broadcast use vstd::string::group_string_axioms;
        }
        match &self.content_type {
            Some(t) => t.as_str().to_string(),
            None => "text/plain".to_string(),
        }
    }
}

} // verus!
