//! Responses: a status and a body, and the text that goes on the wire.

use vstd::prelude::*;
use vstd::string::*;

verus! {

/// The three outcomes a response can report.
#[derive(Clone, Copy, Debug, PartialEq, Eq, Structural)]
pub enum Status {
    Success,
    NotFound,
    ServerError,
}

/// What a request is answered with.
#[derive(Clone, Debug, PartialEq, Eq)]
pub struct Response {
    pub status: Status,
    pub body: String,
}

/// A response as plain values.
pub struct ResponseView {
    pub status: Status,
    pub body: Seq<char>,
}

impl View for Response {
    type V = ResponseView;

    open spec fn view(&self) -> ResponseView {
        ResponseView { status: self.status, body: self.body@ }
    }
}

/// The head of a response: status line, headers if any, and the blank line
/// that ends them.
pub open spec fn head_of(status: Status) -> Seq<char> {
    match status {
        Status::Success => "HTTP/1.1 200 OK\r\nContent-Type: application/json\r\n\r\n"@,
        Status::NotFound => "HTTP/1.1 404 NOT FOUND\r\n\r\n"@,
        Status::ServerError => "HTTP/1.1 500 INTERNAL SERVER ERROR\r\n\r\n"@,
    }
}

/// The text of a response on the wire: the head, then the body as it is.
pub open spec fn wire_text(r: ResponseView) -> Seq<char> {
    head_of(r.status) + r.body
}

/// A success with this body.
pub open spec fn success(body: Seq<char>) -> ResponseView {
    ResponseView { status: Status::Success, body }
}

/// No record has the identifier that was asked for.
pub open spec fn user_not_found() -> ResponseView {
    ResponseView { status: Status::NotFound, body: "User Not Found"@ }
}

/// The request matches no route.
pub open spec fn url_not_found() -> ResponseView {
    ResponseView { status: Status::NotFound, body: "Not Found URL"@ }
}

/// The request could not be carried out.
pub open spec fn server_error() -> ResponseView {
    ResponseView { status: Status::ServerError, body: "Internal Server Error"@ }
}

impl Status {
    /// The head that a response with this status starts with.
    pub fn head(self) -> (r: &'static str)
        ensures
            r@ == head_of(self),
    {
        match self {
            Status::Success => "HTTP/1.1 200 OK\r\nContent-Type: application/json\r\n\r\n",
            Status::NotFound => "HTTP/1.1 404 NOT FOUND\r\n\r\n",
            Status::ServerError => "HTTP/1.1 500 INTERNAL SERVER ERROR\r\n\r\n",
        }
    }

    /// The numeric status code.
    pub fn code(self) -> (r: u16)
        ensures
            r == match self {
                Status::Success => 200u16,
                Status::NotFound => 404u16,
                Status::ServerError => 500u16,
            },
    {
        match self {
            Status::Success => 200,
            Status::NotFound => 404,
            Status::ServerError => 500,
        }
    }
}

impl Response {
    pub fn success(body: String) -> (r: Response)
        ensures
            r@ == success(body@),
    {
        Response { status: Status::Success, body }
    }

    pub fn user_not_found() -> (r: Response)
        ensures
            r@ == user_not_found(),
    {
        Response { status: Status::NotFound, body: String::from_str("User Not Found") }
    }

    pub fn url_not_found() -> (r: Response)
        ensures
            r@ == url_not_found(),
    {
        Response { status: Status::NotFound, body: String::from_str("Not Found URL") }
    }

    pub fn server_error() -> (r: Response)
        ensures
            r@ == server_error(),
    {
        Response { status: Status::ServerError, body: String::from_str("Internal Server Error") }
    }

    /// The response as it goes on the wire.
    pub fn to_text(&self) -> (r: String)
        ensures
            r@ == wire_text(self@),
    {
        let mut out = String::from_str(self.status.head());
        out.append(self.body.as_str());
        out
    }
}

} // verus!
