//! The response model and its wire format.

use vstd::prelude::*;
use vstd::std_specs::convert::FromSpecImpl;
use vstd::string::StringExecFns;
use vstd::string::StrSliceExecFns;
use vstd::utf8::encode_utf8;
use crate::text::{append_decimal, decimal};

verus! {

/// What a handler answers.
#[derive(Debug)]
pub enum Response {
    /// Success, with the body to send.
    Success(String),
    /// Nothing was found. The text is for the server's own use: the page
    /// that goes out is always [`NOT_FOUND_BODY`].
    NotFound(String),
}

/// The mathematical value of a [`Response`].
pub enum ResponseView {
    Success(Seq<char>),
    NotFound(Seq<char>),
}

impl View for Response {
    type V = ResponseView;

    open spec fn view(&self) -> ResponseView {
        match self {
            Response::Success(body) => ResponseView::Success(body@),
            Response::NotFound(note) => ResponseView::NotFound(note@),
        }
    }
}

/// The status line of a success.
pub const STATUS_OK: &'static str = "HTTP/1.0 200 OK";

/// The status line of a miss.
pub const STATUS_NOT_FOUND: &'static str = "HTTP/1.0 404 Not Found";

/// The content type of every response.
pub const HTML_TYPE: &'static str = "text/html";

/// The page sent with every `NotFound`.
pub const NOT_FOUND_BODY: &'static str =
    "<!DOCTYPE html>\n<html lang=\"en\">\n  <head>\n    <meta charset=\"utf-8\">\n    <title>404 Not Found</title>\n  </head>\n  <body>\n    <h1>404 Not Found</h1>\n    <p>The requested page could not be found.</p>\n  </body>\n</html>\n";

/// All that is sent when a connection fails.
pub const SERVER_ERROR: &'static str = "HTTP/1.1 500 Internal Server Error\r\n\r\n";

/// A response as text: status line, content type, the length of the body in
/// bytes, a blank line and the body.
pub open spec fn output(status: Seq<char>, content_type: Seq<char>, body: Seq<char>) -> Seq<char> {
    status + "\r\nContent-Type: "@ + content_type + "\r\nContent-Length: "@ + decimal(
        encode_utf8(body).len(),
    ) + "\r\n\r\n"@ + body
}

/// The text that goes out for a response.
pub open spec fn wire_text(response: ResponseView) -> Seq<char> {
    match response {
        ResponseView::Success(body) => output(STATUS_OK@, HTML_TYPE@, body),
        ResponseView::NotFound(_) => output(STATUS_NOT_FOUND@, HTML_TYPE@, NOT_FOUND_BODY@),
    }
}

/// The bytes that go out for a response.
pub open spec fn wire_bytes(response: ResponseView) -> Seq<u8> {
    encode_utf8(wire_text(response))
}

/// Lays out a response: status line, content type, content length, a blank
/// line and the body.
pub fn to_output(status: &str, content_type: &str, body: &str) -> (out: String)
    ensures
        out@ == output(status@, content_type@, body@),
{
    let mut out = String::new();
    out.append(status);
    out.append("\r\nContent-Type: ");
    out.append(content_type);
    out.append("\r\nContent-Length: ");
    append_decimal(&mut out, body.as_bytes().len());
    out.append("\r\n\r\n");
    out.append(body);
    assert(out@ =~= output(status@, content_type@, body@));
    out
}

impl Response {
    /// The bytes to write to the connection.
    pub fn into_bytes(self) -> (bytes: Vec<u8>)
        ensures
            bytes@ == wire_bytes(self@),
    {
        match self {
            Response::Success(body) => to_output(STATUS_OK, HTML_TYPE, body.as_str()),
            Response::NotFound(_) => to_output(STATUS_NOT_FOUND, HTML_TYPE, NOT_FOUND_BODY),
        }.as_str().as_bytes_vec()
    }
}

impl From<Response> for Vec<u8> {
    fn from(value: Response) -> (bytes: Vec<u8>)
        ensures
            bytes@ == wire_bytes(value@),
    {
        value.into_bytes()
    }
}

/// No spec function gives the vector itself: what `from` returns is stated
/// by its own `ensures`, over the bytes.
impl FromSpecImpl<Response> for Vec<u8> {
    open spec fn obeys_from_spec() -> bool {
        false
    }

    open spec fn from_spec(value: Response) -> Vec<u8> {
        arbitrary()
    }
}

/// Whatever text a `NotFound` carries, the same page goes out.
pub proof fn lemma_not_found_is_fixed(one: Seq<char>, other: Seq<char>)
    ensures
        wire_bytes(ResponseView::NotFound(one)) == wire_bytes(ResponseView::NotFound(other)),
        wire_text(ResponseView::NotFound(one)) == output(
            STATUS_NOT_FOUND@,
            HTML_TYPE@,
            NOT_FOUND_BODY@,
        ),
{
}

/// The bytes sent when a connection fails.
pub fn server_error() -> (bytes: Vec<u8>)
    ensures
        bytes@ == encode_utf8(SERVER_ERROR@),
{
    SERVER_ERROR.as_bytes_vec()
}

} // verus!
