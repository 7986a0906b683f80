//! The request model and the request-line parser.

use vstd::prelude::*;
use vstd::std_specs::cmp::PartialEqSpecImpl;
use vstd::string::StringExecFns;
use vstd::string::StrSliceExecFns;
use crate::text::{
    all_whitespace, chars_of, lemma_token_end_bounds, lemma_tokens_first,
    lemma_tokens_of_whitespace, no_whitespace, skip_whitespace_at, token_end_at, tokens,
    tokens_from,
};

verus! {

/// A request as the server routes it.
#[derive(Debug)]
pub enum Request {
    GET(String),
    POST(String, String),
    /// Stands for every request that no handler was registered for: the key
    /// of the fallback handler.
    Unidentified,
}

/// What identifies a request for routing: its method and path. The body of
/// a `POST` is no part of it.
pub enum Identity {
    Get(Seq<char>),
    Post(Seq<char>),
    Unidentified,
}

/// The mathematical value of a [`Request`].
pub enum RequestView {
    Get(Seq<char>),
    Post(Seq<char>, Seq<char>),
    Unidentified,
}

impl RequestView {
    /// Method and path of the request: what it is routed by.
    pub open spec fn identity(self) -> Identity {
        match self {
            RequestView::Get(path) => Identity::Get(path),
            RequestView::Post(path, _) => Identity::Post(path),
            RequestView::Unidentified => Identity::Unidentified,
        }
    }
}

impl View for Request {
    type V = RequestView;

    open spec fn view(&self) -> RequestView {
        match self {
            Request::GET(path) => RequestView::Get(path@),
            Request::POST(path, body) => RequestView::Post(path@, body@),
            Request::Unidentified => RequestView::Unidentified,
        }
    }
}

impl PartialEq for Request {
    /// Two requests are equal when method and path agree.
    fn eq(&self, other: &Request) -> (r: bool) {
        match (self, other) {
            (Request::GET(a), Request::GET(b)) => *a == *b,
            (Request::POST(a, _), Request::POST(b, _)) => *a == *b,
            (Request::Unidentified, Request::Unidentified) => true,
            _ => false,
        }
    }
}

impl PartialEqSpecImpl for Request {
    open spec fn obeys_eq_spec() -> bool {
        true
    }

    /// What `==` means: the same identity.
    open spec fn eq_spec(&self, other: &Request) -> bool {
        self@.identity() == other@.identity()
    }
}

impl Eq for Request {}

impl Clone for Request {
    fn clone(&self) -> (r: Request)
        ensures
            r@ == self@,
    {
        match self {
            Request::GET(path) => Request::GET(path.clone()),
            Request::POST(path, body) => Request::POST(path.clone(), body.clone()),
            Request::Unidentified => Request::Unidentified,
        }
    }
}

/// `Hasher::write_u8`: feeds one byte to `state`.
#[verifier::external_body]
fn hash_byte<H: std::hash::Hasher>(state: &mut H, byte: u8) {
    state.write_u8(byte);
}

/// `Hash::hash` of `str`: feeds `text` to `state`.
#[verifier::external_body]
fn hash_text<H: std::hash::Hasher>(state: &mut H, text: &str) {
    std::hash::Hash::hash(text, state);
}

impl std::hash::Hash for Request {
    /// Feeds method and path to `state`, and nothing of the body: requests
    /// that are equal hash alike.
    fn hash<H: std::hash::Hasher>(&self, state: &mut H) {
        match self {
            Request::GET(path) => {
                hash_byte(state, 0);
                hash_text(state, path.as_str());
            },
            Request::POST(path, _) => {
                hash_byte(state, 1);
                hash_text(state, path.as_str());
            },
            Request::Unidentified => {
                hash_byte(state, 2);
            },
        }
    }
}

/// Why a request line was refused.
#[derive(Debug, PartialEq, Eq)]
pub enum ParseError {
    /// There is no method. `request_line` is false when there was not even a
    /// request line to look at.
    MissingMethod { request_line: bool },
    /// The line ends after the method.
    MissingURI,
    /// The line ends after the path.
    MissingProtocol,
    /// There is more on the line than method, path and protocol.
    MalformedRequestLine,
    /// The protocol is not `HTTP/1.1`.
    UnsupportedProtocol,
    /// The method, which is carried along, is neither `GET` nor `POST`.
    UnsupportedMethod(String),
}

/// The mathematical value of a [`ParseError`].
pub enum ParseErrorView {
    MissingMethod { request_line: bool },
    MissingURI,
    MissingProtocol,
    MalformedRequestLine,
    UnsupportedProtocol,
    UnsupportedMethod(Seq<char>),
}

impl View for ParseError {
    type V = ParseErrorView;

    open spec fn view(&self) -> ParseErrorView {
        match self {
            ParseError::MissingMethod { request_line } => ParseErrorView::MissingMethod {
                request_line: *request_line,
            },
            ParseError::MissingURI => ParseErrorView::MissingURI,
            ParseError::MissingProtocol => ParseErrorView::MissingProtocol,
            ParseError::MalformedRequestLine => ParseErrorView::MalformedRequestLine,
            ParseError::UnsupportedProtocol => ParseErrorView::UnsupportedProtocol,
            ParseError::UnsupportedMethod(method) => ParseErrorView::UnsupportedMethod(method@),
        }
    }
}

impl ParseErrorView {
    /// The message of this error.
    pub open spec fn message(self) -> Seq<char> {
        match self {
            ParseErrorView::MissingMethod { request_line } => if request_line {
                "No method found"@
            } else {
                "No request line found"@
            },
            ParseErrorView::MissingURI => "No URI found"@,
            ParseErrorView::MissingProtocol => "No protocol found"@,
            ParseErrorView::MalformedRequestLine => "Invalid request line: extra values after parts"@,
            ParseErrorView::UnsupportedProtocol => "Server can only work with HTTP/1.1"@,
            ParseErrorView::UnsupportedMethod(method) => "Invalid method "@ + method,
        }
    }
}

impl Clone for ParseError {
    fn clone(&self) -> (copy: ParseError)
        ensures
            copy@ == self@,
    {
        match self {
            ParseError::MissingMethod { request_line } => ParseError::MissingMethod {
                request_line: *request_line,
            },
            ParseError::MissingURI => ParseError::MissingURI,
            ParseError::MissingProtocol => ParseError::MissingProtocol,
            ParseError::MalformedRequestLine => ParseError::MalformedRequestLine,
            ParseError::UnsupportedProtocol => ParseError::UnsupportedProtocol,
            ParseError::UnsupportedMethod(method) => ParseError::UnsupportedMethod(method.clone()),
        }
    }
}

impl ParseError {
    /// This error in words.
    pub fn to_string(&self) -> (text: String)
        ensures
            text@ == self@.message(),
    {
        match self {
            ParseError::MissingMethod { request_line } => if *request_line {
                "No method found".to_owned()
            } else {
                "No request line found".to_owned()
            },
            ParseError::MissingURI => "No URI found".to_owned(),
            ParseError::MissingProtocol => "No protocol found".to_owned(),
            ParseError::MalformedRequestLine => "Invalid request line: extra values after parts".to_owned(),
            ParseError::UnsupportedProtocol => "Server can only work with HTTP/1.1".to_owned(),
            ParseError::UnsupportedMethod(method) => "Invalid method ".to_owned().concat(
                method.as_str(),
            ),
        }
    }
}

/// What parsing one request line yields. The line is to hold exactly three
/// tokens: method, path and protocol. Their number is looked at first, then
/// the protocol, then the method.
pub open spec fn parse_line(line: Seq<char>) -> Result<RequestView, ParseErrorView> {
    let t = tokens(line);
    if t.len() == 0 {
        Err(ParseErrorView::MissingMethod { request_line: true })
    } else if t.len() == 1 {
        Err(ParseErrorView::MissingURI)
    } else if t.len() == 2 {
        Err(ParseErrorView::MissingProtocol)
    } else if t.len() > 3 {
        Err(ParseErrorView::MalformedRequestLine)
    } else if t[2] != "HTTP/1.1"@ {
        Err(ParseErrorView::UnsupportedProtocol)
    } else if t[0] == "GET"@ {
        Ok(RequestView::Get(t[1]))
    } else if t[0] == "POST"@ {
        Ok(RequestView::Post(t[1], Seq::empty()))
    } else {
        Err(ParseErrorView::UnsupportedMethod(t[0]))
    }
}

/// The views of a parse result, side by side.
pub open spec fn parsed_view(result: Result<Request, ParseError>) -> Result<
    RequestView,
    ParseErrorView,
> {
    match result {
        Ok(request) => Ok(request@),
        Err(error) => Err(error@),
    }
}

/// Whether two pieces of text hold the same characters.
fn same_text(a: &str, b: &str) -> (same: bool)
    ensures
        same == (a@ == b@),
{
    a.to_owned() == b.to_owned()
}

impl Request {
    /// Parses a request line: method, path and protocol, separated by
    /// whitespace.
    pub fn parse(request_line: &str) -> (result: Result<Request, ParseError>)
        ensures
            parsed_view(result) == parse_line(request_line@),
    {
        let chars = chars_of(request_line);
        let ghost s = request_line@;
        let n = chars.len();
        let method_start = skip_whitespace_at(&chars, 0);
        if method_start >= n {
            return Err(ParseError::MissingMethod { request_line: true });
        }
        let method_end = token_end_at(&chars, method_start);
        let uri_start = skip_whitespace_at(&chars, method_end);
        proof {
            lemma_token_end_bounds(s, method_start as int);
            assert(tokens(s) == seq![s.subrange(method_start as int, method_end as int)]
                + tokens_from(s, method_end as int));
        }
        if uri_start >= n {
            return Err(ParseError::MissingURI);
        }
        let uri_end = token_end_at(&chars, uri_start);
        let protocol_start = skip_whitespace_at(&chars, uri_end);
        proof {
            lemma_token_end_bounds(s, uri_start as int);
            assert(tokens_from(s, method_end as int) == seq![
                s.subrange(uri_start as int, uri_end as int),
            ] + tokens_from(s, uri_end as int));
        }
        if protocol_start >= n {
            return Err(ParseError::MissingProtocol);
        }
        let protocol_end = token_end_at(&chars, protocol_start);
        let rest = skip_whitespace_at(&chars, protocol_end);
        proof {
            lemma_token_end_bounds(s, protocol_start as int);
            assert(tokens_from(s, uri_end as int) == seq![
                s.subrange(protocol_start as int, protocol_end as int),
            ] + tokens_from(s, protocol_end as int));
            assert(tokens_from(s, protocol_end as int).len() > 0 <==> rest < n) by {
                if rest < n {
                    lemma_token_end_bounds(s, rest as int);
                }
            }
        }
        if rest < n {
            return Err(ParseError::MalformedRequestLine);
        }
        let protocol = request_line.substring_char(protocol_start, protocol_end);
        if !same_text(protocol, "HTTP/1.1") {
            return Err(ParseError::UnsupportedProtocol);
        }
        let method = request_line.substring_char(method_start, method_end);
        let uri = request_line.substring_char(uri_start, uri_end);
        if same_text(method, "GET") {
            Ok(Request::GET(uri.to_owned()))
        } else if same_text(method, "POST") {
            Ok(Request::POST(uri.to_owned(), String::new()))
        } else {
            Err(ParseError::UnsupportedMethod(method.to_owned()))
        }
    }

    /// Attaches the body to a `POST`; any other request stays as it is.
    pub fn add_body(&mut self, body: String)
        ensures
            final(self)@ == match old(self)@ {
                RequestView::Post(path, _) => RequestView::Post(path, body@),
                other => other,
            },
    {
        if let Request::POST(_, ref mut b) = self {
            *b = body;
        };
    }
}

/// The tokens of a request line in its plain shape: method, path and
/// protocol with one space between them, and whitespace at most after them.
proof fn lemma_request_line_tokens(method: Seq<char>, path: Seq<char>, ending: Seq<char>)
    requires
        method.len() > 0,
        no_whitespace(method),
        path.len() > 0,
        no_whitespace(path),
        all_whitespace(ending),
    ensures
        tokens(method + " "@ + path + " HTTP/1.1"@ + ending) == seq![method, path, "HTTP/1.1"@],
{
    reveal_strlit(" ");
    reveal_strlit(" HTTP/1.1");
    reveal_strlit("HTTP/1.1");
    let space = " "@;
    let protocol = "HTTP/1.1"@;
    let none = Seq::<char>::empty();
    assert(" HTTP/1.1"@ == space + protocol);
    let third = space + protocol + ending;
    let second = space + path + third;
    let line = method + " "@ + path + " HTTP/1.1"@ + ending;
    assert(line == none + method + second);
    assert(all_whitespace(space));
    assert(all_whitespace(none));
    assert(no_whitespace(protocol));
    lemma_tokens_first(none, method, second);
    lemma_tokens_first(space, path, third);
    lemma_tokens_first(space, protocol, ending);
    lemma_tokens_of_whitespace(ending);
    assert(seq![method] + (seq![path] + (seq![protocol] + Seq::<Seq<char>>::empty())) == seq![
        method,
        path,
        protocol,
    ]);
}

/// Every line `GET <path> HTTP/1.1`, whatever whitespace ends it, parses to
/// a `GET` of that path, which has no body.
pub proof fn lemma_parse_get(path: Seq<char>, ending: Seq<char>)
    requires
        path.len() > 0,
        no_whitespace(path),
        all_whitespace(ending),
    ensures
        parse_line("GET "@ + path + " HTTP/1.1"@ + ending) == Ok::<RequestView, ParseErrorView>(
            RequestView::Get(path),
        ),
{
    reveal_strlit("GET ");
    reveal_strlit("GET");
    reveal_strlit(" ");
    assert("GET "@ == "GET"@ + " "@);
    assert(no_whitespace("GET"@));
    lemma_request_line_tokens("GET"@, path, ending);
}

/// Every line `POST <path> HTTP/1.1`, whatever whitespace ends it, parses
/// to a `POST` of that path, whose body is still empty.
pub proof fn lemma_parse_post(path: Seq<char>, ending: Seq<char>)
    requires
        path.len() > 0,
        no_whitespace(path),
        all_whitespace(ending),
    ensures
        parse_line("POST "@ + path + " HTTP/1.1"@ + ending) == Ok::<RequestView, ParseErrorView>(
            RequestView::Post(path, Seq::empty()),
        ),
{
    reveal_strlit("POST ");
    reveal_strlit("POST");
    reveal_strlit("GET");
    reveal_strlit(" ");
    assert("POST "@ == "POST"@ + " "@);
    assert(no_whitespace("POST"@));
    assert("POST"@ != "GET"@) by {
        assert("POST"@.len() != "GET"@.len());
    }
    lemma_request_line_tokens("POST"@, path, ending);
}

} // verus!
