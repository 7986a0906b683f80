//! One connection, from the bytes received to the bytes to send: the header
//! lines, the request with its body, the handler's answer and the error
//! boundary.

use vstd::prelude::*;
use vstd::slice::slice_subrange;
use vstd::string::StringSliceAdditionalSpecFns;
use vstd::utf8::{decode_utf8, encode_utf8, valid_utf8};
use crate::handler::Outcome;
use crate::request::{parse_line, ParseError, ParseErrorView, Request, RequestView};
use crate::response::{server_error, wire_bytes, SERVER_ERROR};
use crate::server::{route, Handlers, Server};
use crate::text::{
    chars_of, find, parse_number, parse_usize, second_field, starts_with, trim, trimmed,
};
use crate::utf8::{
    lemma_encode_concat, lemma_encode_first, lemma_encode_no_line_feed, lemma_low_byte,
    no_line_feed,
};

verus! {

/// Why a connection could not be answered by a handler's response.
#[derive(Debug)]
pub enum ConnectionError {
    /// The request line was refused.
    Parse(ParseError),
    /// A header line or the body is not UTF-8.
    InvalidEncoding,
    /// The stream ended before the body was complete.
    TruncatedBody,
    /// The handler reported an error.
    Handler(anyhow::Error),
}

/// The mathematical value of a [`ConnectionError`].
pub enum ConnectionErrorView {
    Parse(ParseErrorView),
    InvalidEncoding,
    TruncatedBody,
    Handler(anyhow::Error),
}

impl View for ConnectionError {
    type V = ConnectionErrorView;

    open spec fn view(&self) -> ConnectionErrorView {
        match self {
            ConnectionError::Parse(error) => ConnectionErrorView::Parse(error@),
            ConnectionError::InvalidEncoding => ConnectionErrorView::InvalidEncoding,
            ConnectionError::TruncatedBody => ConnectionErrorView::TruncatedBody,
            ConnectionError::Handler(error) => ConnectionErrorView::Handler(*error),
        }
    }
}

/// The byte that ends a line.
pub const LINE_FEED: u8 = 10;

/// The byte that stands before the line feed where a line ends in full.
pub const CARRIAGE_RETURN: u8 = 13;

/// The position after the first line feed at or after `from`, or the length
/// of `input` where there is none: where the line that begins at `from` ends.
pub open spec fn line_end(input: Seq<u8>, from: int) -> int
    decreases input.len() - from,
{
    if from < 0 || from >= input.len() {
        input.len() as int
    } else if input[from] == LINE_FEED {
        from + 1
    } else {
        line_end(input, from + 1)
    }
}

/// A line goes forward, holds no line feed before its last byte, and ends
/// with a line feed unless the input ends first.
pub proof fn lemma_line_end_bounds(input: Seq<u8>, from: int)
    requires
        0 <= from <= input.len(),
    ensures
        from <= line_end(input, from) <= input.len(),
        from < input.len() ==> from < line_end(input, from),
        forall|k: int| from <= k < line_end(input, from) - 1 ==> #[trigger] input[k] != 10,
        line_end(input, from) < input.len() ==> input[line_end(input, from) - 1] == 10,
    decreases input.len() - from,
{
    if from < input.len() && input[from] != 10 {
        lemma_line_end_bounds(input, from + 1);
    }
}

/// What the header section of a request comes to.
pub enum Headers {
    /// More bytes are needed.
    Incomplete,
    /// A line is not UTF-8.
    Invalid,
    /// The header lines, each with its line end, and where the body begins.
    Complete { lines: Seq<Seq<char>>, body_start: int },
}

/// Puts `line` in front of the lines of `headers`.
pub open spec fn with_line(line: Seq<char>, headers: Headers) -> Headers {
    match headers {
        Headers::Complete { lines, body_start } => Headers::Complete {
            lines: seq![line] + lines,
            body_start,
        },
        other => other,
    }
}

/// Reads header lines from position `from` of `input`. A line runs up to
/// and including its line feed. The section ends with a line that is
/// `"\r\n"` or `"\r"`, which is no part of it, or with the end of a stream
/// that has `ended`.
pub open spec fn read_headers(input: Seq<u8>, ended: bool, from: int) -> Headers
    decreases input.len() - from,
{
    let end = line_end(input, from);
    let line = input.subrange(from, end);
    if from < 0 || from >= input.len() {
        if ended {
            Headers::Complete { lines: Seq::empty(), body_start: input.len() as int }
        } else {
            Headers::Incomplete
        }
    } else if line.last() != LINE_FEED && !ended {
        Headers::Incomplete
    } else if !valid_utf8(line) {
        Headers::Invalid
    } else if line == seq![CARRIAGE_RETURN, LINE_FEED] || line == seq![CARRIAGE_RETURN] {
        Headers::Complete { lines: Seq::empty(), body_start: end }
    } else {
        proof {
            lemma_line_end_bounds(input, from);
        }
        with_line(decode_utf8(line), read_headers(input, ended, end))
    }
}

/// The length that a `Content-Length` line declares: what stands between
/// its first colon and the next, trimmed, where that is a number, and
/// otherwise zero.
pub open spec fn declared_length(line: Seq<char>) -> usize {
    match second_field(trim(line), ':') {
        Some(value) => match parse_usize(trim(value)) {
            Some(length) => length,
            None => 0,
        },
        None => 0,
    }
}

/// The length of the body that `headers` declare: that of the first line
/// that begins with `Content-Length:`, or zero where there is none.
pub open spec fn content_length(headers: Seq<Seq<char>>) -> usize
    decreases headers.len(),
{
    if headers.len() == 0 {
        0
    } else if "Content-Length:"@.is_prefix_of(headers[0]) {
        declared_length(headers[0])
    } else {
        content_length(headers.drop_first())
    }
}

/// The request that the header lines describe, still without a body, and
/// the length of the body to read: that of [`content_length`] for a `POST`,
/// zero for any other request.
pub open spec fn request_of_lines(lines: Seq<Seq<char>>) -> Result<(RequestView, usize), ParseErrorView> {
    if lines.len() == 0 {
        Err(ParseErrorView::MissingMethod { request_line: false })
    } else {
        match parse_line(lines[0]) {
            Err(error) => Err(error),
            Ok(RequestView::Post(path, body)) => Ok(
                (RequestView::Post(path, body), content_length(lines.drop_first())),
            ),
            Ok(request) => Ok((request, 0)),
        }
    }
}

/// How far the reading of a request has come.
pub enum Reading {
    /// More bytes are needed.
    Pending,
    /// The request cannot be had.
    Failed(ConnectionErrorView),
    /// The request is complete.
    Ready(RequestView),
}

/// The request in `input`, the bytes received so far from a stream that
/// has `ended` or may still bring more.
pub open spec fn read_request(input: Seq<u8>, ended: bool) -> Reading {
    match read_headers(input, ended, 0) {
        Headers::Incomplete => Reading::Pending,
        Headers::Invalid => Reading::Failed(ConnectionErrorView::InvalidEncoding),
        Headers::Complete { lines, body_start } => match request_of_lines(lines) {
            Err(error) => Reading::Failed(ConnectionErrorView::Parse(error)),
            Ok((RequestView::Post(path, _), length)) => {
                let body = input.subrange(body_start, body_start + length);
                if input.len() - body_start < length {
                    if ended {
                        Reading::Failed(ConnectionErrorView::TruncatedBody)
                    } else {
                        Reading::Pending
                    }
                } else if valid_utf8(body) {
                    Reading::Ready(RequestView::Post(path, decode_utf8(body)))
                } else {
                    Reading::Failed(ConnectionErrorView::InvalidEncoding)
                }
            },
            Ok((request, _)) => Reading::Ready(request),
        },
    }
}

/// The texts of `lines`.
pub open spec fn texts(lines: Seq<String>) -> Seq<Seq<char>> {
    Seq::new(lines.len(), |i: int| lines[i]@)
}

/// `core::str::from_utf8`: the text that `bytes` encode. There is one
/// exactly when they are valid UTF-8, and its bytes are then `bytes`.
#[verifier::external_body]
fn text_of(bytes: &[u8]) -> (text: Option<&str>)
    ensures
        text is Some <==> valid_utf8(bytes@),
        text matches Some(t) ==> t.spec_bytes() == bytes@,
{
    core::str::from_utf8(bytes).ok()
}

/// The views of what [`parse_request`] returns, side by side.
pub open spec fn parsed_request_view(result: Result<(Request, usize), ParseError>) -> Result<
    (RequestView, usize),
    ParseErrorView,
> {
    match result {
        Ok((request, length)) => Ok((request@, length)),
        Err(error) => Err(error@),
    }
}

/// The length that the header line `chars` declares.
fn read_declared_length(chars: &[char]) -> (length: usize)
    ensures
        length == declared_length(chars@),
{
    let line = trimmed(chars);
    let first = find(line, ':', 0);
    if first >= line.len() {
        return 0;
    }
    let second = find(line, ':', first + 1);
    let value = trimmed(slice_subrange(line, first + 1, second));
    match parse_number(value) {
        Some(length) => length,
        None => 0,
    }
}

/// The body length that the lines after the first declare.
fn read_content_length(lines: &[String]) -> (length: usize)
    requires
        lines@.len() >= 1,
    ensures
        length == content_length(texts(lines@).drop_first()),
{
    let prefix = chars_of("Content-Length:");
    let ghost all = texts(lines@);
    let mut i: usize = 1;
    assert(all.drop_first() == all.skip(1));
    while i < lines.len()
        invariant
            1 <= i <= lines@.len(),
            all == texts(lines@),
            prefix@ == "Content-Length:"@,
            content_length(all.drop_first()) == content_length(all.skip(i as int)),
        decreases lines@.len() - i,
    {
        let chars = chars_of(lines[i].as_str());
        assert(all.skip(i as int)[0] == chars@);
        if starts_with(&chars, &prefix) {
            return read_declared_length(&chars);
        }
        assert(all.skip(i as int).drop_first() == all.skip(i + 1));
        i = i + 1;
    }
    0
}

/// Makes the request out of its header lines, and tells how long its body
/// is to be.
pub fn parse_request(lines: &[String]) -> (result: Result<(Request, usize), ParseError>)
    ensures
        parsed_request_view(result) == request_of_lines(texts(lines@)),
{
    if lines.len() == 0 {
        return Err(ParseError::MissingMethod { request_line: false });
    }
    let request = match Request::parse(lines[0].as_str()) {
        Ok(request) => request,
        Err(error) => {
            return Err(error);
        },
    };
    let length = match request {
        Request::POST(_, _) => read_content_length(lines),
        _ => 0,
    };
    Ok((request, length))
}

/// Where the line that begins at `from` ends.
fn find_line_end(input: &[u8], from: usize) -> (end: usize)
    requires
        from <= input@.len(),
    ensures
        end == line_end(input@, from as int),
        from <= end <= input@.len(),
{
    let mut at: usize = from;
    while at < input.len()
        invariant
            from <= at <= input@.len(),
            line_end(input@, from as int) == line_end(input@, at as int),
        decreases input@.len() - at,
    {
        if input[at] == LINE_FEED {
            return at + 1;
        }
        at = at + 1;
    }
    at
}

/// The view of what [`read_and_parse_request`] returns.
pub open spec fn reading_of(progress: Option<Result<Request, ConnectionError>>) -> Reading {
    match progress {
        None => Reading::Pending,
        Some(Ok(request)) => Reading::Ready(request@),
        Some(Err(error)) => Reading::Failed(error@),
    }
}

/// Puts `first` in front of the lines of `headers`.
pub open spec fn with_lines(first: Seq<Seq<char>>, headers: Headers) -> Headers {
    match headers {
        Headers::Complete { lines, body_start } => Headers::Complete {
            lines: first + lines,
            body_start,
        },
        other => other,
    }
}

/// The header section as it was read: what [`Headers`] is the value of.
#[derive(Debug)]
pub enum HeaderLines {
    /// More bytes are needed.
    Incomplete,
    /// A line is not UTF-8.
    Invalid,
    /// The header lines, each with its line end, and where the body begins.
    Complete { lines: Vec<String>, body_start: usize },
}

impl View for HeaderLines {
    type V = Headers;

    open spec fn view(&self) -> Headers {
        match self {
            HeaderLines::Incomplete => Headers::Incomplete,
            HeaderLines::Invalid => Headers::Invalid,
            HeaderLines::Complete { lines, body_start } => Headers::Complete {
                lines: texts(lines@),
                body_start: *body_start as int,
            },
        }
    }
}

/// Reads the header lines from `input`, the bytes received so far from a
/// stream that has `ended` or may still bring more.
pub fn read_header_lines(input: &[u8], ended: bool) -> (headers: HeaderLines)
    ensures
        headers@ == read_headers(input@, ended, 0),
        headers matches HeaderLines::Complete { body_start, .. } ==> body_start <= input@.len(),
{
    let mut lines: Vec<String> = Vec::new();
    let mut from: usize = 0;
    assert(texts(lines@) == Seq::<Seq<char>>::empty());
    assert(with_lines(texts(lines@), read_headers(input@, ended, 0)) == read_headers(
        input@,
        ended,
        0,
    ));
    loop
        invariant_except_break
            from <= input@.len(),
            read_headers(input@, ended, 0) == with_lines(
                texts(lines@),
                read_headers(input@, ended, from as int),
            ),
        ensures
            from <= input@.len(),
            read_headers(input@, ended, 0) == (Headers::Complete {
                lines: texts(lines@),
                body_start: from as int,
            }),
        decreases input@.len() - from,
    {
        if from >= input.len() {
            if ended {
                assert(texts(lines@) + Seq::<Seq<char>>::empty() == texts(lines@));
                break ;
            }
            return HeaderLines::Incomplete;
        }
        let end = find_line_end(input, from);
        proof {
            lemma_line_end_bounds(input@, from as int);
        }
        let line = slice_subrange(input, from, end);
        if line[end - from - 1] != LINE_FEED && !ended {
            return HeaderLines::Incomplete;
        }
        let text = match text_of(line) {
            Some(text) => text,
            None => {
                return HeaderLines::Invalid;
            },
        };
        if (line.len() == 2 && line[0] == CARRIAGE_RETURN && line[1] == LINE_FEED) || (line.len()
            == 1 && line[0] == CARRIAGE_RETURN) {
            assert(line@ == seq![13u8, 10u8] || line@ == seq![13u8]);
            assert(texts(lines@) + Seq::<Seq<char>>::empty() == texts(lines@));
            from = end;
            break ;
        }
        assert(!(line@ == seq![13u8, 10u8] || line@ == seq![13u8]));
        let ghost before = texts(lines@);
        let owned = text.to_owned();
        proof {
            vstd::utf8::encode_utf8_decode_utf8(text@);
            assert(owned@ == decode_utf8(line@));
        }
        lines.push(owned);
        proof {
            assert(texts(lines@) == before.push(owned@));
            let rest = read_headers(input@, ended, end as int);
            match rest {
                Headers::Complete { lines: more, body_start } => {
                    assert(before + (seq![owned@] + more) == before.push(owned@) + more);
                },
                _ => {},
            }
        }
        from = end;
    }
    HeaderLines::Complete { lines, body_start: from }
}

/// The request line in `input`: the first of its header lines, once the
/// header section is complete and holds a line.
pub open spec fn request_line(input: Seq<u8>, ended: bool) -> Option<Seq<char>> {
    match read_headers(input, ended, 0) {
        Headers::Complete { lines, .. } => if lines.len() > 0 {
            Some(lines[0])
        } else {
            None
        },
        _ => None,
    }
}

/// The view of a request line that was read or not.
pub open spec fn line_view(line: Option<String>) -> Option<Seq<char>> {
    match line {
        Some(text) => Some(text@),
        None => None,
    }
}

/// Reads the request line from `input`: the line that the request is made
/// of, with its line end, once the header section is complete.
pub fn read_request_line(input: &[u8], ended: bool) -> (line: Option<String>)
    ensures
        line_view(line) == request_line(input@, ended),
{
    match read_header_lines(input, ended) {
        HeaderLines::Complete { lines, .. } => {
            if lines.len() > 0 {
                Some(lines[0].clone())
            } else {
                None
            }
        },
        _ => None,
    }
}

/// Reads the request from `input`, the bytes received so far from a stream
/// that has `ended` or may still bring more. `None` asks for more bytes.
pub fn read_and_parse_request(input: &[u8], ended: bool) -> (progress: Option<
    Result<Request, ConnectionError>,
>)
    ensures
        reading_of(progress) == read_request(input@, ended),
{
    let (lines, from) = match read_header_lines(input, ended) {
        HeaderLines::Incomplete => {
            return None;
        },
        HeaderLines::Invalid => {
            return Some(Err(ConnectionError::InvalidEncoding));
        },
        HeaderLines::Complete { lines, body_start } => (lines, body_start),
    };
    let (mut request, length) = match parse_request(lines.as_slice()) {
        Ok(parsed) => parsed,
        Err(error) => {
            return Some(Err(ConnectionError::Parse(error)));
        },
    };
    match request {
        Request::POST(_, _) => {
            if input.len() - from < length {
                if ended {
                    return Some(Err(ConnectionError::TruncatedBody));
                }
                return None;
            }
            match text_of(slice_subrange(input, from, from + length)) {
                Some(body) => {
                    proof {
                        vstd::utf8::encode_utf8_decode_utf8(body@);
                    }
                    request.add_body(body.to_owned());
                    Some(Ok(request))
                },
                None => Some(Err(ConnectionError::InvalidEncoding)),
            }
        },
        _ => Some(Ok(request)),
    }
}

/// What goes back for the outcome of a handler: the bytes of its response,
/// or its error.
pub open spec fn reply_of(outcome: Outcome) -> Result<Seq<u8>, ConnectionErrorView> {
    match outcome {
        Ok(response) => Ok(wire_bytes(response@)),
        Err(error) => Err(ConnectionErrorView::Handler(error)),
    }
}

/// The view of a reply.
pub open spec fn reply_view(reply: Result<Vec<u8>, ConnectionError>) -> Result<
    Seq<u8>,
    ConnectionErrorView,
> {
    match reply {
        Ok(bytes) => Ok(bytes@),
        Err(error) => Err(error@),
    }
}

/// Turns the outcome of a handler into what goes back: the bytes of its
/// response, or its error.
pub fn reply(outcome: Outcome) -> (result: Result<Vec<u8>, ConnectionError>)
    ensures
        reply_view(result) == reply_of(outcome),
{
    match outcome {
        Ok(response) => Ok(response.into_bytes()),
        Err(error) => Err(ConnectionError::Handler(error)),
    }
}

/// Handles one connection as far as `input` allows, the bytes received so
/// far: reads the request, routes it, and has its handler answer. `None`
/// asks for more bytes; an error leaves the answer to the error boundary.
pub fn handle_connection(handlers: &Handlers, input: &[u8], ended: bool) -> (progress: Option<
    Result<Vec<u8>, ConnectionError>,
>)
    ensures
        match read_request(input@, ended) {
            Reading::Pending => progress is None,
            Reading::Failed(error) => progress matches Some(Err(e)) && e@ == error,
            Reading::Ready(request) => progress matches Some(result) && exists|
                asked: Request,
                outcome: Outcome,
            |
                asked@ == request && route(handlers@, request.identity())(asked, outcome)
                    && reply_view(result) == reply_of(outcome),
        },
{
    match read_and_parse_request(input, ended) {
        None => None,
        Some(Err(error)) => Some(Err(error)),
        Some(Ok(request)) => {
            let ghost asked = request;
            let outcome = handlers.dispatch(request);
            let result = reply(outcome);
            assert(asked@ == read_request(input@, ended)->Ready_0 && route(
                handlers@,
                asked@.identity(),
            )(asked, outcome) && reply_view(result) == reply_of(outcome));
            Some(result)
        },
    }
}

/// The bytes to send for a reply: those of the response, or the fixed
/// answer of the error boundary.
pub open spec fn answer_of(reply: Result<Seq<u8>, ConnectionErrorView>) -> Seq<u8> {
    match reply {
        Ok(bytes) => bytes,
        Err(_) => encode_utf8(SERVER_ERROR@),
    }
}

/// The error boundary: whatever went wrong on a connection, the client is
/// sent the same fixed answer.
pub fn answer(reply: Result<Vec<u8>, ConnectionError>) -> (bytes: Vec<u8>)
    ensures
        bytes@ == answer_of(reply_view(reply)),
{
    match reply {
        Ok(bytes) => bytes,
        Err(_) => server_error(),
    }
}

impl Server {
    /// Serves one connection as far as `input` allows, the bytes received
    /// so far. `None` asks for more bytes; otherwise the bytes are to be
    /// written, and the connection closed.
    pub fn serve(&self, input: &[u8], ended: bool) -> (bytes: Option<Vec<u8>>)
        ensures
            match read_request(input@, ended) {
                Reading::Pending => bytes is None,
                Reading::Failed(error) => bytes matches Some(sent) && sent@
                    == encode_utf8(SERVER_ERROR@),
                Reading::Ready(request) => bytes matches Some(sent) && exists|
                    asked: Request,
                    outcome: Outcome,
                |
                    asked@ == request && route(self@, request.identity())(asked, outcome) && sent@
                        == answer_of(reply_of(outcome)),
            },
    {
        match handle_connection(self.handlers(), input, ended) {
            None => None,
            Some(reply) => Some(answer(reply)),
        }
    }
}

/// How far the handling of a connection has come.
#[derive(Debug, Clone, Copy, PartialEq, Eq, Structural)]
pub enum Phase {
    /// The request is being read.
    Reading,
    /// Reading has failed: the error is still to be answered.
    Failed,
    /// The answer was handed out: the connection is still to be closed.
    Answered,
    /// The connection is done with.
    Closed,
}

/// What the caller is to do next with a connection.
#[derive(Debug)]
pub enum Action {
    /// Read from the stream, and tell what came: bytes, its end, or a
    /// failure.
    Read,
    /// Write these bytes to the stream.
    Write(Vec<u8>),
    /// Close the stream in both directions, and let go of the connection.
    Close,
}

/// The state of a connection: the bytes received, whether the stream has
/// ended, and the phase.
pub struct ConnectionView {
    pub received: Seq<u8>,
    pub ended: bool,
    pub phase: Phase,
}

impl ConnectionView {
    /// The phase after the caller was told what to do next: reading goes on
    /// while the request is incomplete, the answer follows, and the end.
    pub open spec fn next_phase(self) -> Phase {
        match self.phase {
            Phase::Reading => if read_request(self.received, self.ended) is Pending {
                Phase::Reading
            } else {
                Phase::Answered
            },
            Phase::Failed => Phase::Answered,
            Phase::Answered => Phase::Closed,
            Phase::Closed => Phase::Closed,
        }
    }

    /// The state after the caller was told what to do next.
    pub open spec fn advanced(self) -> ConnectionView {
        ConnectionView { phase: self.next_phase(), ..self }
    }
}

/// One connection, from the moment it is accepted until it is closed.
///
/// The caller does what [`Connection::next`] tells it, reports what it has
/// read, and asks again. The request is answered once, whatever happens,
/// and the connection is closed after the answer.
pub struct Connection {
    received: Vec<u8>,
    ended: bool,
    phase: Phase,
}

impl View for Connection {
    type V = ConnectionView;

    closed spec fn view(&self) -> ConnectionView {
        ConnectionView { received: self.received@, ended: self.ended, phase: self.phase }
    }
}

impl Connection {
    /// A connection that was just accepted: nothing is received yet.
    pub fn new() -> (connection: Connection)
        ensures
            connection@ == (ConnectionView {
                received: Seq::empty(),
                ended: false,
                phase: Phase::Reading,
            }),
    {
        Connection { received: Vec::new(), ended: false, phase: Phase::Reading }
    }

    /// Takes in bytes that were read from the stream. They count while the
    /// request is being read and the stream has not ended.
    pub fn receive(&mut self, bytes: &[u8])
        ensures
            final(self)@ == if old(self)@.phase == Phase::Reading && !old(self)@.ended {
                ConnectionView { received: old(self)@.received + bytes@, ..old(self)@ }
            } else {
                old(self)@
            },
    {
        if self.phase == Phase::Reading && !self.ended {
            let mut i: usize = 0;
            while i < bytes.len()
                invariant
                    i <= bytes@.len(),
                    self.received@ == old(self).received@ + bytes@.take(i as int),
                    self.ended == old(self).ended,
                    self.phase == old(self).phase,
                decreases bytes@.len() - i,
            {
                self.received.push(bytes[i]);
                assert(bytes@.take(i + 1) == bytes@.take(i as int).push(bytes@[i as int]));
                i = i + 1;
            }
            assert(bytes@.take(i as int) == bytes@);
        }
    }

    /// Takes note that the stream has ended: no more bytes will come.
    pub fn end(&mut self)
        ensures
            final(self)@ == if old(self)@.phase == Phase::Reading {
                ConnectionView { ended: true, ..old(self)@ }
            } else {
                old(self)@
            },
    {
        if self.phase == Phase::Reading {
            self.ended = true;
        }
    }

    /// Takes note that reading from the stream has failed.
    pub fn fail(&mut self)
        ensures
            final(self)@ == if old(self)@.phase == Phase::Reading {
                ConnectionView { phase: Phase::Failed, ..old(self)@ }
            } else {
                old(self)@
            },
    {
        if self.phase == Phase::Reading {
            self.phase = Phase::Failed;
        }
    }

    /// Tells what to do next. While the request is incomplete, that is to
    /// read. Once it is complete, or has failed, the answer is to be
    /// written: what the handler of `server` responds, or the answer of the
    /// error boundary. After the answer the connection is to be closed.
    pub fn next(&mut self, server: &Server) -> (action: Action)
        ensures
            final(self)@ == old(self)@.advanced(),
            match old(self)@.phase {
                Phase::Reading => match read_request(old(self)@.received, old(self)@.ended) {
                    Reading::Pending => action is Read,
                    Reading::Failed(_) => action matches Action::Write(sent) && sent@
                        == encode_utf8(SERVER_ERROR@),
                    Reading::Ready(request) => action matches Action::Write(sent) && exists|
                        asked: Request,
                        outcome: Outcome,
                    |
                        asked@ == request && route(server@, request.identity())(asked, outcome)
                            && sent@ == answer_of(reply_of(outcome)),
                },
                Phase::Failed => action matches Action::Write(sent) && sent@ == encode_utf8(
                    SERVER_ERROR@,
                ),
                Phase::Answered => action is Close,
                Phase::Closed => action is Close,
            },
    {
        match self.phase {
            Phase::Reading => match server.serve(self.received.as_slice(), self.ended) {
                None => Action::Read,
                Some(sent) => {
                    self.phase = Phase::Answered;
                    Action::Write(sent)
                },
            },
            Phase::Failed => {
                self.phase = Phase::Answered;
                Action::Write(server_error())
            },
            Phase::Answered => {
                self.phase = Phase::Closed;
                Action::Close
            },
            Phase::Closed => Action::Close,
        }
    }

    /// The request line of what was received, once the header section is
    /// complete: what there is to show of the request.
    pub fn request_line(&self) -> (line: Option<String>)
        ensures
            line_view(line) == request_line(self@.received, self@.ended),
    {
        read_request_line(self.received.as_slice(), self.ended)
    }

    /// The phase that the connection is in.
    pub fn phase(&self) -> (phase: Phase)
        ensures
            phase == self@.phase,
    {
        self.phase
    }
}

/// A line that holds no line feed but the one it ends with ends there.
pub proof fn lemma_line_end_run(input: Seq<u8>, from: int, end: int)
    requires
        0 <= from < end <= input.len(),
        forall|k: int| from <= k < end - 1 ==> #[trigger] input[k] != 10,
        input[end - 1] == 10,
    ensures
        line_end(input, from) == end,
    decreases end - from,
{
    if from < end - 1 {
        lemma_line_end_run(input, from + 1, end);
    }
}

/// Reading a header line: where `input` holds, from `from` on, the
/// encoding of `text` and a line feed, with no line feed in `text` and no
/// carriage return at its start, that line is read and the reading goes on
/// after it.
pub proof fn lemma_read_header_line(input: Seq<u8>, ended: bool, from: int, text: Seq<char>)
    requires
        0 <= from,
        from + encode_utf8(text).len() + 1 <= input.len(),
        input.subrange(from, from + encode_utf8(text).len()) == encode_utf8(text),
        input[from + encode_utf8(text).len()] == 10,
        no_line_feed(text),
        text.len() > 0,
        text[0] as u32 <= 0x7F,
        text[0] as u32 != 13,
    ensures
        read_headers(input, ended, from) == with_line(
            text.push('\n'),
            read_headers(input, ended, from + encode_utf8(text).len() + 1),
        ),
{
    let bytes = encode_utf8(text);
    let end = from + bytes.len() + 1;
    let line = input.subrange(from, end);
    lemma_encode_no_line_feed(text);
    assert forall|k: int| from <= k < end - 1 implies #[trigger] input[k] != 10 by {
        assert(input[k] == bytes[k - from]);
    }
    lemma_line_end_run(input, from, end);
    let feed = seq!['\n'];
    assert(text.push('\n') == text + feed);
    lemma_encode_concat(text, feed);
    assert(encode_utf8(feed) == seq![10u8]) by {
        lemma_encode_first(feed);
        assert(feed.drop_first() == Seq::<char>::empty());
        assert(encode_utf8(feed.drop_first()) == Seq::<u8>::empty());
        lemma_low_byte(feed[0] as u32);
    }
    assert(line == encode_utf8(text.push('\n'))) by {
        assert(line == bytes + seq![10u8]);
    }
    vstd::utf8::encode_utf8_valid_utf8(text.push('\n'));
    vstd::utf8::encode_utf8_decode_utf8(text.push('\n'));
    lemma_encode_first(text);
    assert(line[0] == bytes[0]);
    assert(line.last() == 10);
}

/// Reading the end of the headers: where `input` holds a carriage return
/// and a line feed at `from`, the header section ends there, and the body
/// begins after them.
pub proof fn lemma_read_header_end(input: Seq<u8>, ended: bool, from: int)
    requires
        0 <= from,
        from + 2 <= input.len(),
        input[from] == 13,
        input[from + 1] == 10,
    ensures
        read_headers(input, ended, from) == (Headers::Complete {
            lines: Seq::empty(),
            body_start: from + 2,
        }),
{
    lemma_line_end_run(input, from, from + 2);
    let line = input.subrange(from, from + 2);
    assert(line == seq![13u8, 10u8]);
    let text = seq!['\r', '\n'];
    assert(encode_utf8(text) == line) by {
        assert(vstd::utf8::is_ascii_chars(text));
        vstd::utf8::is_ascii_chars_encode_utf8(text);
    }
    vstd::utf8::encode_utf8_valid_utf8(text);
}

/// Once the stream has ended the header section is never left open.
pub proof fn lemma_ended_headers_end(input: Seq<u8>, from: int)
    ensures
        !(read_headers(input, true, from) is Incomplete),
    decreases input.len() - from,
{
    if 0 <= from < input.len() {
        lemma_line_end_bounds(input, from);
        lemma_ended_headers_end(input, line_end(input, from));
    }
}

/// Reading never hangs once the stream has ended: whatever was received, the
/// request is there or it has failed.
pub proof fn lemma_ended_never_pending(input: Seq<u8>)
    ensures
        !(read_request(input, true) is Pending),
{
    lemma_ended_headers_end(input, 0);
}

/// Once its stream has ended, a connection is not told to read again: it
/// is answered.
pub proof fn lemma_ended_connection_is_answered(connection: ConnectionView)
    requires
        connection.ended,
    ensures
        connection.advanced().phase != Phase::Reading,
{
    lemma_ended_never_pending(connection.received);
}

/// After the answer comes the end: a connection that is done with reading
/// is closed two steps later at the latest, and stays closed.
pub proof fn lemma_answered_connection_closes(connection: ConnectionView)
    requires
        connection.phase != Phase::Reading,
    ensures
        connection.advanced().advanced().phase == Phase::Closed,
        connection.phase == Phase::Closed ==> connection.advanced() == connection,
{
}

/// A line that ends with its line feed stays the same line when more bytes
/// arrive.
proof fn lemma_line_end_stable(input: Seq<u8>, more: Seq<u8>, from: int)
    requires
        0 <= from < input.len(),
        input[line_end(input, from) - 1] == 10,
    ensures
        line_end(input + more, from) == line_end(input, from),
{
    let end = line_end(input, from);
    lemma_line_end_bounds(input, from);
    assert forall|k: int| from <= k < end - 1 implies #[trigger] (input + more)[k] != 10 by {
        assert((input + more)[k] == input[k]);
    }
    assert((input + more)[end - 1] == input[end - 1]);
    lemma_line_end_run(input + more, from, end);
}

/// Header lines that were read in full are read alike when more bytes
/// arrive, and when the connection closes.
pub proof fn lemma_headers_stable(input: Seq<u8>, more: Seq<u8>, ended: bool, from: int)
    requires
        0 <= from,
        !(read_headers(input, false, from) is Incomplete),
    ensures
        read_headers(input + more, ended, from) == read_headers(input, false, from),
    decreases input.len() - from,
{
    let end = line_end(input, from);
    let line = input.subrange(from, end);
    lemma_line_end_bounds(input, from);
    lemma_line_end_stable(input, more, from);
    assert((input + more).subrange(from, end) == line);
    if valid_utf8(line) && !(line == seq![13u8, 10u8] || line == seq![13u8]) {
        lemma_headers_stable(input, more, ended, end);
    }
}

/// A request that was read, or has failed, on an open connection stays what
/// it is: neither more bytes nor the end of the stream change it.
pub proof fn lemma_reading_is_stable(input: Seq<u8>, more: Seq<u8>, ended: bool)
    requires
        !(read_request(input, false) is Pending),
    ensures
        read_request(input + more, ended) == read_request(input, false),
{
    lemma_headers_stable(input, more, ended, 0);
    match read_headers(input, false, 0) {
        Headers::Complete { lines, body_start } => {
            lemma_body_start_in_bounds(input, false, 0);
            match request_of_lines(lines) {
                Ok((RequestView::Post(path, _), length)) => {
                    assert((input + more).subrange(body_start, body_start + length)
                        == input.subrange(body_start, body_start + length));
                },
                _ => {},
            }
        },
        _ => {},
    }
}

/// The body begins within the bytes received.
pub proof fn lemma_body_start_in_bounds(input: Seq<u8>, ended: bool, from: int)
    requires
        0 <= from <= input.len(),
    ensures
        read_headers(input, ended, from) matches Headers::Complete { body_start, .. } ==> from
            <= body_start <= input.len(),
    decreases input.len() - from,
{
    if from < input.len() {
        lemma_line_end_bounds(input, from);
        lemma_body_start_in_bounds(input, ended, line_end(input, from));
    }
}

} // verus!
