use std::io::{BufRead, BufReader};

use crag_web::connection::{
    answer, handle_connection, parse_request, read_and_parse_request, read_header_lines,
    read_request_line, reply, Action, Connection, ConnectionError, HeaderLines, Phase,
};
use crag_web::handler;
use crag_web::request::{ParseError, Request};
use crag_web::response::{Response, NOT_FOUND_BODY};
use crag_web::server::Server;

fn lines(texts: &[&str]) -> Vec<String> {
    texts.iter().map(|text| text.to_string()).collect()
}

fn hello_handler(_req: Request) -> anyhow::Result<Response> {
    Ok(Response::Success("Hello, Crag-Web!".to_string()))
}

fn server() -> Server {
    Server::build()
        .register_handler(Request::GET(String::from("/hello")), hello_handler)
        .register_handler(Request::GET(String::from("/error")), |_| {
            Err(anyhow::Error::msg("error"))
        })
        .register_handler(Request::GET(String::from("/foo")), |_| {
            Ok(Response::Success("foo".to_string()))
        })
        .register_handler(
            Request::POST(String::from("/echo"), String::new()),
            |req: Request| match req {
                Request::POST(_, body) => Ok(Response::Success(body)),
                _ => Ok(Response::NotFound(String::new())),
            },
        )
        .register_error_handler(handler::default_error_404_handler)
        .unwrap()
        .finalize(4)
        .unwrap()
}

fn text(bytes: Option<Vec<u8>>) -> String {
    String::from_utf8(bytes.expect("an answer")).unwrap()
}

const SERVER_ERROR: &str = "HTTP/1.1 500 Internal Server Error\r\n\r\n";

#[test]
fn serves_registered_routes() {
    let server = server();

    let answer = text(server.serve(b"GET /hello HTTP/1.1\r\nHost: localhost\r\n\r\n", false));
    assert!(answer.starts_with("HTTP/1.0 200 OK\r\n"));
    assert!(answer.ends_with("\r\n\r\nHello, Crag-Web!"));
    assert_eq!(
        answer,
        "HTTP/1.0 200 OK\r\nContent-Type: text/html\r\nContent-Length: 16\r\n\r\nHello, Crag-Web!"
    );

    let answer = text(server.serve(b"GET /foo HTTP/1.1\r\n\r\n", false));
    assert!(answer.ends_with("\r\n\r\nfoo"));

    let answer = text(server.serve(b"GET /missing HTTP/1.1\r\n\r\n", false));
    assert!(answer.starts_with("HTTP/1.0 404 Not Found\r\n"));
    assert!(answer.ends_with(NOT_FOUND_BODY));

    let answer = text(server.serve(b"GET /error HTTP/1.1\r\n\r\n", false));
    assert_eq!(answer, SERVER_ERROR);

    // The server goes on after a failure.
    let answer = text(server.serve(b"GET /hello HTTP/1.1\r\n\r\n", false));
    assert!(answer.ends_with("Hello, Crag-Web!"));
}

#[test]
fn every_parse_error_gets_the_server_error() {
    let server = server();
    for request in [
        "\r\n",
        "GET\r\n\r\n",
        "GET /\r\n\r\n",
        "GET / HTTP/1.0\r\n\r\n",
        "FOO / HTTP/1.1\r\n\r\n",
        "GET / HTTP/1.1 more\r\n\r\n",
    ] {
        assert_eq!(
            text(server.serve(request.as_bytes(), false)),
            SERVER_ERROR,
            "{request:?}"
        );
    }
    assert_eq!(text(server.serve(b"", true)), SERVER_ERROR);
}

#[test]
fn more_bytes_are_asked_for_until_the_headers_end() {
    let server = server();
    let request = b"GET /hello HTTP/1.1\r\nHost: localhost\r\n\r\n";
    for received in 0..request.len() {
        assert_eq!(server.serve(&request[..received], false), None, "{received}");
    }
    assert!(server.serve(request, false).is_some());
}

#[test]
fn a_closed_stream_ends_the_headers() {
    assert_eq!(
        read_and_parse_request(b"GET /hello HTTP/1.1", true).unwrap().unwrap(),
        Request::GET(String::from("/hello"))
    );
    assert_eq!(
        read_and_parse_request(b"GET /hello HTTP/1.1\r\nHost: x\r\n", true)
            .unwrap()
            .unwrap(),
        Request::GET(String::from("/hello"))
    );
    // A carriage return that nothing follows ends the headers too.
    assert_eq!(
        read_and_parse_request(b"GET /hello HTTP/1.1\r\n\r", true)
            .unwrap()
            .unwrap(),
        Request::GET(String::from("/hello"))
    );
    assert!(read_and_parse_request(b"GET /hello HTTP/1.1\r\n\r", false).is_none());
    match read_and_parse_request(b"", true) {
        Some(Err(ConnectionError::Parse(error))) => {
            assert_eq!(error, ParseError::MissingMethod { request_line: false })
        }
        other => panic!("unexpected: {other:?}"),
    }
}

#[test]
fn a_bare_line_feed_is_a_header_line() {
    // Only "\r\n" ends the headers of an open stream.
    assert!(read_and_parse_request(b"GET / HTTP/1.1\n\n", false).is_none());
    assert_eq!(
        read_and_parse_request(b"GET / HTTP/1.1\n\n", true).unwrap().unwrap(),
        Request::GET(String::from("/"))
    );
    assert_eq!(
        read_and_parse_request(b"GET / HTTP/1.1\nHost: x\n\r\n", false)
            .unwrap()
            .unwrap(),
        Request::GET(String::from("/"))
    );
}

fn body_of(request: Request) -> String {
    match request {
        Request::POST(_, body) => body,
        other => panic!("not a POST: {other:?}"),
    }
}

#[test]
fn post_reads_the_declared_body() {
    let request = b"POST /echo HTTP/1.1\r\nContent-Length: 5\r\n\r\nhello";
    let read = read_and_parse_request(request, false).unwrap().unwrap();
    assert_eq!(read, Request::POST(String::from("/echo"), String::new()));
    assert_eq!(body_of(read), "hello");

    // What follows the declared length is left alone.
    let request = b"POST /echo HTTP/1.1\r\nContent-Length: 5\r\n\r\nhello, world";
    assert_eq!(
        body_of(read_and_parse_request(request, false).unwrap().unwrap()),
        "hello"
    );

    let server = server();
    assert_eq!(
        text(server.serve(
            b"POST /echo HTTP/1.1\r\nHost: x\r\nContent-Length: 3\r\n\r\nabc",
            false
        )),
        "HTTP/1.0 200 OK\r\nContent-Type: text/html\r\nContent-Length: 3\r\n\r\nabc"
    );
}

#[test]
fn post_body_of_every_length() {
    for length in [0usize, 1, 9, 10, 99, 100, 1234] {
        let body = "b".repeat(length);
        let request = format!("POST /p HTTP/1.1\r\nContent-Length: {length}\r\n\r\n{body}");
        let read = read_and_parse_request(request.as_bytes(), false)
            .unwrap()
            .unwrap();
        assert_eq!(body_of(read).len(), length);
    }
}

#[test]
fn post_waits_for_its_body() {
    let request = b"POST /echo HTTP/1.1\r\nContent-Length: 5\r\n\r\nhello";
    for received in 0..request.len() {
        assert!(
            read_and_parse_request(&request[..received], false).is_none(),
            "{received}"
        );
    }
    match read_and_parse_request(&request[..request.len() - 1], true) {
        Some(Err(ConnectionError::TruncatedBody)) => {}
        other => panic!("unexpected: {other:?}"),
    }
    assert_eq!(
        text(server().serve(&request[..request.len() - 1], true)),
        SERVER_ERROR
    );
}

#[test]
fn post_without_length_has_an_empty_body() {
    let request = b"POST /echo HTTP/1.1\r\nHost: x\r\n\r\nignored";
    assert_eq!(
        body_of(read_and_parse_request(request, false).unwrap().unwrap()),
        ""
    );
}

#[test]
fn get_ignores_content_length() {
    let request = b"GET /hello HTTP/1.1\r\nContent-Length: 50\r\n\r\n";
    assert_eq!(
        read_and_parse_request(request, false).unwrap().unwrap(),
        Request::GET(String::from("/hello"))
    );
    assert_eq!(
        parse_request(&lines(&["GET / HTTP/1.1\r\n", "Content-Length: 50\r\n"])).unwrap().1,
        0
    );
}

#[test]
fn content_length_is_read_as_the_header_says() {
    let length = |headers: &[&str]| {
        let mut all = vec!["POST / HTTP/1.1\r\n"];
        all.extend_from_slice(headers);
        parse_request(&lines(&all)).unwrap().1
    };
    assert_eq!(length(&[]), 0);
    assert_eq!(length(&["Content-Length: 5\r\n"]), 5);
    assert_eq!(length(&["Content-Length:5"]), 5);
    assert_eq!(length(&["Content-Length:   12  \r\n"]), 12);
    assert_eq!(length(&["Content-Length: +7\r\n"]), 7);
    assert_eq!(length(&["Content-Length: 5:6\r\n"]), 5);
    assert_eq!(length(&["Host: x\r\n", "Content-Length: 8\r\n"]), 8);
    // Only the first such line counts.
    assert_eq!(
        length(&["Content-Length: x\r\n", "Content-Length: 8\r\n"]),
        0
    );
    assert_eq!(
        length(&["Content-Length: 3\r\n", "Content-Length: 8\r\n"]),
        3
    );
    // The name is matched as it is written.
    assert_eq!(length(&["content-length: 5\r\n"]), 0);
    assert_eq!(length(&[" Content-Length: 5\r\n"]), 0);
    assert_eq!(length(&["Content-Length : 5\r\n"]), 0);
    // What is no number counts as zero.
    assert_eq!(length(&["Content-Length: \r\n"]), 0);
    assert_eq!(length(&["Content-Length: -1\r\n"]), 0);
    assert_eq!(length(&["Content-Length: 5 6\r\n"]), 0);
    assert_eq!(length(&["Content-Length: 1.5\r\n"]), 0);
    assert_eq!(
        length(&["Content-Length: 99999999999999999999999999\r\n"]),
        0
    );
}

#[test]
fn parse_request_agrees_with_the_iterator_chain() {
    for header in [
        "Content-Length: 5\r\n",
        "Content-Length:\u{a0}17\u{3000}",
        "Content-Length::5",
        "Content-Length: :5",
        "Content-Length:5:",
        "Content-Length: 0005\n",
        "Content-Length: five",
        "Content-Length:",
        "Content-Length",
    ] {
        let expected = Some(header)
            .filter(|line| line.starts_with("Content-Length:"))
            .and_then(|line| {
                line.trim()
                    .split(':')
                    .nth(1)
                    .and_then(|value| value.trim().parse::<usize>().ok())
            })
            .unwrap_or(0);
        assert_eq!(
            parse_request(&lines(&["POST / HTTP/1.1", header])).unwrap().1,
            expected,
            "{header:?}"
        );
    }
}

#[test]
fn text_that_is_not_utf8_fails() {
    match read_and_parse_request(b"GET /\xff HTTP/1.1\r\n\r\n", false) {
        Some(Err(ConnectionError::InvalidEncoding)) => {}
        other => panic!("unexpected: {other:?}"),
    }
    // The line is refused as soon as it is complete.
    match read_and_parse_request(b"GET /\xff HTTP/1.1\r\n", false) {
        Some(Err(ConnectionError::InvalidEncoding)) => {}
        other => panic!("unexpected: {other:?}"),
    }
    match read_and_parse_request(b"POST / HTTP/1.1\r\nContent-Length: 2\r\n\r\n\xc3\x28", false)
    {
        Some(Err(ConnectionError::InvalidEncoding)) => {}
        other => panic!("unexpected: {other:?}"),
    }
    assert_eq!(
        text(server().serve(b"GET /\xff HTTP/1.1\r\n\r\n", false)),
        SERVER_ERROR
    );
}

#[test]
fn text_beyond_ascii_is_kept() {
    let request = "POST /caf\u{e9} HTTP/1.1\r\nContent-Length: 6\r\n\r\n\u{1f980}\u{e9}";
    let read = read_and_parse_request(request.as_bytes(), false)
        .unwrap()
        .unwrap();
    assert_eq!(read, Request::POST(String::from("/caf\u{e9}"), String::new()));
    assert_eq!(body_of(read), "\u{1f980}\u{e9}");
}

#[test]
fn handle_connection_keeps_the_error() {
    let server = server();
    match handle_connection(server.handlers(), b"GET /error HTTP/1.1\r\n\r\n", false) {
        Some(Err(ConnectionError::Handler(error))) => assert_eq!(error.to_string(), "error"),
        other => panic!("unexpected: {other:?}"),
    }
    match handle_connection(server.handlers(), b"GET\r\n\r\n", false) {
        Some(Err(ConnectionError::Parse(error))) => assert_eq!(error, ParseError::MissingURI),
        other => panic!("unexpected: {other:?}"),
    }
    assert!(handle_connection(server.handlers(), b"GET /hello", false).is_none());
    match handle_connection(server.handlers(), b"GET /foo HTTP/1.1\r\n\r\n", false) {
        Some(Ok(bytes)) => assert!(bytes.ends_with(b"\r\n\r\nfoo")),
        other => panic!("unexpected: {other:?}"),
    }
}

#[test]
fn reply_and_answer() {
    assert_eq!(
        reply(Ok(Response::Success("x".to_string()))).unwrap(),
        b"HTTP/1.0 200 OK\r\nContent-Type: text/html\r\nContent-Length: 1\r\n\r\nx".to_vec()
    );
    match reply(Err(anyhow::Error::msg("broken"))) {
        Err(ConnectionError::Handler(error)) => assert_eq!(error.to_string(), "broken"),
        other => panic!("unexpected: {other:?}"),
    }
    assert_eq!(answer(Ok(b"bytes".to_vec())), b"bytes".to_vec());
    assert_eq!(
        answer(Err(ConnectionError::TruncatedBody)),
        SERVER_ERROR.as_bytes().to_vec()
    );
    assert_eq!(
        answer(Err(ConnectionError::Handler(anyhow::Error::msg("broken")))),
        SERVER_ERROR.as_bytes().to_vec()
    );
}

#[test]
fn a_closed_connection_always_gets_an_answer() {
    let server = server();
    for received in [
        &b""[..],
        b"G",
        b"GET /hello",
        b"GET /hello HTTP/1.1\r",
        b"GET /hello HTTP/1.1\r\n",
        b"GET /hello HTTP/1.1\r\nHost",
        b"POST /echo HTTP/1.1\r\nContent-Length: 5\r\n\r\nhe",
        b"\n\n\n",
        b"\xff",
    ] {
        assert!(read_and_parse_request(received, true).is_some(), "{received:?}");
        assert!(server.serve(received, true).is_some(), "{received:?}");
    }
}

#[test]
fn an_answer_does_not_change_when_more_arrives() {
    let server = server();
    for request in [
        &b"GET /hello HTTP/1.1\r\n\r\n"[..],
        b"GET /missing HTTP/1.1\r\nHost: x\r\n\r\n",
        b"POST /echo HTTP/1.1\r\nContent-Length: 2\r\n\r\nhi",
        b"FOO / HTTP/1.1\r\n\r\n",
        b"GET /\xff HTTP/1.1\r\n",
    ] {
        let answer = server.serve(request, false);
        assert!(answer.is_some());
        for more in [&b"x"[..], b"\r\n", b"GET / HTTP/1.1\r\n\r\n", b"\xff\xfe"] {
            let mut longer = request.to_vec();
            longer.extend_from_slice(more);
            assert_eq!(server.serve(&longer, false), answer);
            assert_eq!(server.serve(&longer, true), answer);
        }
        assert_eq!(server.serve(request, true), answer);
    }
}

/// What a client makes of an answer: the status code and the body.
fn get(server: &Server, path: &str) -> (u16, String) {
    let request = format!("GET {path} HTTP/1.1\r\nHost: 127.0.0.1:12345\r\n\r\n");
    let answer = text(server.serve(request.as_bytes(), false));
    let (head, body) = answer.split_once("\r\n\r\n").unwrap();
    let status = head.split(' ').nth(1).unwrap().parse().unwrap();
    (status, body.to_string())
}

#[test]
fn test_index() {
    let server = Server::build()
        .register_handler(Request::GET(String::from("/hello")), hello_handler)
        .register_handler(Request::GET(String::from("/error")), |_| {
            Err(anyhow::Error::msg("error"))
        })
        .register_handler(Request::GET(String::from("/foo")), |_| {
            Ok(Response::Success("foo".to_string()))
        })
        .register_error_handler(handler::default_error_404_handler)
        .unwrap()
        .finalize(4)
        .unwrap();

    let (status, _) = get(&server, "/bad");
    assert!((400..500).contains(&status));

    let (status, body) = get(&server, "/hello");
    assert!((200..300).contains(&status));
    assert_eq!(body, "Hello, Crag-Web!");

    let (status, body) = get(&server, "/foo");
    assert!((200..300).contains(&status));
    assert_eq!(body, "foo");

    let (status, _) = get(&server, "/error");
    assert!((500..600).contains(&status));
}

/// What the line-by-line reader reports where the stream itself lets it
/// down: text that is no UTF-8, or a body that is cut short.
const STREAM_FAILED: &str = "the stream failed";

/// Reads a request from a stream that ends after `input`, line by line
/// with the standard reader, and cuts the request line with the standard
/// splitters.
fn read_line_by_line(input: &[u8]) -> Result<Request, String> {
    let mut buffer = BufReader::new(input);
    let mut read = 0;
    let mut lines: Vec<String> = vec![];
    loop {
        let mut next_line = String::new();
        read += buffer
            .read_line(&mut next_line)
            .map_err(|_| STREAM_FAILED.to_string())?;
        if next_line.is_empty() || next_line == "\r" || next_line == "\r\n" {
            break;
        }
        lines.push(next_line);
    }
    let mut lines = lines.into_iter();
    let first_line = lines.next().ok_or("No request line found")?;
    let mut parts = first_line.split_whitespace();
    let method = parts.next().ok_or("No method found")?;
    let uri = parts.next().ok_or("No URI found")?;
    let protocol = parts.next().ok_or("No protocol found")?;
    if parts.next().is_some() {
        return Err("Invalid request line: extra values after parts".to_string());
    }
    if protocol != "HTTP/1.1" {
        return Err("Server can only work with HTTP/1.1".to_string());
    }
    match method {
        "GET" => Ok(Request::GET(String::from(uri))),
        "POST" => {
            let length = lines
                .find(|line| line.starts_with("Content-Length:"))
                .and_then(|line| {
                    line.trim()
                        .split(':')
                        .nth(1)
                        .and_then(|value| value.trim().parse::<usize>().ok())
                })
                .unwrap_or(0);
            let rest = &input[read..];
            if rest.len() < length {
                return Err(STREAM_FAILED.to_string());
            }
            let body = String::from_utf8(rest[..length].to_vec())
                .map_err(|_| STREAM_FAILED.to_string())?;
            Ok(Request::POST(String::from(uri), body))
        }
        _ => Err(format!("Invalid method {method}")),
    }
}

fn same_request(one: &Request, other: &Request) -> bool {
    match (one, other) {
        (Request::GET(a), Request::GET(b)) => a == b,
        (Request::POST(a, x), Request::POST(b, y)) => a == b && x == y,
        _ => false,
    }
}

fn agrees(input: &[u8]) {
    let expected = read_line_by_line(input);
    let read = read_and_parse_request(input, true).expect("a closed stream is read to its end");
    let same = match (&expected, &read) {
        (Ok(one), Ok(other)) => same_request(one, other),
        (Err(message), Err(ConnectionError::Parse(error))) => *message == error.to_string(),
        (Err(message), Err(_)) => message == STREAM_FAILED,
        _ => false,
    };
    assert!(same, "{input:?}: {expected:?} but {read:?}");
}

#[test]
fn reading_agrees_with_line_by_line_reading() {
    let pieces: [&[u8]; 12] = [
        b"GET",
        b"POST",
        b" ",
        b"/p",
        b"HTTP/1.1",
        b"\r\n",
        b"\n",
        b"\r",
        b"Content-Length:",
        b"2",
        b"\xc3\xa9",
        b"\xff",
    ];
    let mut input: Vec<u8> = Vec::new();
    let mut choice = [0usize; 5];
    for length in 0..=choice.len() {
        choice = [0; 5];
        loop {
            input.clear();
            for &piece in &choice[..length] {
                input.extend_from_slice(pieces[piece]);
            }
            agrees(&input);
            let mut place = 0;
            while place < length {
                choice[place] += 1;
                if choice[place] < pieces.len() {
                    break;
                }
                choice[place] = 0;
                place += 1;
            }
            if place == length {
                break;
            }
        }
    }
}

#[test]
fn whole_requests_agree_with_line_by_line_reading() {
    for request in [
        &b"GET /hello HTTP/1.1\r\nHost: x\r\n\r\n"[..],
        b"POST /p HTTP/1.1\r\nContent-Length: 4\r\n\r\nbody",
        b"POST /p HTTP/1.1\r\nContent-Length: 4\r\n\r\nbody and more",
        b"POST /p HTTP/1.1\r\nContent-Length: 40\r\n\r\nbody",
        b"POST /p HTTP/1.1\r\nHost: x\r\nContent-Length:\t3 \r\nContent-Length: 1\r\n\r\nabc",
        b"POST /p HTTP/1.1\nContent-Length: 2\n\r\n\xc3\xa9",
        b"POST /p HTTP/1.1\r\nContent-Length: 2\r\n\r\n\xc3\x28",
        b"POST /p HTTP/1.1\r\nContent-Length: 1\r\n\r\n\xc3\xa9",
        b"POST /p HTTP/1.1\r\ncontent-length: 2\r\n\r\nab",
        b"POST /p HTTP/1.1\r\nX: Content-Length: 2\r\n\r\nab",
        b"GET /caf\xc3\xa9 HTTP/1.1\r\n\r\n",
        b"GET\xc2\xa0/x\xe3\x80\x80HTTP/1.1\r\n\r\n",
        b"GET /x HTTP/1.1\r\n\xff\r\n\r\n",
        b"GET /x HTTP/1.1\r\n\r\n\xff",
        b"\r\nGET /x HTTP/1.1\r\n\r\n",
        b"\nGET /x HTTP/1.1\r\n\r\n",
        b"GET /x HTTP/1.0 extra\r\n\r\n",
        b"FOO /x HTTP/1.0 extra\r\n\r\n",
        b"FOO /x HTTP/1.0\r\n\r\n",
        b"FOO /x HTTP/1.1\r\n\r\n",
        b"GET /x HTTP/1.1 HTTP/1.1\r\n\r\n",
    ] {
        agrees(request);
    }
}

fn written(action: Action) -> String {
    match action {
        Action::Write(bytes) => String::from_utf8(bytes).unwrap(),
        other => panic!("nothing to write: {other:?}"),
    }
}

#[test]
fn a_connection_reads_answers_and_closes() {
    let server = server();
    let mut connection = Connection::new();
    assert_eq!(connection.phase(), Phase::Reading);
    for chunk in [&b"GET /he"[..], b"llo HTTP/1.1\r", b"\nHost: x\r\n", b"\r"] {
        assert!(matches!(connection.next(&server), Action::Read));
        connection.receive(chunk);
    }
    assert!(matches!(connection.next(&server), Action::Read));
    assert_eq!(connection.phase(), Phase::Reading);
    connection.receive(b"\n");
    assert!(written(connection.next(&server)).ends_with("\r\n\r\nHello, Crag-Web!"));
    assert_eq!(connection.phase(), Phase::Answered);
    // What comes after the answer changes nothing.
    connection.receive(b"GET /foo HTTP/1.1\r\n\r\n");
    connection.fail();
    assert!(matches!(connection.next(&server), Action::Close));
    assert_eq!(connection.phase(), Phase::Closed);
    assert!(matches!(connection.next(&server), Action::Close));
    assert_eq!(connection.phase(), Phase::Closed);
}

#[test]
fn a_connection_that_ends_early_is_answered() {
    let server = server();
    let mut connection = Connection::new();
    connection.receive(b"GET /hello HTTP/1.1\r\nHost");
    assert!(matches!(connection.next(&server), Action::Read));
    connection.end();
    // Nothing counts after the end.
    connection.receive(b": x\r\n\r\n");
    assert!(written(connection.next(&server)).ends_with("Hello, Crag-Web!"));
    assert!(matches!(connection.next(&server), Action::Close));

    let mut connection = Connection::new();
    connection.end();
    assert_eq!(written(connection.next(&server)), SERVER_ERROR);
    assert!(matches!(connection.next(&server), Action::Close));
}

#[test]
fn a_connection_that_fails_gets_the_server_error() {
    let server = server();
    let mut connection = Connection::new();
    connection.receive(b"GET /hello HTTP/1.1\r\n\r\n");
    connection.fail();
    assert_eq!(connection.phase(), Phase::Failed);
    assert_eq!(written(connection.next(&server)), SERVER_ERROR);
    assert_eq!(connection.phase(), Phase::Answered);
    assert!(matches!(connection.next(&server), Action::Close));

    let mut connection = Connection::new();
    connection.receive(b"GET /error HTTP/1.1\r\n\r\n");
    assert_eq!(written(connection.next(&server)), SERVER_ERROR);
    assert!(matches!(connection.next(&server), Action::Close));
}

#[test]
fn a_handler_is_called_once_for_a_connection() {
    let calls = std::sync::Arc::new(std::sync::atomic::AtomicUsize::new(0));
    let counted = calls.clone();
    let server = Server::build()
        .register_handler(Request::GET(String::from("/count")), move |_| {
            counted.fetch_add(1, std::sync::atomic::Ordering::SeqCst);
            Ok(Response::Success(String::new()))
        })
        .register_error_handler(handler::default_error_404_handler)
        .unwrap()
        .finalize(1)
        .unwrap();
    let mut connection = Connection::new();
    connection.receive(b"GET /count HTTP/1.1\r\n");
    for _ in 0..3 {
        assert!(matches!(connection.next(&server), Action::Read));
    }
    connection.receive(b"\r\n");
    for _ in 0..5 {
        connection.next(&server);
    }
    assert_eq!(calls.load(std::sync::atomic::Ordering::SeqCst), 1);
}

#[test]
fn header_lines_keep_their_line_ends() {
    match read_header_lines(b"GET / HTTP/1.1\r\nHost: x\nA: b\r\n\r\nbody", false) {
        HeaderLines::Complete { lines, body_start } => {
            assert_eq!(lines, vec!["GET / HTTP/1.1\r\n", "Host: x\n", "A: b\r\n"]);
            assert_eq!(body_start, 32);
        }
        other => panic!("unexpected: {other:?}"),
    }
    match read_header_lines(b"\r\n", false) {
        HeaderLines::Complete { lines, body_start } => {
            assert!(lines.is_empty());
            assert_eq!(body_start, 2);
        }
        other => panic!("unexpected: {other:?}"),
    }
    match read_header_lines(b"GET /", true) {
        HeaderLines::Complete { lines, body_start } => {
            assert_eq!(lines, vec!["GET /"]);
            assert_eq!(body_start, 5);
        }
        other => panic!("unexpected: {other:?}"),
    }
    assert!(matches!(
        read_header_lines(b"GET / HTTP/1.1\r\nHost", false),
        HeaderLines::Incomplete
    ));
    assert!(matches!(read_header_lines(b"", false), HeaderLines::Incomplete));
    assert!(matches!(
        read_header_lines(b"GET /\xff\r\n", false),
        HeaderLines::Invalid
    ));
}

#[test]
fn the_request_line_is_there_once_the_headers_are() {
    assert_eq!(read_request_line(b"GET /hello HTTP/1.1\r\n", false), None);
    assert_eq!(
        read_request_line(b"GET /hello HTTP/1.1\r\nHost: x\r\n\r\n", false),
        Some(String::from("GET /hello HTTP/1.1\r\n"))
    );
    assert_eq!(
        read_request_line(b"nonsense\n\r\n", false),
        Some(String::from("nonsense\n"))
    );
    assert_eq!(
        read_request_line(b"GET /hello", true),
        Some(String::from("GET /hello"))
    );
    assert_eq!(read_request_line(b"\r\n", false), None);
    assert_eq!(read_request_line(b"", true), None);
    assert_eq!(read_request_line(b"\xff\r\n\r\n", false), None);

    let mut connection = Connection::new();
    connection.receive(b"POST /echo HTTP/1.1\r\nContent-Length: 2\r\n");
    assert_eq!(connection.request_line(), None);
    connection.receive(b"\r\n");
    // The body is still to come; the request line is there already.
    assert!(matches!(connection.next(&server()), Action::Read));
    assert_eq!(
        connection.request_line(),
        Some(String::from("POST /echo HTTP/1.1\r\n"))
    );
}
