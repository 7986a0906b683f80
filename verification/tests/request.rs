use std::collections::HashMap;

use crag_web::request::{ParseError, Request};

#[test]
fn test_request_parser_happy_path() {
    let req = Request::parse(&String::from("GET / HTTP/1.1")).unwrap();
    assert_eq!(req, Request::GET(String::from("/")));

    let req = Request::parse(&String::from("POST / HTTP/1.1")).unwrap();
    assert_eq!(req, Request::POST(String::from("/"), String::default()));
}

#[test]
fn test_no_verb_found() {
    let req = Request::parse(&String::from(""));
    assert!(req.is_err(), "Returned request is: {req:?}");
    assert!(req.err().unwrap().to_string().contains("No method found"));
}

#[test]
fn test_request_parser_bad_verbs() {
    let req = Request::parse(&String::from("FOO / HTTP/1.1"));
    assert!(req.is_err(), "Returned request is: {req:?}");
}

#[test]
fn test_good_paths() {
    let req = Request::parse(&String::from("GET /foo/bar HTTP/1.1")).unwrap();
    assert_eq!(req, Request::GET(String::from("/foo/bar")));
}

#[test]
fn test_bad_path() {
    let req = Request::parse(&String::from("GET"));
    assert!(req.is_err(), "Returned request is: {req:?}");
    assert!(req.err().unwrap().to_string().contains("No URI found"));
}

#[test]
fn test_missing_protocol() {
    let req = Request::parse(&String::from("GET /"));
    assert!(req.is_err(), "Returned request is: {req:?}");
    assert!(req.err().unwrap().to_string().contains("No protocol found"));
}

#[test]
fn test_bad_protocol_name() {
    let req = Request::parse(&String::from("GET / HTTP/1.0"));
    assert!(req.is_err(), "Returned request is: {req:?}");
    assert!(req
        .err()
        .unwrap()
        .to_string()
        .contains("Server can only work with HTTP/1.1"));
}

#[test]
fn each_parse_error_has_its_input() {
    assert_eq!(
        Request::parse(""),
        Err(ParseError::MissingMethod { request_line: true })
    );
    assert_eq!(
        Request::parse(" \t\r\n"),
        Err(ParseError::MissingMethod { request_line: true })
    );
    assert_eq!(Request::parse("GET"), Err(ParseError::MissingURI));
    assert_eq!(Request::parse("GET /"), Err(ParseError::MissingProtocol));
    assert_eq!(
        Request::parse("GET / HTTP/1.0"),
        Err(ParseError::UnsupportedProtocol)
    );
    assert_eq!(
        Request::parse("GET / http/1.1"),
        Err(ParseError::UnsupportedProtocol)
    );
    assert_eq!(
        Request::parse("GET / HTTP/1.1 extra"),
        Err(ParseError::MalformedRequestLine)
    );
    assert_eq!(
        Request::parse("FOO / HTTP/1.1"),
        Err(ParseError::UnsupportedMethod(String::from("FOO")))
    );
    assert_eq!(
        Request::parse("get / HTTP/1.1"),
        Err(ParseError::UnsupportedMethod(String::from("get")))
    );
}

#[test]
fn tokens_are_counted_before_they_are_looked_at() {
    // A line with more than three tokens is malformed, whatever they are.
    assert_eq!(
        Request::parse("GET / HTTP/1.0 extra"),
        Err(ParseError::MalformedRequestLine)
    );
    assert_eq!(
        Request::parse("FOO / HTTP/1.0 extra"),
        Err(ParseError::MalformedRequestLine)
    );
    assert_eq!(
        Request::parse("FOO / HTTP/1.1 extra"),
        Err(ParseError::MalformedRequestLine)
    );
    assert_eq!(
        Request::parse("GET / HTTP/1.1 HTTP/1.1"),
        Err(ParseError::MalformedRequestLine)
    );
    // Of three tokens the protocol is looked at before the method.
    assert_eq!(
        Request::parse("FOO / HTTP/1.0"),
        Err(ParseError::UnsupportedProtocol)
    );
}

#[test]
fn a_parsed_post_has_an_empty_body() {
    match Request::parse("POST / HTTP/1.1") {
        Ok(Request::POST(path, body)) => {
            assert_eq!(path, "/");
            assert_eq!(body, "");
            assert!(body.is_empty());
        }
        other => panic!("not a POST: {other:?}"),
    }
    match Request::parse("POST /submit/form HTTP/1.1\r\n") {
        Ok(Request::POST(path, body)) => {
            assert_eq!(path, "/submit/form");
            assert_eq!(body, String::default());
        }
        other => panic!("not a POST: {other:?}"),
    }
}

#[test]
fn a_parsed_get_has_its_path() {
    match Request::parse("GET /foo/bar HTTP/1.1") {
        Ok(Request::GET(path)) => assert_eq!(path, "/foo/bar"),
        other => panic!("not a GET: {other:?}"),
    }
}

#[test]
fn parse_error_messages() {
    assert_eq!(
        ParseError::MissingMethod { request_line: true }.to_string(),
        "No method found"
    );
    assert_eq!(
        ParseError::MissingMethod {
            request_line: false
        }
        .to_string(),
        "No request line found"
    );
    assert_eq!(ParseError::MissingURI.to_string(), "No URI found");
    assert_eq!(ParseError::MissingProtocol.to_string(), "No protocol found");
    assert_eq!(
        ParseError::MalformedRequestLine.to_string(),
        "Invalid request line: extra values after parts"
    );
    assert_eq!(
        ParseError::UnsupportedProtocol.to_string(),
        "Server can only work with HTTP/1.1"
    );
    assert_eq!(
        ParseError::UnsupportedMethod(String::from("FOO")).to_string(),
        "Invalid method FOO"
    );
}

#[test]
fn any_whitespace_separates_the_parts() {
    assert_eq!(
        Request::parse("  GET \t /a/b \u{a0}\u{3000} HTTP/1.1\r\n"),
        Ok(Request::GET(String::from("/a/b")))
    );
    assert_eq!(
        Request::parse("POST\u{2003}/caf\u{e9}\u{2028}HTTP/1.1\n"),
        Ok(Request::POST(String::from("/caf\u{e9}"), String::new()))
    );
}

#[test]
fn parse_agrees_with_split_whitespace() {
    let lines = [
        "GET / HTTP/1.1",
        "GET  /x\tHTTP/1.1 ",
        "\u{85}POST /p HTTP/1.1\u{1680}",
        "GET /\u{200b} HTTP/1.1",
        "GET /a b HTTP/1.1",
        "GET /a HTTP/1.0 b",
        "GET /a HTTP/1.0",
        "PUT /a HTTP/1.0",
        "PUT /a HTTP/1.1",
        "GET",
        "",
        "   ",
        "GET /\u{180e}x HTTP/1.1",
    ];
    for line in lines {
        let parts: Vec<&str> = line.split_whitespace().collect();
        let expected = if parts.is_empty() {
            Err(ParseError::MissingMethod { request_line: true })
        } else if parts.len() == 1 {
            Err(ParseError::MissingURI)
        } else if parts.len() == 2 {
            Err(ParseError::MissingProtocol)
        } else if parts.len() > 3 {
            Err(ParseError::MalformedRequestLine)
        } else if parts[2] != "HTTP/1.1" {
            Err(ParseError::UnsupportedProtocol)
        } else if parts[0] == "GET" {
            Ok(Request::GET(parts[1].to_string()))
        } else if parts[0] == "POST" {
            Ok(Request::POST(parts[1].to_string(), String::new()))
        } else {
            Err(ParseError::UnsupportedMethod(parts[0].to_string()))
        };
        assert_eq!(Request::parse(line), expected, "line {line:?}");
    }
}

#[test]
fn path_is_taken_literally() {
    assert_eq!(
        Request::parse("GET /a%20b?x=1#frag HTTP/1.1"),
        Ok(Request::GET(String::from("/a%20b?x=1#frag")))
    );
}

#[test]
fn add_body_sets_the_body_of_a_post() {
    let mut req = Request::POST(String::from("/x"), String::new());
    req.add_body(String::from("payload"));
    match req {
        Request::POST(path, body) => {
            assert_eq!(path, "/x");
            assert_eq!(body, "payload");
        }
        other => panic!("not a POST: {other:?}"),
    }
}

#[test]
fn add_body_leaves_other_requests_alone() {
    let mut req = Request::GET(String::from("/x"));
    req.add_body(String::from("payload"));
    match req {
        Request::GET(path) => assert_eq!(path, "/x"),
        other => panic!("not a GET: {other:?}"),
    }
    let mut req = Request::Unidentified;
    req.add_body(String::from("payload"));
    assert!(matches!(req, Request::Unidentified));
}

#[test]
fn equality_ignores_the_body() {
    assert_eq!(
        Request::POST(String::from("/x"), String::from("a")),
        Request::POST(String::from("/x"), String::from("b"))
    );
    assert_ne!(
        Request::POST(String::from("/x"), String::from("a")),
        Request::POST(String::from("/y"), String::from("a"))
    );
    assert_ne!(
        Request::GET(String::from("/x")),
        Request::POST(String::from("/x"), String::new())
    );
    assert_ne!(Request::GET(String::from("/x")), Request::Unidentified);
    assert_eq!(Request::Unidentified, Request::Unidentified);
}

#[test]
fn clone_keeps_the_request() {
    let req = Request::POST(String::from("/x"), String::from("body"));
    match req.clone() {
        Request::POST(path, body) => {
            assert_eq!(path, "/x");
            assert_eq!(body, "body");
        }
        other => panic!("not a POST: {other:?}"),
    }
    let error = ParseError::UnsupportedMethod(String::from("PUT"));
    assert_eq!(error.clone(), error);
}

#[test]
fn equal_requests_hash_alike() {
    let mut counts: HashMap<Request, u32> = HashMap::new();
    for request in [
        Request::POST(String::from("/x"), String::from("a")),
        Request::POST(String::from("/x"), String::from("b")),
        Request::GET(String::from("/x")),
        Request::GET(String::from("/x")),
        Request::POST(String::from("/y"), String::new()),
        Request::Unidentified,
    ] {
        *counts.entry(request).or_insert(0) += 1;
    }
    assert_eq!(counts.len(), 4);
    assert_eq!(
        counts[&Request::POST(String::from("/x"), String::from("c"))],
        2
    );
    assert_eq!(counts[&Request::GET(String::from("/x"))], 2);
    assert_eq!(counts[&Request::Unidentified], 1);
}
