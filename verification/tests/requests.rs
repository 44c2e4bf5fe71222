use minihttp::http::headers::parse_headers;
use minihttp::http::method::Method;
use minihttp::http::query::Value;
use minihttp::http::request::{get_next_word, ParseError, Request};

fn error_of(buffer: &[u8]) -> ParseError {
    match Request::parse(buffer) {
        Err(error) => error,
        Ok(request) => panic!("parsed as {:?}", request),
    }
}

#[test]
fn parses_request_line_with_repeated_query_keys() {
    let buffer = b"GET /a/b?x=1&x=2&y=3 HTTP/1.1\r\n\r\n";
    let request = Request::parse(buffer).unwrap();
    assert_eq!(request.path(), "/a/b");
    assert_eq!(*request.method(), Method::GET);
    let query = request.query().unwrap();
    match query.get("x") {
        Some(Value::Multiple(values)) => assert_eq!(values, &vec!["1", "2"]),
        other => panic!("unexpected value for x: {:?}", other),
    }
    match query.get("y") {
        Some(Value::Single(value)) => assert_eq!(*value, "3"),
        other => panic!("unexpected value for y: {:?}", other),
    }
    assert!(query.get("z").is_none());
    assert!(request.headers().is_empty());
    assert_eq!(request.headers().len(), 0);
}

#[test]
fn rejects_unknown_protocol() {
    assert_eq!(error_of(b"GET / FOO/9.9\r\n\r\n"), ParseError::InvalidProtocol);
    assert_eq!(error_of(b"GET / HTTP/2.0\r\n\r\n"), ParseError::InvalidProtocol);
    assert_eq!(error_of(b"GET / http/1.1\r\n\r\n"), ParseError::InvalidProtocol);
    assert_eq!(error_of(b"GET / HTTP/1.1x\r\n\r\n"), ParseError::InvalidProtocol);
    assert_eq!(error_of(b"GET /  HTTP/1.1\r\n\r\n"), ParseError::InvalidProtocol);
}

#[test]
fn accepts_both_protocols() {
    assert!(Request::parse(b"GET / HTTP/1.1\r\n\r\n").is_ok());
    assert!(Request::parse(b"GET / HTTP/1.0\r\n\r\n").is_ok());
}

#[test]
fn rejects_bytes_that_are_not_utf8() {
    assert_eq!(error_of(b"GET /\xff HTTP/1.1\r\n\r\n"), ParseError::InvalidEncoding);
    assert_eq!(error_of(b"\xc3\x28"), ParseError::InvalidEncoding);
    assert_eq!(error_of(b"\xff"), ParseError::InvalidEncoding);
    assert_eq!(error_of(b"GET / FOO/9.9\r\n\xed\xa0\x80\r\n"), ParseError::InvalidEncoding);
    assert_eq!(error_of(b"FETCH / HTTP/1.1\r\nbroken\r\n\r\n\xc0\x80"), ParseError::InvalidEncoding);
}

#[test]
fn rejects_request_line_with_a_missing_token() {
    assert_eq!(error_of(b""), ParseError::InvalidRequest);
    assert_eq!(error_of(b"GET"), ParseError::InvalidRequest);
    assert_eq!(error_of(b"GET "), ParseError::InvalidRequest);
    assert_eq!(error_of(b"GET /"), ParseError::InvalidRequest);
    assert_eq!(error_of(b"GET / "), ParseError::InvalidRequest);
    assert_eq!(error_of(b"GET / HTTP/1.1"), ParseError::InvalidRequest);
    assert_eq!(error_of(b"FETCH / FOO"), ParseError::InvalidRequest);
}

#[test]
fn rejects_unknown_method() {
    assert_eq!(error_of(b"FETCH / HTTP/1.1\r\n\r\n"), ParseError::InvalidMethod);
    assert_eq!(error_of(b"get / HTTP/1.1\r\n\r\n"), ParseError::InvalidMethod);
    assert_eq!(error_of(b" / HTTP/1.1\r\n\r\n"), ParseError::InvalidMethod);
}

#[test]
fn protocol_is_checked_before_method_and_method_before_headers() {
    assert_eq!(error_of(b"FETCH / FOO/9.9\r\nbroken\r\n\r\n"), ParseError::InvalidProtocol);
    assert_eq!(error_of(b"FETCH / HTTP/1.1\r\nbroken\r\n\r\n"), ParseError::InvalidMethod);
    assert_eq!(error_of(b"GET / HTTP/1.1\r\nbroken\r\n\r\n"), ParseError::InvalidRequest);
}

#[test]
fn reads_every_method() {
    let cases: Vec<(&[u8], Method)> = vec![
        (b"GET / HTTP/1.1\r\n\r\n", Method::GET),
        (b"POST / HTTP/1.1\r\n\r\n", Method::POST),
        (b"PUT / HTTP/1.1\r\n\r\n", Method::PUT),
        (b"DELETE / HTTP/1.1\r\n\r\n", Method::DELETE),
        (b"PATCH / HTTP/1.1\r\n\r\n", Method::PATCH),
        (b"HEAD / HTTP/1.1\r\n\r\n", Method::HEAD),
        (b"OPTIONS / HTTP/1.1\r\n\r\n", Method::OPTIONS),
        (b"CONNECT / HTTP/1.1\r\n\r\n", Method::CONNECT),
        (b"TRACE / HTTP/1.1\r\n\r\n", Method::TRACE),
    ];
    for (buffer, method) in cases {
        let request = Request::parse(buffer).unwrap();
        assert_eq!(*request.method(), method);
        assert_eq!(request.path(), "/");
    }
}

#[test]
fn reads_header_lines_after_the_request_line() {
    let buffer = b"GET / HTTP/1.1\r\nHost: example.com\r\nX-Test: a\r\n\r\n";
    let request = Request::parse(buffer).unwrap();
    let headers = request.headers();
    assert_eq!(headers.len(), 2);
    assert!(!headers.is_empty());
    assert_eq!(headers.get("Host"), Some("example.com"));
    assert_eq!(headers.get("X-Test"), Some("a"));
    assert_eq!(headers.get("\nHost"), None);
    assert_eq!(headers.get("Accept"), None);
}

#[test]
fn reads_header_block_on_its_own() {
    let headers = parse_headers("Host: example.com\r\nX-Test: a\r\n\r\n").unwrap();
    assert_eq!(headers.len(), 2);
    assert_eq!(headers.get("Host"), Some("example.com"));
    assert_eq!(headers.get("X-Test"), Some("a"));
}

#[test]
fn header_value_is_all_that_follows_the_first_separator() {
    let headers = parse_headers("A: b: c\r\nB:  two blanks \r\nC: \r\nD::: x\r\n\r\n").unwrap();
    assert_eq!(headers.len(), 4);
    assert_eq!(headers.get("A"), Some("b: c"));
    assert_eq!(headers.get("B"), Some(" two blanks "));
    assert_eq!(headers.get("C"), Some(""));
    assert_eq!(headers.get("D::"), Some("x"));
}

#[test]
fn later_header_overwrites_earlier_one_of_the_same_name() {
    let headers = parse_headers("A: 1\r\nB: 2\r\nA: 3\r\n\r\n").unwrap();
    assert_eq!(headers.len(), 2);
    assert_eq!(headers.get("A"), Some("3"));
    assert_eq!(headers.get("B"), Some("2"));
}

#[test]
fn header_names_keep_their_case() {
    let headers = parse_headers("Host: a\r\nhost: b\r\n\r\n").unwrap();
    assert_eq!(headers.len(), 2);
    assert_eq!(headers.get("Host"), Some("a"));
    assert_eq!(headers.get("host"), Some("b"));
    assert_eq!(headers.get("HOST"), None);
}

#[test]
fn header_block_ends_at_the_first_empty_line_or_at_the_end() {
    let with_body = parse_headers("A: 1\r\n\r\nnot a header\r\nB: 2\r\n").unwrap();
    assert_eq!(with_body.len(), 1);
    assert_eq!(with_body.get("A"), Some("1"));
    let open_end = parse_headers("A: 1\r\nB: 2").unwrap();
    assert_eq!(open_end.len(), 2);
    assert_eq!(open_end.get("B"), Some("2"));
    let closed_end = parse_headers("A: 1\r\nB: 2\r\n").unwrap();
    assert_eq!(closed_end.len(), 2);
    assert!(parse_headers("").unwrap().is_empty());
    assert!(parse_headers("\r\nA: 1\r\n").unwrap().is_empty());
}

#[test]
fn header_line_without_separator_fails_the_block() {
    assert!(parse_headers("A: 1\r\nbroken\r\nB: 2\r\n\r\n").is_none());
    assert!(parse_headers("A:1\r\n\r\n").is_none());
    assert!(parse_headers("A :1\r\n").is_none());
    assert!(parse_headers("\nA: 1").is_some());
    assert!(parse_headers("\n").is_none());
    assert_eq!(error_of(b"GET / HTTP/1.1\r\nHost example.com\r\n\r\n"), ParseError::InvalidRequest);
    assert_eq!(error_of(b"GET / HTTP/1.1\r\nA: 1\r\nHost\r\n\r\n"), ParseError::InvalidRequest);
}

#[test]
fn body_after_the_empty_line_is_not_read() {
    let buffer = b"POST /submit HTTP/1.1\r\nContent-Length: 9\r\n\r\nno header";
    let request = Request::parse(buffer).unwrap();
    assert_eq!(*request.method(), Method::POST);
    assert_eq!(request.path(), "/submit");
    assert_eq!(request.headers().len(), 1);
    assert_eq!(request.headers().get("Content-Length"), Some("9"));
}

#[test]
fn request_line_alone_is_a_request() {
    let request = Request::parse(b"GET /only HTTP/1.1\r\n").unwrap();
    assert_eq!(request.path(), "/only");
    assert!(request.query().is_none());
    assert!(request.headers().is_empty());
    let bare = Request::parse(b"GET /only HTTP/1.1\r").unwrap();
    assert_eq!(bare.path(), "/only");
    let blank = Request::parse(b"GET /only HTTP/1.1 ").unwrap();
    assert_eq!(blank.path(), "/only");
}

#[test]
fn carriage_return_ends_a_token_as_a_blank_does() {
    let request = Request::parse(b"GET\r/x\rHTTP/1.0\r\nA: 1\r\n\r\n").unwrap();
    assert_eq!(*request.method(), Method::GET);
    assert_eq!(request.path(), "/x");
    assert_eq!(request.headers().get("A"), Some("1"));
}

#[test]
fn target_is_cut_at_its_first_question_mark() {
    let request = Request::parse(b"GET /p?a=1?b=2 HTTP/1.1\r\n\r\n").unwrap();
    assert_eq!(request.path(), "/p");
    match request.query().unwrap().get("a") {
        Some(Value::Single(value)) => assert_eq!(*value, "1?b=2"),
        other => panic!("unexpected value: {:?}", other),
    }
    let empty = Request::parse(b"GET /p? HTTP/1.1\r\n\r\n").unwrap();
    assert_eq!(empty.path(), "/p");
    match empty.query().unwrap().get("") {
        Some(Value::Single(value)) => assert_eq!(*value, ""),
        other => panic!("unexpected value: {:?}", other),
    }
    let none = Request::parse(b"GET /p HTTP/1.1\r\n\r\n").unwrap();
    assert!(none.query().is_none());
}

#[test]
fn text_beyond_ascii_is_kept_whole() {
    let buffer = "GET /caf\u{e9}/\u{65e5}\u{672c}?q=\u{1f600} HTTP/1.1\r\nX-N\u{e4}me: v\u{e4}lue\r\n\r\n";
    let request = Request::parse(buffer.as_bytes()).unwrap();
    assert_eq!(request.path(), "/caf\u{e9}/\u{65e5}\u{672c}");
    match request.query().unwrap().get("q") {
        Some(Value::Single(value)) => assert_eq!(*value, "\u{1f600}"),
        other => panic!("unexpected value: {:?}", other),
    }
    assert_eq!(request.headers().get("X-N\u{e4}me"), Some("v\u{e4}lue"));
}

#[test]
fn try_from_reads_as_parse_does() {
    let buffer: &[u8] = b"PUT /a?b=c HTTP/1.0\r\nK: v\r\n\r\n";
    let request = Request::try_from(buffer).unwrap();
    assert_eq!(*request.method(), Method::PUT);
    assert_eq!(request.path(), "/a");
    assert_eq!(request.headers().get("K"), Some("v"));
    let broken: &[u8] = b"PUT /a?b=c HTTP/3\r\n\r\n";
    match Request::try_from(broken) {
        Err(error) => assert_eq!(error, ParseError::InvalidProtocol),
        Ok(_) => panic!("parsed"),
    }
}

#[test]
fn next_word_ends_at_the_first_blank_or_carriage_return() {
    assert_eq!(get_next_word("GET / HTTP/1.1"), Some(("GET", "/ HTTP/1.1")));
    assert_eq!(get_next_word("HTTP/1.1\r\nHost: x"), Some(("HTTP/1.1", "\nHost: x")));
    assert_eq!(get_next_word("a\r b"), Some(("a", " b")));
    assert_eq!(get_next_word(" x"), Some(("", "x")));
    assert_eq!(get_next_word("x "), Some(("x", "")));
    assert_eq!(get_next_word("\r"), Some(("", "")));
    assert_eq!(get_next_word("caf\u{e9} \u{65e5}"), Some(("caf\u{e9}", "\u{65e5}")));
    assert_eq!(get_next_word("no-delimiter\n\there"), None);
    assert_eq!(get_next_word(""), None);
}

#[test]
fn each_error_has_its_message() {
    assert_eq!(ParseError::InvalidRequest.message(), "Invalid Request");
    assert_eq!(ParseError::InvalidEncoding.message(), "Invalid Encoding");
    assert_eq!(ParseError::InvalidProtocol.message(), "Invalid Protocol");
    assert_eq!(ParseError::InvalidMethod.message(), "Invalid Method");
    assert_eq!(ParseError::InvalidMethod.to_string(), String::from("Invalid Method"));
}

#[test]
fn header_fields_can_be_walked() {
    let headers = parse_headers("B: 2\r\nA: 1\r\nB: 3\r\nC: \r\n\r\nD: 4\r\n").unwrap();
    let mut fields = headers.fields();
    fields.sort();
    assert_eq!(fields, vec![("A", "1"), ("B", "3"), ("C", "")]);
    assert_eq!(fields.len(), headers.len());
    for (name, value) in headers.fields() {
        assert_eq!(headers.get(name), Some(value));
    }
    assert!(parse_headers("").unwrap().fields().is_empty());
    let buffer = b"GET / HTTP/1.1\r\nHost: example.com\r\nX-Test: a\r\n\r\n";
    let request = Request::parse(buffer).unwrap();
    let mut walked = request.headers().fields();
    walked.sort();
    assert_eq!(walked, vec![("Host", "example.com"), ("X-Test", "a")]);
}
