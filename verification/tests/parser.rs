use mini_http::request::{HttpMethod, HttpProtocol, HttpRequest, ParseError};
use mini_http::text_map::TextMap;

fn parse_ok(text: &str) -> HttpRequest {
    match HttpRequest::parse(text) {
        Ok(request) => request,
        Err(e) => panic!("expected a request, got {:?}", e),
    }
}

fn parse_err(text: &str) -> ParseError {
    match HttpRequest::parse(text) {
        Ok(request) => panic!("expected an error, got {:?}", request),
        Err(e) => e,
    }
}

fn header<'a>(request: &'a HttpRequest, name: &str) -> Option<&'a str> {
    request.headers.get(name).map(|v| v.as_str())
}

#[test]
fn parses_minimal_get() {
    let request = parse_ok("GET / HTTP/1.1\r\n\r\n");
    assert_eq!(request.method, HttpMethod::Get);
    assert_eq!(request.resource, "/");
    assert_eq!(request.protocol, HttpProtocol::Http11);
    assert_eq!(request.headers.len(), 0);
    assert_eq!(request.body, "");
    assert!(request.params.is_none());
}

#[test]
fn parses_each_method() {
    assert_eq!(parse_ok("GET /a HTTP/1.1\r\n\r\n").method, HttpMethod::Get);
    assert_eq!(parse_ok("POST /a HTTP/1.1\r\n\r\n").method, HttpMethod::Post);
    assert_eq!(parse_ok("PUT /a HTTP/1.1\r\n\r\n").method, HttpMethod::Put);
    assert_eq!(parse_ok("DELETE /a HTTP/1.1\r\n\r\n").method, HttpMethod::Delete);
}

#[test]
fn parses_headers_and_body() {
    let request = parse_ok(
        "POST /files/a.txt HTTP/1.1\r\nHost: localhost:4221\r\nContent-Length: 11\r\n\r\nhello\r\nworld",
    );
    assert_eq!(request.method, HttpMethod::Post);
    assert_eq!(request.resource, "/files/a.txt");
    assert_eq!(request.headers.len(), 2);
    assert_eq!(header(&request, "Host"), Some("localhost:4221"));
    assert_eq!(header(&request, "Content-Length"), Some("11"));
    assert_eq!(request.body, "hello\r\nworld");
}

#[test]
fn header_value_keeps_what_follows_the_first_colon() {
    let request = parse_ok("GET / HTTP/1.1\r\nX: a:b:c\r\n\r\n");
    assert_eq!(header(&request, "X"), Some("a:b:c"));
}

#[test]
fn header_name_and_value_are_trimmed() {
    let request = parse_ok("GET / HTTP/1.1\r\n  User-Agent \t:\t curl/8.0  \r\n\r\n");
    assert_eq!(header(&request, "User-Agent"), Some("curl/8.0"));
    assert_eq!(request.headers.len(), 1);
}

#[test]
fn header_names_are_case_sensitive() {
    let request = parse_ok("GET / HTTP/1.1\r\nhost: a\r\nHost: b\r\n\r\n");
    assert_eq!(request.headers.len(), 2);
    assert_eq!(header(&request, "host"), Some("a"));
    assert_eq!(header(&request, "Host"), Some("b"));
    assert_eq!(header(&request, "HOST"), None);
}

#[test]
fn later_header_of_the_same_name_wins() {
    let request = parse_ok("GET / HTTP/1.1\r\nA: 1\r\nB: 2\r\nA: 3\r\n\r\n");
    assert_eq!(request.headers.len(), 2);
    assert_eq!(header(&request, "A"), Some("3"));
    assert_eq!(header(&request, "B"), Some("2"));
}

#[test]
fn empty_header_value_is_accepted() {
    let request = parse_ok("GET / HTTP/1.1\r\nX-Empty:\r\n\r\n");
    assert_eq!(header(&request, "X-Empty"), Some(""));
}

#[test]
fn headers_without_blank_line_are_accepted() {
    let request = parse_ok("GET / HTTP/1.1\r\nHost: a");
    assert_eq!(header(&request, "Host"), Some("a"));
    assert_eq!(request.body, "");
}

#[test]
fn request_line_alone_is_accepted() {
    let request = parse_ok("GET /x HTTP/1.1");
    assert_eq!(request.resource, "/x");
    assert_eq!(request.headers.len(), 0);
    assert_eq!(request.body, "");
}

#[test]
fn body_is_not_checked_against_content_length() {
    let request = parse_ok("POST / HTTP/1.1\r\nContent-Length: 2\r\n\r\nmuch longer");
    assert_eq!(request.body, "much longer");
}

#[test]
fn body_keeps_blank_lines() {
    let request = parse_ok("POST / HTTP/1.1\r\n\r\na\r\n\r\nb\r\n");
    assert_eq!(request.body, "a\r\n\r\nb\r\n");
}

#[test]
fn header_lines_after_the_blank_line_are_body() {
    let request = parse_ok("POST / HTTP/1.1\r\nA: 1\r\n\r\nB: 2\r\nno colon here");
    assert_eq!(request.headers.len(), 1);
    assert_eq!(request.body, "B: 2\r\nno colon here");
}

#[test]
fn tokens_may_be_separated_by_any_whitespace() {
    let request = parse_ok("  GET \t /a\u{a0}HTTP/1.1  \r\n\r\n");
    assert_eq!(request.method, HttpMethod::Get);
    assert_eq!(request.resource, "/a");
}

#[test]
fn tokens_after_the_third_are_ignored() {
    let request = parse_ok("GET /a HTTP/1.1 extra tokens\r\n\r\n");
    assert_eq!(request.resource, "/a");
}

#[test]
fn bare_line_feed_is_no_line_break() {
    let request = parse_ok("GET /a HTTP/1.1\nHost: b\r\n\r\n");
    assert_eq!(request.resource, "/a");
    assert_eq!(request.headers.len(), 0);
}

#[test]
fn missing_protocol_is_malformed_request_line() {
    assert_eq!(parse_err("GET /\r\n\r\n"), ParseError::MalformedRequestLine);
}

#[test]
fn empty_text_is_malformed_request_line() {
    assert_eq!(parse_err(""), ParseError::MalformedRequestLine);
    assert_eq!(parse_err("\r\n\r\n"), ParseError::MalformedRequestLine);
    assert_eq!(parse_err("GET"), ParseError::MalformedRequestLine);
}

#[test]
fn too_few_tokens_come_before_a_bad_method() {
    assert_eq!(parse_err("BREW /pot\r\n\r\n"), ParseError::MalformedRequestLine);
}

#[test]
fn unknown_method_is_unsupported() {
    assert_eq!(parse_err("PATCH / HTTP/1.1\r\n\r\n"), ParseError::UnsupportedMethod);
    assert_eq!(parse_err("get / HTTP/1.1\r\n\r\n"), ParseError::UnsupportedMethod);
    assert_eq!(parse_err("GETS / HTTP/1.1\r\n\r\n"), ParseError::UnsupportedMethod);
}

#[test]
fn bad_method_comes_before_bad_protocol() {
    assert_eq!(parse_err("PATCH / HTTP/2\r\n\r\n"), ParseError::UnsupportedMethod);
}

#[test]
fn other_protocol_is_unsupported() {
    assert_eq!(parse_err("GET / HTTP/1.0\r\n\r\n"), ParseError::UnsupportedProtocol);
    assert_eq!(parse_err("GET / http/1.1\r\n\r\n"), ParseError::UnsupportedProtocol);
    assert_eq!(parse_err("GET / HTTP/1.1x\r\n\r\n"), ParseError::UnsupportedProtocol);
}

#[test]
fn header_without_colon_is_malformed() {
    assert_eq!(parse_err("GET / HTTP/1.1\r\nHost localhost\r\n\r\n"), ParseError::MalformedHeader);
    assert_eq!(
        parse_err("GET / HTTP/1.1\r\nA: 1\r\nbroken\r\nB: 2\r\n\r\n"),
        ParseError::MalformedHeader
    );
}

#[test]
fn bad_request_line_comes_before_bad_header() {
    assert_eq!(parse_err("GET / HTTP/1.0\r\nbroken\r\n\r\n"), ParseError::UnsupportedProtocol);
}

#[test]
fn method_and_protocol_tokens() {
    assert_eq!(HttpMethod::parse("GET"), Some(HttpMethod::Get));
    assert_eq!(HttpMethod::parse("POST"), Some(HttpMethod::Post));
    assert_eq!(HttpMethod::parse("PUT"), Some(HttpMethod::Put));
    assert_eq!(HttpMethod::parse("DELETE"), Some(HttpMethod::Delete));
    assert_eq!(HttpMethod::parse("Get"), None);
    assert_eq!(HttpMethod::parse(""), None);
    assert_eq!(HttpMethod::Get.as_str(), "GET");
    assert_eq!(HttpMethod::Post.as_str(), "POST");
    assert_eq!(HttpMethod::Put.as_str(), "PUT");
    assert_eq!(HttpMethod::Delete.as_str(), "DELETE");
    assert_eq!(HttpProtocol::parse("HTTP/1.1"), Some(HttpProtocol::Http11));
    assert_eq!(HttpProtocol::parse("HTTP/1.0"), None);
    assert_eq!(HttpProtocol::Http11.as_str(), "HTTP/1.1");
}

#[test]
fn wire_text_of_a_request() {
    let mut headers = TextMap::new();
    headers.insert("Host".to_string(), "example.org".to_string());
    headers.insert("Accept".to_string(), "*/*".to_string());
    let request = HttpRequest {
        method: HttpMethod::Put,
        resource: "/items/7".to_string(),
        protocol: HttpProtocol::Http11,
        headers,
        body: "payload".to_string(),
        params: None,
    };
    assert_eq!(
        request.to_text(),
        "PUT /items/7 HTTP/1.1\r\nHost: example.org\r\nAccept: */*\r\n\r\npayload"
    );
}

#[test]
fn parsing_the_wire_text_gives_the_request_back() {
    let mut headers = TextMap::new();
    headers.insert("Host".to_string(), "example.org:80".to_string());
    headers.insert("X-Empty".to_string(), "".to_string());
    headers.insert("User-Agent".to_string(), "a b  c".to_string());
    let request = HttpRequest {
        method: HttpMethod::Delete,
        resource: "/a/b?c=d".to_string(),
        protocol: HttpProtocol::Http11,
        headers,
        body: "line one\r\n\r\nline three\r\n".to_string(),
        params: None,
    };
    let back = parse_ok(&request.to_text());
    assert_eq!(back.method, HttpMethod::Delete);
    assert_eq!(back.resource, "/a/b?c=d");
    assert_eq!(back.protocol, HttpProtocol::Http11);
    assert_eq!(back.headers.len(), 3);
    assert_eq!(header(&back, "Host"), Some("example.org:80"));
    assert_eq!(header(&back, "X-Empty"), Some(""));
    assert_eq!(header(&back, "User-Agent"), Some("a b  c"));
    assert_eq!(back.body, "line one\r\n\r\nline three\r\n");
    assert!(back.params.is_none());
}
