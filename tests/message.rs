use rust_web_server::{
    HeaderMap, HttpMethod, HttpRequest, HttpResponse, HttpStatus, HttpVersion, ParseError,
};

#[test]
fn request_to_string() {
    let request = HttpRequest::from_parts(
        HttpVersion::Http1_1,
        HttpMethod::GET,
        "/".to_string(),
        "".to_string(),
        HeaderMap::new(),
    );

    let expected = "GET / HTTP/1.1\r\n\r\n\r\n";

    assert_eq!(expected, request.to_string())
}

#[test]
fn response_to_string() {
    let mut response = HttpResponse::new();
    response.status(HttpStatus::ok());
    response.set_body("Hello world!".to_string());

    let expected = "HTTP/1.1 200 OK\r\n\r\nHello world!";

    assert_eq!(expected, response.to_string());
}

#[test]
fn bare_request_parses_for_each_method() {
    let methods = [
        ("GET", HttpMethod::GET),
        ("PUT", HttpMethod::PUT),
        ("POST", HttpMethod::POST),
        ("HEAD", HttpMethod::HEAD),
        ("OPTIONS", HttpMethod::OPTIONS),
    ];
    for (token, method) in methods {
        let text = format!("{} /a/b?c=d HTTP/1.1\r\n\r\n", token);
        let request = HttpRequest::from_str(&text).unwrap();
        assert_eq!(method, request.method());
        assert_eq!("/a/b?c=d", request.route().as_str());
        assert_eq!(HttpVersion::Http1_1, request.version());
        assert_eq!("", request.body().as_str());
        assert_eq!(None, request.header("Host"));
    }
}

#[test]
fn header_lines_fill_the_mapping() {
    let request =
        HttpRequest::from_str("POST /x HTTP/1.1\r\nHost: example\r\nAccept: a: b\r\n\r\nhello").unwrap();
    assert_eq!("example", request.header("Host").unwrap().as_str());
    assert_eq!("a: b", request.header("Accept").unwrap().as_str());
    assert_eq!("hello", request.body().as_str());
    assert_eq!(None, request.header("host"));
}

#[test]
fn later_duplicate_header_wins() {
    let request = HttpRequest::from_str("GET / HTTP/1.1\r\nK: one\r\nK: two\r\n\r\n").unwrap();
    assert_eq!("two", request.header("K").unwrap().as_str());
}

#[test]
fn body_keeps_later_blank_lines() {
    let request = HttpRequest::from_str("PUT /r HTTP/1.1\r\n\r\nab\r\n\r\ncd").unwrap();
    assert_eq!("ab\r\n\r\ncd", request.body().as_str());
}

#[test]
fn default_response_renders_status_line_only() {
    assert_eq!("HTTP/1.1 200 OK\r\n\r\n", HttpResponse::new().to_string());
}

#[test]
fn bad_request_response_with_body() {
    let mut response = HttpResponse::new();
    response.status(HttpStatus::bad_request());
    response.set_body("x".to_string());
    assert_eq!("HTTP/1.1 400 Bad Request\r\n\r\nx", response.to_string());
}

#[test]
fn response_headers_render_in_insertion_order() {
    let mut response = HttpResponse::new();
    response.set_header("A".to_string(), "1".to_string());
    response.set_header("B".to_string(), "2".to_string());
    response.set_header("A".to_string(), "3".to_string());
    response.set_body("z".to_string());
    assert_eq!("HTTP/1.1 200 OK\r\nA: 3\r\nB: 2\r\n\r\nz", response.to_string());
}

#[test]
fn parse_then_render_round_trip() {
    let request = HttpRequest::from_str("GET /index HTTP/1.1\r\nFoo: Bar\r\n\r\n").unwrap();
    let text = request.to_string();
    assert!(text.starts_with("GET /index HTTP/1.1\r\n"));
    assert!(text.contains("Foo: Bar\r\n"));
    assert_eq!("GET /index HTTP/1.1\r\nFoo: Bar\r\n\r\n", text);
    assert_eq!("Bar", request.header("Foo").unwrap().as_str());
}

#[test]
fn missing_separator_is_reported() {
    let r = HttpRequest::from_str("GET / HTTP/1.1\r\nHost: x\r\n");
    assert_eq!(ParseError::MissingSeparator, r.unwrap_err());
    assert_eq!(ParseError::MissingSeparator, HttpRequest::from_str("").unwrap_err());
}

#[test]
fn unsupported_version_is_reported() {
    let r = HttpRequest::from_str("GET / HTTP/2.0\r\n\r\n");
    assert_eq!(ParseError::UnsupportedVersion, r.unwrap_err());
}

#[test]
fn malformed_start_line_is_reported() {
    for text in ["GET /\r\n\r\n", "GET / HTTP/1.1 extra\r\n\r\n", "GET  HTTP/1.1\r\n\r\n", "\r\n\r\n"] {
        assert_eq!(ParseError::MalformedStartLine, HttpRequest::from_str(text).unwrap_err());
    }
}

#[test]
fn unknown_method_is_reported() {
    for text in ["get / HTTP/1.1\r\n\r\n", "DELETE / HTTP/1.1\r\n\r\n"] {
        assert_eq!(ParseError::UnknownMethod, HttpRequest::from_str(text).unwrap_err());
    }
}

#[test]
fn malformed_header_line_is_reported() {
    let r = HttpRequest::from_str("GET / HTTP/1.1\r\nHost:x\r\n\r\n");
    assert_eq!(ParseError::MalformedHeaderLine, r.unwrap_err());
}

#[test]
fn method_and_version_tokens() {
    assert_eq!("OPTIONS", HttpMethod::OPTIONS.as_str());
    assert_eq!(Ok(HttpMethod::HEAD), HttpMethod::from_str("HEAD"));
    assert_eq!(Err(ParseError::UnknownMethod), HttpMethod::from_str("Head"));
    assert_eq!("HTTP/1.1", HttpVersion::Http1_1.as_str());
    assert_eq!(Err(ParseError::UnsupportedVersion), HttpVersion::from_str("HTTP/1.0"));
}

#[test]
fn header_map_insert_and_get() {
    let mut headers = HeaderMap::new();
    assert_eq!(0, headers.len());
    headers.insert("Content-Length".to_string(), "11".to_string());
    headers.insert("Content-Length".to_string(), "12".to_string());
    assert_eq!(1, headers.len());
    assert_eq!("12", headers.get("Content-Length").unwrap().as_str());
    assert_eq!(None, headers.get("Content-Type"));
}

#[test]
fn parse_from_bytes_replaces_invalid_utf8() {
    let mut raw: Vec<u8> = b"POST /up HTTP/1.1\r\nX: y\r\n\r\n".to_vec();
    raw.push(0xff);
    raw.push(b'!');
    let request = HttpRequest::parse(&raw).unwrap();
    assert_eq!(HttpMethod::POST, request.method());
    assert_eq!("/up", request.route().as_str());
    assert_eq!("\u{FFFD}!", request.body().as_str());
    assert_eq!("y", request.header("X").unwrap().as_str());
}

#[test]
fn parse_from_bytes_reports_errors() {
    assert_eq!(ParseError::MissingSeparator, HttpRequest::parse(b"GET / HTTP/1.1\r\n").unwrap_err());
    assert_eq!(ParseError::UnsupportedVersion, HttpRequest::parse(b"GET / HTTP/2.0\r\n\r\n").unwrap_err());
}

#[test]
fn request_renders_its_own_headers() {
    let mut headers = HeaderMap::new();
    headers.insert("A".to_string(), "1".to_string());
    headers.insert("B".to_string(), "2".to_string());
    let request = HttpRequest::from_parts(
        HttpVersion::Http1_1,
        HttpMethod::POST,
        "/p".to_string(),
        "body".to_string(),
        headers,
    );
    let text = request.to_string();
    assert_eq!("POST /p HTTP/1.1\r\nA: 1\r\nB: 2\r\n\r\nbody", text);

    let back = HttpRequest::from_str(&text).unwrap();
    assert_eq!(HttpMethod::POST, back.method());
    assert_eq!("/p", back.route().as_str());
    assert_eq!("1", back.header("A").unwrap().as_str());
    assert_eq!("2", back.header("B").unwrap().as_str());
    assert_eq!("body", back.body().as_str());
}

#[test]
fn new_parses_owned_text() {
    let request = HttpRequest::new("HEAD /h HTTP/1.1\r\nX: 1\r\n\r\n".to_string()).unwrap();
    assert_eq!(HttpMethod::HEAD, request.method());
    assert_eq!("1", request.header("X").unwrap().as_str());
    assert_eq!(
        ParseError::UnknownMethod,
        HttpRequest::new("PATCH / HTTP/1.1\r\n\r\n".to_string()).unwrap_err()
    );
}
