use http_server::bytes::decimal_digits;
use http_server::request::{HTTPRequest, Method, ParseError};
use http_server::response::{base_response, send, send_file_content, StatusCode};
use http_server::router::{
    base_directory, handle_read, read_file_response, route_request, write_file_response, Action,
    FileRead, BUFFER_SIZE,
};

fn buffer_of(text: &[u8]) -> ([u8; BUFFER_SIZE], usize) {
    let mut buffer = [0u8; BUFFER_SIZE];
    buffer[..text.len()].copy_from_slice(text);
    (buffer, text.len())
}

fn handle(text: &[u8], base: &[u8]) -> Action {
    let (buffer, n) = buffer_of(text);
    handle_read(&buffer, n, base)
}

fn sent(action: Action) -> Vec<u8> {
    match action {
        Action::Send(bytes) => bytes,
        other => panic!("expected a reply, got {:?}", other),
    }
}

#[test]
fn parses_request_line_headers_and_body() {
    let req = HTTPRequest::new(b"POST /files/a HTTP/1.1\r\nHost: x\r\nUser-Agent: curl/8\r\n\r\nhello")
        .unwrap();
    assert_eq!(req.method, Method::Post);
    assert_eq!(req.path, b"/files/a".to_vec());
    assert_eq!(req.version, b"HTTP/1.1".to_vec());
    assert_eq!(req.headers.len(), 2);
    assert_eq!(req.headers[0].name, b"Host".to_vec());
    assert_eq!(req.headers[0].content, b"x".to_vec());
    assert_eq!(req.headers[1].name, b"User-Agent".to_vec());
    assert_eq!(req.headers[1].content, b"curl/8".to_vec());
    assert_eq!(req.content, b"hello".to_vec());
}

#[test]
fn body_keeps_embedded_line_breaks() {
    let req = HTTPRequest::new(b"POST /files/a HTTP/1.1\r\nA: b\r\n\r\nline1\r\nline2\n\nend").unwrap();
    assert_eq!(req.content, b"line1\r\nline2\n\nend".to_vec());
}

#[test]
fn header_value_keeps_later_separators() {
    let req = HTTPRequest::new(b"GET / HTTP/1.1\r\nX: a: b\r\n\r\n").unwrap();
    assert_eq!(req.headers[0].name, b"X".to_vec());
    assert_eq!(req.headers[0].content, b"a: b".to_vec());
}

#[test]
fn trailing_zero_bytes_are_dropped() {
    let req = HTTPRequest::new(b"GET /echo/x HTTP/1.1\r\n\r\nbody\0\0\0").unwrap();
    assert_eq!(req.content, b"body".to_vec());
}

#[test]
fn missing_tokens_default_to_empty() {
    let req = HTTPRequest::new(b"GET\r\n\r\n").unwrap();
    assert_eq!(req.method, Method::Get);
    assert_eq!(req.path, Vec::<u8>::new());
    assert_eq!(req.version, Vec::<u8>::new());
    let req = HTTPRequest::new(b"DELETE /x\r\n\r\n").unwrap();
    assert_eq!(req.method, Method::Unknown);
    assert_eq!(req.path, b"/x".to_vec());
    assert_eq!(req.version, Vec::<u8>::new());
}

#[test]
fn no_blank_line_means_empty_body() {
    let req = HTTPRequest::new(b"GET / HTTP/1.1\nHost: h").unwrap();
    assert_eq!(req.headers.len(), 1);
    assert_eq!(req.content, Vec::<u8>::new());
}

#[test]
fn empty_input_is_an_error() {
    assert_eq!(HTTPRequest::new(b"").err(), Some(ParseError::Empty));
    assert_eq!(HTTPRequest::new(&[0u8; 16]).err(), Some(ParseError::Empty));
}

#[test]
fn header_without_separator_is_an_error() {
    assert_eq!(
        HTTPRequest::new(b"GET / HTTP/1.1\r\nbroken\r\n\r\n").err(),
        Some(ParseError::MalformedHeader)
    );
}

#[test]
fn response_has_exact_layout() {
    let r = base_response(b"HTTP/1.1", StatusCode::Created, b"", b"text/plain");
    assert_eq!(r, b"HTTP/1.1 201 Created\r\nContent-Type: text/plain\r\nContent-Length: 0\r\n\r\n".to_vec());
    let r = send(b"HTTP/1.1", StatusCode::NotFound, b"");
    assert_eq!(r, b"HTTP/1.1 404 Not Found\r\nContent-Type: text/plain\r\nContent-Length: 0\r\n\r\n".to_vec());
    let r = send_file_content(b"HTTP/1.1", StatusCode::Success, b"abc");
    assert_eq!(
        r,
        b"HTTP/1.1 200 Ok\r\nContent-Type: application/octet-stream\r\nContent-Length: 3\r\n\r\nabc".to_vec()
    );
}

#[test]
fn content_length_counts_bytes() {
    let body = "h\u{e9}llo".as_bytes();
    let r = send(b"HTTP/1.1", StatusCode::Success, body);
    let mut expected = b"HTTP/1.1 200 Ok\r\nContent-Type: text/plain\r\nContent-Length: 6\r\n\r\n".to_vec();
    expected.extend_from_slice(body);
    assert_eq!(r, expected);
}

#[test]
fn decimal_digits_of_numbers() {
    assert_eq!(decimal_digits(0), b"0".to_vec());
    assert_eq!(decimal_digits(7), b"7".to_vec());
    assert_eq!(decimal_digits(10), b"10".to_vec());
    assert_eq!(decimal_digits(4096), b"4096".to_vec());
}

#[test]
fn echo_returns_path_suffix() {
    let reply = sent(handle(b"GET /echo/abc HTTP/1.1\r\nHost: x\r\n\r\n", b"/tmp"));
    assert_eq!(reply, b"HTTP/1.1 200 Ok\r\nContent-Type: text/plain\r\nContent-Length: 3\r\n\r\nabc".to_vec());
}

#[test]
fn echo_suffix_is_verbatim() {
    let reply = sent(handle(b"GET /echo/a%20b/c HTTP/1.1\r\n\r\n", b""));
    assert_eq!(reply, b"HTTP/1.1 200 Ok\r\nContent-Type: text/plain\r\nContent-Length: 7\r\n\r\na%20b/c".to_vec());
}

#[test]
fn echo_with_empty_suffix() {
    let reply = sent(handle(b"GET /echo/ HTTP/1.1\r\n\r\n", b""));
    assert_eq!(reply, b"HTTP/1.1 200 Ok\r\nContent-Type: text/plain\r\nContent-Length: 0\r\n\r\n".to_vec());
}

#[test]
fn file_get_reads_under_base_directory() {
    let action = handle(b"GET /files/name HTTP/1.1\r\n\r\n", b"/srv/data");
    assert_eq!(
        action,
        Action::ReadFile { path: b"/srv/data/name".to_vec(), version: b"HTTP/1.1".to_vec() }
    );
}

#[test]
fn file_post_writes_body() {
    let action = handle(b"POST /files/name HTTP/1.1\r\nContent-Length: 5\r\n\r\n12345", b"/srv/data");
    assert_eq!(
        action,
        Action::WriteFile {
            path: b"/srv/data/name".to_vec(),
            contents: b"12345".to_vec(),
            version: b"HTTP/1.1".to_vec(),
        }
    );
}

#[test]
fn post_then_get_round_trips_body() {
    let post = handle(b"POST /files/rt HTTP/1.1\r\n\r\npayload", b"/d");
    let get = handle(b"GET /files/rt HTTP/1.1\r\n\r\n", b"/d");
    let (stored_at, stored) = match post {
        Action::WriteFile { path, contents, .. } => (path, contents),
        other => panic!("expected a write, got {:?}", other),
    };
    let (read_from, version) = match get {
        Action::ReadFile { path, version } => (path, version),
        other => panic!("expected a read, got {:?}", other),
    };
    assert_eq!(stored_at, read_from);
    let reply = read_file_response(&version, FileRead::Contents(stored));
    assert_eq!(
        reply,
        b"HTTP/1.1 200 Ok\r\nContent-Type: application/octet-stream\r\nContent-Length: 7\r\n\r\npayload".to_vec()
    );
}

#[test]
fn missing_file_is_not_found() {
    let reply = read_file_response(b"HTTP/1.1", FileRead::Missing);
    assert_eq!(reply, b"HTTP/1.1 404 Not Found\r\nContent-Type: text/plain\r\nContent-Length: 0\r\n\r\n".to_vec());
}

#[test]
fn failed_file_io_is_server_error() {
    let expected =
        b"HTTP/1.1 500 Internal Server Error\r\nContent-Type: text/plain\r\nContent-Length: 0\r\n\r\n".to_vec();
    assert_eq!(read_file_response(b"HTTP/1.1", FileRead::Failed), expected);
    assert_eq!(write_file_response(b"HTTP/1.1", false), expected);
}

#[test]
fn stored_file_is_created() {
    assert_eq!(
        write_file_response(b"HTTP/1.1", true),
        b"HTTP/1.1 201 Created\r\nContent-Type: text/plain\r\nContent-Length: 0\r\n\r\n".to_vec()
    );
}

#[test]
fn other_method_on_files_is_not_found() {
    let reply = sent(handle(b"DELETE /files/name HTTP/1.1\r\n\r\n", b"/d"));
    assert_eq!(reply, b"HTTP/1.1 404 Not Found\r\nContent-Type: text/plain\r\nContent-Length: 0\r\n\r\n".to_vec());
}

#[test]
fn parent_segment_in_file_name_is_refused() {
    let reply = sent(handle(b"GET /files/../etc/passwd HTTP/1.1\r\n\r\n", b"/d"));
    assert_eq!(reply, b"HTTP/1.1 404 Not Found\r\nContent-Type: text/plain\r\nContent-Length: 0\r\n\r\n".to_vec());
    let reply = sent(handle(b"POST /files/a/.. HTTP/1.1\r\n\r\nx", b"/d"));
    assert_eq!(reply, b"HTTP/1.1 404 Not Found\r\nContent-Type: text/plain\r\nContent-Length: 0\r\n\r\n".to_vec());
    let ok = handle(b"GET /files/a..b HTTP/1.1\r\n\r\n", b"/d");
    assert_eq!(ok, Action::ReadFile { path: b"/d/a..b".to_vec(), version: b"HTTP/1.1".to_vec() });
}

#[test]
fn root_is_ok_whatever_the_headers() {
    let expected = b"HTTP/1.1 200 Ok\r\nContent-Type: text/plain\r\nContent-Length: 0\r\n\r\n".to_vec();
    assert_eq!(sent(handle(b"GET / HTTP/1.1\r\n\r\n", b"")), expected);
    assert_eq!(sent(handle(b"GET / HTTP/1.1\r\nHost: a\r\nAccept: */*\r\n\r\n", b"")), expected);
}

#[test]
fn header_is_reflected_ignoring_case() {
    let reply = sent(handle(b"GET /X-Custom-Header HTTP/1.1\r\nx-custom-header: value123\r\n\r\n", b""));
    assert_eq!(
        reply,
        b"HTTP/1.1 200 Ok\r\nContent-Type: text/plain\r\nContent-Length: 8\r\n\r\nvalue123".to_vec()
    );
    let reply = sent(handle(b"GET /user-agent HTTP/1.1\r\nHost: h\r\nUser-Agent: a\r\nUSER-AGENT: b\r\n\r\n", b""));
    assert_eq!(reply, b"HTTP/1.1 200 Ok\r\nContent-Type: text/plain\r\nContent-Length: 1\r\n\r\na".to_vec());
}

#[test]
fn absent_header_is_not_found() {
    let reply = sent(handle(b"GET /X-Custom-Header HTTP/1.1\r\nHost: h\r\n\r\n", b""));
    assert_eq!(reply, b"HTTP/1.1 404 Not Found\r\nContent-Type: text/plain\r\nContent-Length: 0\r\n\r\n".to_vec());
}

#[test]
fn empty_request_line_gets_a_reply() {
    let reply = sent(handle(b"\r\nHost: h\r\n\r\n", b""));
    assert_eq!(reply, b"HTTP/1.1 404 Not Found\r\nContent-Type: text/plain\r\nContent-Length: 0\r\n\r\n".to_vec());
}

#[test]
fn missing_version_defaults_to_http_1_1() {
    let reply = sent(handle(b"GET /echo/x\r\n\r\n", b""));
    assert_eq!(reply, b"HTTP/1.1 200 Ok\r\nContent-Type: text/plain\r\nContent-Length: 1\r\n\r\nx".to_vec());
    let action = handle(b"GET /files/a\r\n\r\n", b"/d");
    assert_eq!(action, Action::ReadFile { path: b"/d/a".to_vec(), version: b"HTTP/1.1".to_vec() });
    let reply = sent(handle(b"\r\n\r\n", b""));
    assert_eq!(reply, b"HTTP/1.1 404 Not Found\r\nContent-Type: text/plain\r\nContent-Length: 0\r\n\r\n".to_vec());
}

#[test]
fn nothing_read_closes() {
    assert_eq!(handle(b"", b""), Action::Close);
    let (buffer, _) = buffer_of(b"GET / HTTP/1.1\r\n\r\n");
    assert_eq!(handle_read(&buffer, 0, b""), Action::Close);
}

#[test]
fn unparseable_request_closes() {
    assert_eq!(handle(b"GET / HTTP/1.1\r\nno separator\r\n\r\n", b""), Action::Close);
}

#[test]
fn only_read_bytes_are_parsed() {
    let (buffer, _) = buffer_of(b"GET /echo/abcdef HTTP/1.1\r\n\r\n");
    let reply = sent(handle_read(&buffer, 13, b""));
    assert_eq!(reply, b"HTTP/1.1 200 Ok\r\nContent-Type: text/plain\r\nContent-Length: 3\r\n\r\nabc".to_vec());
}

#[test]
fn routing_a_parsed_request() {
    let req = HTTPRequest::new(b"GET /echo/hi HTTP/1.0\r\n\r\n").unwrap();
    let reply = sent(route_request(&req, b""));
    assert_eq!(reply, b"HTTP/1.0 200 Ok\r\nContent-Type: text/plain\r\nContent-Length: 2\r\n\r\nhi".to_vec());
}

#[test]
fn distinct_requests_get_their_own_replies() {
    let replies: Vec<(usize, Vec<u8>)> = (0..8)
        .map(|i| {
            let text = format!("GET /echo/payload{} HTTP/1.1\r\n\r\n", i);
            (i, sent(handle(text.as_bytes(), b"")))
        })
        .collect();
    for (i, reply) in replies {
        let body = format!("payload{}", i);
        let expected = format!(
            "HTTP/1.1 200 Ok\r\nContent-Type: text/plain\r\nContent-Length: {}\r\n\r\n{}",
            body.len(),
            body
        );
        assert_eq!(reply, expected.into_bytes());
    }
}

#[test]
fn base_directory_follows_flag() {
    let args = vec![b"server".to_vec(), b"--directory".to_vec(), b"/tmp/files".to_vec()];
    assert_eq!(base_directory(&args), b"/tmp/files".to_vec());
    let args = vec![b"server".to_vec()];
    assert_eq!(base_directory(&args), Vec::<u8>::new());
    let args = vec![b"server".to_vec(), b"--directory".to_vec()];
    assert_eq!(base_directory(&args), Vec::<u8>::new());
}
