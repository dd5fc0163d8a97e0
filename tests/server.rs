use std::collections::HashMap;
use std::io::Read;

use http_server::bytes::{decimal_bytes, parse_usize_bytes};
use http_server::connection::{Action, Config, Connection};
use http_server::request::{parse_request, ParseOutcome};
use http_server::response::HttpResponse;
use http_server::router::{
    agent_handler, echo_handler, file_handler, hidden_name, route_request, FileStep, Route,
};

const WRITABLE: Config = Config { has_directory: true, allow_write: true };

fn text(b: &[u8]) -> String {
    String::from_utf8_lossy(b).into_owned()
}

/// Feeds `raw` to the connection and runs it to the next `Send`, serving
/// file operations from `files` and the landing page from `landing`.
fn serve_one(
    conn: &mut Connection,
    files: &mut HashMap<Vec<u8>, Vec<u8>>,
    landing: Option<&[u8]>,
) -> (Vec<u8>, bool) {
    let mut action = conn.next();
    loop {
        action = match action {
            Action::Send(bytes, close) => return (bytes, close),
            Action::Receive => conn.input_ended(),
            Action::ReadLanding => conn.landing_loaded(landing),
            Action::ReadFile(path) => {
                let found = files.get(&path).cloned();
                conn.file_loaded(found.as_deref())
            }
            Action::WriteFile(path, data) => {
                files.insert(path, data);
                conn.file_stored(true)
            }
            Action::Close => panic!("connection closed without an answer"),
        };
    }
}

fn send_request(config: Config, raw: &str, files: &mut HashMap<Vec<u8>, Vec<u8>>) -> String {
    let mut conn = Connection::new(config);
    conn.receive(raw.as_bytes());
    let (bytes, _) = serve_one(&mut conn, files, Some(b"<html>landing</html>"));
    text(&bytes)
}

fn body_of(response: &[u8]) -> Vec<u8> {
    let at = response.windows(4).position(|w| w == b"\r\n\r\n").unwrap();
    response[at + 4..].to_vec()
}

#[test]
fn test_landing_page() {
    let request = "GET / HTTP/1.1\r\nHost: localhost\r\nConnection: close\r\n\r\n";
    let response = send_request(WRITABLE, request, &mut HashMap::new());
    assert!(response.contains("HTTP/1.1 200 OK"));
}

#[test]
fn test_echo_handler() {
    let request = "GET /echo/hello HTTP/1.1\r\nHost: localhost\r\nConnection: close\r\n\r\n";
    let response = send_request(WRITABLE, request, &mut HashMap::new());
    assert!(response.contains("HTTP/1.1 200 OK"));
    assert!(response.ends_with("hello"));
}

#[test]
fn test_user_agent() {
    let request = "GET /user-agent HTTP/1.1\r\nHost: localhost\r\nUser-Agent: TestClient\r\nConnection: close\r\n\r\n";
    let response = send_request(WRITABLE, request, &mut HashMap::new());
    assert!(response.contains("HTTP/1.1 200 OK"));
    assert!(response.ends_with("TestClient"));
}

#[test]
fn test_file_write_and_read() {
    let mut files = HashMap::new();
    let post_body = "Sample file content";
    let post_request = format!(
        "POST /files/testfile.txt HTTP/1.1\r\nHost: localhost\r\nContent-Length: {}\r\nConnection: close\r\n\r\n{}",
        post_body.len(),
        post_body
    );
    let post_response = send_request(WRITABLE, &post_request, &mut files);
    assert!(post_response.contains("HTTP/1.1 201 Created"));

    let get_request = "GET /files/testfile.txt HTTP/1.1\r\nHost: localhost\r\nConnection: close\r\n\r\n";
    let get_response = send_request(WRITABLE, get_request, &mut files);
    assert!(get_response.contains("HTTP/1.1 200 OK"));
    assert!(get_response.ends_with(post_body));
}

#[test]
fn body_is_exactly_content_length_bytes() {
    let raw = b"POST /x HTTP/1.1\r\nContent-Length: 5\r\n\r\nhelloEXTRA BYTES";
    match parse_request(raw) {
        ParseOutcome::Complete(req, used) => {
            assert_eq!(req.body, b"hello".to_vec());
            assert_eq!(used, raw.len() - "EXTRA BYTES".len());
            assert_eq!(req.method, b"POST".to_vec());
            assert_eq!(req.path, b"/x".to_vec());
        }
        _ => panic!("expected a complete request"),
    }
}

#[test]
fn body_waits_for_missing_bytes() {
    let raw = b"POST /x HTTP/1.1\r\nContent-Length: 10\r\n\r\nhello";
    assert!(matches!(parse_request(raw), ParseOutcome::Incomplete));
}

#[test]
fn content_length_name_is_case_insensitive() {
    let raw = b"POST /x HTTP/1.1\r\ncOnTeNt-LeNgTh: 3\r\n\r\nabcdef";
    match parse_request(raw) {
        ParseOutcome::Complete(req, used) => {
            assert_eq!(req.body, b"abc".to_vec());
            assert_eq!(used, raw.len() - 3);
        }
        _ => panic!("expected a complete request"),
    }
}

#[test]
fn unparsable_content_length_means_no_body() {
    let raw = b"POST /x HTTP/1.1\r\nContent-Length: abc\r\n\r\nrest";
    match parse_request(raw) {
        ParseOutcome::Complete(req, _) => assert!(req.body.is_empty()),
        _ => panic!("expected a complete request"),
    }
}

#[test]
fn missing_path_is_malformed() {
    assert!(matches!(parse_request(b"GET\r\n\r\n"), ParseOutcome::Malformed));
    assert!(matches!(parse_request(b"   \r\n\r\n"), ParseOutcome::Malformed));
}

#[test]
fn malformed_request_gets_400_and_closes() {
    let mut conn = Connection::new(WRITABLE);
    conn.receive(b"GARBAGE\r\n\r\n");
    match conn.next() {
        Action::Send(bytes, close) => {
            assert_eq!(text(&bytes), "HTTP/1.1 400 Bad Request\r\n\r\n");
            assert!(close);
        }
        _ => panic!("expected a 400"),
    }
    assert!(conn.is_closing());
    assert!(matches!(conn.next(), Action::Close));
}

#[test]
fn headers_keep_their_order_and_lines_without_separator_are_skipped() {
    let raw = b"GET / HTTP/1.1\r\nA: 1\r\nnoseparator\r\nB: two words  \r\n\r\n";
    match parse_request(raw) {
        ParseOutcome::Complete(req, used) => {
            assert_eq!(used, raw.len());
            assert_eq!(
                req.headers,
                vec![
                    (b"A".to_vec(), b"1".to_vec()),
                    (b"B".to_vec(), b"two words".to_vec())
                ]
            );
        }
        _ => panic!("expected a complete request"),
    }
}

#[test]
fn echo_of_empty_and_special_text() {
    let r = echo_handler(b"/echo/");
    assert_eq!(r.status(), b"200 OK");
    assert!(r.body().is_empty());
    let r = echo_handler(b"/echo/%20a+b?c=d&e");
    assert_eq!(r.body(), b"%20a+b?c=d&e");
    assert_eq!(r.header("Content-Type"), Some(b"text/plain".to_vec()));
    assert_eq!(r.header("Content-Length"), Some(b"12".to_vec()));
}

#[test]
fn echo_keeps_later_slashes() {
    assert_eq!(echo_handler(b"/echo/a/b").body(), b"a/b");
}

#[test]
fn user_agent_missing_is_unknown() {
    let r = agent_handler(&vec![(b"Host".to_vec(), b"x".to_vec())]);
    assert_eq!(r.body(), b"Unknown");
    let r = agent_handler(&vec![(b"user-AGENT".to_vec(), b"curl/8".to_vec())]);
    assert_eq!(r.body(), b"curl/8");
}

#[test]
fn post_then_get_round_trip() {
    let mut files = HashMap::new();
    let mut conn = Connection::new(WRITABLE);
    conn.receive(b"POST /dir/f.bin HTTP/1.1\r\nContent-Length: 4\r\n\r\n\x00\x01\xfe\xff");
    let (bytes, close) = serve_one(&mut conn, &mut files, None);
    assert!(!close);
    assert!(text(&bytes).starts_with("HTTP/1.1 201 Created\r\n"));
    assert_eq!(files.get(&b"dir/f.bin".to_vec()), Some(&vec![0u8, 1, 254, 255]));
    conn.receive(b"GET /dir/f.bin HTTP/1.1\r\n\r\n");
    let (bytes, _) = serve_one(&mut conn, &mut files, None);
    assert!(text(&bytes).starts_with("HTTP/1.1 200 OK\r\n"));
    assert_eq!(body_of(&bytes), vec![0u8, 1, 254, 255]);
}

#[test]
fn hidden_post_is_forbidden_either_way() {
    for allow_write in [true, false] {
        let config = Config { has_directory: true, allow_write };
        for path in ["/.env", "/files/_private", "/a/.git/"] {
            let mut files = HashMap::new();
            let raw = format!("POST {} HTTP/1.1\r\nContent-Length: 1\r\n\r\nx", path);
            let response = send_request(config, &raw, &mut files);
            assert!(response.starts_with("HTTP/1.1 403 Forbidden\r\n"));
            assert!(files.is_empty());
        }
    }
}

#[test]
fn hidden_get_is_forbidden() {
    match file_handler(b"/.secret", b"GET", b"", true) {
        FileStep::Respond(r) => assert_eq!(r.status(), b"403 Forbidden"),
        _ => panic!("expected a refusal"),
    }
}

#[test]
fn post_without_write_permission_is_forbidden() {
    let config = Config { has_directory: true, allow_write: false };
    let mut files = HashMap::new();
    let response = send_request(config, "POST /f HTTP/1.1\r\nContent-Length: 2\r\n\r\nhi", &mut files);
    assert!(response.starts_with("HTTP/1.1 403 Forbidden\r\n"));
    assert!(files.is_empty());
}

#[test]
fn parent_segments_are_refused() {
    assert!(matches!(file_handler(b"/../etc/passwd", b"GET", b"", true), FileStep::Respond(_)));
    assert!(matches!(file_handler(b"/a/..", b"GET", b"", true), FileStep::Respond(_)));
    match file_handler(b"/a/..b/c", b"GET", b"", true) {
        FileStep::Read(rel) => assert_eq!(rel, b"a/..b/c".to_vec()),
        _ => panic!("expected a read"),
    }
}

#[test]
fn other_methods_are_not_allowed() {
    match file_handler(b"/f", b"DELETE", b"", true) {
        FileStep::Respond(r) => assert_eq!(r.status(), b"405 Method Not Allowed"),
        _ => panic!("expected 405"),
    }
}

#[test]
fn leading_slashes_are_stripped_from_file_paths() {
    match file_handler(b"//x/y", b"POST", b"data", true) {
        FileStep::Write(rel, data) => {
            assert_eq!(rel, b"x/y".to_vec());
            assert_eq!(data, b"data".to_vec());
        }
        _ => panic!("expected a write"),
    }
}

#[test]
fn gzip_body_decompresses_to_the_plain_body() {
    let mut conn = Connection::new(WRITABLE);
    conn.receive(b"GET /echo/compress-me-please HTTP/1.1\r\nAccept-Encoding: deflate, gzip\r\n\r\n");
    let (bytes, _) = serve_one(&mut conn, &mut HashMap::new(), None);
    let head = text(&bytes[..bytes.windows(4).position(|w| w == b"\r\n\r\n").unwrap()]);
    assert!(head.contains("Content-Encoding: gzip\r\n"));
    assert!(head.contains("Accept-Encoding: deflate, gzip\r\n"));
    let compressed = body_of(&bytes);
    assert!(head.contains(&format!("Content-Length: {}\r\n", compressed.len())));
    assert_ne!(compressed, b"compress-me-please".to_vec());
    let mut plain = Vec::new();
    flate2::read::GzDecoder::new(&compressed[..]).read_to_end(&mut plain).unwrap();
    assert_eq!(plain, b"compress-me-please".to_vec());
}

#[test]
fn no_gzip_without_asking() {
    let mut conn = Connection::new(WRITABLE);
    conn.receive(b"GET /echo/abc HTTP/1.1\r\nAccept-Encoding: br\r\n\r\n");
    let (bytes, _) = serve_one(&mut conn, &mut HashMap::new(), None);
    let response = text(&bytes);
    assert!(!response.contains("Content-Encoding"));
    assert!(response.ends_with("\r\n\r\nabc"));
}

#[test]
fn connection_close_ends_the_connection() {
    let mut conn = Connection::new(WRITABLE);
    conn.receive(b"GET /echo/a HTTP/1.1\r\nConnection: CLOSE\r\n\r\nGET /echo/b HTTP/1.1\r\n\r\n");
    let (bytes, close) = serve_one(&mut conn, &mut HashMap::new(), None);
    assert!(close);
    assert!(text(&bytes).contains("Connection: close\r\n"));
    assert!(matches!(conn.next(), Action::Close));
}

#[test]
fn keep_alive_serves_a_second_request() {
    let mut conn = Connection::new(WRITABLE);
    conn.receive(b"GET /echo/a HTTP/1.1\r\n\r\nGET /echo/b HTTP/1.1\r\nConnection: whatever\r\n\r\n");
    let (first, close) = serve_one(&mut conn, &mut HashMap::new(), None);
    assert!(!close);
    assert!(text(&first).contains("Connection: keep-alive\r\n"));
    assert!(text(&first).ends_with("\r\n\r\na"));
    let (second, close) = serve_one(&mut conn, &mut HashMap::new(), None);
    assert!(!close);
    assert!(text(&second).contains("Connection: keep-alive\r\n"));
    assert!(text(&second).ends_with("\r\n\r\nb"));
    assert!(matches!(conn.next(), Action::Receive));
}

#[test]
fn request_split_across_reads() {
    let mut conn = Connection::new(WRITABLE);
    conn.receive(b"GET /echo/xy HT");
    assert!(matches!(conn.next(), Action::Receive));
    conn.receive(b"TP/1.1\r\n\r\n");
    match conn.next() {
        Action::Send(bytes, _) => assert!(text(&bytes).ends_with("xy")),
        _ => panic!("expected an answer"),
    }
}

#[test]
fn input_ending_early_gets_400() {
    let mut conn = Connection::new(WRITABLE);
    conn.receive(b"GET /echo/x HTTP/1.1\r\n");
    assert!(matches!(conn.next(), Action::Receive));
    match conn.input_ended() {
        Action::Send(bytes, close) => {
            assert!(close);
            assert!(text(&bytes).starts_with("HTTP/1.1 400 Bad Request"));
        }
        _ => panic!("expected a 400"),
    }
}

#[test]
fn unknown_path_without_directory_is_404() {
    let config = Config { has_directory: false, allow_write: false };
    let response = send_request(config, "GET /does-not-exist HTTP/1.1\r\n\r\n", &mut HashMap::new());
    assert!(response.starts_with("HTTP/1.1 404 Not Found\r\n"));
}

#[test]
fn absent_file_is_404() {
    let response = send_request(WRITABLE, "GET /does-not-exist HTTP/1.1\r\n\r\n", &mut HashMap::new());
    assert!(response.starts_with("HTTP/1.1 404 Not Found\r\n"));
}

#[test]
fn relative_path_is_404() {
    let response = send_request(WRITABLE, "GET does-not-exist HTTP/1.1\r\n\r\n", &mut HashMap::new());
    assert!(response.starts_with("HTTP/1.1 404 Not Found\r\n"));
}

#[test]
fn landing_page_falls_back_when_unreadable() {
    let mut conn = Connection::new(WRITABLE);
    conn.receive(b"GET / HTTP/1.1\r\n\r\n");
    let (bytes, _) = serve_one(&mut conn, &mut HashMap::new(), None);
    let response = text(&bytes);
    assert!(response.starts_with("HTTP/1.1 200 OK\r\n"));
    assert!(response.contains("Content-Type: text/html\r\n"));
    assert!(response.ends_with("<html><body><h1>index.html missing</h1></body></html>"));
}

#[test]
fn routes_in_order() {
    assert_eq!(route_request(b"/", true), Route::Landing);
    assert_eq!(route_request(b"/user-agent", true), Route::UserAgent);
    assert_eq!(route_request(b"/user-agentX", false), Route::UserAgent);
    assert_eq!(route_request(b"/echo/", false), Route::Echo);
    assert_eq!(route_request(b"/echo", true), Route::Files);
    assert_eq!(route_request(b"/echo", false), Route::NotFound);
    assert_eq!(route_request(b"x", true), Route::NotFound);
}

#[test]
fn hidden_names() {
    assert!(hidden_name(b"/a/.b"));
    assert!(hidden_name(b"/_x//"));
    assert!(!hidden_name(b"/a.b/c"));
    assert!(!hidden_name(b"/"));
}

#[test]
fn response_serialisation() {
    let mut r = HttpResponse::new("200 OK");
    r.add_header("X-A", "1");
    r.set_body(b"hello");
    r.add_header("X-A", "2");
    assert_eq!(r.status(), b"200 OK");
    assert_eq!(r.header("X-A"), Some(b"2".to_vec()));
    assert_eq!(r.header("Content-Length"), Some(b"5".to_vec()));
    assert_eq!(r.header("x-a"), None);
    let bytes = r.as_bytes().unwrap();
    assert_eq!(text(&bytes), "HTTP/1.1 200 OK\r\nX-A: 2\r\nContent-Length: 5\r\n\r\nhello");
}

#[test]
fn gzip_recomputes_content_length() {
    let mut r = HttpResponse::new("200 OK");
    r.set_body(&[b'a'; 1000]);
    r.add_header("Content-Encoding", "gzip");
    assert_eq!(r.header("Content-Length"), Some(b"1000".to_vec()));
    let bytes = r.as_bytes().unwrap();
    let body = body_of(&bytes);
    assert!(body.len() < 1000);
    assert!(text(&bytes).contains(&format!("Content-Length: {}\r\n", body.len())));
}

#[test]
fn decimal_digits() {
    assert_eq!(decimal_bytes(0), b"0".to_vec());
    assert_eq!(decimal_bytes(10), b"10".to_vec());
    assert_eq!(decimal_bytes(usize::MAX), usize::MAX.to_string().into_bytes());
}

#[test]
fn usize_parsing() {
    assert_eq!(parse_usize_bytes(b"42"), Some(42));
    assert_eq!(parse_usize_bytes(b"+7"), Some(7));
    assert_eq!(parse_usize_bytes(b"+"), None);
    assert_eq!(parse_usize_bytes(b""), None);
    assert_eq!(parse_usize_bytes(b"-1"), None);
    assert_eq!(parse_usize_bytes(b"1 "), None);
    assert_eq!(parse_usize_bytes(usize::MAX.to_string().as_bytes()), Some(usize::MAX));
    assert_eq!(parse_usize_bytes(b"99999999999999999999999"), None);
}
