use http_server::pattern::matcher_match;
use http_server::pattern::parse_path;
use http_server::pool::WorkerPool;
use http_server::request::parse_request;
use http_server::request::ParseError;
use http_server::request::Request;
use http_server::request::StrMap;
use http_server::response::Response;
use http_server::router::Application;
use http_server::router::Routed;

fn plain_request(method: &str, path: &str) -> Request {
    Request::new(
        method.to_string(),
        path.to_string(),
        "HTTP/1.1".to_string(),
        StrMap::new(),
        None,
    )
}

#[test]
fn literal_pattern_matches_itself_only() {
    let m = parse_path("/about/team");
    assert!(matcher_match(&m, "/about/team").is_some());
    assert!(matcher_match(&m, "/about").is_none());
    assert!(matcher_match(&m, "/about/teamx").is_none());
    assert!(matcher_match(&m, "/x/about/team").is_none());
    assert!(matcher_match(&m, "/about/team/").is_none());
}

#[test]
fn empty_segments_are_discarded() {
    let m = parse_path("//a");
    assert!(matcher_match(&m, "/a").is_some());
    assert!(matcher_match(&m, "//a").is_none());
}

#[test]
fn root_pattern_matches_root_only() {
    let m = parse_path("/");
    assert!(matcher_match(&m, "/").is_some());
    assert!(matcher_match(&m, "").is_none());
    assert!(matcher_match(&m, "/a").is_none());
}

#[test]
fn echo_param_extraction() {
    let mut app = Application::new(4221);
    app.get("/echo/:str");
    let mut req = plain_request("GET", "/echo/hello");
    let hit = app.dispatch(&mut req);
    assert_eq!(hit, Some(0));
    let got = req.params.get("str").expect("str param");
    assert_eq!(got, "hello".to_string());
}

#[test]
fn capture_spans_slashes() {
    let mut app = Application::new(4221);
    app.get("/files/:fileName");
    let mut req = plain_request("GET", "/files/a/b.txt");
    let hit = app.dispatch(&mut req);
    assert_eq!(hit, Some(0));
    let got = req.params.get("fileName").expect("fileName param");
    assert_eq!(got, "a/b.txt".to_string());
}

#[test]
fn first_registered_route_wins() {
    let mut app = Application::new(4221);
    app.get("/a/:x");
    app.get("/a/fixed");
    let mut req = plain_request("GET", "/a/fixed");
    assert_eq!(app.dispatch(&mut req), Some(0));

    let mut app2 = Application::new(4221);
    app2.get("/a/fixed");
    app2.get("/a/:x");
    let mut req2 = plain_request("GET", "/a/fixed");
    assert_eq!(app2.dispatch(&mut req2), Some(0));
}

#[test]
fn method_filter_is_exact() {
    let mut app = Application::new(4221);
    app.post("/echo/:str");
    let mut req = plain_request("GET", "/echo/hello");
    assert_eq!(app.dispatch(&mut req), None);
}

#[test]
fn unregistered_method_yields_404_with_empty_body() {
    let mut app = Application::new(4221);
    app.get("/");
    app.post("/echo");
    let mut req = plain_request("DELETE", "/anything");
    assert_eq!(app.dispatch(&mut req), None);
    let mut resp = Response::new(200, req);
    resp.code(404);
    let out = resp.send();
    assert_eq!(out, b"HTTP/1.1 404 Not Found\r\n\r\n".to_vec());
}

#[test]
fn send_text_frames_body() {
    let req = plain_request("GET", "/");
    let resp = Response::new(200, req);
    let out = resp.send_text("hi");
    let expected = b"HTTP/1.1 200 OK\r\nContent-Type: text/plain\r\nContent-Length: 2\r\n\r\nhi";
    assert_eq!(out, expected.to_vec());
}

#[test]
fn send_binary_frames_bytes() {
    let req = plain_request("GET", "/");
    let mut resp = Response::new(200, req);
    resp.code(201);
    let out = resp.send_binary(&[1u8, 2, 3]);
    let mut expected =
        b"HTTP/1.1 201 Created\r\nContent-Type: application/octet-stream\r\nContent-Length: 3\r\n\r\n"
            .to_vec();
    expected.extend_from_slice(&[1u8, 2, 3]);
    assert_eq!(out, expected);
}

#[test]
fn unknown_code_renders_500() {
    let req = plain_request("GET", "/");
    let mut resp = Response::new(200, req);
    resp.code(418);
    let out = resp.send();
    assert_eq!(out, b"HTTP/1.1 500 Internal Server Error\r\n\r\n".to_vec());
}

#[test]
fn first_supported_encoding_is_echoed() {
    let raw = "GET / HTTP/1.1\r\nAccept-Encoding: deflate, gzip\r\n\r\n";
    let req = parse_request(raw).expect("parse");
    let resp = Response::new(200, req);
    let out = resp.send();
    let text = String::from_utf8(out).expect("utf8");
    assert!(text.contains("Content-Encoding: gzip\r\n"));
    assert!(!text.contains("br"));
}

#[test]
fn br_encoding_wins_when_first() {
    let raw = "GET / HTTP/1.1\r\nAccept-Encoding: br, gzip\r\n\r\n";
    let req = parse_request(raw).expect("parse");
    let resp = Response::new(200, req);
    let out = resp.send();
    let text = String::from_utf8(out).expect("utf8");
    assert!(text.contains("Content-Encoding: br\r\n"));
}

#[test]
fn unsupported_encodings_add_no_header() {
    let raw = "GET / HTTP/1.1\r\nAccept-Encoding: deflate, identity\r\n\r\n";
    let req = parse_request(raw).expect("parse");
    let resp = Response::new(200, req);
    let out = resp.send();
    assert_eq!(out, b"HTTP/1.1 200 OK\r\n\r\n".to_vec());
}

#[test]
fn parse_request_reads_request_line() {
    let raw = "POST /submit HTTP/1.1\r\nHost: localhost\r\n\r\npayload";
    let req = parse_request(raw).expect("parse");
    assert_eq!(req.method, "POST".to_string());
    assert_eq!(req.path, "/submit".to_string());
    assert_eq!(req.protocol, "HTTP/1.1".to_string());
    assert_eq!(req.body, Some(b"payload".to_vec()));
}

#[test]
fn parse_request_rejects_short_request_line() {
    assert!(matches!(parse_request("GET /\r\n\r\n"), Err(ParseError::MalformedRequestLine)));
    assert!(matches!(parse_request(""), Err(ParseError::MalformedRequestLine)));
}

#[test]
fn header_lookup_is_case_insensitive() {
    let raw = "GET / HTTP/1.1\r\nUser-Agent: curl/8\r\n\r\n";
    let req = parse_request(raw).expect("parse");
    assert_eq!(req.get_header("user-agent"), Some("curl/8".to_string()));
    assert_eq!(req.get_header("USER-AGENT"), Some("curl/8".to_string()));
    assert_eq!(req.get_header("missing"), None);
}

#[test]
fn malformed_header_lines_are_skipped() {
    let raw = "GET / HTTP/1.1\r\nGood: yes\r\nbad-line-without-separator\r\n\r\n";
    let req = parse_request(raw).expect("parse");
    assert_eq!(req.get_header("good"), Some("yes".to_string()));
    assert_eq!(req.get_header("bad-line-without-separator"), None);
}

#[test]
fn header_values_split_and_trim() {
    let raw = "GET / HTTP/1.1\r\nAccept-Encoding: deflate,  gzip , br\r\n\r\n";
    let req = parse_request(raw).expect("parse");
    let vals = req.get_header_valus("Accept-Encoding").expect("values");
    assert_eq!(
        vals,
        vec!["deflate".to_string(), "gzip".to_string(), "br".to_string()]
    );
}

#[test]
fn static_mount_registers_one_route_per_file() {
    let mut app = Application::new(4221);
    let names = vec!["a.txt".to_string(), "b.bin".to_string()];
    assert!(app.static_files("/files", "/srv/data", &names));
    let mut req = plain_request("GET", "/files/b.bin");
    assert_eq!(app.dispatch(&mut req), Some(1));
    let mut other = plain_request("GET", "/files/missing");
    assert_eq!(app.dispatch(&mut other), None);
}

#[test]
fn second_static_mount_is_rejected() {
    let mut app = Application::new(4221);
    let names = vec!["a.txt".to_string()];
    assert!(app.static_files("/files", "/srv/one", &names));
    let more = vec!["z.txt".to_string()];
    assert!(!app.static_files("/other", "/srv/two", &more));
    let mut req = plain_request("GET", "/other/z.txt");
    assert_eq!(app.dispatch(&mut req), None);
}

#[test]
fn pool_runs_at_most_capacity_jobs() {
    let mut pool = WorkerPool::new(2);
    for job in 1u64..=5 {
        pool.execute(job);
    }
    assert_eq!(pool.claim(), Some(1));
    assert_eq!(pool.claim(), Some(2));
    // both workers busy: nothing more may start
    assert_eq!(pool.claim(), None);
    assert!(pool.finish(1));
    assert_eq!(pool.claim(), Some(3));
    assert!(pool.finish(2));
    assert!(pool.finish(3));
    assert_eq!(pool.claim(), Some(4));
    assert_eq!(pool.claim(), Some(5));
    assert_eq!(pool.claim(), None);
    assert!(pool.finish(4));
    assert!(pool.finish(5));
    assert_eq!(pool.done, vec![1u64, 2, 3, 4, 5]);
    assert!(!pool.finish(9));
}

#[test]
fn dispatch_leaves_other_fields_alone() {
    let mut app = Application::new(4221);
    app.get("/echo/:str");
    let raw = "GET /echo/hi HTTP/1.1\r\nHost: h\r\n\r\n";
    let mut req = parse_request(raw).expect("parse");
    let hit = app.dispatch(&mut req);
    assert_eq!(hit, Some(0));
    assert_eq!(req.method, "GET".to_string());
    assert_eq!(req.path, "/echo/hi".to_string());
    assert_eq!(req.get_header("host"), Some("h".to_string()));
}

#[test]
fn greedy_capture_takes_longest_prefix() {
    let m = parse_path("/:a/:b");
    let caps = matcher_match(&m, "/x/y/z").expect("match");
    assert_eq!(caps[0], ("a".to_string(), "x/y".to_string()));
    assert_eq!(caps[1], ("b".to_string(), "z".to_string()));
}

#[test]
fn request_line_splits_at_every_space() {
    // a doubled space yields an empty token, which becomes the path
    let raw = "GET  / HTTP/1.1\r\n\r\n";
    let req = parse_request(raw).expect("parse");
    assert_eq!(req.method, "GET".to_string());
    assert_eq!(req.path, "".to_string());
    assert_eq!(req.protocol, "/".to_string());
}

#[test]
fn content_length_renders_multi_digit_values() {
    let req = plain_request("GET", "/");
    let resp = Response::new(200, req);
    let out = resp.send_text("hello world!");
    let text = String::from_utf8(out).expect("utf8");
    assert!(text.contains("Content-Length: 12\r\n"));
    assert!(text.ends_with("\r\n\r\nhello world!"));
}

#[test]
fn route_produces_full_404_answer() {
    let mut app = Application::new(4221);
    app.get("/");
    match app.route("DELETE /x HTTP/1.1\r\n\r\n") {
        Routed::NotFound(bytes) => {
            assert_eq!(bytes, b"HTTP/1.1 404 Not Found\r\n\r\n".to_vec());
        }
        _ => panic!("expected a 404 answer"),
    }
}

#[test]
fn route_matches_and_fills_params() {
    let mut app = Application::new(4221);
    app.get("/echo/:str");
    match app.route("GET /echo/hey HTTP/1.1\r\nHost: h\r\n\r\n") {
        Routed::Matched(idx, req) => {
            assert_eq!(idx, 0);
            assert_eq!(req.params.get("str"), Some("hey".to_string()));
            assert_eq!(req.get_header("host"), Some("h".to_string()));
        }
        _ => panic!("expected a match"),
    }
}

#[test]
fn route_refuses_garbage() {
    let app = Application::new(4221);
    assert!(matches!(app.route("nonsense"), Routed::Malformed));
}
