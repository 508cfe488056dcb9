use std::io::Read;

use fastweb::dispatch::{dispatch, negotiate_encoding, not_found, Outcome};
use fastweb::http::{Encoding, HttpContentType, HttpMethod, HttpStatus};
use fastweb::logger::{self, Level, Logger};
use fastweb::pool::{Action, Pool};
use fastweb::request::{is_complete, parse, ParseError, Request};
use fastweb::response::{self, Response};
use fastweb::router::RouterBuilder;

type Handler = fn(Request) -> Response;

fn pong(_r: Request) -> Response {
    response::text(HttpStatus::StatusOK, "pong".to_string())
}

fn count(r: Request) -> Response {
    let c = r.path_params().get("count").unwrap().clone();
    response::text(HttpStatus::StatusOK, c)
}

fn created(_r: Request) -> Response {
    response::text(HttpStatus::StatusCreated, "made".to_string())
}

fn router() -> RouterBuilder<Handler> {
    let mut b: RouterBuilder<Handler> = fastweb::new();
    b.get("/ping", pong as Handler);
    b.get("/ping/{count}", count as Handler);
    b.post("/ping", created as Handler);
    b
}

fn serve(b: &RouterBuilder<Handler>, raw: &str) -> Vec<u8> {
    match dispatch(b.get_routes(), raw, "<h1>missing</h1>".to_string()) {
        Outcome::Invoke { index, request, encoding } => {
            let handler = b.get_routes().0[index].2.handler();
            let mut resp = handler(request);
            resp.set_encoding(&encoding);
            resp.build()
        }
        Outcome::Respond(mut resp) => resp.build(),
    }
}

fn split_head(bytes: &[u8]) -> (String, Vec<u8>) {
    let pos = bytes.windows(4).position(|w| w == b"\r\n\r\n").unwrap();
    (String::from_utf8(bytes[..pos].to_vec()).unwrap(), bytes[pos + 4..].to_vec())
}

fn gunzip(data: &[u8]) -> String {
    let mut d = flate2::read::GzDecoder::new(data);
    let mut s = String::new();
    d.read_to_string(&mut s).unwrap();
    s
}

#[test]
fn parses_request_line_headers_query_and_body() {
    let req = parse("POST /items?id=7&tag=a&id=9&flag HTTP/1.1\r\nHost: example\r\nX-Empty:\r\n\r\nline1\r\nline2\0\0").unwrap();
    assert_eq!(*req.method(), HttpMethod::POST);
    assert_eq!(req.path(), "/items?id=7&tag=a&id=9&flag");
    assert_eq!(req.qualified_path(), "/items");
    assert_eq!(req.query_params().get("id").unwrap(), "9");
    assert_eq!(req.query_params().get("tag").unwrap(), "a");
    assert_eq!(req.query_params().get("flag").unwrap(), "");
    assert_eq!(req.headers().get("Host").unwrap(), "example");
    assert_eq!(req.headers().get("X-Empty").unwrap(), "");
    assert_eq!(req.body(), "line1\r\nline2\0\0");
    assert_eq!(req.path_params().len(), 0);
}

#[test]
fn header_split_at_first_colon() {
    let req = parse("GET /a HTTP/1.1\r\nX-Time: 12:30\r\n\r\n").unwrap();
    assert_eq!(req.headers().get("X-Time").unwrap(), "12:30");
    assert_eq!(req.body(), "");
}

#[test]
fn parse_errors() {
    assert_eq!(parse("").err(), Some(ParseError::RequestLine));
    assert_eq!(parse("GET\r\n\r\n").err(), Some(ParseError::RequestLine));
    assert_eq!(parse("BREW /pot HTTP/1.1\r\n\r\n").err(), Some(ParseError::Method));
    assert_eq!(parse("GET / HTTP/1.1\r\nno colon here\r\n\r\n").err(), Some(ParseError::Header));
}

#[test]
fn first_registered_route_wins() {
    let mut b: RouterBuilder<Handler> = fastweb::new();
    b.get("/a/{x}", pong as Handler);
    b.get("/a/lit", count as Handler);
    let routes = b.get_routes();
    assert_eq!(routes.find_index("/a/lit", &HttpMethod::GET), Some(0));
    assert_eq!(routes.find("/a/lit", &HttpMethod::GET).unwrap().path(), "/a/{x}");
    assert_eq!(routes.find_index("/a/lit", &HttpMethod::POST), None);
    assert_eq!(routes.find_index("/a", &HttpMethod::GET), None);
    assert_eq!(routes.find_index("/a/", &HttpMethod::GET), None);
}

#[test]
fn registration_collapses_slashes_and_lists_parameters() {
    let mut b: RouterBuilder<Handler> = fastweb::new();
    b.get("//users///{ID}/posts", pong as Handler);
    let route = &b.get_routes().0[0].2;
    assert_eq!(route.path(), "/users/{ID}/posts");
    assert_eq!(route.base_path(), "/users/posts");
    assert_eq!(b.get_routes().0[0].0, "/users/posts");
    let found = b.get_routes().find("/users/5/posts", &HttpMethod::GET).unwrap();
    let params = fastweb::router::bind_params(found, "/users/5/posts");
    assert_eq!(params.get("id").unwrap(), "5");
}

#[test]
fn path_parameter_bound_by_position() {
    let b = router();
    let out = serve(&b, "GET /ping/42 HTTP/1.1\r\n\r\n");
    let (head, body) = split_head(&out);
    assert!(head.starts_with("HTTP/1.1 200 OK\r\n"));
    assert_eq!(body, b"42");
}

#[test]
fn ping_count_scenario_returns_json_with_count() {
    fn handler(r: Request) -> Response {
        let mut content = fastweb::string_map::StringMap::new();
        content.insert("count".to_string(), r.path_params().get("count").unwrap().clone());
        response::json(HttpStatus::StatusOK, content)
    }
    let mut b: RouterBuilder<Handler> = fastweb::new();
    b.get("/ping/{count}", handler as Handler);
    let out = serve(&b, "GET /ping/42 HTTP/1.1\r\n\r\n");
    let (head, body) = split_head(&out);
    assert!(head.starts_with("HTTP/1.1 200 OK\r\n"));
    assert!(head.contains("Content-Type: application/json"));
    assert_eq!(String::from_utf8(body).unwrap(), "{\"count\": \"42\"}");
}

#[test]
fn unknown_path_scenario_returns_fallback_page() {
    let b = router();
    let out = serve(&b, "GET /unknown HTTP/1.1\r\n\r\n");
    let (head, body) = split_head(&out);
    assert_eq!(
        head,
        "HTTP/1.1 404 Not Found\r\nContent-Type: text/html\r\nContent-Length: 16"
    );
    assert_eq!(body, b"<h1>missing</h1>");
}

#[test]
fn malformed_request_gets_fallback_page() {
    let b = router();
    let out = serve(&b, "garbage\r\n\r\n");
    let (head, body) = split_head(&out);
    assert!(head.starts_with("HTTP/1.1 404 Not Found\r\n"));
    assert_eq!(body, b"<h1>missing</h1>");
}

#[test]
fn gzip_scenario_compresses_pong() {
    let b = router();
    let out = serve(&b, "GET /ping HTTP/1.1\r\nAccept-Encoding: gzip\r\n\r\n");
    let (head, body) = split_head(&out);
    assert!(head.contains("\r\nContent-Encoding: gzip"));
    assert!(head.ends_with(&format!("Content-Length: {}", body.len())));
    assert_ne!(body, b"pong");
    assert_eq!(&body[..2], &[0x1f, 0x8b]);
    assert_eq!(head.matches("Content-Encoding: gzip").count(), 1);
    assert!(head.starts_with("HTTP/1.1 200 OK\r\n"));
    assert_eq!(gunzip(&body), "pong");
}

#[test]
fn gzip_round_trip_and_exact_length() {
    let text = "hello hello hello hello, compressed world".repeat(20);
    let mut resp = response::html(HttpStatus::StatusOK, text.clone());
    resp.set_encoding(&Some(Encoding::GZIP));
    let out = resp.build();
    let (head, body) = split_head(&out);
    assert!(head.ends_with(&format!("\r\nContent-Length: {}", body.len())));
    assert!(body.len() < text.len());
    assert_eq!(gunzip(&body), text);
}

#[test]
fn post_route_and_status_created() {
    let b = router();
    let out = serve(&b, "POST /ping HTTP/1.1\r\n\r\n");
    let (head, body) = split_head(&out);
    assert_eq!(
        head,
        "HTTP/1.1 201 Created\r\nContent-Type: text/plain\r\nContent-Length: 4"
    );
    assert_eq!(body, b"made");
}

#[test]
fn build_plain_response_exactly() {
    let mut resp = response::new(HttpStatus::StatusBadRequest, "bad".to_string(), HttpContentType::TEXT);
    resp.set_header("X-Id", "7");
    let out = resp.build();
    assert_eq!(
        out,
        b"HTTP/1.1 400 Bad Request\r\nX-Id: 7\r\nContent-Type: text/plain\r\nContent-Length: 3\r\n\r\nbad".to_vec()
    );
}

#[test]
fn identity_encoding_is_not_compressed() {
    let mut resp = not_found("nf".to_string());
    resp.set_encoding(&Some(Encoding::Identity));
    let out = resp.build();
    assert_eq!(
        out,
        b"HTTP/1.1 404 Not Found\r\nContent-Type: text/html\r\nContent-Length: 2\r\n\r\nnf".to_vec()
    );
}

#[test]
fn encoding_negotiation() {
    let r = parse("GET / HTTP/1.1\r\nAccept-Encoding: deflate, gzip\r\n\r\n").unwrap();
    assert_eq!(negotiate_encoding(&r), Some(Encoding::GZIP));
    let r = parse("GET / HTTP/1.1\r\nAccept-Encoding: br\r\n\r\n").unwrap();
    assert_eq!(negotiate_encoding(&r), None);
    let r = parse("GET / HTTP/1.1\r\n\r\n").unwrap();
    assert_eq!(negotiate_encoding(&r), None);
}

#[test]
fn enum_texts() {
    assert_eq!(HttpStatus::StatusOK.to_code(), 200);
    assert_eq!(HttpStatus::StatusCreated.to_code(), 201);
    assert_eq!(HttpStatus::StatusBadRequest.to_str(), "Bad Request");
    assert_eq!(HttpMethod::from_str("GET"), Some(HttpMethod::GET));
    assert_eq!(HttpMethod::from_str("POST"), Some(HttpMethod::POST));
    assert_eq!(HttpMethod::from_str("get"), None);
    assert_eq!(HttpMethod::PATCH.to_str(), "PATCH");
    assert_eq!(HttpContentType::JSON.to_str(), "application/json");
    assert_eq!(Encoding::from_str("gzip"), Some(Encoding::GZIP));
    assert_eq!(Encoding::from_str("br"), None);
    assert_eq!(Encoding::get_supported(), vec![Encoding::GZIP]);
    assert_eq!(Encoding::default(), Encoding::Identity);
    assert_eq!(fastweb::http::Headers::AcceptEncoding.to_str(), "Accept-Encoding");
}

#[test]
fn builder_settings() {
    let mut b: RouterBuilder<Handler> = fastweb::new();
    assert_eq!(b.get_bind_address(), "0.0.0.0:8080");
    b.host("127.0.0.1".to_string()).port(9000).buffer_size(4096).workers(5).logging_level("debug".to_string());
    assert_eq!(b.get_bind_address(), "127.0.0.1:9000");
    assert_eq!(b.configuration.buffer_size, 4096);
    assert_eq!(b.configuration.workers, 5);
    assert_eq!(b.configuration.logging.level, "debug");
}

#[test]
fn pool_runs_at_most_size_and_drains_before_finishing() {
    assert!(Pool::new(0).is_none());
    let mut p = Pool::new(2).unwrap();
    for id in 0..5u64 {
        assert!(p.submit(id));
    }
    assert_eq!(p.next(0), Action::Run(0));
    assert_eq!(p.next(1), Action::Run(1));
    p.shutdown();
    assert!(!p.submit(9));
    p.done(0);
    assert_eq!(p.next(0), Action::Run(2));
    p.done(1);
    assert_eq!(p.next(1), Action::Run(3));
    p.done(0);
    assert_eq!(p.next(0), Action::Run(4));
    p.done(1);
    assert_eq!(p.next(1), Action::Exit);
    assert!(!p.is_finished());
    p.done(0);
    assert_eq!(p.next(0), Action::Exit);
    assert!(p.is_finished());
}

#[test]
fn pool_idle_worker_waits() {
    let mut p = Pool::new(1).unwrap();
    assert_eq!(p.next(0), Action::Wait);
    assert_eq!(p.size(), 1);
}

#[test]
fn logger_filters_and_formats() {
    let l = Logger { level: Level::Warn };
    assert!(logger::info(&l, "x").is_none());
    assert!(logger::debug(&l, "x").is_none());
    let w = logger::warn(&l, "careful").unwrap();
    assert!(w.contains("[WARN] "));
    assert!(w.contains(" : careful"));
    let e = logger::error(&l, "boom").unwrap();
    assert!(e.contains("[ERROR] "));
    let d = logger::debug(&Logger { level: Level::Debug }, "trace").unwrap();
    assert!(d.starts_with("[DEBUG] "));
    assert!(d.ends_with(" : trace"));
    assert_eq!(logger::format_line(Level::Info, "T", "m"), "[INFO] T : m");
    assert_eq!(Level::parse("warn"), Some(Level::Warn));
    assert_eq!(Level::parse("loud"), None);
    assert!(logger::should_log(Level::Info, Level::Error));
    assert!(!logger::should_log(Level::Error, Level::Info));
}

#[test]
fn route_listing() {
    let b = router();
    assert_eq!(
        b.get_routes().listing(),
        "/ping GET GET /ping\n/ping GET GET /ping/{count}\n/ping POST POST /ping\n"
    );
}

#[test]
fn completeness_of_accumulated_requests() {
    assert!(!is_complete(""));
    assert!(!is_complete("GET / HTTP/1.1"));
    assert!(!is_complete("GET / HTTP/1.1\r\nHost: a\r\n"));
    assert!(is_complete("GET / HTTP/1.1\r\nHost: a\r\n\r\n"));
    assert!(!is_complete("POST / HTTP/1.1\r\nContent-Length: 5\r\n\r\nabc"));
    assert!(is_complete("POST / HTTP/1.1\r\nContent-Length: 5\r\n\r\nabcde"));
    assert!(is_complete("POST / HTTP/1.1\r\nContent-Length: 4\r\n\r\n\u{e9}\u{e9}"));
    assert!(!is_complete("POST / HTTP/1.1\r\nContent-Length: 99999999999999999999999\r\n\r\nabc"));
    assert!(is_complete("POST / HTTP/1.1\r\nContent-Length: lots\r\n\r\n"));
    assert!(is_complete("GET / HTTP/1.1\r\nbroken\r\n\r\n"));
    assert!(!is_complete("GET / HTTP/1.1\r\nbroken"));
}
