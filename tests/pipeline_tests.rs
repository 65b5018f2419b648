use xpress::kv::KeyValues;
use xpress::parser::{parse_path_segments, parse_query};
use xpress::request::Request;
use xpress::response::Response;
use xpress::router::{Lookup, RouteDef, Router, Segment};
use xpress::text::{decimal_text, parse_usize_text};
use xpress::xpress::{dispatch, error_response, finish_response, reject, Dispatch};
use xpress::{Xpress, XpressError};

type Handler = Box<dyn Fn(&Request, &mut Response) -> Result<(), XpressError> + Send + Sync>;

fn lines(text: &[&str]) -> Vec<String> {
    text.iter().map(|l| l.to_string()).collect()
}

fn text_handler(text: &'static str) -> Handler {
    Box::new(move |_req: &Request, res: &mut Response| {
        let current = std::mem::replace(res, Response::new());
        *res = current.body(text);
        Ok(())
    })
}

fn run(router: &Router<Handler>, req: Request) -> Response {
    match dispatch(router, req) {
        Dispatch::Reply(resp) => resp,
        Dispatch::Call(handler, req) => {
            let mut res = Response::new();
            let outcome = handler(&req, &mut res).map(|_| res);
            finish_response(outcome)
        }
    }
}

fn head_and_body(bytes: &[u8]) -> (String, Vec<u8>) {
    let at = bytes.windows(4).position(|w| w == b"\r\n\r\n").unwrap();
    (String::from_utf8(bytes[..at].to_vec()).unwrap(), bytes[at + 4..].to_vec())
}

#[test]
fn exact_match_runs_handler() {
    let mut router: Router<Handler> = Router::new();
    router.register_route("GET /hello".to_string(), text_handler("Hello, World!")).unwrap();
    let req = Request::from_head(&lines(&["GET /hello HTTP/1.1"])).unwrap();
    let resp = run(&router, req);
    assert_eq!(resp.status, 200);
    assert_eq!(resp.body, b"Hello, World!".to_vec());
    assert_eq!(resp.headers.get("Connection"), Some(&"close".to_string()));
}

#[test]
fn dynamic_segment_and_query() {
    let req = Request::from_head(&lines(&["GET /test/42?foo=bar HTTP/1.1"])).unwrap();
    assert_eq!(req.method, "GET");
    assert_eq!(req.path, "/test/42");
    assert_eq!(req.query.get("foo"), Some(&"bar".to_string()));
    assert!(req.params.is_empty());

    let mut router: Router<Handler> = Router::new();
    router.register_route("GET /test/:id".to_string(), text_handler("x")).unwrap();
    match dispatch(&router, req) {
        Dispatch::Call(_, routed) => {
            assert_eq!(routed.params.get("id"), Some(&"42".to_string()));
            assert_eq!(routed.query.get("foo"), Some(&"bar".to_string()));
        }
        Dispatch::Reply(_) => panic!("the route should match"),
    }
}

#[test]
fn missing_route_is_404() {
    let mut router: Router<Handler> = Router::new();
    router.register_route("GET /hello".to_string(), text_handler("hi")).unwrap();
    let req = Request::from_head(&lines(&["GET /missing HTTP/1.1"])).unwrap();
    let resp = run(&router, req);
    assert_eq!(resp.status, 404);
    assert_eq!(resp.body, b"Error: Route Not Found: GET /missing".to_vec());
}

#[test]
fn wrong_method_is_405() {
    let mut router: Router<Handler> = Router::new();
    router.register_route("GET /users".to_string(), text_handler("hi")).unwrap();
    let req = Request::from_head(&lines(&["POST /users HTTP/1.1"])).unwrap();
    let resp = run(&router, req);
    assert_eq!(resp.status, 405);
    assert_eq!(resp.body, b"Error: Method Not Allowed: POST /users".to_vec());
    assert!(matches!(
        router.lookup("POST".to_string(), "/users".to_string()),
        Lookup::MethodNotAllowed
    ));
    assert!(matches!(
        router.lookup("POST".to_string(), "/other".to_string()),
        Lookup::NotFound
    ));
}

#[test]
fn short_body_is_io_error() {
    let head = Request::from_head(&lines(&["POST /upload HTTP/1.1", "Content-Length: 100", ""])).unwrap();
    assert_eq!(head.content_length(), Some(100));
    let result = head.attach_body(vec![7u8; 10]);
    let err = result.unwrap_err();
    assert!(matches!(err, XpressError::IoError(_)));
    // a failed read gets no framed response
    assert!(reject(err).is_none());
}

#[test]
fn body_of_declared_length() {
    let head = Request::from_head(&lines(&["POST /x HTTP/1.1", "Content-Length: 3", ""])).unwrap();
    let req = head.attach_body(b"abcdef".to_vec()).unwrap();
    assert_eq!(req.body, b"abc".to_vec());
    let plain = Request::from_head(&lines(&["GET /x HTTP/1.1"])).unwrap();
    let req = plain.attach_body(b"ignored".to_vec()).unwrap();
    assert!(req.body.is_empty());
}

#[test]
fn headers_lowercased_trimmed_and_overwritten() {
    let req = Request::from_head(&lines(&[
        "GET / HTTP/1.1",
        "Content-Type:   text/plain  ",
        "X-Token: a",
        "x-token: b",
        "no separator here",
        "",
        "After-Blank: ignored",
    ]))
    .unwrap();
    assert_eq!(req.headers.get("content-type"), Some(&"text/plain".to_string()));
    assert_eq!(req.headers.get("Content-Type"), None);
    assert_eq!(req.headers.get("x-token"), Some(&"b".to_string()));
    assert_eq!(req.headers.get("after-blank"), None);
    assert_eq!(req.headers.get("no separator here"), None);
}

#[test]
fn unicode_whitespace_and_case() {
    assert!(matches!(
        Request::from_head(&lines(&["GET \u{A0}"])),
        Err(XpressError::ParsingError(_))
    ));
    let req = Request::from_head(&lines(&[
        "GET\u{3000}/wide\u{2003}HTTP/1.1",
        "\u{C4}-X: \u{A0}v\u{2009}",
    ]))
    .unwrap();
    assert_eq!(req.method, "GET");
    assert_eq!(req.path, "/wide");
    assert_eq!(req.headers.get("\u{E4}-x"), Some(&"v".to_string()));
    let mut router: Router<Handler> = Router::new();
    assert!(router.register_route("GET \u{A0}".to_string(), text_handler("x")).is_err());
    assert_eq!(router.method_count(), 0);
    assert!(router.register_route("GET\u{A0}/nb".to_string(), text_handler("x")).is_ok());
    assert!(router.resolve("GET".to_string(), "/nb".to_string()).is_some());
}

#[test]
fn malformed_request_lines() {
    assert!(matches!(Request::from_head(&Vec::new()), Err(XpressError::ParsingError(_))));
    assert!(matches!(Request::from_head(&lines(&[""])), Err(XpressError::ParsingError(_))));
    assert!(matches!(Request::from_head(&lines(&["GET"])), Err(XpressError::ParsingError(_))));
    let req = Request::from_head(&lines(&["GET  /spaced \t HTTP/1.1"])).unwrap();
    assert_eq!(req.path, "/spaced");
    let resp = reject(XpressError::ParsingError("Malformed request line: GET".to_string())).unwrap();
    assert_eq!(resp.status, 400);
}

#[test]
fn query_last_value_wins_and_bare_keys_dropped() {
    let q = parse_query("a=1&b=2&a=3&flag&c=x=y");
    assert_eq!(q.get("a"), Some(&"3".to_string()));
    assert_eq!(q.get("b"), Some(&"2".to_string()));
    assert_eq!(q.get("flag"), None);
    assert_eq!(q.get("c"), Some(&"x=y".to_string()));
    assert!(parse_query("").is_empty());
}

#[test]
fn path_segments_of_patterns() {
    let segs = parse_path_segments("//users/:id/");
    assert_eq!(
        segs,
        vec![Segment::Static("users".to_string()), Segment::Dynamic("id".to_string())]
    );
    assert!(parse_path_segments("/").is_empty());
    assert!(parse_path_segments("").is_empty());
}

#[test]
fn route_strings() {
    let def = RouteDef::parse("GET /a/:b?x=1").unwrap();
    assert_eq!(def.method, "GET");
    assert_eq!(
        def.segments,
        vec![Segment::Static("a".to_string()), Segment::Dynamic("b".to_string())]
    );
    assert!(matches!(RouteDef::parse("GET"), Err(XpressError::ParsingError(_))));
    assert!(matches!(RouteDef::parse("GET "), Err(XpressError::ParsingError(_))));
    assert!(matches!(RouteDef::parse("  "), Err(XpressError::ParsingError(_))));
    let spaced = RouteDef::parse("  POST\t /x  ").unwrap();
    assert_eq!(spaced.method, "POST");
    let mut router: Router<Handler> = Router::new();
    assert!(router.register_route("/nomethod".to_string(), text_handler("x")).is_err());
    assert!(router.register_route("GET ".to_string(), text_handler("x")).is_err());
    assert_eq!(router.method_count(), 0);
    let empty = RouteDef::new();
    assert!(empty.method.is_empty() && empty.segments.is_empty());
}

#[test]
fn segment_count_must_agree() {
    let mut router: Router<Handler> = Router::new();
    router.register_route("GET /users/:id".to_string(), text_handler("x")).unwrap();
    assert!(router.resolve("GET".to_string(), "/users".to_string()).is_none());
    assert!(router.resolve("GET".to_string(), "/users/1/2".to_string()).is_none());
    assert!(router.resolve("GET".to_string(), "/users/1".to_string()).is_some());
}

#[test]
fn resolving_twice_gives_same_result() {
    let mut router: Router<Handler> = Router::new();
    router.register_route("GET /a/:x/:y".to_string(), text_handler("x")).unwrap();
    let (first, params) = router.resolve("GET".to_string(), "/a/1/2".to_string()).unwrap();
    let (second, again) = router.resolve("GET".to_string(), "/a/1/2".to_string()).unwrap();
    assert!(std::ptr::eq(first, second));
    assert_eq!(params.get("x"), again.get("x"));
    assert_eq!(params.get("y"), again.get("y"));
    assert_eq!(params.get("x"), Some(&"1".to_string()));
}

#[test]
fn parameters_use_the_matched_route_names() {
    let mut router: Router<Handler> = Router::new();
    router.register_route("GET /u/:id".to_string(), text_handler("a")).unwrap();
    router.register_route("GET /u/:uid/posts".to_string(), text_handler("b")).unwrap();
    let (_, params) = router.resolve("GET".to_string(), "/u/7/posts".to_string()).unwrap();
    assert_eq!(params.get("uid"), Some(&"7".to_string()));
    assert_eq!(params.get("id"), None);
    let (_, params) = router.resolve("GET".to_string(), "/u/7".to_string()).unwrap();
    assert_eq!(params.get("id"), Some(&"7".to_string()));

    let mut other: Router<Handler> = Router::new();
    other.register_route("GET /u/:uid/posts".to_string(), text_handler("b")).unwrap();
    other.register_route("GET /u/:id".to_string(), text_handler("a")).unwrap();
    let (_, params) = other.resolve("GET".to_string(), "/u/7/posts".to_string()).unwrap();
    assert_eq!(params.get("uid"), Some(&"7".to_string()));
}

#[test]
fn matching_route_is_found_past_a_literal_dead_end() {
    let mut router: Router<Handler> = Router::new();
    router.register_route("GET /users/:id".to_string(), text_handler("a")).unwrap();
    router.register_route("GET /users/new/edit".to_string(), text_handler("b")).unwrap();
    let (handler, params) = router.resolve("GET".to_string(), "/users/new".to_string()).unwrap();
    assert_eq!(params.get("id"), Some(&"new".to_string()));
    let mut res = Response::new();
    handler(&Request::default(), &mut res).unwrap();
    assert_eq!(res.body, b"a".to_vec());
    assert!(router.resolve("GET".to_string(), "/users/7".to_string()).is_some());
}

#[test]
fn most_specific_of_several_matches_wins() {
    let mut router: Router<Handler> = Router::new();
    router.register_route("GET /a/:y/c".to_string(), text_handler("dynamic second")).unwrap();
    router.register_route("GET /a/b/:x".to_string(), text_handler("static second")).unwrap();
    router.register_route("GET /a/b/c/d".to_string(), text_handler("longer")).unwrap();
    let req = Request::from_head(&lines(&["GET /a/b/c HTTP/1.1"])).unwrap();
    match dispatch(&router, req) {
        Dispatch::Call(_, routed) => {
            assert_eq!(routed.params.get("x"), Some(&"c".to_string()));
            assert_eq!(routed.params.get("y"), None);
        }
        Dispatch::Reply(_) => panic!("two routes match"),
    }
    let req = Request::from_head(&lines(&["GET /a/b/c HTTP/1.1"])).unwrap();
    assert_eq!(run(&router, req).body, b"static second".to_vec());
}

#[test]
fn same_shape_last_registered_wins() {
    let mut router: Router<Handler> = Router::new();
    router.register_route("GET /p/:a".to_string(), text_handler("first")).unwrap();
    router.register_route("GET /p/:b".to_string(), text_handler("second")).unwrap();
    let req = Request::from_head(&lines(&["GET /p/1 HTTP/1.1"])).unwrap();
    assert_eq!(run(&router, req).body, b"second".to_vec());
}

#[test]
fn encode_then_read_back() {
    let mut headers = KeyValues::new();
    headers.insert("Content-Type".to_string(), "text/plain".to_string());
    let resp = Response { status: 200, headers, body: b"hi".to_vec() };
    let bytes = resp.to_bytes();
    assert_eq!(
        bytes,
        b"HTTP/1.1 200 OK\r\nContent-Type: text/plain\r\nContent-Length: 2\r\n\r\nhi".to_vec()
    );
    let (head, body) = head_and_body(&bytes);
    let mut head_lines = head.split("\r\n");
    assert_eq!(head_lines.next(), Some("HTTP/1.1 200 OK"));
    assert!(head_lines.any(|l| l == "Content-Length: 2"));
    assert_eq!(body, b"hi".to_vec());
}

#[test]
fn encoder_overrides_length_and_names_unknown_status() {
    let resp = Response::new().status(299).header("content-length", "999").html("<p>é</p>");
    let bytes = resp.to_bytes();
    let (head, body) = head_and_body(&bytes);
    assert_eq!(
        head,
        "HTTP/1.1 299 Unknown\r\nServer: Xpress/1.0\r\nContent-Type: text/html; charset=utf-8\r\nContent-Length: 9"
    );
    assert_eq!(body, "<p>é</p>".as_bytes().to_vec());
    let not_found = Response::new().status(404).to_bytes();
    assert!(not_found.starts_with(b"HTTP/1.1 404 Not Found\r\n"));
    assert!(not_found.ends_with(b"Content-Length: 0\r\n\r\n"));
}

#[test]
fn builders() {
    let r = Response::new();
    assert_eq!(r.status, 200);
    assert_eq!(r.headers.get("Server"), Some(&"Xpress/1.0".to_string()));
    assert!(r.body.is_empty());
    let r = r.body("plain");
    assert_eq!(r.headers.get("Content-Type"), Some(&"text/plain; charset=utf-8".to_string()));
    let r = Response::new().header("Content-Type", "text/csv").body("a,b");
    assert_eq!(r.headers.get("Content-Type"), Some(&"text/csv".to_string()));
    assert_eq!(r.body, b"a,b".to_vec());
    let r = Response::new().json_encoded(b"{\"id\":1}".to_vec());
    assert_eq!(r.headers.get("Content-Type"), Some(&"application/json".to_string()));
    assert_eq!(r.body, b"{\"id\":1}".to_vec());
}

#[test]
fn status_codes_of_errors() {
    let io = XpressError::IoError(std::io::Error::new(std::io::ErrorKind::Other, "boom"));
    assert_eq!(io.status_code(), 500);
    assert_eq!(XpressError::MutexError("m".into()).status_code(), 500);
    assert_eq!(XpressError::NotFound("n".into()).status_code(), 404);
    assert_eq!(XpressError::MethodNotAllowed("n".into()).status_code(), 405);
    assert_eq!(XpressError::FileNotFound("f".into()).status_code(), 404);
    assert_eq!(XpressError::ConnectionError("c".into()).status_code(), 502);
    assert_eq!(XpressError::ParsingError("p".into()).status_code(), 400);
    assert_eq!(XpressError::Custom("c".into()).status_code(), 500);
    let json = serde_json::from_str::<u8>("x").unwrap_err();
    let json = XpressError::from(json);
    assert_eq!(json.status_code(), 500);
    assert!(json.describe().starts_with("JSON Error: "));
    assert!(io.describe().starts_with("I/O Error: "));
    assert_eq!(XpressError::Custom("oops".into()).describe(), "Error: oops");
}

#[test]
fn handler_error_becomes_500() {
    let from_handler = finish_response(Err(XpressError::NotFound("thing".to_string())));
    assert_eq!(from_handler.status, 500);
    assert_eq!(from_handler.body, b"Error: Route Not Found: thing".to_vec());
    let bad_gateway = finish_response(Err(XpressError::ConnectionError("up".to_string())));
    assert_eq!(bad_gateway.status, 502);
    let resp = finish_response(Err(XpressError::Custom("broken".to_string())));
    assert_eq!(resp.status, 500);
    assert_eq!(resp.body, b"Error: Error: broken".to_vec());
    assert_eq!(resp.headers.get("Connection"), Some(&"close".to_string()));
    let direct = error_response(&XpressError::NotFound("GET /x".to_string()));
    assert_eq!(direct.status, 404);
    assert_eq!(direct.headers.get("Connection"), None);
}

#[test]
fn empty_body_refused_for_json() {
    let req = Request::default();
    assert!(matches!(req.json_body(), Err(XpressError::Custom(m)) if m == "Empty request body"));
    let head = Request::from_head(&lines(&["POST /x HTTP/1.1", "Content-Length: 2"])).unwrap();
    let req = head.attach_body(b"{}".to_vec()).unwrap();
    assert_eq!(req.json_body().unwrap(), &b"{}".to_vec());
}

#[test]
fn verbs_register_routes() {
    let mut app: Xpress<Handler> = Xpress::new("127.0.0.1:8080");
    app.get("/items", text_handler("list"));
    app.post("/items", text_handler("create"));
    app.put("/items/:id", text_handler("update"));
    app.delete("/items/:id", text_handler("remove"));
    assert_eq!(app.address, "127.0.0.1:8080");
    assert_eq!(app.router.method_count(), 4);
    let req = Request::from_head(&lines(&["PUT /items/9 HTTP/1.1"])).unwrap();
    let resp = run(&app.router, req);
    assert_eq!(resp.body, b"update".to_vec());
    let req = Request::from_head(&lines(&["DELETE /items/9 HTTP/1.1"])).unwrap();
    assert_eq!(run(&app.router, req).body, b"remove".to_vec());
}

#[test]
fn key_values_keep_one_value_per_key() {
    let mut kv = KeyValues::new();
    assert!(kv.is_empty());
    kv.insert("a".to_string(), "1".to_string());
    kv.insert("b".to_string(), "2".to_string());
    kv.insert("a".to_string(), "3".to_string());
    assert_eq!(kv.get("a"), Some(&"3".to_string()));
    assert!(kv.contains_key("b"));
    assert!(!kv.contains_key("c"));
    assert_eq!(kv.entries().len(), 2);
    assert_eq!(kv.entries()[0], ("a".to_string(), "3".to_string()));
}

#[test]
fn numerals() {
    assert_eq!(parse_usize_text("42"), Some(42));
    assert_eq!(parse_usize_text("+7"), Some(7));
    assert_eq!(parse_usize_text("007"), Some(7));
    assert_eq!(parse_usize_text(""), None);
    assert_eq!(parse_usize_text("+"), None);
    assert_eq!(parse_usize_text("-1"), None);
    assert_eq!(parse_usize_text("12a"), None);
    assert_eq!(parse_usize_text("99999999999999999999999"), None);
    assert_eq!(decimal_text(0), "0");
    assert_eq!(decimal_text(1234567890), "1234567890");
}
