use micro_http::app::{App, Target};
use micro_http::http::{Data, Method};
use micro_http::status::StatusCode;

type Handler = fn(Data) -> Data;

fn h1(_: Data) -> Data {
    Data::from_content("text/plain", b"h1".to_vec())
}

fn h2(_: Data) -> Data {
    Data::from_content("text/plain", b"h2".to_vec())
}

fn echo(request: Data) -> Data {
    Data::from_content("text/plain", request.url.into_bytes())
}

fn request(method: &str, url: &str, headers: &str) -> Data {
    let mut data = Data::new();
    let text = format!("{} {} HTTP/1.1\r\n{}\r\n", method, url, headers);
    data.parse(text.as_bytes()).unwrap();
    data
}

fn site() -> App<Handler> {
    let mut app: App<Handler> = App::new("127.0.0.1", 8000);
    app.bind("/", Method::GET, h1);
    app.bind("/static/", Method::GET, h2);
    app
}

#[test]
fn longest_prefix_routing() {
    let app = site();
    assert_eq!(app.len(), 2);
    assert_eq!(app.route("/static/a.png", Method::GET), Some(1));
    assert_eq!(app.route("/other", Method::GET), Some(0));
    assert_eq!(app.route("/static/", Method::POST), None);
    let response = app.respond(request("GET", "/static/a.png", ""));
    assert_eq!(response.content.as_deref(), Some(&b"h2"[..]));
    let response = app.respond(request("GET", "/other", ""));
    assert_eq!(response.content.as_deref(), Some(&b"h1"[..]));
    let response = app.respond(request("POST", "/static/", ""));
    assert_eq!(response.status_code, StatusCode::NotFound);
    assert!(response.content.is_none());
}

#[test]
fn registration_order_does_not_matter_for_the_longest_prefix() {
    let mut app: App<Handler> = App::new("localhost", 80);
    app.bind("/static/", Method::GET, h2);
    app.bind("/", Method::GET, h1);
    assert_eq!(app.route("/static/a.png", Method::GET), Some(0));
    assert_eq!(app.route("/other", Method::GET), Some(1));
}

#[test]
fn first_bound_wins_a_tie() {
    let mut app: App<Handler> = App::new("localhost", 80);
    app.bind("/a", Method::GET, h1);
    app.bind("/a", Method::GET, h2);
    assert_eq!(app.route("/a", Method::GET), Some(0));
    assert_eq!(app.route("/ab", Method::GET), Some(0));
}

#[test]
fn prefix_must_begin_the_path() {
    let mut app: App<Handler> = App::new("localhost", 80);
    app.bind("/static/", Method::GET, h2);
    assert_eq!(app.route("/static", Method::GET), None);
    assert_eq!(app.route("/x/static/", Method::GET), None);
    assert_eq!(app.route("", Method::GET), None);
}

#[test]
fn an_empty_prefix_is_never_selected() {
    let mut app: App<Handler> = App::new("localhost", 80);
    app.bind("", Method::GET, h1);
    assert_eq!(app.route("/", Method::GET), None);
    assert_eq!(app.route("", Method::GET), None);
}

#[test]
fn prefixes_are_compared_by_characters() {
    let mut app: App<Handler> = App::new("localhost", 80);
    app.bind("/\u{e9}\u{e9}\u{e9}", Method::GET, h1);
    app.bind("/\u{e9}\u{e9}\u{e9}x", Method::GET, h2);
    assert_eq!(app.route("/\u{e9}\u{e9}\u{e9}xy", Method::GET), Some(1));
    assert_eq!(app.route("/\u{e9}\u{e9}\u{e9}y", Method::GET), Some(0));
}

#[test]
fn unknown_method_is_rejected_with_405() {
    let app = site();
    let mut parsed = Data::new();
    parsed.parse(b"FOOBAR /x\r\n\r\n").unwrap();
    assert_eq!(parsed.method, Method::UNKNOWN);
    assert_eq!(app.decide(&parsed), Target::Status(StatusCode::MethodNotAllowed));
    let response = app.respond(parsed);
    assert_eq!(response.status_code, StatusCode::MethodNotAllowed);
    assert!(response.content.is_none());
    assert_eq!(
        response.render(),
        b"HTTP/1.1 405 Method Not Allowed\r\nhost: 127.0.0.1:8000\r\nserver: micro-http/0.1\r\n\r\n"
    );
}

#[test]
fn unsupported_method_is_rejected_even_with_a_route() {
    let mut app: App<Handler> = App::new("localhost", 80);
    app.bind("/", Method::PUT, h1);
    assert_eq!(app.route("/", Method::PUT), Some(0));
    let response = app.respond(request("PUT", "/", ""));
    assert_eq!(response.status_code, StatusCode::MethodNotAllowed);
    for method in ["CONNECT", "DELETE", "HEAD", "OPTIONS", "PATCH", "TRACE"] {
        let response = app.respond(request(method, "/", ""));
        assert_eq!(response.status_code, StatusCode::MethodNotAllowed);
    }
}

#[test]
fn decide_names_the_handler_or_the_status() {
    let app = site();
    assert_eq!(app.decide(&request("GET", "/static/x", "")), Target::Handler(1));
    assert_eq!(app.decide(&request("GET", "/", "")), Target::Handler(0));
    assert_eq!(app.decide(&request("GET", "nowhere", "")), Target::Status(StatusCode::NotFound));
    assert_eq!(app.decide(&request("POST", "/", "")), Target::Status(StatusCode::NotFound));
}

#[test]
fn not_found_is_an_ordinary_response_with_headers() {
    let app = site();
    let response = app.respond(request("GET", "nowhere", ""));
    assert_eq!(response.status_code, StatusCode::NotFound);
    assert_eq!(
        response.render(),
        b"HTTP/1.1 404 Not Found\r\nhost: 127.0.0.1:8000\r\nserver: micro-http/0.1\r\n\r\n"
    );
}

#[test]
fn server_headers_are_added_to_a_handler_response() {
    let mut app: App<Handler> = App::new("0.0.0.0", 65535);
    app.bind("/", Method::POST, echo);
    let response = app.respond(request("POST", "/hello", ""));
    assert_eq!(
        response.render(),
        b"HTTP/1.1 200 OK\r\ncontent-type: text/plain\r\ncontent-length: 6\r\nhost: 0.0.0.0:65535\r\nserver: micro-http/0.1\r\n\r\n/hello"
    );
}

#[test]
fn keep_alive_is_echoed() {
    let app = site();
    let response = app.respond(request("GET", "/", "Connection: keep-alive\r\n"));
    assert_eq!(response.headers.get("connection").unwrap(), "keep-alive");
    assert_eq!(response.headers.len(), 5);
    let response = app.respond(request("GET", "/", "Connection: close\r\n"));
    assert!(response.headers.get("connection").is_none());
    assert_eq!(response.headers.len(), 4);
}

#[test]
fn finalize_replaces_what_the_handler_set() {
    let app = site();
    let mut answer = Data::new();
    answer.add_header("Server", "other");
    answer.add_header("Connection", "close");
    let sent = app.finalize(answer, true);
    assert_eq!(
        sent.render_headers(),
        "server: micro-http/0.1\r\nconnection: keep-alive\r\nhost: 127.0.0.1:8000\r\n"
    );
    let mut answer = Data::new();
    answer.add_header("Connection", "close");
    let sent = app.finalize(answer, false);
    assert_eq!(sent.headers.get("connection").unwrap(), "close");
}

#[test]
fn answer_follows_the_target() {
    let app = site();
    let response = app.answer(Target::Handler(1), request("GET", "/", ""));
    assert_eq!(response.content.as_deref(), Some(&b"h2"[..]));
    let response = app.answer(
        Target::Status(StatusCode::BadRequest),
        request("GET", "/", "Connection: keep-alive\r\n"),
    );
    assert_eq!(
        response.render(),
        b"HTTP/1.1 400 Bad Request\r\nhost: 127.0.0.1:8000\r\nserver: micro-http/0.1\r\nconnection: keep-alive\r\n\r\n"
    );
}
