use micro_http::http::{Data, Method};
use micro_http::status::StatusCode;

#[test]
fn status_codes_have_code_and_reason() {
    assert_eq!(StatusCode::Success.code(), 200);
    assert_eq!(StatusCode::BadRequest.code(), 400);
    assert_eq!(StatusCode::NotFound.code(), 404);
    assert_eq!(StatusCode::MethodNotAllowed.code(), 405);
    assert_eq!(StatusCode::ServerError.code(), 500);
    assert_eq!(StatusCode::Success.text(), "200 OK");
    assert_eq!(StatusCode::BadRequest.text(), "400 Bad Request");
    assert_eq!(StatusCode::NotFound.text(), "404 Not Found");
    assert_eq!(StatusCode::MethodNotAllowed.text(), "405 Method Not Allowed");
    assert_eq!(StatusCode::ServerError.text(), "500 Internal Server Error");
    assert_eq!(StatusCode::NotFound.reason(), "Not Found");
    assert_eq!(StatusCode::default(), StatusCode::Success);
}

#[test]
fn fresh_message_is_empty() {
    let data = Data::new();
    assert_eq!(data.headers.len(), 0);
    assert!(data.content.is_none());
    assert!(data.addr.is_none());
    assert_eq!(data.url, "");
    assert_eq!(data.method, Method::UNKNOWN);
    assert_eq!(data.status_code, StatusCode::Success);
    assert_eq!(data.render(), b"HTTP/1.1 200 OK\r\n\r\n");
}

#[test]
fn from_status_sets_only_the_status() {
    let data = Data::from_status(StatusCode::NotFound);
    assert_eq!(data.status_code, StatusCode::NotFound);
    assert_eq!(data.headers.len(), 0);
    assert!(data.content.is_none());
    assert_eq!(data.render(), b"HTTP/1.1 404 Not Found\r\n\r\n");
}

#[test]
fn from_content_sets_type_and_length() {
    let data = Data::from_content("text/plain", b"hello".to_vec());
    assert_eq!(data.status_code, StatusCode::Success);
    assert_eq!(data.headers.len(), 2);
    assert_eq!(data.headers.get("content-type").unwrap(), "text/plain");
    assert_eq!(data.headers.get("content-length").unwrap(), "5");
    assert_eq!(data.content.as_deref(), Some(&b"hello"[..]));
    assert_eq!(data.render_headers(), "content-type: text/plain\r\ncontent-length: 5\r\n");
}

#[test]
fn render_gives_status_line_headers_blank_line_and_body() {
    let data = Data::from_content("text/plain", b"hello".to_vec());
    assert_eq!(
        data.render(),
        b"HTTP/1.1 200 OK\r\ncontent-type: text/plain\r\ncontent-length: 5\r\n\r\nhello"
    );
}

#[test]
fn render_adds_no_length_of_its_own() {
    let mut data = Data::from_status(StatusCode::ServerError);
    data.content = Some(b"oops".to_vec());
    assert_eq!(data.render(), b"HTTP/1.1 500 Internal Server Error\r\n\r\noops");
}

#[test]
fn add_header_lowercases_and_replaces() {
    let mut data = Data::new();
    data.add_header("X-Token", "a");
    data.add_header("Other", "b");
    data.add_header("x-TOKEN", "c");
    assert_eq!(data.headers.len(), 2);
    assert_eq!(data.render_headers(), "x-token: c\r\nother: b\r\n");
    assert!(data.headers.contains_key("x-token"));
    assert!(!data.headers.contains_key("X-Token"));
}

#[test]
fn content_length_always_tells_the_body_length() {
    for n in [0usize, 1, 9, 10, 255, 4096] {
        let data = Data::from_content("application/octet-stream", vec![7u8; n]);
        assert_eq!(data.headers.get("content-length").unwrap(), &n.to_string());
        let wire = data.render();
        let text = String::from_utf8_lossy(&wire).into_owned();
        assert!(text.contains(&format!("content-length: {}\r\n", n)));
    }
}

#[test]
fn rendered_body_reads_back() {
    for n in [0usize, 1, 2, 300] {
        let body: Vec<u8> = (0..n).map(|i| (i * 37 % 256) as u8).collect();
        let wire = Data::from_content("image/x-png", body.clone()).render();
        let mut read = Data::new();
        let consumed = read.parse(&wire).unwrap();
        assert_eq!(consumed, wire.len());
        assert_eq!(read.content, Some(body));
        assert_eq!(read.headers.get("content-length").unwrap(), &n.to_string());
        assert_eq!(read.headers.get("content-type").unwrap(), "image/x-png");
        assert_eq!(read.method, Method::UNKNOWN);
        assert_eq!(read.url, "200");
    }
}

#[test]
fn body_with_a_blank_line_reads_back() {
    let body = b"a\r\n\r\nb\r\n\r\n".to_vec();
    let wire = Data::from_content("text/plain", body.clone()).render();
    let mut read = Data::new();
    assert_eq!(read.parse(&wire).unwrap(), wire.len());
    assert_eq!(read.content, Some(body));
}
