use micro_http::api::{api, api_with};
use micro_http::file::{detect_content_type, response};
use micro_http::http::Data;
use micro_http::json::{deserialize, serialize, SimpleJson};
use micro_http::random::Random;
use micro_http::status::StatusCode;

fn entries(map: &SimpleJson) -> Vec<(String, String)> {
    (0..map.len()).map(|i| (map.key_at(i).clone(), map.value_at(i).clone())).collect()
}

fn pair(key: &str, value: &str) -> (String, String) {
    (key.to_string(), value.to_string())
}

fn post(body: &[u8]) -> Data {
    let mut request = Data::new();
    request.content = Some(body.to_vec());
    request
}

#[test]
fn content_type_goes_by_the_extension() {
    assert_eq!(detect_content_type("site/style.css"), "text/css");
    assert_eq!(detect_content_type("index.html"), "text/html");
    assert_eq!(detect_content_type("favicon.ico"), "image/x-icon");
    assert_eq!(detect_content_type("app.min.js"), "text/javascript");
    assert_eq!(detect_content_type("logo.png"), "image/x-png");
    assert_eq!(detect_content_type(".html"), "text/html");
}

#[test]
fn other_files_are_octet_streams() {
    assert_eq!(detect_content_type("archive.tar.gz"), "application/octet-stream");
    assert_eq!(detect_content_type("README"), "application/octet-stream");
    assert_eq!(detect_content_type(""), "application/octet-stream");
    assert_eq!(detect_content_type("logo.PNG"), "application/octet-stream");
    assert_eq!(detect_content_type("dir.png/file"), "application/octet-stream");
    assert_eq!(detect_content_type("trailing."), "application/octet-stream");
    assert_eq!(detect_content_type("html"), "application/octet-stream");
}

#[test]
fn file_response_carries_the_file() {
    let data = response("./site/index.html", Some(b"<html></html>".to_vec()));
    assert_eq!(data.status_code, StatusCode::Success);
    assert_eq!(
        data.render(),
        b"HTTP/1.1 200 OK\r\ncontent-type: text/html\r\ncontent-length: 13\r\n\r\n<html></html>"
    );
}

#[test]
fn unreadable_file_is_not_found() {
    let data = response("./site/index.html", None);
    assert_eq!(data.status_code, StatusCode::NotFound);
    assert_eq!(data.headers.len(), 0);
    assert!(data.content.is_none());
}

#[test]
fn deserialize_reads_a_flat_object() {
    let object = deserialize(br#"{"min":"1","max":"10"}"#).unwrap();
    assert_eq!(entries(&object), vec![pair("min", "1"), pair("max", "10")]);
    let object = deserialize(b"{ \"a\" : \"x y\" ,\n b:2 }").unwrap();
    assert_eq!(entries(&object), vec![pair("a", "x y"), pair("b", "2")]);
}

#[test]
fn deserialize_splits_at_the_first_colon_and_blanks_quotes() {
    let object = deserialize(br#"{"url":"http://x","q":"a"b"}"#).unwrap();
    assert_eq!(entries(&object), vec![pair("url", "http://x"), pair("q", "a b")]);
    let object = deserialize(br#"{"a":"1","a":"2",:}"#).unwrap();
    assert_eq!(entries(&object), vec![pair("a", "2"), pair("", "")]);
}

#[test]
fn deserialize_fails_on_malformed_input() {
    assert!(deserialize(b"").is_none());
    assert!(deserialize(b"{}").is_none());
    assert!(deserialize(br#"{"a":"1",}"#).is_none());
    assert!(deserialize(br#"{"a":"1","b"}"#).is_none());
    assert!(deserialize(b"{\"a\":\"\xff\"}").is_none());
}

#[test]
fn serialize_renders_a_flat_object() {
    let mut object = SimpleJson::new();
    object.insert("min".to_string(), "1".to_string());
    object.insert("max".to_string(), "10".to_string());
    let data = serialize(object);
    assert_eq!(data.status_code, StatusCode::Success);
    assert_eq!(
        data.render(),
        b"HTTP/1.1 200 OK\r\ncontent-type: application/json\r\ncontent-length: 22\r\n\r\n{\"min\":\"1\",\"max\":\"10\"}"
    );
    let empty = serialize(SimpleJson::new());
    assert_eq!(empty.content.as_deref(), Some(&b"{}"[..]));
    assert_eq!(empty.headers.get("content-length").unwrap(), "2");
}

#[test]
fn serialized_object_reads_back() {
    let mut object = SimpleJson::new();
    object.insert("k".to_string(), "\u{e9}t\u{e9}".to_string());
    object.insert("n".to_string(), "-7".to_string());
    let data = serialize(object.clone());
    assert_eq!(data.headers.get("content-length").unwrap(), "22");
    let back = deserialize(data.content.as_deref().unwrap()).unwrap();
    assert_eq!(entries(&back), entries(&object));
}

#[test]
fn xorshift_steps() {
    let mut random = Random::from_seconds(1);
    assert_eq!(random.generate(), 270369);
    assert_eq!(random.generate(), 67634689);
    let mut random = Random::from_seconds(42);
    assert_eq!(random.generate(), 11355432);
    let mut zero = Random::default();
    assert_eq!(zero.generate(), 0);
    assert_eq!(zero.generate(), 0);
}

#[test]
fn seed_is_the_low_half_of_the_seconds() {
    let mut random = Random::from_seconds((1 << 32) + 7);
    assert_eq!(random.generate(), 1892583);
    let mut random = Random::from_seconds(u64::MAX);
    let mut same = Random::from_seconds(u32::MAX as u64);
    assert_eq!(random.generate(), same.generate());
}

#[test]
fn a_clock_before_the_epoch_seeds_with_42() {
    let mut random = Random::from_clock(None);
    assert_eq!(random.generate(), 11355432);
    let mut random = Random::from_clock(Some(1));
    assert_eq!(random.generate(), 270369);
    let mut random = Random::from_clock(Some((1 << 32) + 7));
    assert_eq!(random.generate(), 1892583);
}

#[test]
fn new_gives_a_working_generator() {
    let mut random = Random::new();
    let first = random.generate();
    let mut copy = random;
    assert_eq!(random.generate(), copy.generate());
    let value = Random::new().in_range(3, 4);
    assert_eq!(value, 3);
    let _ = first;
}

#[test]
fn in_range_picks_from_the_range() {
    assert_eq!(Random::from_seconds(1).in_range(0, 100), 69);
    assert_eq!(Random::from_seconds(1).in_range(-5, 5), 4);
    assert_eq!(Random::from_seconds(1).in_range(1000, 1001), 1000);
    let mut random = Random::from_seconds(1);
    assert_eq!(random.in_range(0, 100), 69);
    assert_eq!(random.in_range(0, 100), 89);
}

#[test]
fn in_range_stays_in_the_range() {
    let ranges = [(0, 1), (0, 2), (-3, 3), (i32::MIN, i32::MAX), (i32::MIN, 0), (-1, i32::MAX), (i32::MAX - 1, i32::MAX), (i32::MIN, i32::MIN + 1)];
    let mut random = Random::from_seconds(12345);
    for _ in 0..200 {
        for (min, max) in ranges {
            let value = random.in_range(min, max);
            assert!(min <= value && value < max);
        }
    }
}

#[test]
fn in_range_with_an_empty_range_gives_min() {
    let mut random = Random::from_seconds(1);
    assert_eq!(random.in_range(5, 5), 5);
    assert_eq!(random.in_range(i32::MIN, i32::MIN), i32::MIN);
    assert_eq!(random.in_range(0, 0), 0);
    let mut other = Random::from_seconds(1);
    other.generate();
    other.generate();
    other.generate();
    assert_eq!(random.generate(), other.generate());
}

#[test]
fn in_range_with_swapped_bounds_counts_up_from_min() {
    assert_eq!(Random::from_seconds(1).in_range(10, 0), 19);
    assert_eq!(Random::from_seconds(1).in_range(i32::MAX, i32::MAX - 10), i32::MIN + 8);
}

#[test]
fn api_answers_with_a_number_from_the_range() {
    let mut random = Random::from_seconds(1);
    let data = api_with(post(br#"{"min":"0","max":"100"}"#), &mut random);
    assert_eq!(data.status_code, StatusCode::Success);
    assert_eq!(
        data.render(),
        b"HTTP/1.1 200 OK\r\ncontent-type: application/json\r\ncontent-length: 15\r\n\r\n{\"result\":\"69\"}"
    );
    let data = api_with(post(br#"{"max":"-1","min":"-11"}"#), &mut random);
    assert_eq!(data.content.as_deref(), Some(&br#"{"result":"-2"}"#[..]));
    let data = api(post(br#"{"min":"7","max":"8"}"#));
    assert_eq!(data.content.as_deref(), Some(&br#"{"result":"7"}"#[..]));
    let data = api(post(br#"{"min":"+7","max":"7"}"#));
    assert_eq!(data.content.as_deref(), Some(&br#"{"result":"7"}"#[..]));
}

#[test]
fn api_rejects_what_names_no_range() {
    let bodies: [&[u8]; 8] = [
        b"",
        b"{}",
        br#"{"min":"1"}"#,
        br#"{"max":"1"}"#,
        br#"{"min":"a","max":"2"}"#,
        br#"{"min":"1","max":"2147483648"}"#,
        br#"{"min":"-2147483649","max":"2"}"#,
        br#"{"min":"1","max":"2","x"}"#,
    ];
    for body in bodies {
        let mut random = Random::from_seconds(9);
        let data = api_with(post(body), &mut random);
        assert_eq!(data.status_code, StatusCode::BadRequest);
        assert!(data.content.is_none());
        assert_eq!(random.generate(), Random::from_seconds(9).generate());
        assert_eq!(api(post(body)).status_code, StatusCode::BadRequest);
    }
    assert_eq!(api(Data::new()).status_code, StatusCode::BadRequest);
}

#[test]
fn api_takes_the_whole_range_of_i32() {
    let data = api(post(br#"{"min":"-2147483648","max":"-2147483647"}"#));
    assert_eq!(data.content.as_deref(), Some(&br#"{"result":"-2147483648"}"#[..]));
    let data = api(post(br#"{"min":"2147483646","max":"2147483647"}"#));
    assert_eq!(data.content.as_deref(), Some(&br#"{"result":"2147483646"}"#[..]));
}
