//! The message model: one record for requests and responses, its parser and
//! its renderer.

use crate::error::{ErrorKind, FrameworkError};
use crate::number::{decimal, decimal_chars, parse_u64, parse_u64_chars};
use crate::read::{header_block, header_length, until_crlf};
use crate::status::StatusCode;
use crate::string_map::{inserted, lookup, Entries, StringMap};
use crate::text::{
    chars_of, find_char, find_in, lowercase, str_eq, string_of, to_lower, trim, trim_range,
};
use vstd::slice::*;
use vstd::prelude::*;
use vstd::string::*;
use vstd::utf8::*;

verus! {

/// The method of a request.
#[derive(Eq, PartialEq, Copy, Clone, Debug, Structural)]
pub enum Method {
    CONNECT,
    DELETE,
    GET,
    HEAD,
    OPTIONS,
    PATCH,
    POST,
    PUT,
    TRACE,
    /// Any token that names none of the methods above.
    UNKNOWN,
}

impl Default for Method {
    fn default() -> (method: Method)
        ensures
            method == Method::UNKNOWN,
    {
        Method::UNKNOWN
    }
}

impl Method {
    /// The method that a token of the request line names. No token is an error.
    pub open spec fn from_text(token: Seq<char>) -> Method {
        if token == "CONNECT"@ {
            Method::CONNECT
        } else if token == "DELETE"@ {
            Method::DELETE
        } else if token == "GET"@ {
            Method::GET
        } else if token == "HEAD"@ {
            Method::HEAD
        } else if token == "OPTIONS"@ {
            Method::OPTIONS
        } else if token == "PATCH"@ {
            Method::PATCH
        } else if token == "POST"@ {
            Method::POST
        } else if token == "PUT"@ {
            Method::PUT
        } else if token == "TRACE"@ {
            Method::TRACE
        } else {
            Method::UNKNOWN
        }
    }
}

impl From<&str> for Method {
    fn from(value: &str) -> (method: Method) {
        if str_eq(value, "CONNECT") {
            Method::CONNECT
        } else if str_eq(value, "DELETE") {
            Method::DELETE
        } else if str_eq(value, "GET") {
            Method::GET
        } else if str_eq(value, "HEAD") {
            Method::HEAD
        } else if str_eq(value, "OPTIONS") {
            Method::OPTIONS
        } else if str_eq(value, "PATCH") {
            Method::PATCH
        } else if str_eq(value, "POST") {
            Method::POST
        } else if str_eq(value, "PUT") {
            Method::PUT
        } else if str_eq(value, "TRACE") {
            Method::TRACE
        } else {
            Method::UNKNOWN
        }
    }
}

impl vstd::std_specs::convert::FromSpecImpl<&str> for Method {
    open spec fn obeys_from_spec() -> bool {
        true
    }

    open spec fn from_spec(value: &str) -> Method {
        Method::from_text(value@)
    }
}

/// The address of the peer of a connection. It is carried for information;
/// nothing is decided by it.
pub struct Peer {
    pub ip: String,
    pub port: u16,
}

/// A request or a response. The fields that belong to the other direction
/// keep their default.
pub struct Data {
    pub headers: StringMap,
    pub content: Option<Vec<u8>>,
    pub addr: Option<Peer>,
    pub url: String,
    pub method: Method,
    pub status_code: StatusCode,
}

/// What a message holds, as mathematical values.
pub struct DataView {
    pub headers: Entries,
    pub content: Option<Seq<u8>>,
    pub addr: Option<(Seq<char>, u16)>,
    pub url: Seq<char>,
    pub method: Method,
    pub status_code: StatusCode,
}

impl DataView {
    /// The message with no header, no body, no peer, an empty path, an
    /// unknown method and the status 200.
    pub open spec fn fresh() -> DataView {
        DataView {
            headers: Entries::empty(),
            content: None,
            addr: None,
            url: Seq::empty(),
            method: Method::UNKNOWN,
            status_code: StatusCode::Success,
        }
    }

    /// The message after the header `key` was set to `value`: the key is
    /// stored in lowercase.
    pub open spec fn with_header(self, key: Seq<char>, value: Seq<char>) -> DataView {
        DataView { headers: inserted(self.headers, lowercase(key), value), ..self }
    }

    /// The body, or no bytes where there is none.
    pub open spec fn body(self) -> Seq<u8> {
        match self.content {
            Some(bytes) => bytes,
            None => Seq::empty(),
        }
    }
}

impl View for Data {
    type V = DataView;

    open spec fn view(&self) -> DataView {
        DataView {
            headers: self.headers@,
            content: match self.content {
                Some(bytes) => Some(bytes@),
                None => None,
            },
            addr: match self.addr {
                Some(peer) => Some((peer.ip@, peer.port)),
                None => None,
            },
            url: self.url@,
            method: self.method,
            status_code: self.status_code,
        }
    }
}

impl Default for Data {
    fn default() -> (data: Data)
        ensures
            data@ == DataView::fresh(),
    {
        Data {
            headers: StringMap::new(),
            content: None,
            addr: None,
            url: String::new(),
            method: Method::UNKNOWN,
            status_code: StatusCode::Success,
        }
    }
}

/// The response that carries a body: the body, its type, its length in
/// decimal, and the status 200.
pub open spec fn content_response(mime_type: Seq<char>, content: Seq<u8>) -> DataView {
    DataView {
        headers: seq![
            ("content-type"@, mime_type),
            ("content-length"@, decimal(content.len())),
        ],
        content: Some(content),
        ..DataView::fresh()
    }
}

/// Whether a message asks to keep the connection open: its `connection`
/// header is exactly `keep-alive`.
pub open spec fn keeps_alive(message: DataView) -> bool {
    lookup(message.headers, "connection"@) == Some("keep-alive"@)
}

/// The header lines of a message: for each entry its key, a colon and a
/// space, its value, and a line break.
pub open spec fn render_entries(entries: Entries) -> Seq<char>
    decreases entries.len(),
{
    if entries.len() == 0 {
        Seq::empty()
    } else {
        render_entries(entries.drop_last()) + entries.last().0 + ": "@ + entries.last().1
            + "\r\n"@
    }
}

/// The head of a response: the status line, the header lines, a blank line.
pub open spec fn render_head(response: DataView) -> Seq<char> {
    "HTTP/1.1 "@ + response.status_code.spec_text() + "\r\n"@ + render_entries(response.headers)
        + "\r\n"@
}

/// A response on the wire: its head in UTF-8, then the bytes of its body as
/// they are.
pub open spec fn render_response(response: DataView) -> Seq<u8> {
    encode_utf8(render_head(response)) + response.body()
}

/// The position of the first line break (a carriage return and a line feed)
/// in `text` from `from` on, or the length of `text` if there is none.
pub open spec fn line_end(text: Seq<char>, from: int) -> int
    decreases text.len() - from,
{
    if from < 0 || from + 2 > text.len() {
        text.len() as int
    } else if text[from] == '\r' && text[from + 1] == '\n' {
        from
    } else {
        line_end(text, from + 1)
    }
}

/// A line break with no carriage return between `from` and it is where the
/// line that begins at `from` ends.
pub proof fn lemma_line_end_is(text: Seq<char>, from: int, end: int)
    requires
        0 <= from <= end,
        end + 2 <= text.len(),
        text[end] == '\r',
        text[end + 1] == '\n',
        forall|i: int| from <= i < end ==> text[i] != '\r',
    ensures
        line_end(text, from) == end,
    decreases end - from,
{
    if from < end {
        lemma_line_end_is(text, from + 1, end);
    }
}

/// The headers after one header line was read. A blank line changes nothing.
/// Any other line holds a colon: what stands before the first colon is the
/// key, what stands after it the value, both without the whitespace around
/// them. `None` for a line that is not blank and holds no colon.
pub open spec fn with_line(headers: Entries, line: Seq<char>) -> Option<Entries> {
    if trim(line).len() == 0 {
        Some(headers)
    } else {
        let colon = find_char(line, ':');
        if colon >= line.len() {
            None
        } else {
            Some(inserted(headers, lowercase(trim(line.take(colon))), trim(line.skip(colon + 1))))
        }
    }
}

/// The headers after the lines of `text` from `from` on were read, in order.
/// `None` if one of them is malformed.
pub open spec fn with_lines(headers: Entries, text: Seq<char>, from: int) -> Option<Entries>
    decreases text.len() - from,
{
    let end = line_end(text, from);
    match with_line(headers, text.subrange(from, end)) {
        None => None,
        Some(next) => if from <= end && end + 2 <= text.len() {
            with_lines(next, text, end + 2)
        } else {
            Some(next)
        },
    }
}

/// The message after a header block was read into it. The first line is the
/// request line: the method, a space, the path, and whatever follows a second
/// space, which is ignored. The other lines are header lines. `None` if the
/// request line holds no space or a header line is malformed.
pub open spec fn parse_request(message: DataView, text: Seq<char>) -> Option<DataView> {
    let end = line_end(text, 0);
    let line = text.take(end);
    let first = find_char(line, ' ');
    if first >= line.len() {
        None
    } else {
        let rest = line.skip(first + 1);
        let headers = if end + 2 <= text.len() {
            with_lines(message.headers, text, end + 2)
        } else {
            Some(message.headers)
        };
        match headers {
            None => None,
            Some(h) => Some(
                DataView {
                    method: Method::from_text(line.take(first)),
                    url: rest.take(find_char(rest, ' ')),
                    headers: h,
                    ..message
                },
            ),
        }
    }
}

/// The length that the headers declare for the body: `None` where there is
/// no `content-length`, `Some(None)` where its value is no number.
pub open spec fn declared_length(headers: Entries) -> Option<Option<u64>> {
    match lookup(headers, "content-length"@) {
        None => None,
        Some(value) => Some(parse_u64(value)),
    }
}

/// The bytes of `rest` that make up a body of the declared length `length`:
/// all of them where the stream ends early.
pub open spec fn body_of(rest: Seq<u8>, length: u64) -> Seq<u8> {
    if length <= rest.len() {
        rest.take(length as int)
    } else {
        rest
    }
}

/// What reading the head of a message from the front of `input` gives: the
/// message and the number of bytes that the head takes.
pub open spec fn parse_head(message: DataView, input: Seq<u8>) -> Result<(DataView, int), ErrorKind> {
    match header_block(input) {
        Err(kind) => Err(kind),
        Ok(text) => match parse_request(message, text) {
            None => Err(ErrorKind::HeaderParse),
            Some(head) => Ok((head, header_length(input).unwrap())),
        },
    }
}

/// What reading the body of a message from `rest`, the bytes after its head,
/// gives: the message and the number of bytes that the body takes. Without a
/// `content-length` nothing is read. It fails with `HeaderData` if the value of
/// `content-length` is no number.
pub open spec fn parse_body(message: DataView, rest: Seq<u8>) -> Result<(DataView, int), ErrorKind> {
    match declared_length(message.headers) {
        None => Ok((message, 0)),
        Some(None) => Err(ErrorKind::HeaderData),
        Some(Some(length)) => Ok(
            (
                DataView { content: Some(body_of(rest, length)), ..message },
                body_of(rest, length).len() as int,
            ),
        ),
    }
}

/// What reading a whole message from the front of `input` gives.
pub open spec fn parse_message(message: DataView, input: Seq<u8>) -> Result<
    (DataView, int),
    ErrorKind,
> {
    match parse_head(message, input) {
        Err(kind) => Err(kind),
        Ok((head, n)) => match parse_body(head, input.skip(n)) {
            Err(kind) => Err(kind),
            Ok((whole, m)) => Ok((whole, n + m)),
        },
    }
}

fn find_line_end(chars: &[char], from: usize) -> (end: usize)
    requires
        from <= chars@.len(),
    ensures
        from <= end <= chars@.len(),
        end == line_end(chars@, from as int),
        end < chars@.len() ==> end + 2 <= chars@.len(),
{
    if chars.len() < 2 {
        return chars.len();
    }
    let last: usize = chars.len() - 2;
    let mut at: usize = from;
    while at <= last && !(chars[at] == '\r' && chars[at + 1] == '\n')
        invariant
            last + 2 == chars@.len(),
            from <= at <= chars@.len(),
            line_end(chars@, from as int) == line_end(chars@, at as int),
        decreases chars@.len() - at,
    {
        at += 1;
    }
    if at > last {
        chars.len()
    } else {
        at
    }
}

fn read_line(headers: &mut StringMap, chars: &[char], from: usize, to: usize) -> (ok: bool)
    requires
        from <= to <= chars@.len(),
    ensures
        match with_line(old(headers)@, chars@.subrange(from as int, to as int)) {
            Some(next) => ok && final(headers)@ == next,
            None => !ok && final(headers)@ == old(headers)@,
        },
{
    let ghost line = chars@.subrange(from as int, to as int);
    let (a, b) = trim_range(chars, from, to);
    if a == b {
        return true;
    }
    let colon = find_in(chars, from, to, ':');
    if colon == to {
        return false;
    }
    let (key_from, key_to) = trim_range(chars, from, colon);
    let (value_from, value_to) = trim_range(chars, colon + 1, to);
    let key = string_of(slice_subrange(chars, key_from, key_to));
    let value = string_of(slice_subrange(chars, value_from, value_to));
    proof {
        assert(line.take(colon - from) == chars@.subrange(from as int, colon as int));
        assert(line.skip(colon - from + 1) == chars@.subrange(colon + 1, to as int));
    }
    headers.insert(to_lower(key.as_str()), value);
    true
}

impl Data {
    /// Reads a header block, given as text, into the message: the method and
    /// the path from the request line, then each header.
    ///
    /// Fails with `HeaderParse` on a malformed request line or header line;
    /// the message is then as it was.
    #[verifier::loop_isolation(false)]
    pub fn parse_text(&mut self, text: &str) -> (done: Result<(), FrameworkError>)
        ensures
            match done {
                Ok(_) => parse_request(old(self)@, text@) == Some(final(self)@),
                Err(FrameworkError::HeaderParse) => parse_request(old(self)@, text@) is None
                    && final(self)@ == old(self)@,
                Err(_) => false,
            },
    {
        let chars = chars_of(text);
        let chars = chars.as_slice();
        let end = find_line_end(chars, 0);
        let first = find_in(chars, 0, end, ' ');
        if first == end {
            return Err(FrameworkError::HeaderParse);
        }
        let second = find_in(chars, first + 1, end, ' ');
        let ghost line = chars@.take(end as int);
        proof {
            assert(line == chars@.subrange(0, end as int));
            assert(line.skip(first + 1) == chars@.subrange(first + 1, end as int));
            assert(line.skip(first + 1).take(second - (first + 1)) == chars@.subrange(
                first + 1,
                second as int,
            ));
            assert(line.take(first as int) == chars@.subrange(0, first as int));
        }
        let token = string_of(slice_subrange(chars, 0, first));
        let url = string_of(slice_subrange(chars, first + 1, second));
        let mut headers = self.headers.clone();
        let mut at: usize = end;
        while at < chars.len()
            invariant
                end <= at <= chars@.len(),
                at < chars@.len() ==> at + 2 <= chars@.len(),
                at < chars@.len() ==> with_lines(old(self)@.headers, chars@, end + 2)
                    == with_lines(headers@, chars@, at + 2),
                at == chars@.len() ==> (if end + 2 <= chars@.len() {
                    with_lines(old(self)@.headers, chars@, end + 2)
                } else {
                    Some(old(self)@.headers)
                }) == Some(headers@),
                *self == *old(self),
            decreases chars@.len() - at,
        {
            let from: usize = at + 2;
            let to = find_line_end(chars, from);
            if !read_line(&mut headers, chars, from, to) {
                return Err(FrameworkError::HeaderParse);
            }
            at = to;
        }
        self.method = Method::from(token.as_str());
        self.url = url;
        self.headers = headers;
        Ok(())
    }

    /// Reads the head of a message from the front of `input`, and returns the
    /// number of bytes that it takes. On a failure the message is as it was.
    pub fn parse_header(&mut self, input: &[u8]) -> (read: Result<usize, FrameworkError>)
        ensures
            match read {
                Ok(n) => parse_head(old(self)@, input@) == Ok::<(DataView, int), ErrorKind>(
                    (final(self)@, n as int),
                ),
                Err(e) => parse_head(old(self)@, input@) == Err::<(DataView, int), ErrorKind>(
                    e.kind(),
                ) && final(self)@ == old(self)@,
            },
    {
        let text = match until_crlf(input) {
            Ok(text) => text,
            Err(e) => {
                return Err(e);
            },
        };
        match self.parse_text(text.as_str()) {
            Ok(_) => {},
            Err(e) => {
                return Err(e);
            },
        }
        let block = text.as_str();
        proof {
            let n = header_length(input@).unwrap();
            crate::read::lemma_terminator_from(input@, 0);
            decode_utf8_encode_utf8(input@.take(n));
            assert(block.spec_bytes().len() == n <= spec_slice_len(input));
        }
        Ok(block.len())
    }

    /// The length that the headers declare for the body, if they declare one.
    /// Fails with `HeaderData` if the value of `content-length` is no number.
    pub fn content_length(&self) -> (length: Result<Option<u64>, FrameworkError>)
        ensures
            match length {
                Ok(Some(n)) => declared_length(self@.headers) == Some(Some(n)),
                Ok(None) => declared_length(self@.headers) is None,
                Err(FrameworkError::HeaderData) => declared_length(self@.headers) == Some(
                    None::<u64>,
                ),
                Err(_) => false,
            },
    {
        match self.headers.get("content-length") {
            None => Ok(None),
            Some(value) => {
                let chars = chars_of(value.as_str());
                match parse_u64_chars(chars.as_slice()) {
                    Some(n) => Ok(Some(n)),
                    None => Err(FrameworkError::HeaderData),
                }
            },
        }
    }

    /// Reads the body of the message from `rest`, the bytes that follow its
    /// head, and returns the number of bytes that it takes: as many as the
    /// headers declare, or all of `rest` where that is less. On a failure the
    /// message is as it was.
    pub fn parse_content(&mut self, rest: &[u8]) -> (read: Result<usize, FrameworkError>)
        ensures
            match read {
                Ok(n) => parse_body(old(self)@, rest@) == Ok::<(DataView, int), ErrorKind>(
                    (final(self)@, n as int),
                ),
                Err(e) => parse_body(old(self)@, rest@) == Err::<(DataView, int), ErrorKind>(
                    e.kind(),
                ) && final(self)@ == old(self)@,
            },
    {
        match self.content_length() {
            Err(e) => Err(e),
            Ok(None) => Ok(0),
            Ok(Some(length)) => {
                let n: usize = if length <= rest.len() as u64 {
                    length as usize
                } else {
                    rest.len()
                };
                let body = slice_to_vec(slice_subrange(rest, 0, n));
                assert(body@ == body_of(rest@, length));
                self.content = Some(body);
                Ok(n)
            },
        }
    }

    /// Reads a whole message from the front of `input`, head and body, and
    /// returns the number of bytes that it takes. If the head cannot be read
    /// the message is as it was; if the body cannot, the head has been read.
    pub fn parse(&mut self, input: &[u8]) -> (read: Result<usize, FrameworkError>)
        ensures
            match read {
                Ok(n) => parse_message(old(self)@, input@) == Ok::<(DataView, int), ErrorKind>(
                    (final(self)@, n as int),
                ),
                Err(e) => parse_message(old(self)@, input@) == Err::<(DataView, int), ErrorKind>(
                    e.kind(),
                ) && final(self)@ == (match parse_head(old(self)@, input@) {
                    Ok((head, _)) => head,
                    Err(_) => old(self)@,
                }),
            },
    {
        let n = match self.parse_header(input) {
            Ok(n) => n,
            Err(e) => {
                return Err(e);
            },
        };
        proof {
            crate::read::lemma_terminator_from(input@, 0);
        }
        let rest = slice_subrange(input, n, input.len());
        assert(rest@ == input@.skip(n as int));
        match self.parse_content(rest) {
            Ok(m) => Ok(n + m),
            Err(e) => Err(e),
        }
    }

    /// Whether the message asks to keep the connection open.
    pub fn keep_alive(&self) -> (keep: bool)
        ensures
            keep == keeps_alive(self@),
    {
        match self.headers.get("connection") {
            Some(value) => str_eq(value.as_str(), "keep-alive"),
            None => false,
        }
    }

    /// A fresh message.
    pub fn new() -> (data: Data)
        ensures
            data@ == DataView::fresh(),
    {
        Data::default()
    }

    /// A message with the status `status` and nothing else.
    pub fn from_status(status: StatusCode) -> (data: Data)
        ensures
            data@ == (DataView { status_code: status, ..DataView::fresh() }),
    {
        let mut data = Data::new();
        data.status_code = status;
        data
    }

    /// A response with a body: the body, its type and its length are set
    /// together, so that the length header always tells the body's length.
    pub fn from_content(mime_type: &str, content: Vec<u8>) -> (data: Data)
        ensures
            data@ == content_response(mime_type@, content@),
    {
        let mut data = Data::new();
        let length = string_of(decimal_chars(content.len() as u64).as_slice());
        data.add_header("content-type", mime_type);
        data.add_header("content-length", length.as_str());
        data.content = Some(content);
        proof {
            lemma_well_known_keys();
            reveal_strlit("content-type");
            reveal_strlit("content-length");
            let first: Entries = seq![("content-type"@, mime_type@)];
            assert(inserted(Entries::empty(), "content-type"@, mime_type@) == first);
            assert(crate::string_map::position(first.drop_first(), "content-length"@) == 0);
            assert(inserted(first, "content-length"@, length@) == seq![
                ("content-type"@, mime_type@),
                ("content-length"@, length@),
            ]);
        }
        data
    }

    /// Sets the header `key` to `value`. The key is stored in lowercase; a
    /// value that the key had before is replaced.
    pub fn add_header(&mut self, key: &str, value: &str)
        ensures
            final(self)@ == old(self)@.with_header(key@, value@),
    {
        self.headers.insert(to_lower(key), String::from_str(value));
    }

    /// The value of the header `key`, which is given in lowercase.
    pub fn header(&self, key: &str) -> (value: Option<&String>)
        ensures
            match value {
                Some(v) => crate::string_map::lookup(self@.headers, key@) == Some(v@),
                None => crate::string_map::lookup(self@.headers, key@) is None,
            },
    {
        self.headers.get(key)
    }

    /// The header lines of the message.
    pub fn render_headers(&self) -> (lines: String)
        ensures
            lines@ == render_entries(self@.headers),
    {
        let mut lines = String::new();
        let mut i: usize = 0;
        while i < self.headers.len()
            invariant
                i <= self.headers@.len(),
                lines@ == render_entries(self.headers@.take(i as int)),
            decreases self.headers@.len() - i,
        {
            proof {
                assert(self.headers@.take(i + 1).drop_last() == self.headers@.take(i as int));
            }
            lines.append(self.headers.key_at(i).as_str());
            lines.append(": ");
            lines.append(self.headers.value_at(i).as_str());
            lines.append("\r\n");
            i += 1;
        }
        proof {
            assert(self.headers@.take(i as int) == self.headers@);
        }
        lines
    }

    /// The message as the bytes of a response.
    pub fn render(&self) -> (bytes: Vec<u8>)
        ensures
            bytes@ == render_response(self@),
    {
        let mut head = String::from_str("HTTP/1.1 ");
        head.append(self.status_code.text().as_str());
        head.append("\r\n");
        head.append(self.render_headers().as_str());
        head.append("\r\n");
        let mut bytes = head.as_str().as_bytes_vec();
        match &self.content {
            Some(content) => {
                let mut i: usize = 0;
                while i < content.len()
                    invariant
                        i <= content@.len(),
                        bytes@ == encode_utf8(render_head(self@)) + content@.take(i as int),
                    decreases content@.len() - i,
                {
                    bytes.push(content[i]);
                    proof {
                        assert(content@.take(i + 1) == content@.take(i as int).push(
                            content@[i as int],
                        ));
                    }
                    i += 1;
                }
                proof {
                    assert(content@.take(i as int) == content@);
                }
            },
            None => {},
        }
        bytes
    }
}

/// Header names are not sensitive to case: two names in ASCII that differ
/// only in the case of their letters set the same header, so that a message
/// holds one entry for both.
pub proof fn lemma_header_names_ignore_case(
    message: DataView,
    first: Seq<char>,
    second: Seq<char>,
    value: Seq<char>,
)
    requires
        is_ascii_chars(first),
        is_ascii_chars(second),
        first.map_values(|c: char| crate::text::ascii_lower_char(c)) == second.map_values(
            |c: char| crate::text::ascii_lower_char(c),
        ),
    ensures
        message.with_header(first, value) == message.with_header(second, value),
        message.with_header(first, value).with_header(second, value) == message.with_header(
            first,
            value,
        ),
{
    let key = lowercase(first);
    let once = inserted(message.headers, key, value);
    crate::string_map::lemma_position(message.headers, key);
    let at = crate::string_map::position(message.headers, key);
    if at < message.headers.len() {
        assert forall|i: int| 0 <= i < at implies (#[trigger] once[i]).0 != key by {
            assert(message.headers[i].0 != key);
        }
        crate::string_map::lemma_position_is(once, key, at);
        assert(inserted(once, key, value) == once);
    } else {
        assert forall|i: int| 0 <= i < at implies (#[trigger] once[i]).0 != key by {
            assert(message.headers[i].0 != key);
        }
        crate::string_map::lemma_position_is(once, key, at);
        assert(inserted(once, key, value) == once);
    }
}

/// The names of the headers that the framework itself writes are in
/// lowercase already.
pub proof fn lemma_well_known_keys()
    ensures
        lowercase("content-type"@) == "content-type"@,
        lowercase("content-length"@) == "content-length"@,
        lowercase("connection"@) == "connection"@,
        lowercase("host"@) == "host"@,
        lowercase("server"@) == "server"@,
{
    reveal_strlit("content-type");
    reveal_strlit("content-length");
    reveal_strlit("connection");
    reveal_strlit("host");
    reveal_strlit("server");
    assert(lowercase("content-type"@) =~= "content-type"@);
    assert(lowercase("content-length"@) =~= "content-length"@);
    assert(lowercase("connection"@) =~= "connection"@);
    assert(lowercase("host"@) =~= "host"@);
    assert(lowercase("server"@) =~= "server"@);
}

} // verus!
