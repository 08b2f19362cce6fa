//! What is rendered can be read back: a response that carries a body, once
//! rendered and parsed as a message, gives the same body again.

use crate::error::ErrorKind;
use crate::http::{
    content_response, lemma_line_end_is, lemma_well_known_keys, line_end, parse_head,
    parse_message, parse_request, render_entries, render_head, render_response, with_line,
    with_lines, DataView,
};
use crate::number::{all_digits, decimal, is_digit, lemma_decimal, lemma_parse_decimal};
use crate::read::{header_block, header_length, is_terminator, lemma_header_length_is};
use crate::status::StatusCode;
use crate::string_map::{distinct_keys, inserted, lemma_inserted, lookup, Entries};
use crate::text::{
    find_char, is_whitespace, lemma_find_char, lemma_find_char_is, lemma_trim_is_identity,
    lemma_trim_keeps_first, lowercase, trim, trim_start,
};
use vstd::prelude::*;
use vstd::utf8::*;

verus! {

/// Whether a text is written in ASCII and holds no carriage return.
pub open spec fn plain(s: Seq<char>) -> bool {
    forall|i: int| 0 <= i < s.len() ==> '\0' <= (#[trigger] s[i]) <= '\u{7f}' && s[i] != '\r'
}

/// Three lines as a header block: each ends in a line break, and a blank
/// line ends the block.
pub open spec fn block_of(l1: Seq<char>, l2: Seq<char>, l3: Seq<char>) -> Seq<char> {
    l1 + "\r\n"@ + l2 + "\r\n"@ + l3 + "\r\n"@ + "\r\n"@
}

proof fn lemma_plain_concat(a: Seq<char>, b: Seq<char>)
    requires
        plain(a),
        plain(b),
    ensures
        plain(a + b),
{
    assert forall|i: int| 0 <= i < (a + b).len() implies '\0' <= (#[trigger] (a + b)[i])
        <= '\u{7f}' && (a + b)[i] != '\r' by {
        if i < a.len() {
            assert((a + b)[i] == a[i]);
        } else {
            assert((a + b)[i] == b[i - a.len()]);
        }
    }
}

proof fn lemma_plain_digits(s: Seq<char>)
    requires
        all_digits(s),
    ensures
        plain(s),
{
    assert forall|i: int| 0 <= i < s.len() implies '\0' <= (#[trigger] s[i]) <= '\u{7f}'
        && s[i] != '\r' by {
        assert(is_digit(s[i]));
    }
}

/// Where the lines of a block stand in it.
proof fn lemma_block_shape(l1: Seq<char>, l2: Seq<char>, l3: Seq<char>)
    ensures
        ({
            let head = block_of(l1, l2, l3);
            let p1 = l1.len() as int;
            let p2 = p1 + 2 + l2.len();
            let p3 = p2 + 2 + l3.len();
            &&& head.len() == p3 + 4
            &&& head.subrange(0, p1) == l1
            &&& head.subrange(p1 + 2, p2) == l2
            &&& head.subrange(p2 + 2, p3) == l3
            &&& head[p1] == '\r' && head[p1 + 1] == '\n'
            &&& head[p2] == '\r' && head[p2 + 1] == '\n'
            &&& head[p3] == '\r' && head[p3 + 1] == '\n'
            &&& head[p3 + 2] == '\r' && head[p3 + 3] == '\n'
        }),
{
    reveal_strlit("\r\n");
    let crlf = "\r\n"@;
    assert(crlf.len() == 2 && crlf[0] == '\r' && crlf[1] == '\n');
    let a = l1 + crlf;
    let b = a + l2;
    let c = b + crlf;
    let d = c + l3;
    let e = d + crlf;
    let head = e + crlf;
    assert(head == block_of(l1, l2, l3));
    let p1 = l1.len() as int;
    let p2 = p1 + 2 + l2.len();
    let p3 = p2 + 2 + l3.len();
    assert(head.subrange(0, p1) =~= l1);
    assert(head.subrange(p1 + 2, p2) =~= l2);
    assert(head.subrange(p2 + 2, p3) =~= l3);
    assert(head[p1] == a[p1]);
    assert(head[p1 + 1] == a[p1 + 1]);
    assert(head[p2] == c[p2]);
    assert(head[p2 + 1] == c[p2 + 1]);
    assert(head[p3] == e[p3]);
    assert(head[p3 + 1] == e[p3 + 1]);
}

/// A block of three plain lines, the second and third not empty, is the
/// header block of the bytes that begin with its encoding: its blank line is
/// the first that the bytes hold.
proof fn lemma_block_is_found(l1: Seq<char>, l2: Seq<char>, l3: Seq<char>, body: Seq<u8>)
    requires
        plain(l1),
        plain(l2),
        plain(l3),
        l2.len() > 0,
        l3.len() > 0,
    ensures
        ({
            let head = block_of(l1, l2, l3);
            let wire = encode_utf8(head) + body;
            &&& header_block(wire) == Ok::<Seq<char>, ErrorKind>(head)
            &&& header_length(wire) == Some(head.len() as int)
            &&& wire.skip(head.len() as int) == body
        }),
{
    let head = block_of(l1, l2, l3);
    let p1 = l1.len() as int;
    let p2 = p1 + 2 + l2.len();
    let p3 = p2 + 2 + l3.len();
    lemma_block_shape(l1, l2, l3);
    assert(is_ascii_chars(head)) by {
        assert forall|i: int| 0 <= i < head.len() implies '\0' <= #[trigger] head[i]
            <= '\u{7f}' by {
            if i < p1 {
                assert(head[i] == head.subrange(0, p1)[i]);
            } else if p1 + 2 <= i < p2 {
                assert(head[i] == head.subrange(p1 + 2, p2)[i - p1 - 2]);
            } else if p2 + 2 <= i < p3 {
                assert(head[i] == head.subrange(p2 + 2, p3)[i - p2 - 2]);
            } else {
                assert(head[i] == '\r' || head[i] == '\n');
            }
        }
    }
    let encoded = encode_utf8(head);
    is_ascii_chars_encode_utf8(head);
    encode_utf8_valid_utf8(head);
    encode_utf8_decode_utf8(head);
    let wire = encoded + body;
    assert(wire.take(head.len() as int) == encoded);
    assert(wire.skip(head.len() as int) == body);
    assert forall|i: int| 0 <= i < head.len() implies ((#[trigger] wire[i]) == 13) == (head[i]
        == '\r') && (wire[i] == 10) == (head[i] == '\n') by {
        assert(wire[i] == encoded[i]);
        assert(head[i] as u8 == encoded[i]);
    }
    assert(is_terminator(wire, p3));
    assert forall|i: int| 0 <= i < p3 implies !is_terminator(wire, i) by {
        if is_terminator(wire, i) {
            assert(wire[i] == 13 && wire[i + 2] == 13);
            assert(head[i] == '\r');
            assert(head[i + 2] == '\r');
            if i < p1 {
                assert(head[i] == head.subrange(0, p1)[i]);
            } else if i == p1 {
                assert(head[i + 2] == head.subrange(p1 + 2, p2)[0]);
            } else if i < p1 + 2 {
            } else if i < p2 {
                assert(head[i] == head.subrange(p1 + 2, p2)[i - p1 - 2]);
            } else if i == p2 {
                assert(head[i + 2] == head.subrange(p2 + 2, p3)[0]);
            } else if i < p2 + 2 {
            } else {
                assert(head[i] == head.subrange(p2 + 2, p3)[i - p2 - 2]);
            }
        }
    }
    lemma_header_length_is(wire, p3);
}

/// A line of a header block that ends in a line break is read as one line,
/// and reading goes on after the break.
pub proof fn lemma_with_lines_step(headers: Entries, text: Seq<char>, from: int, end: int)
    requires
        0 <= from <= end,
        end + 2 <= text.len(),
        text[end] == '\r',
        text[end + 1] == '\n',
        forall|i: int| from <= i < end ==> text[i] != '\r',
    ensures
        with_lines(headers, text, from) == match with_line(headers, text.subrange(from, end)) {
            None => None,
            Some(next) => with_lines(next, text, end + 2),
        },
{
    lemma_line_end_is(text, from, end);
}

/// In a block of three plain lines the first is the request line, and the
/// headers are read from the second and the third.
proof fn lemma_block_is_read(headers: Entries, l1: Seq<char>, l2: Seq<char>, l3: Seq<char>)
    requires
        plain(l1),
        plain(l2),
        plain(l3),
    ensures
        ({
            let head = block_of(l1, l2, l3);
            &&& line_end(head, 0) == l1.len()
            &&& head.take(l1.len() as int) == l1
            &&& l1.len() + 2 <= head.len()
            &&& with_lines(headers, head, l1.len() as int + 2) == match with_line(headers, l2) {
                None => None,
                Some(second) => with_line(second, l3),
            }
        }),
{
    let head = block_of(l1, l2, l3);
    let p1 = l1.len() as int;
    let p2 = p1 + 2 + l2.len();
    let p3 = p2 + 2 + l3.len();
    lemma_block_shape(l1, l2, l3);
    assert forall|i: int| 0 <= i < p1 implies head[i] != '\r' by {
        assert(head[i] == head.subrange(0, p1)[i]);
    }
    assert forall|i: int| p1 + 2 <= i < p2 implies head[i] != '\r' by {
        assert(head[i] == head.subrange(p1 + 2, p2)[i - p1 - 2]);
    }
    assert forall|i: int| p2 + 2 <= i < p3 implies head[i] != '\r' by {
        assert(head[i] == head.subrange(p2 + 2, p3)[i - p2 - 2]);
    }
    lemma_line_end_is(head, 0, p1);
    assert(head.take(p1) == head.subrange(0, p1));
    lemma_with_lines_step(headers, head, p1 + 2, p2);
    match with_line(headers, l2) {
        None => {},
        Some(second) => {
            lemma_with_lines_step(second, head, p2 + 2, p3);
            match with_line(second, l3) {
                None => {},
                Some(third) => {
                    let blank = head.subrange(p3 + 2, p3 + 2);
                    assert(blank.len() == 0);
                    assert(trim(blank).len() == 0);
                    lemma_with_lines_step(third, head, p3 + 2, p3 + 2);
                    assert(with_line(third, blank) == Some(third));
                    assert(line_end(head, p3 + 4) == head.len());
                    assert(head.subrange(p3 + 4, p3 + 4) == blank);
                    assert(with_lines(third, head, p3 + 4) == Some(third));
                },
            }
        },
    }
}

/// A header line as it is rendered is read back as its key, in lowercase,
/// and its value without the whitespace around it, provided that the key
/// holds neither a colon nor whitespace.
pub proof fn lemma_with_rendered_line(headers: Entries, key: Seq<char>, value: Seq<char>)
    requires
        key.len() > 0,
        forall|i: int| 0 <= i < key.len() ==> key[i] != ':' && !is_whitespace(#[trigger] key[i]),
    ensures
        with_line(headers, key + ": "@ + value) == Some(
            inserted(headers, lowercase(key), trim(value)),
        ),
{
    reveal_strlit(": ");
    let line = key + ": "@ + value;
    assert(line.first() == key.first());
    lemma_trim_keeps_first(line);
    assert(line[key.len() as int] == ':');
    assert forall|i: int| 0 <= i < key.len() implies line[i] != ':' by {
        assert(line[i] == key[i]);
    }
    lemma_find_char_is(line, ':', key.len() as int);
    assert(line.take(key.len() as int) == key);
    lemma_trim_is_identity(key);
    let after = line.skip(key.len() as int + 1);
    assert(after.len() > 0 && after.first() == ' ');
    assert(after.drop_first() == value);
    assert(trim_start(after) == trim_start(value));
}

/// The three lines of the head of a response that carries a body.
proof fn lemma_head_lines(mime_type: Seq<char>, body: Seq<u8>)
    requires
        plain(mime_type),
    ensures
        ({
            let l1 = "HTTP/1.1 "@ + StatusCode::Success.spec_text();
            let l2 = "content-type"@ + ": "@ + mime_type;
            let l3 = "content-length"@ + ": "@ + decimal(body.len());
            &&& render_head(content_response(mime_type, body)) == block_of(l1, l2, l3)
            &&& plain(l1)
            &&& plain(l2)
            &&& plain(l3)
            &&& l1.len() > 8
            &&& l1[8] == ' '
        }),
{
    reveal_strlit("\r\n");
    reveal_strlit(": ");
    reveal_strlit(" ");
    reveal_strlit("OK");
    reveal_strlit("HTTP/1.1 ");
    reveal_strlit("content-type");
    reveal_strlit("content-length");
    let response = content_response(mime_type, body);
    let length = decimal(body.len());
    let crlf = "\r\n"@;
    let l1 = "HTTP/1.1 "@ + StatusCode::Success.spec_text();
    let l2 = "content-type"@ + ": "@ + mime_type;
    let l3 = "content-length"@ + ": "@ + length;
    let entries = response.headers;
    let one = entries.drop_last();
    assert(one.len() == 1);
    assert(one.last() == ("content-type"@, mime_type));
    assert(one.drop_last().len() == 0);
    assert(render_entries(one.drop_last()) == Seq::<char>::empty());
    assert(render_entries(one) =~= l2 + crlf);
    assert(entries.last() == ("content-length"@, length));
    assert(render_entries(entries) =~= l2 + crlf + l3 + crlf);
    assert(render_head(response) =~= block_of(l1, l2, l3));
    lemma_decimal(200);
    lemma_decimal(body.len());
    lemma_plain_digits(decimal(200));
    lemma_plain_digits(length);
    assert(plain("HTTP/1.1 "@));
    assert(plain(" "@));
    assert(plain("OK"@));
    assert(plain(": "@));
    assert(plain("content-type"@));
    assert(plain("content-length"@));
    lemma_plain_concat(decimal(200), " "@);
    lemma_plain_concat(decimal(200) + " "@, "OK"@);
    lemma_plain_concat("HTTP/1.1 "@, StatusCode::Success.spec_text());
    lemma_plain_concat("content-type"@, ": "@);
    lemma_plain_concat("content-type"@ + ": "@, mime_type);
    lemma_plain_concat("content-length"@, ": "@);
    lemma_plain_concat("content-length"@ + ": "@, length);
    assert(l1[8] == "HTTP/1.1 "@[8]);
}

/// A response that carries a body gives the body back when it is rendered
/// and then read as a message: the length that it declares is the length of
/// the body, and exactly the bytes of the body follow its head. This holds
/// for every body and for every type that is written in ASCII and holds no
/// carriage return.
pub proof fn lemma_body_round_trip(message: DataView, mime_type: Seq<char>, body: Seq<u8>)
    requires
        distinct_keys(message.headers),
        plain(mime_type),
        body.len() <= u64::MAX,
    ensures
        ({
            let wire = render_response(content_response(mime_type, body));
            &&& parse_message(message, wire) matches Ok((read, n))
            &&& read.content == Some(body)
            &&& lookup(read.headers, "content-length"@) == Some(decimal(body.len()))
            &&& n == wire.len()
        }),
{
    reveal_strlit("content-type");
    reveal_strlit("content-length");
    lemma_well_known_keys();
    let length = decimal(body.len());
    let l1 = "HTTP/1.1 "@ + StatusCode::Success.spec_text();
    let l2 = "content-type"@ + ": "@ + mime_type;
    let l3 = "content-length"@ + ": "@ + length;
    let head = block_of(l1, l2, l3);
    let wire = render_response(content_response(mime_type, body));
    lemma_head_lines(mime_type, body);
    lemma_block_is_found(l1, l2, l3, body);
    let h0 = message.headers;
    let h1 = inserted(h0, "content-type"@, trim(mime_type));
    let h2 = inserted(h1, "content-length"@, length);
    lemma_block_is_read(h0, l1, l2, l3);
    lemma_with_rendered_line(h0, "content-type"@, mime_type);
    lemma_with_rendered_line(h1, "content-length"@, length);
    lemma_decimal(body.len());
    assert(trim(length) == length) by {
        assert(is_digit(length.first()));
        assert(is_digit(length.last()));
        lemma_trim_is_identity(length);
    }
    lemma_find_char(l1, ' ');
    assert(find_char(l1, ' ') < l1.len());
    assert(with_lines(h0, head, l1.len() as int + 2) == Some(h2));
    let read_head = parse_request(message, head).unwrap();
    assert(parse_request(message, head) is Some);
    assert(read_head.headers == h2);
    assert(parse_head(message, wire) == Ok::<(DataView, int), ErrorKind>(
        (read_head, head.len() as int),
    ));
    lemma_inserted(h0, "content-type"@, trim(mime_type));
    lemma_inserted(h1, "content-length"@, length);
    lemma_parse_decimal(body.len() as u64);
    assert(body.take(body.len() as int) == body);
}

} // verus!
