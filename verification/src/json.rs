//! A flat JSON object of strings: one level, string keys, string values, and
//! no escapes.

use crate::http::{content_response, Data, DataView};
use crate::string_map::{inserted, Entries, StringMap};
use crate::text::{chars_of, find_char, find_in, string_of, trim, trim_range};
use vstd::prelude::*;
use vstd::slice::*;
use vstd::string::*;
use vstd::utf8::*;

verus! {

/// A flat object.
pub type SimpleJson = StringMap;

/// Braces and quotes count as blanks when an object is read.
pub open spec fn clean(c: char) -> char {
    if c == '{' || c == '}' || c == '"' {
        ' '
    } else {
        c
    }
}

/// What stands on one side of the colon of an item: the text without its
/// braces and quotes and without the whitespace around it.
pub open spec fn side(raw: Seq<char>) -> Seq<char> {
    trim(raw.map_values(|c: char| clean(c)))
}

/// The entries after one item was read: the key before its first colon, the
/// value after it. `None` for an item without a colon.
pub open spec fn with_item(entries: Entries, item: Seq<char>) -> Option<Entries> {
    let colon = find_char(item, ':');
    if colon >= item.len() {
        None
    } else {
        Some(inserted(entries, side(item.take(colon)), side(item.skip(colon + 1))))
    }
}

/// The entries after the items of `text` from `from` on were read, in order.
/// Items are separated by commas.
pub open spec fn with_items(entries: Entries, text: Seq<char>, from: int) -> Option<Entries>
    decreases text.len() - from,
{
    if from < 0 || from > text.len() {
        None
    } else {
        let end = from + find_char(text.skip(from), ',');
        match with_item(entries, text.subrange(from, end)) {
            None => None,
            Some(next) => if from <= end < text.len() {
                with_items(next, text, end + 1)
            } else {
                Some(next)
            },
        }
    }
}

/// The object that `bytes` denote. `None` if they are not valid UTF-8 or an
/// item holds no colon.
pub open spec fn parse_object(bytes: Seq<u8>) -> Option<Entries> {
    if valid_utf8(bytes) {
        with_items(Entries::empty(), decode_utf8(bytes), 0)
    } else {
        None
    }
}

/// The items of an object as text: each key and value in quotes with a colon
/// between them, and a comma between two items.
pub open spec fn render_items(entries: Entries) -> Seq<char>
    decreases entries.len(),
{
    if entries.len() == 0 {
        Seq::empty()
    } else {
        let item = "\""@ + entries.last().0 + "\":\""@ + entries.last().1 + "\""@;
        if entries.len() == 1 {
            item
        } else {
            render_items(entries.drop_last()) + ","@ + item
        }
    }
}

/// An object as text: its items between braces.
pub open spec fn render_object(entries: Entries) -> Seq<char> {
    "{"@ + render_items(entries) + "}"@
}

/// The response that carries an object: its text in UTF-8 as the body, with
/// the type `application/json`.
pub open spec fn object_response(entries: Entries) -> DataView {
    content_response("application/json"@, encode_utf8(render_object(entries)))
}

/// A response with `data` as its body.
pub fn serialize(data: SimpleJson) -> (response: Data)
    ensures
        response@ == object_response(data@),
{
    let mut content = String::from_str("{");
    let mut i: usize = 0;
    while i < data.len()
        invariant
            i <= data@.len(),
            content@ == "{"@ + render_items(data@.take(i as int)),
        decreases data@.len() - i,
    {
        proof {
            assert(data@.take(i + 1).drop_last() == data@.take(i as int));
            assert(data@.take(i + 1).last() == data@[i as int]);
        }
        if i > 0 {
            content.append(",");
        }
        content.append("\"");
        content.append(data.key_at(i).as_str());
        content.append("\":\"");
        content.append(data.value_at(i).as_str());
        content.append("\"");
        i += 1;
    }
    proof {
        assert(data@.take(i as int) == data@);
    }
    content.append("}");
    Data::from_content("application/json", content.as_str().as_bytes_vec())
}

fn read_side(chars: &[char], from: usize, to: usize) -> (text: String)
    requires
        from <= to <= chars@.len(),
    ensures
        text@ == side(chars@.subrange(from as int, to as int)),
{
    let ghost raw = chars@.subrange(from as int, to as int);
    let mut cleaned: Vec<char> = Vec::new();
    let mut i: usize = from;
    while i < to
        invariant
            from <= i <= to <= chars@.len(),
            raw == chars@.subrange(from as int, to as int),
            cleaned@ == raw.take(i - from).map_values(|c: char| clean(c)),
        decreases to - i,
    {
        let c = chars[i];
        proof {
            assert(raw.take(i - from + 1) == raw.take(i - from).push(c));
        }
        if c == '{' || c == '}' || c == '"' {
            cleaned.push(' ');
        } else {
            cleaned.push(c);
        }
        i += 1;
    }
    proof {
        assert(raw.take(i - from) == raw);
    }
    let (a, b) = trim_range(cleaned.as_slice(), 0, cleaned.len());
    proof {
        assert(cleaned@.subrange(0, cleaned@.len() as int) == cleaned@);
    }
    string_of(slice_subrange(cleaned.as_slice(), a, b))
}

/// Reads a flat object. Fails, with `None`, on bytes that are not valid
/// UTF-8 and on an item without a colon.
pub fn deserialize(data: &[u8]) -> (object: Option<SimpleJson>)
    ensures
        match object {
            Some(entries) => parse_object(data@) == Some(entries@),
            None => parse_object(data@) is None,
        },
{
    let text = match String::from_utf8(slice_to_vec(data)) {
        Ok(text) => text,
        Err(_) => {
            return None;
        },
    };
    let chars = chars_of(text.as_str());
    let chars = chars.as_slice();
    let mut result = StringMap::new();
    let mut from: usize = 0;
    loop
        invariant
            from <= chars@.len(),
            chars@ == decode_utf8(data@),
            valid_utf8(data@),
            with_items(Entries::empty(), chars@, 0) == with_items(result@, chars@, from as int),
        decreases chars@.len() - from,
    {
        let end = find_in(chars, from, chars.len(), ',');
        let colon = find_in(chars, from, end, ':');
        proof {
            assert(chars@.subrange(from as int, chars@.len() as int) == chars@.skip(from as int));
            let item = chars@.subrange(from as int, end as int);
            assert(item.take(colon - from) == chars@.subrange(from as int, colon as int));
            if colon < end {
                assert(item.skip(colon - from + 1) == chars@.subrange(colon + 1, end as int));
            }
        }
        if colon == end {
            return None;
        }
        let key = read_side(chars, from, colon);
        let value = read_side(chars, colon + 1, end);
        result.insert(key, value);
        if end == chars.len() {
            return Some(result);
        }
        from = end + 1;
    }
}

} // verus!
