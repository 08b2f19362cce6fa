//! Static files: the type of a file by its name, and the response that
//! carries a file.

use crate::http::{content_response, Data, DataView};
use crate::status::StatusCode;
use crate::text::{chars_of, str_eq, string_of};
use vstd::prelude::*;
use vstd::slice::*;
use vstd::string::*;

verus! {

/// The position after the last `.` in `name`, or 0 if it holds none.
pub open spec fn extension_start(name: Seq<char>) -> int
    decreases name.len(),
{
    if name.len() == 0 {
        0
    } else if name.last() == '.' {
        name.len() as int
    } else {
        extension_start(name.drop_last())
    }
}

/// The extension of a file name: what follows its last `.`. A name without a
/// `.` has none.
pub open spec fn extension(name: Seq<char>) -> Option<Seq<char>> {
    if extension_start(name) == 0 {
        None
    } else {
        Some(name.skip(extension_start(name)))
    }
}

/// The type of a file, by the extension of its name alone.
pub open spec fn content_type_of(name: Seq<char>) -> Seq<char> {
    let ext = extension(name);
    if ext == Some("css"@) {
        "text/css"@
    } else if ext == Some("html"@) {
        "text/html"@
    } else if ext == Some("ico"@) {
        "image/x-icon"@
    } else if ext == Some("js"@) {
        "text/javascript"@
    } else if ext == Some("png"@) {
        "image/x-png"@
    } else {
        "application/octet-stream"@
    }
}

/// The response for a file: with its content, the status 200, the type that
/// its name gives, and the length of the content; without its content, 404.
pub open spec fn file_response(name: Seq<char>, content: Option<Seq<u8>>) -> DataView {
    match content {
        Some(bytes) => content_response(content_type_of(name), bytes),
        None => DataView { status_code: StatusCode::NotFound, ..DataView::fresh() },
    }
}

/// The type of the file `filename`.
pub fn detect_content_type(filename: &str) -> (mime: String)
    ensures
        mime@ == content_type_of(filename@),
{
    let chars = chars_of(filename);
    let mut start: usize = chars.len();
    assert(chars@.take(start as int) == chars@);
    while start > 0 && chars[start - 1] != '.'
        invariant
            start <= chars@.len(),
            extension_start(chars@) == extension_start(chars@.take(start as int)),
        decreases start,
    {
        proof {
            assert(chars@.take(start as int).drop_last() == chars@.take(start - 1));
        }
        start -= 1;
    }
    proof {
        assert(chars@.take(start as int).len() == start);
        if start > 0 {
            assert(chars@.take(start as int).last() == '.');
        }
        assert(chars@.skip(start as int) == chars@.subrange(start as int, chars@.len() as int));
    }
    let mime: &str = if start == 0 {
        "application/octet-stream"
    } else {
        let ext = string_of(slice_subrange(chars.as_slice(), start, chars.len()));
        if str_eq(ext.as_str(), "css") {
            "text/css"
        } else if str_eq(ext.as_str(), "html") {
            "text/html"
        } else if str_eq(ext.as_str(), "ico") {
            "image/x-icon"
        } else if str_eq(ext.as_str(), "js") {
            "text/javascript"
        } else if str_eq(ext.as_str(), "png") {
            "image/x-png"
        } else {
            "application/octet-stream"
        }
    };
    String::from_str(mime)
}

/// The response for the file `filename`, given what reading it gave: its
/// content, or `None` where it could not be read, for whatever reason.
pub fn response(filename: &str, content: Option<Vec<u8>>) -> (data: Data)
    ensures
        data@ == file_response(
            filename@,
            match content {
                Some(bytes) => Some(bytes@),
                None => None,
            },
        ),
{
    match content {
        Some(bytes) => Data::from_content(detect_content_type(filename).as_str(), bytes),
        None => Data::from_status(StatusCode::NotFound),
    }
}

} // verus!
