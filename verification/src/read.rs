//! The wire reader: where the header block of a message ends.

use crate::error::{ErrorKind, FrameworkError};
use vstd::prelude::*;
use vstd::slice::*;
use vstd::utf8::*;

verus! {

/// `String::from_utf8` succeeds exactly on valid UTF-8, and the string then
/// holds the characters that the bytes encode.
pub assume_specification[ String::from_utf8 ](vec: Vec<u8>) -> (text: Result<
    String,
    std::string::FromUtf8Error,
>)
    ensures
        text is Ok <==> valid_utf8(vec@),
        text matches Ok(s) ==> s@ == decode_utf8(vec@),
;

/// Whether the four bytes at `at` are the blank line that ends a header block.
pub open spec fn is_terminator(bytes: Seq<u8>, at: int) -> bool {
    &&& 0 <= at
    &&& at + 4 <= bytes.len()
    &&& bytes[at] == 13
    &&& bytes[at + 1] == 10
    &&& bytes[at + 2] == 13
    &&& bytes[at + 3] == 10
}

/// The first position from `from` on at which a terminator stands, or the
/// length of `bytes` if there is none.
pub open spec fn terminator_from(bytes: Seq<u8>, from: int) -> int
    decreases bytes.len() - from,
{
    if from < 0 || from + 4 > bytes.len() {
        bytes.len() as int
    } else if is_terminator(bytes, from) {
        from
    } else {
        terminator_from(bytes, from + 1)
    }
}

/// The length of the header block: everything up to and including the first
/// terminator. `None` if the bytes hold no terminator.
pub open spec fn header_length(bytes: Seq<u8>) -> Option<int> {
    let at = terminator_from(bytes, 0);
    if at + 4 <= bytes.len() {
        Some(at + 4)
    } else {
        None
    }
}

/// What reading the header block of `input` gives: its text, or the kind of
/// the failure. It fails with `HeaderParse` if `input` ends before a blank
/// line, and with `Utf` if the block is not valid UTF-8.
pub open spec fn header_block(input: Seq<u8>) -> Result<Seq<char>, ErrorKind> {
    match header_length(input) {
        None => Err(ErrorKind::HeaderParse),
        Some(n) => if valid_utf8(input.take(n)) {
            Ok(decode_utf8(input.take(n)))
        } else {
            Err(ErrorKind::Utf)
        },
    }
}

/// `terminator_from` gives the first terminator: none stands between `from`
/// and it, and one stands at it unless it is the length.
pub proof fn lemma_terminator_from(bytes: Seq<u8>, from: int)
    requires
        0 <= from,
    ensures
        terminator_from(bytes, from) <= bytes.len(),
        terminator_from(bytes, from) < bytes.len() ==> from <= terminator_from(bytes, from)
            && is_terminator(bytes, terminator_from(bytes, from)),
        forall|i: int| from <= i < terminator_from(bytes, from) ==> !is_terminator(bytes, i),
    decreases bytes.len() - from,
{
    if from + 4 > bytes.len() {
    } else if is_terminator(bytes, from) {
    } else {
        lemma_terminator_from(bytes, from + 1);
    }
}

/// A terminator with none before it is where the header block ends.
pub proof fn lemma_header_length_is(bytes: Seq<u8>, at: int)
    requires
        is_terminator(bytes, at),
        forall|i: int| 0 <= i < at ==> !is_terminator(bytes, i),
    ensures
        header_length(bytes) == Some(at + 4),
{
    lemma_terminator_from(bytes, 0);
    let found = terminator_from(bytes, 0);
    if found < at {
        if found < bytes.len() {
            assert(is_terminator(bytes, found));
        }
    }
}

/// Whether the bytes read so far end with the terminator, so that the header
/// block is complete.
pub fn ends_with_terminator(bytes: &[u8]) -> (complete: bool)
    ensures
        complete == is_terminator(bytes@, bytes@.len() - 4),
{
    let n = bytes.len();
    n >= 4 && bytes[n - 4] == 13 && bytes[n - 3] == 10 && bytes[n - 2] == 13 && bytes[n - 1] == 10
}

/// The header block at the front of `input`, as text: everything up to and
/// including the first blank line.
///
/// Fails with `HeaderParse` if `input` ends before a blank line, and with
/// `Utf` if the block is not valid UTF-8.
pub fn until_crlf(input: &[u8]) -> (block: Result<String, FrameworkError>)
    ensures
        match block {
            Ok(text) => header_block(input@) == Ok::<Seq<char>, ErrorKind>(text@),
            Err(e) => header_block(input@) == Err::<Seq<char>, ErrorKind>(e.kind()),
        },
{
    if input.len() < 4 {
        return Err(FrameworkError::HeaderParse);
    }
    let last: usize = input.len() - 4;
    let mut at: usize = 0;
    while at <= last && !(input[at] == 13 && input[at + 1] == 10 && input[at + 2] == 13
        && input[at + 3] == 10)
        invariant
            last + 4 == input@.len(),
            at <= last + 1,
            terminator_from(input@, 0) == terminator_from(input@, at as int),
        decreases last + 1 - at,
    {
        at += 1;
    }
    if at > last {
        return Err(FrameworkError::HeaderParse);
    }
    let bytes = slice_to_vec(slice_subrange(input, 0, at + 4));
    assert(bytes@ == input@.take(at + 4));
    match String::from_utf8(bytes) {
        Ok(text) => Ok(text),
        Err(e) => Err(FrameworkError::from(e)),
    }
}

} // verus!
