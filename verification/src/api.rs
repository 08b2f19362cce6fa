//! A handler that answers with a random number from a range that the request
//! names.

use crate::http::{Data, DataView};
use crate::json::{deserialize, object_response, parse_object, serialize, SimpleJson};
use crate::number::{parse_i32, parse_i32_chars, signed_decimal, signed_decimal_chars};
use crate::random::{pick, xorshift, Random};
use crate::status::StatusCode;
use crate::string_map::{lookup, Entries};
use crate::text::{chars_of, string_of};
use vstd::prelude::*;
use vstd::string::*;

verus! {

/// The number stored under `key`, if there is one.
pub open spec fn number_at(entries: Entries, key: Seq<char>) -> Option<i32> {
    match lookup(entries, key) {
        Some(text) => parse_i32(text),
        None => None,
    }
}

/// The range that a request names: its body is a flat object whose `min`
/// and `max` are numbers. `None` for any other request.
pub open spec fn query_of(request: DataView) -> Option<(i32, i32)> {
    match request.content {
        None => None,
        Some(bytes) => match parse_object(bytes) {
            None => None,
            Some(entries) => match (number_at(entries, "min"@), number_at(entries, "max"@)) {
                (Some(min), Some(max)) => Some((min, max)),
                _ => None,
            },
        },
    }
}

/// The response that carries the number `result`.
pub open spec fn answer_of(result: i32) -> DataView {
    object_response(seq![("result"@, signed_decimal(result as int))])
}

/// The response to a request that names no range.
pub open spec fn bad_request() -> DataView {
    DataView { status_code: StatusCode::BadRequest, ..DataView::fresh() }
}

fn number_in(object: &SimpleJson, key: &str) -> (number: Option<i32>)
    ensures
        number == number_at(object@, key@),
{
    match object.get(key) {
        Some(text) => parse_i32_chars(chars_of(text.as_str()).as_slice()),
        None => None,
    }
}

fn query(request: &Data) -> (range: Option<(i32, i32)>)
    ensures
        range == query_of(request@),
{
    let object = match &request.content {
        Some(bytes) => match deserialize(bytes.as_slice()) {
            Some(object) => object,
            None => {
                return None;
            },
        },
        None => {
            return None;
        },
    };
    let min = match number_in(&object, "min") {
        Some(min) => min,
        None => {
            return None;
        },
    };
    match number_in(&object, "max") {
        Some(max) => Some((min, max)),
        None => None,
    }
}

/// Answers `request` with the next number of `random`, brought into the
/// range that the request names, or with 400 if it names none; the generator
/// is then left as it was.
pub fn api_with(request: Data, random: &mut Random) -> (response: Data)
    ensures
        match query_of(request@) {
            Some((min, max)) => final(random).state() == xorshift(old(random).state())
                && response@ == answer_of(pick(final(random).state(), min, max)),
            None => final(random).state() == old(random).state() && response@ == bad_request(),
        },
{
    match query(&request) {
        Some((min, max)) => {
            let result = random.in_range(min, max);
            let mut object = SimpleJson::new();
            object.insert(
                String::from_str("result"),
                string_of(signed_decimal_chars(result).as_slice()),
            );
            assert(object@ == seq![("result"@, signed_decimal(result as int))]);
            serialize(object)
        },
        None => Data::from_status(StatusCode::BadRequest),
    }
}

/// Answers `request` with a random number from the range that it names, or
/// with 400 if it names none. With `min < max` the number is at least `min`
/// and less than `max`; with `min == max` it is `min`.
pub fn api(request: Data) -> (response: Data)
    ensures
        match query_of(request@) {
            Some((min, max)) => exists|result: i32|
                {
                    &&& response@ == answer_of(result)
                    &&& min < max ==> min <= result < max
                    &&& min == max ==> result == min
                },
            None => response@ == bad_request(),
        },
{
    let mut random = Random::new();
    let response = api_with(request, &mut random);
    proof {
        if let Some((min, max)) = query_of(request@) {
            let result = pick(random.state(), min, max);
            if min < max {
                crate::random::lemma_pick_in_range(random.state(), min, max);
            }
            assert(response@ == answer_of(result));
        }
    }
    response
}

} // verus!
