//! A small pseudo-random number generator, a 32-bit xorshift.

use vstd::prelude::*;

verus! {

/// `std::time::SystemTime`, a reading of the clock. It is only handed from
/// one call to the next.
#[verifier::external_type_specification]
#[verifier::external_body]
pub struct ExSystemTime(std::time::SystemTime);

/// Reads the clock with `SystemTime::now`. Nothing is known of the result.
#[verifier::external_body]
fn now() -> std::time::SystemTime {
    std::time::SystemTime::now()
}

/// The time from the Unix epoch to `time`, by `SystemTime::duration_since`;
/// `None` if `time` lies before the epoch.
#[verifier::external_body]
fn since_epoch(time: &std::time::SystemTime) -> Option<std::time::Duration> {
    time.duration_since(std::time::UNIX_EPOCH).ok()
}

/// The whole seconds of a duration, by `Duration::as_secs`.
#[verifier::external_body]
fn whole_seconds(duration: &std::time::Duration) -> u64 {
    duration.as_secs()
}

/// The generator: its state is the number it gave last, or its seed.
#[derive(Clone, Copy)]
pub struct Random {
    init: u32,
}

impl Default for Random {
    fn default() -> (random: Random)
        ensures
            random.state() == 0,
    {
        Random { init: 0 }
    }
}

/// One step of the generator: three shifts, each folded in with exclusive or.
pub open spec fn xorshift(x: u32) -> u32 {
    let a = x ^ (x << 13);
    let b = a ^ (a >> 17);
    b ^ (b << 5)
}

/// A state other than zero never steps to zero, so a generator that was not
/// seeded with zero never gives zero.
pub proof fn lemma_xorshift_keeps_nonzero(x: u32)
    by (bit_vector)
    requires
        x != 0,
    ensures
        xorshift(x) != 0,
{
}

/// The seed that a time gives: its seconds, of which the low 32 bits count.
pub open spec fn seed_of(seconds: u64) -> u32 {
    (seconds % 0x1_0000_0000) as u32
}

/// `d` as 32-bit arithmetic has it: wrapped round into the range of `i32`.
pub open spec fn wrapped(d: int) -> int {
    if d > i32::MAX {
        d - 0x1_0000_0000
    } else if d < i32::MIN {
        d + 0x1_0000_0000
    } else {
        d
    }
}

/// The width of the range from `min` to `max`: the distance of the two in
/// 32-bit arithmetic, without its sign.
pub open spec fn span(min: i32, max: i32) -> nat {
    let d = wrapped(max - min);
    if d < 0 {
        (-d) as nat
    } else {
        d as nat
    }
}

/// The number of the range from `min` that the random number `value` picks:
/// `min` plus the remainder of `value` by the width of the range, and `min`
/// itself where the range is empty.
pub open spec fn pick(value: u32, min: i32, max: i32) -> i32 {
    if span(min, max) == 0 {
        min
    } else {
        wrapped(min + value as int % span(min, max) as int) as i32
    }
}

/// A number picked from a range that is not empty lies in it: it is at least
/// `min` and less than `max`.
pub proof fn lemma_pick_in_range(value: u32, min: i32, max: i32)
    requires
        min < max,
    ensures
        min <= pick(value, min, max) < max,
{
    let s = span(min, max) as int;
    assert(0 < s);
    assert(0 <= value as int % s < s);
}

impl Random {
    /// The state of the generator.
    pub closed spec fn state(&self) -> u32 {
        self.init
    }

    /// A generator with the seed that the time `seconds` after the epoch gives.
    pub fn from_seconds(seconds: u64) -> (random: Random)
        ensures
            random.state() == seed_of(seconds),
    {
        Random { init: (seconds % 0x1_0000_0000) as u32 }
    }

    /// A generator seeded from a reading of the clock: with the seconds since
    /// the epoch where the reading gave them, and with 42 where it gave none
    /// because the clock stands before the epoch.
    pub fn from_clock(reading: Option<u64>) -> (random: Random)
        ensures
            random.state() == seed_of(
                match reading {
                    Some(seconds) => seconds,
                    None => 42,
                },
            ),
    {
        match reading {
            Some(seconds) => Random::from_seconds(seconds),
            None => Random::from_seconds(42),
        }
    }

    /// A generator seeded with the current time. The seed is what the clock
    /// gives at the moment of the call, so nothing is promised of it here;
    /// `from_clock` says what generator each reading of the clock gives.
    pub fn new() -> (random: Random) {
        let reading: Option<u64> = match since_epoch(&now()) {
            Some(duration) => Some(whole_seconds(&duration)),
            None => None,
        };
        Random::from_clock(reading)
    }

    /// The next number: the state takes one step, and the new state is
    /// returned.
    pub fn generate(&mut self) -> (value: u32)
        ensures
            value == xorshift(old(self).state()),
            final(self).state() == value,
    {
        self.init ^= self.init << 13;
        self.init ^= self.init >> 17;
        self.init ^= self.init << 5;
        self.init
    }

    /// The next number, brought into the range from `min` to `max`. With
    /// `min < max` the result is at least `min` and less than `max`; with
    /// `min == max` it is `min`.
    pub fn in_range(&mut self, min: i32, max: i32) -> (value: i32)
        ensures
            final(self).state() == xorshift(old(self).state()),
            value == pick(final(self).state(), min, max),
            min < max ==> min <= value < max,
            min == max ==> value == min,
    {
        let next = self.generate();
        proof {
            if min < max {
                lemma_pick_in_range(next, min, max);
            }
        }
        let d: i64 = max as i64 - min as i64;
        let w: i64 = if d > 0x7fff_ffff {
            d - 0x1_0000_0000
        } else if d < -0x8000_0000 {
            d + 0x1_0000_0000
        } else {
            d
        };
        let width: u32 = if w < 0 {
            (-w) as u32
        } else {
            w as u32
        };
        if width == 0 {
            return min;
        }
        let sum: i64 = min as i64 + (next % width) as i64;
        if sum > 0x7fff_ffff {
            (sum - 0x1_0000_0000) as i32
        } else {
            sum as i32
        }
    }
}

} // verus!
