//! Durations and the decoding of `HH:MM:SS,mmm` timestamps.
use vstd::prelude::*;
use crate::error::SrtError;
use crate::text::{chars_of, parse_unsigned, parse_unsigned_range, trim, trim_chars};

verus! {

pub const NANOS_PER_SEC: u32 = 1_000_000_000;

/// A span of time since zero: whole seconds and the nanoseconds beyond them.
#[derive(Copy, Clone, Debug, PartialEq, Eq, Structural)]
pub struct Duration {
    pub secs: u64,
    pub nanos: u32,
}

impl Duration {
    pub open spec fn wf(&self) -> bool {
        self.nanos < NANOS_PER_SEC
    }

    /// The whole span in nanoseconds.
    pub open spec fn total_nanos(&self) -> nat {
        self.secs as nat * 1_000_000_000 + self.nanos as nat
    }

    /// `self - earlier`, or `None` when `earlier` is the later of the two.
    pub fn checked_sub(&self, earlier: &Duration) -> (r: Option<Duration>)
        requires
            self.wf(),
            earlier.wf(),
        ensures
            r is None <==> self.total_nanos() < earlier.total_nanos(),
            r is Some ==> r->Some_0.wf() && r->Some_0.total_nanos() == self.total_nanos()
                - earlier.total_nanos(),
    {
        if self.secs < earlier.secs || (self.secs == earlier.secs && self.nanos < earlier.nanos) {
            None
        } else if self.nanos >= earlier.nanos {
            Some(Duration { secs: self.secs - earlier.secs, nanos: self.nanos - earlier.nanos })
        } else {
            Some(
                Duration {
                    secs: self.secs - earlier.secs - 1,
                    nanos: NANOS_PER_SEC - earlier.nanos + self.nanos,
                },
            )
        }
    }

    pub fn secs(&self) -> (r: u64)
        ensures
            r == self.secs,
    {
        self.secs
    }

    pub fn subsec_nanos(&self) -> (r: u32)
        ensures
            r == self.nanos,
    {
        self.nanos
    }
}

pub open spec fn is_sep(c: char) -> bool {
    c == ':' || c == ','
}

/// Index of the first field separator at or after `i` (or `s.len()`).
pub open spec fn sep_from(s: Seq<char>, i: int) -> int
    decreases s.len() - i,
{
    if i < 0 || i >= s.len() {
        s.len() as int
    } else if is_sep(s[i]) {
        i
    } else {
        sep_from(s, i + 1)
    }
}

/// The field of `t` that starts at `start` and runs up to the next separator.
pub open spec fn field_at(t: Seq<char>, start: int) -> Seq<char> {
    t.subrange(start, sep_from(t, start))
}

/// The four fields of a timestamp `t` (already trimmed), as hours, minutes, seconds and
/// milliseconds. Fields are read in order; the first that is missing or not a number decides
/// the error. Fields after the fourth are ignored.
pub open spec fn decode_fields(t: Seq<char>) -> Result<(nat, nat, nat, nat), SrtError> {
    let e0 = sep_from(t, 0);
    let e1 = sep_from(t, e0 + 1);
    let e2 = sep_from(t, e1 + 1);
    let e3 = sep_from(t, e2 + 1);
    match parse_unsigned(field_at(t, 0), u64::MAX as nat) {
        None => Err(SrtError::NumericParseError),
        Some(h) => if e0 >= t.len() {
            Err(SrtError::TimestampParsingError)
        } else {
            match parse_unsigned(field_at(t, e0 + 1), u64::MAX as nat) {
                None => Err(SrtError::NumericParseError),
                Some(m) => if e1 >= t.len() {
                    Err(SrtError::TimestampParsingError)
                } else {
                    match parse_unsigned(field_at(t, e1 + 1), u64::MAX as nat) {
                        None => Err(SrtError::NumericParseError),
                        Some(s) => if e2 >= t.len() {
                            Err(SrtError::TimestampParsingError)
                        } else {
                            match parse_unsigned(field_at(t, e2 + 1), u32::MAX as nat) {
                                None => Err(SrtError::NumericParseError),
                                Some(ms) => Ok((h, m, s, ms)),
                            }
                        },
                    }
                },
            }
        },
    }
}

/// The whole seconds of `h` hours, `m` minutes, `s` seconds and `ms` milliseconds.
pub open spec fn total_secs(h: nat, m: nat, s: nat, ms: nat) -> nat {
    h * 3600 + m * 60 + s + ms / 1000
}

/// What decoding the timestamp token `tok` gives.
pub open spec fn decode_spec(tok: Seq<char>) -> Result<Duration, SrtError> {
    decode_spec_fields(trim(tok))
}

fn sep_index(s: &Vec<char>, from: usize) -> (r: usize)
    requires
        from <= s@.len(),
    ensures
        r == sep_from(s@, from as int),
        from <= r <= s@.len(),
{
    let mut i: usize = from;
    while i < s.len() && !(s[i] == ':' || s[i] == ',')
        invariant
            from <= i <= s@.len(),
            sep_from(s@, from as int) == sep_from(s@, i as int),
        decreases s@.len() - i,
    {
        i = i + 1;
    }
    i
}

/// Reads the field of `t` that starts at `start` as an unsigned integer no larger than `max`;
/// returns it with the index where the field ends.
fn read_field(t: &Vec<char>, start: usize, max: u64) -> (r: (Option<u64>, usize))
    requires
        start <= t@.len(),
    ensures
        r.1 == sep_from(t@, start as int),
        start <= r.1 <= t@.len(),
        r.0 == (match parse_unsigned(field_at(t@, start as int), max as nat) {
            Some(v) => Some(v as u64),
            None => None,
        }),
{
    let end = sep_index(t, start);
    (parse_unsigned_range(t, start, end, max), end)
}

/// Decodes the four fields of an already trimmed timestamp.
fn decode_trimmed(t: &Vec<char>) -> (r: Result<Duration, SrtError>)
    ensures
        r == decode_spec_fields(t@),
{
    let (h, e0) = read_field(t, 0, u64::MAX);
    let h = match h {
        None => return Err(SrtError::NumericParseError),
        Some(v) => v,
    };
    if e0 >= t.len() {
        return Err(SrtError::TimestampParsingError);
    }
    let (m, e1) = read_field(t, e0 + 1, u64::MAX);
    let m = match m {
        None => return Err(SrtError::NumericParseError),
        Some(v) => v,
    };
    if e1 >= t.len() {
        return Err(SrtError::TimestampParsingError);
    }
    let (s, e2) = read_field(t, e1 + 1, u64::MAX);
    let s = match s {
        None => return Err(SrtError::NumericParseError),
        Some(v) => v,
    };
    if e2 >= t.len() {
        return Err(SrtError::TimestampParsingError);
    }
    let (ms, _e3) = read_field(t, e2 + 1, u32::MAX as u64);
    let ms = match ms {
        None => return Err(SrtError::NumericParseError),
        Some(v) => v,
    };
    let total: u128 = h as u128 * 3600 + m as u128 * 60 + s as u128 + (ms / 1000) as u128;
    if total > u64::MAX as u128 {
        return Err(SrtError::TimestampOverflow);
    }
    Ok(Duration { secs: total as u64, nanos: ((ms % 1000) * 1_000_000) as u32 })
}

/// What decoding an already trimmed timestamp gives.
pub open spec fn decode_spec_fields(t: Seq<char>) -> Result<Duration, SrtError> {
    match decode_fields(t) {
        Err(e) => Err(e),
        Ok((h, m, s, ms)) => if total_secs(h, m, s, ms) > u64::MAX {
            Err(SrtError::TimestampOverflow)
        } else {
            Ok(Duration { secs: total_secs(h, m, s, ms) as u64, nanos: ((ms % 1000) * 1_000_000) as u32 })
        },
    }
}

/// Decodes a timestamp token such as `01:02:03,004` into a duration.
///
/// Surrounding whitespace is ignored. The token is split on `:` and `,` alike; its first four
/// fields are hours, minutes, seconds and milliseconds. Fields are not range-checked: minutes or
/// seconds above 59 simply add to the total.
pub fn decode(token: &str) -> (r: Result<Duration, SrtError>)
    ensures
        r == decode_spec(token@),
        r is Ok ==> r->Ok_0.wf(),
{
    decode_chars(&chars_of(token))
}

/// Decodes a timestamp given as its characters.
pub(crate) fn decode_chars(chars: &Vec<char>) -> (r: Result<Duration, SrtError>)
    ensures
        r == decode_spec(chars@),
        r is Ok ==> r->Ok_0.wf(),
{
    let t = trim_chars(chars);
    decode_trimmed(&t)
}

} // verus!
