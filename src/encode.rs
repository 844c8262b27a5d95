//! Writing captions back out in the line grammar that the parser reads.
use vstd::prelude::*;
use crate::caption::{Caption, CaptionView};
use crate::document::SRTFile;
use crate::error::SrtError;
use crate::text::{chars_of, digit_value, digits_value, is_digit, is_ws, skip_ws_back, skip_ws_from, trim};
use crate::timestamp::{decode_fields, decode_spec, decode_spec_fields, field_at, is_sep, sep_from, total_secs};
use crate::parser::{arrow_from, timing_spec};
use crate::timestamp::Duration;

verus! {

pub open spec fn digit_char(d: nat) -> char {
    ((d + 48) as u8) as char
}

/// The decimal digits of `n`, most significant first, with no leading zeros.
pub open spec fn decimal(n: nat) -> Seq<char>
    decreases n,
{
    if n < 10 {
        seq![digit_char(n)]
    } else {
        decimal(n / 10).push(digit_char(n % 10))
    }
}

/// `n` in decimal, padded with leading zeros to at least `width` digits.
pub open spec fn padded(n: nat, width: nat) -> Seq<char> {
    let d = decimal(n);
    if d.len() >= width {
        d
    } else {
        Seq::new((width - d.len()) as nat, |i: int| '0') + d
    }
}

/// A duration as `HH:MM:SS,mmm`; time below a millisecond is left out.
pub open spec fn timestamp_text(d: Duration) -> Seq<char> {
    padded(d.secs as nat / 3600, 2) + seq![':'] + padded((d.secs as nat / 60) % 60, 2) + seq![':']
        + padded(d.secs as nat % 60, 2) + seq![','] + padded(d.nanos as nat / 1_000_000, 3)
}

/// One caption as its block of lines, each ended by a line break, and the blank separator.
pub open spec fn caption_text(c: CaptionView) -> Seq<char> {
    decimal(c.0 as nat) + seq!['\n'] + timestamp_text(c.1) + seq![' ', '-', '-', '>', ' ']
        + timestamp_text(c.2) + seq!['\n'] + c.3 + seq!['\n', '\n']
}

/// A document: its captions' blocks one after another.
pub open spec fn document_text(cs: Seq<CaptionView>) -> Seq<char>
    decreases cs.len(),
{
    if cs.len() == 0 {
        Seq::empty()
    } else {
        document_text(cs.drop_last()) + caption_text(cs.last())
    }
}

/// Relies on `String`'s `FromIterator<char>`: the string of exactly these characters.
#[verifier::external_body]
fn string_from_chars(v: &Vec<char>) -> (r: String)
    ensures
        r@ == v@,
{
    v.iter().collect()
}

fn push_seq(out: &mut Vec<char>, s: &Vec<char>)
    ensures
        final(out)@ == old(out)@ + s@,
{
    let mut i: usize = 0;
    while i < s.len()
        invariant
            i <= s@.len(),
            out@ == old(out)@ + s@.take(i as int),
        decreases s@.len() - i,
    {
        out.push(s[i]);
        i = i + 1;
        assert(out@ =~= old(out)@ + s@.take(i as int));
    }
    assert(s@.take(i as int) =~= s@);
}

fn push_decimal(out: &mut Vec<char>, n: u64)
    ensures
        final(out)@ == old(out)@ + decimal(n as nat),
    decreases n,
{
    if n >= 10 {
        push_decimal(out, n / 10);
    }
    let d: u8 = (n % 10) as u8 + 48;
    out.push(d as char);
    assert(digit_char((n % 10) as nat) == d as char);
    assert(out@ =~= old(out)@ + decimal(n as nat));
}

fn push_padded(out: &mut Vec<char>, n: u64, width: usize)
    ensures
        final(out)@ == old(out)@ + padded(n as nat, width as nat),
{
    let mut d: Vec<char> = Vec::new();
    push_decimal(&mut d, n);
    assert(d@ =~= decimal(n as nat));
    let ghost start = out@;
    let mut k: usize = d.len();
    while k < width
        invariant
            d@ == decimal(n as nat),
            d@.len() <= k,
            k <= width || k == d@.len(),
            out@ == start + Seq::new((k - d@.len()) as nat, |i: int| '0'),
        decreases width - k,
    {
        out.push('0');
        k = k + 1;
        assert(out@ =~= start + Seq::new((k - d@.len()) as nat, |i: int| '0'));
    }
    push_seq(out, &d);
    if d.len() >= width {
        assert(out@ =~= start + padded(n as nat, width as nat));
    } else {
        assert(k == width);
        assert(out@ =~= start + padded(n as nat, width as nat));
    }
}

fn push_timestamp(out: &mut Vec<char>, d: &Duration)
    ensures
        final(out)@ == old(out)@ + timestamp_text(*d),
{
    let ghost start = out@;
    push_padded(out, d.secs / 3600, 2);
    out.push(':');
    push_padded(out, (d.secs / 60) % 60, 2);
    out.push(':');
    push_padded(out, d.secs % 60, 2);
    out.push(',');
    push_padded(out, (d.nanos / 1_000_000) as u64, 3);
    assert(out@ =~= start + timestamp_text(*d));
}

fn push_caption(out: &mut Vec<char>, c: &Caption)
    ensures
        final(out)@ == old(out)@ + caption_text(c@),
{
    let ghost start = out@;
    push_decimal(out, c.number);
    out.push('\n');
    push_timestamp(out, &c.start_time);
    out.push(' ');
    out.push('-');
    out.push('-');
    out.push('>');
    out.push(' ');
    push_timestamp(out, &c.end_time);
    out.push('\n');
    push_seq(out, &chars_of(c.text.as_str()));
    out.push('\n');
    out.push('\n');
    assert(out@ =~= start + caption_text(c@));
}

impl SRTFile {
    /// The document as text: for each caption its number, its `start --> end` line with times
    /// written `HH:MM:SS,mmm`, its text, and a blank line. Time below a millisecond is left out.
    pub fn encode(&self) -> (r: String)
        ensures
            r@ == document_text(self@),
    {
        let mut out: Vec<char> = Vec::new();
        let mut i: usize = 0;
        while i < self.captions.len()
            invariant
                i <= self.captions@.len(),
                out@ == document_text(self@.take(i as int)),
            decreases self.captions@.len() - i,
        {
            assert(self@.take(i + 1).drop_last() =~= self@.take(i as int));
            push_caption(&mut out, &self.captions[i]);
            i = i + 1;
        }
        assert(self@.take(i as int) =~= self@);
        string_from_chars(&out)
    }
}

proof fn lemma_digit_char(k: nat)
    requires
        k < 10,
    ensures
        is_digit(digit_char(k)),
        digit_value(digit_char(k)) == k,
{
}

pub(crate) proof fn lemma_decimal(n: nat)
    ensures
        decimal(n).len() > 0,
        forall|i: int| 0 <= i < decimal(n).len() ==> is_digit(#[trigger] decimal(n)[i]),
        digits_value(decimal(n)) == n,
    decreases n,
{
    lemma_digit_char(n % 10);
    if n < 10 {
        assert(decimal(n).drop_last() =~= Seq::<char>::empty());
        assert(digits_value(decimal(n)) == digits_value(Seq::<char>::empty()) * 10 + digit_value(
            digit_char(n),
        ));
    } else {
        lemma_decimal(n / 10);
        let d = decimal(n);
        assert(d.drop_last() =~= decimal(n / 10));
        assert(d.last() == digit_char(n % 10));
        assert(digits_value(d) == digits_value(decimal(n / 10)) * 10 + digit_value(d.last()));
        assert((n / 10) * 10 + n % 10 == n);
        assert forall|i: int| 0 <= i < d.len() implies is_digit(#[trigger] d[i]) by {
            if i < d.len() - 1 {
                assert(d[i] == decimal(n / 10)[i]);
            }
        }
    }
}

proof fn lemma_leading_zeros(k: nat, d: Seq<char>)
    ensures
        digits_value(Seq::new(k, |i: int| '0') + d) == digits_value(d),
    decreases d.len(), k,
{
    let z = Seq::new(k, |i: int| '0');
    if d.len() == 0 {
        assert(z + d =~= z);
        if k > 0 {
            assert(z.drop_last() =~= Seq::new((k - 1) as nat, |i: int| '0'));
            lemma_leading_zeros((k - 1) as nat, d);
            assert(Seq::new((k - 1) as nat, |i: int| '0') + d =~= Seq::new((k - 1) as nat, |i: int| '0'));
        }
    } else {
        assert((z + d).drop_last() =~= z + d.drop_last());
        lemma_leading_zeros(k, d.drop_last());
    }
}

proof fn lemma_padded(n: nat, width: nat)
    ensures
        padded(n, width).len() > 0,
        forall|i: int| 0 <= i < padded(n, width).len() ==> is_digit(#[trigger] padded(n, width)[i]),
        digits_value(padded(n, width)) == n,
{
    lemma_decimal(n);
    let d = decimal(n);
    if d.len() < width {
        let z = Seq::new((width - d.len()) as nat, |i: int| '0');
        lemma_leading_zeros((width - d.len()) as nat, d);
        assert forall|i: int| 0 <= i < (z + d).len() implies is_digit(#[trigger] (z + d)[i]) by {
            if i >= z.len() {
                assert((z + d)[i] == d[i - z.len()]);
            }
        }
    }
}

/// A field of digits that ends at `b` (at the end or before a separator) is found whole.
proof fn lemma_sep_after_digits(s: Seq<char>, a: int, b: int)
    requires
        0 <= a <= b <= s.len(),
        forall|i: int| a <= i < b ==> is_digit(#[trigger] s[i]),
        b == s.len() || is_sep(s[b]),
    ensures
        sep_from(s, a) == b,
    decreases b - a,
{
    if a < b {
        lemma_sep_after_digits(s, a + 1, b);
    }
}

/// Four digit fields joined by `:`, `:` and `,` decode to their values.
proof fn lemma_four_fields(p0: Seq<char>, p1: Seq<char>, p2: Seq<char>, p3: Seq<char>)
    requires
        p0.len() > 0 && p1.len() > 0 && p2.len() > 0 && p3.len() > 0,
        forall|i: int| 0 <= i < p0.len() ==> is_digit(#[trigger] p0[i]),
        forall|i: int| 0 <= i < p1.len() ==> is_digit(#[trigger] p1[i]),
        forall|i: int| 0 <= i < p2.len() ==> is_digit(#[trigger] p2[i]),
        forall|i: int| 0 <= i < p3.len() ==> is_digit(#[trigger] p3[i]),
        digits_value(p0) <= u64::MAX,
        digits_value(p1) <= u64::MAX,
        digits_value(p2) <= u64::MAX,
        digits_value(p3) <= u32::MAX,
    ensures
        ({
            let t = p0 + seq![':'] + p1 + seq![':'] + p2 + seq![','] + p3;
            &&& trim(t) == t
            &&& forall|i: int| 0 <= i < t.len() ==> is_digit(#[trigger] t[i]) || is_sep(t[i])
            &&& decode_fields(t) == Ok::<(nat, nat, nat, nat), SrtError>(
                (digits_value(p0), digits_value(p1), digits_value(p2), digits_value(p3)),
            )
        }),
{
    let t = p0 + seq![':'] + p1 + seq![':'] + p2 + seq![','] + p3;
    let e0 = p0.len() as int;
    let e1 = e0 + 1 + p1.len();
    let e2 = e1 + 1 + p2.len();
    let e3 = t.len() as int;
    assert forall|i: int| 0 <= i < e0 implies is_digit(#[trigger] t[i]) by {
        assert(t[i] == p0[i]);
    }
    assert forall|i: int| e0 + 1 <= i < e1 implies is_digit(#[trigger] t[i]) by {
        assert(t[i] == p1[i - e0 - 1]);
    }
    assert forall|i: int| e1 + 1 <= i < e2 implies is_digit(#[trigger] t[i]) by {
        assert(t[i] == p2[i - e1 - 1]);
    }
    assert forall|i: int| e2 + 1 <= i < e3 implies is_digit(#[trigger] t[i]) by {
        assert(t[i] == p3[i - e2 - 1]);
    }
    lemma_sep_after_digits(t, 0, e0);
    lemma_sep_after_digits(t, e0 + 1, e1);
    lemma_sep_after_digits(t, e1 + 1, e2);
    lemma_sep_after_digits(t, e2 + 1, e3);
    assert(field_at(t, 0) =~= p0);
    assert(field_at(t, e0 + 1) =~= p1);
    assert(field_at(t, e1 + 1) =~= p2);
    assert(field_at(t, e2 + 1) =~= p3);
    assert(p0[0] != '+');
    assert(p1[0] != '+');
    assert(p2[0] != '+');
    assert(p3[0] != '+');
    assert(is_digit(t[0]));
    assert(is_digit(t[e3 - 1]));
    assert(skip_ws_from(t, 0) == 0);
    assert(skip_ws_back(t, 0, e3) == e3);
    assert(t.subrange(0, e3) =~= t);
    assert forall|i: int| 0 <= i < t.len() implies is_digit(#[trigger] t[i]) || is_sep(t[i]) by {
        if i == e0 || i == e1 || i == e2 {
        } else if i < e0 {
        } else if i < e1 {
        } else if i < e2 {
        } else {
        }
    }
}

/// Writing a duration as `HH:MM:SS,mmm` and decoding the text gives the duration back, when it
/// has no part below a millisecond.
pub proof fn law_timestamp_round_trip(d: Duration)
    requires
        d.wf(),
        d.nanos % 1_000_000 == 0,
    ensures
        decode_spec(timestamp_text(d)) == Ok::<Duration, SrtError>(d),
        forall|i: int|
            0 <= i < timestamp_text(d).len() ==> is_digit(#[trigger] timestamp_text(d)[i])
                || is_sep(timestamp_text(d)[i]),
        timestamp_text(d).len() > 0,
{
    let h = d.secs as nat / 3600;
    let m = (d.secs as nat / 60) % 60;
    let sc = d.secs as nat % 60;
    let ms = d.nanos as nat / 1_000_000;
    lemma_padded(h, 2);
    lemma_padded(m, 2);
    lemma_padded(sc, 2);
    lemma_padded(ms, 3);
    lemma_four_fields(padded(h, 2), padded(m, 2), padded(sc, 2), padded(ms, 3));
    assert(h * 3600 + m * 60 + sc == d.secs as nat) by (nonlinear_arith)
        requires
            h == d.secs as nat / 3600,
            m == (d.secs as nat / 60) % 60,
            sc == d.secs as nat % 60,
    ;
    assert(total_secs(h, m, sc, ms) == d.secs as nat);
    assert((ms % 1000) * 1_000_000 == d.nanos as nat);
    assert(timestamp_text(d) =~= padded(h, 2) + seq![':'] + padded(m, 2) + seq![':'] + padded(sc, 2)
        + seq![','] + padded(ms, 3));
}

proof fn lemma_no_arrow(s: Seq<char>, a: int)
    requires
        0 <= a,
        forall|i: int| a <= i < s.len() ==> #[trigger] s[i] != '-',
    ensures
        arrow_from(s, a) == s.len(),
    decreases s.len() - a,
{
    if a + 3 <= s.len() {
        lemma_no_arrow(s, a + 1);
    }
}

proof fn lemma_arrow_at(s: Seq<char>, a: int, b: int)
    requires
        0 <= a <= b,
        b + 3 <= s.len(),
        s[b] == '-' && s[b + 1] == '-' && s[b + 2] == '>',
        forall|i: int| a <= i < b ==> #[trigger] s[i] != '-',
    ensures
        arrow_from(s, a) == b,
    decreases b - a,
{
    if a < b {
        lemma_arrow_at(s, a + 1, b);
    }
}

/// The timestamp-shaped texts: non-empty, of digits and field separators only.
spec fn stamp_shaped(t: Seq<char>) -> bool {
    t.len() > 0 && forall|i: int| 0 <= i < t.len() ==> is_digit(#[trigger] t[i]) || is_sep(t[i])
}

proof fn lemma_timing_parts(ts: Seq<char>, te: Seq<char>)
    requires
        stamp_shaped(ts),
        stamp_shaped(te),
    ensures
        ({
            let line = ts + seq![' ', '-', '-', '>', ' '] + te;
            let a0 = arrow_from(line, 0);
            &&& a0 == ts.len() + 1
            &&& arrow_from(line, a0 + 3) == line.len()
            &&& trim(line.subrange(0, a0)) == ts
            &&& trim(line.subrange(a0 + 3, arrow_from(line, a0 + 3))) == te
        }),
{
    let line = ts + seq![' ', '-', '-', '>', ' '] + te;
    let a0 = ts.len() as int + 1;
    assert forall|i: int| 0 <= i < a0 implies #[trigger] line[i] != '-' by {
        if i < ts.len() {
            assert(line[i] == ts[i]);
        }
    }
    lemma_arrow_at(line, 0, a0);
    assert forall|i: int| a0 + 3 <= i < line.len() implies #[trigger] line[i] != '-' by {
        if i > a0 + 3 {
            assert(line[i] == te[i - a0 - 4]);
        }
    }
    lemma_no_arrow(line, a0 + 3);
    let first = line.subrange(0, a0);
    assert(first =~= ts + seq![' ']);
    assert(!is_ws(first[0]));
    assert(skip_ws_from(first, 0) == 0);
    assert(!is_ws(first[first.len() - 2]));
    assert(skip_ws_back(first, 0, first.len() - 1) == first.len() - 1);
    assert(skip_ws_back(first, 0, first.len() as int) == first.len() - 1);
    assert(trim(first) =~= ts);
    let second = line.subrange(a0 + 3, line.len() as int);
    assert(second =~= seq![' '] + te);
    assert(!is_ws(second[1]));
    assert(skip_ws_from(second, 1) == 1);
    assert(skip_ws_from(second, 0) == 1);
    assert(!is_ws(second[second.len() - 1]));
    assert(skip_ws_back(second, 1, second.len() as int) == second.len());
    assert(trim(second) =~= te);
}

/// The timing line of a written caption, `start --> end`, reads back as its two times, when
/// they have no part below a millisecond.
pub proof fn law_timing_round_trip(start: Duration, end: Duration)
    requires
        start.wf(),
        end.wf(),
        start.nanos % 1_000_000 == 0,
        end.nanos % 1_000_000 == 0,
    ensures
        timing_spec(timestamp_text(start) + seq![' ', '-', '-', '>', ' '] + timestamp_text(end))
            == Ok::<(Duration, Duration), SrtError>((start, end)),
{
    law_timestamp_round_trip(start);
    law_timestamp_round_trip(end);
    let ts = timestamp_text(start);
    let te = timestamp_text(end);
    assert(stamp_shaped(ts));
    assert(stamp_shaped(te));
    lemma_timing_parts(ts, te);
    lemma_trim_stamp(ts);
    lemma_trim_stamp(te);
    let line = ts + seq![' ', '-', '-', '>', ' '] + te;
    let a0 = arrow_from(line, 0);
    let a1 = arrow_from(line, a0 + 3);
    assert(decode_spec(line.subrange(0, a0)) == decode_spec_fields(ts));
    assert(decode_spec(ts) == decode_spec_fields(ts));
    assert(decode_spec(line.subrange(a0 + 3, a1)) == decode_spec_fields(te));
    assert(decode_spec(te) == decode_spec_fields(te));
    assert(a0 < line.len());
}

/// Trimming a timestamp-shaped text leaves it as it is.
proof fn lemma_trim_stamp(t: Seq<char>)
    requires
        stamp_shaped(t),
    ensures
        trim(t) == t,
{
    assert(!is_ws(t[0]));
    assert(!is_ws(t[t.len() - 1]));
    assert(skip_ws_from(t, 0) == 0);
    assert(skip_ws_back(t, 0, t.len() as int) == t.len());
    assert(t.subrange(0, t.len() as int) =~= t);
}

} // verus!
