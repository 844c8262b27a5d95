//! The caption assembler: a line-driven state machine over a whole document.
use vstd::prelude::*;
use vstd::string::StringExecFns;
use crate::caption::{build_spec, empty_builder, BuilderView, Caption, CaptionBuilder, CaptionView};
use crate::error::SrtError;
use crate::text::{chars_of, parse_unsigned, parse_unsigned_range, sub_chars};
use crate::timestamp::{decode_spec, Duration};

verus! {

/// Where the reader stands within the caption it is reading.
#[derive(Copy, Clone, Debug, PartialEq, Eq, Structural)]
pub enum Stage {
    /// The next non-blank line holds the caption number.
    AwaitingNumber,
    /// The next non-blank line holds `start --> end`.
    AwaitingTimestamps,
    /// Each further non-blank line is a line of text.
    AccumulatingText,
}

/// Index of the first `-->` that starts at or after `i` (or `s.len()` when there is none).
pub open spec fn arrow_from(s: Seq<char>, i: int) -> int
    decreases s.len() - i,
{
    if i < 0 || i + 3 > s.len() {
        s.len() as int
    } else if s[i] == '-' && s[i + 1] == '-' && s[i + 2] == '>' {
        i
    } else {
        arrow_from(s, i + 1)
    }
}

/// What a timing line `start --> end` gives: the start is decoded first; a line without an
/// arrow lacks its end time. Text after a second arrow is ignored.
pub open spec fn timing_spec(line: Seq<char>) -> Result<(Duration, Duration), SrtError> {
    let a0 = arrow_from(line, 0);
    let a1 = arrow_from(line, a0 + 3);
    match decode_spec(line.subrange(0, a0)) {
        Err(e) => Err(e),
        Ok(start) => if a0 >= line.len() {
            Err(SrtError::TimestampParsingError)
        } else {
            match decode_spec(line.subrange(a0 + 3, a1)) {
                Err(e) => Err(e),
                Ok(end) => Ok((start, end)),
            }
        },
    }
}

/// The text after adding `line`: joined to earlier text by a line break.
pub open spec fn appended_text(t: Option<Seq<char>>, line: Seq<char>) -> Seq<char> {
    match t {
        Some(prev) => prev + seq!['\n'] + line,
        None => line,
    }
}

/// One transition: from a stage and the gathered fields, on one line, to the next stage and
/// fields, with the caption that a blank line completes.
pub open spec fn step_spec(stage: Stage, b: BuilderView, line: Seq<char>) -> Result<
    (Stage, BuilderView, Option<CaptionView>),
    SrtError,
> {
    if line.len() == 0 {
        match build_spec(b) {
            Err(e) => Err(e),
            Ok(c) => Ok((Stage::AwaitingNumber, empty_builder(), Some(c))),
        }
    } else {
        match stage {
            Stage::AwaitingNumber => match parse_unsigned(line, u64::MAX as nat) {
                None => Err(SrtError::NumericParseError),
                Some(n) => Ok((Stage::AwaitingTimestamps, (Some(n as u64), b.1, b.2, b.3), None)),
            },
            Stage::AwaitingTimestamps => match timing_spec(line) {
                Err(e) => Err(e),
                Ok((s, e)) => Ok((Stage::AccumulatingText, (b.0, Some(s), Some(e), b.3), None)),
            },
            Stage::AccumulatingText => Ok(
                (Stage::AccumulatingText, (b.0, b.1, b.2, Some(appended_text(b.3, line))), None),
            ),
        }
    }
}

/// The state after reading all of `lines` from the start, with the captions completed so far;
/// or the first error met.
pub open spec fn run_spec(lines: Seq<Seq<char>>) -> Result<
    (Stage, BuilderView, Seq<CaptionView>),
    SrtError,
>
    decreases lines.len(),
{
    if lines.len() == 0 {
        Ok((Stage::AwaitingNumber, empty_builder(), Seq::empty()))
    } else {
        match run_spec(lines.drop_last()) {
            Err(e) => Err(e),
            Ok((stage, b, out)) => match step_spec(stage, b, lines.last()) {
                Err(e) => Err(e),
                Ok((stage2, b2, done)) => Ok(
                    (
                        stage2,
                        b2,
                        match done {
                            Some(c) => out.push(c),
                            None => out,
                        },
                    ),
                ),
            },
        }
    }
}

/// The captions of a document given as its lines. A caption still open at the end, not closed
/// by a blank line, is not part of the result.
pub open spec fn parse_spec(lines: Seq<Seq<char>>) -> Result<Seq<CaptionView>, SrtError> {
    match run_spec(lines) {
        Err(e) => Err(e),
        Ok((_, _, out)) => Ok(out),
    }
}

pub open spec fn lines_view(lines: Seq<String>) -> Seq<Seq<char>> {
    lines.map_values(|l: String| l@)
}

pub open spec fn opt_caption_view(c: Option<Caption>) -> Option<CaptionView> {
    match c {
        Some(c) => Some(c@),
        None => None,
    }
}

/// The reader's state between lines: its stage and the fields of the caption in progress.
#[derive(Debug)]
pub struct ParserState {
    pub stage: Stage,
    pub builder: CaptionBuilder,
}

fn arrow_index(s: &Vec<char>, from: usize) -> (r: usize)
    requires
        from <= s@.len(),
    ensures
        r == arrow_from(s@, from as int),
        r == s@.len() || (from <= r && r + 3 <= s@.len()),
{
    let mut i: usize = from;
    while s.len() - i >= 3 && !(s[i] == '-' && s[i + 1] == '-' && s[i + 2] == '>')
        invariant
            from <= i <= s@.len(),
            arrow_from(s@, from as int) == arrow_from(s@, i as int),
        decreases s@.len() - i,
    {
        i = i + 1;
    }
    if s.len() - i >= 3 {
        i
    } else {
        s.len()
    }
}

/// Decodes a timing line `start --> end` into its two times.
fn decode_timing(line: &str) -> (r: Result<(Duration, Duration), SrtError>)
    ensures
        r == timing_spec(line@),
{
    let s = chars_of(line);
    let a0 = arrow_index(&s, 0);
    let start = match crate::timestamp::decode_chars(&sub_chars(&s, 0, a0)) {
        Err(e) => return Err(e),
        Ok(d) => d,
    };
    if a0 >= s.len() {
        return Err(SrtError::TimestampParsingError);
    }
    let a1 = arrow_index(&s, a0 + 3);
    let end = match crate::timestamp::decode_chars(&sub_chars(&s, a0 + 3, a1)) {
        Err(e) => return Err(e),
        Ok(d) => d,
    };
    Ok((start, end))
}

impl ParserState {
    /// The state at the start of a document.
    pub fn new() -> (r: ParserState)
        ensures
            r.stage == Stage::AwaitingNumber,
            r.builder@ == empty_builder(),
    {
        ParserState { stage: Stage::AwaitingNumber, builder: CaptionBuilder::new() }
    }

    /// Reads one line. A blank line completes the caption in progress and returns it; any other
    /// line is read according to the stage. On error the state is not to be used further.
    pub fn step(&mut self, line: &str) -> (r: Result<Option<Caption>, SrtError>)
        ensures
            match r {
                Ok(done) => step_spec(old(self).stage, old(self).builder@, line@) == Ok::<
                    (Stage, BuilderView, Option<CaptionView>),
                    SrtError,
                >((final(self).stage, final(self).builder@, opt_caption_view(done))),
                Err(e) => step_spec(old(self).stage, old(self).builder@, line@) == Err::<
                    (Stage, BuilderView, Option<CaptionView>),
                    SrtError,
                >(e),
            },
    {
        if line.is_empty() {
            let c = match self.builder.build() {
                Err(e) => return Err(e),
                Ok(c) => c,
            };
            self.stage = Stage::AwaitingNumber;
            self.builder = CaptionBuilder::new();
            return Ok(Some(c));
        }
        match self.stage {
            Stage::AwaitingNumber => {
                let s = chars_of(line);
                assert(s@.subrange(0, s@.len() as int) =~= line@);
                match parse_unsigned_range(&s, 0, s.len(), u64::MAX) {
                    None => return Err(SrtError::NumericParseError),
                    Some(n) => {
                        self.builder.number = Some(n);
                    },
                }
                self.stage = Stage::AwaitingTimestamps;
            },
            Stage::AwaitingTimestamps => {
                match decode_timing(line) {
                    Err(e) => return Err(e),
                    Ok((s, e)) => {
                        self.builder.start_time = Some(s);
                        self.builder.end_time = Some(e);
                    },
                }
                self.stage = Stage::AccumulatingText;
            },
            Stage::AccumulatingText => {
                let next = match &self.builder.text {
                    Some(t) => {
                        let mut n = t.clone();
                        proof {
                            reveal_strlit("\n");
                        }
                        n.append("\n");
                        n.append(line);
                        assert(n@ =~= t@ + seq!['\n'] + line@);
                        n
                    },
                    None => line.to_owned(),
                };
                self.builder.text = Some(next);
            },
        }
        Ok(None)
    }
}

} // verus!
