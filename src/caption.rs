//! Caption records and the builder that accumulates one.
use vstd::prelude::*;
use crate::error::SrtError;
use crate::text::chars_of;
use crate::timestamp::Duration;

verus! {

/// One subtitle entry: its declared number, its start and end times and its text.
#[derive(Clone, Debug)]
pub struct Caption {
    pub number: u64,
    pub start_time: Duration,
    pub end_time: Duration,
    pub text: String,
}

/// A caption as values: number, start, end and text.
pub type CaptionView = (u64, Duration, Duration, Seq<char>);

impl View for Caption {
    type V = CaptionView;

    open spec fn view(&self) -> CaptionView {
        (self.number, self.start_time, self.end_time, self.text@)
    }
}

/// The number of word separators (spaces and line breaks) in `t`.
pub open spec fn separator_count(t: Seq<char>) -> nat
    decreases t.len(),
{
    if t.len() == 0 {
        0
    } else {
        separator_count(t.drop_last()) + if t.last() == ' ' || t.last() == '\n' {
            1nat
        } else {
            0nat
        }
    }
}

impl Caption {
    /// How long the caption shows: end minus start, or `None` when it ends before it starts.
    pub fn duration(&self) -> (r: Option<Duration>)
        requires
            self.start_time.wf(),
            self.end_time.wf(),
        ensures
            r is None <==> self.end_time.total_nanos() < self.start_time.total_nanos(),
            r is Some ==> r->Some_0.total_nanos() == self.end_time.total_nanos()
                - self.start_time.total_nanos(),
    {
        self.end_time.checked_sub(&self.start_time)
    }

    /// The number of pieces the text splits into at each space and line break (empty pieces
    /// included): one more than the number of separators.
    pub fn word_count(&self) -> (r: usize)
        requires
            self.text@.len() < usize::MAX,
        ensures
            r == separator_count(self.text@) + 1,
    {
        let t = chars_of(self.text.as_str());
        let mut n: usize = 1;
        let mut i: usize = 0;
        while i < t.len()
            invariant
                i <= t@.len(),
                t@ == self.text@,
                t@.len() < usize::MAX,
                n == separator_count(t@.take(i as int)) + 1,
                n <= i + 1,
            decreases t@.len() - i,
        {
            assert(t@.take(i + 1).drop_last() =~= t@.take(i as int));
            if t[i] == ' ' || t[i] == '\n' {
                n = n + 1;
            }
            i = i + 1;
        }
        assert(t@.take(i as int) =~= t@);
        n
    }
}

/// The fields gathered so far for a caption being read.
pub type BuilderView = (Option<u64>, Option<Duration>, Option<Duration>, Option<Seq<char>>);

pub open spec fn empty_builder() -> BuilderView {
    (None, None, None, None)
}

/// What building from the gathered fields gives: a caption when all four were set.
pub open spec fn build_spec(b: BuilderView) -> Result<CaptionView, SrtError> {
    if b.0 is Some && b.1 is Some && b.2 is Some && b.3 is Some {
        Ok((b.0->Some_0, b.1->Some_0, b.2->Some_0, b.3->Some_0))
    } else {
        Err(SrtError::CaptionBuilderError)
    }
}

/// Accumulates the fields of one caption; each is unset until a line provides it.
#[derive(Clone, Debug)]
pub struct CaptionBuilder {
    pub number: Option<u64>,
    pub start_time: Option<Duration>,
    pub end_time: Option<Duration>,
    pub text: Option<String>,
}

pub open spec fn opt_text_view(t: Option<String>) -> Option<Seq<char>> {
    match t {
        Some(s) => Some(s@),
        None => None,
    }
}

impl View for CaptionBuilder {
    type V = BuilderView;

    open spec fn view(&self) -> BuilderView {
        (self.number, self.start_time, self.end_time, opt_text_view(self.text))
    }
}

impl CaptionBuilder {
    /// A builder with no field set.
    pub fn new() -> (r: CaptionBuilder)
        ensures
            r@ == empty_builder(),
    {
        CaptionBuilder { number: None, start_time: None, end_time: None, text: None }
    }

    /// Builds the caption, or fails when a field was never set.
    pub fn build(&self) -> (r: Result<Caption, SrtError>)
        ensures
            match r {
                Ok(c) => build_spec(self@) == Ok::<CaptionView, SrtError>(c@),
                Err(e) => build_spec(self@) == Err::<CaptionView, SrtError>(e),
            },
    {
        match (self.number, self.start_time, self.end_time, &self.text) {
            (Some(n), Some(s), Some(e), Some(t)) => Ok(
                Caption { number: n, start_time: s, end_time: e, text: t.clone() },
            ),
            _ => Err(SrtError::CaptionBuilderError),
        }
    }
}

} // verus!
