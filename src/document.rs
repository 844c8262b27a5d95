//! A whole subtitle document: its captions in order.
use vstd::prelude::*;
use crate::caption::{Caption, CaptionView};
use crate::error::SrtError;
use crate::laws::law_first_error_wins;
use crate::parser::{lines_view, parse_spec, run_spec, ParserState};

verus! {

/// The captions of a subtitle document, in the order the document gives them.
#[derive(Debug)]
pub struct SRTFile {
    pub captions: Vec<Caption>,
}

impl View for SRTFile {
    type V = Seq<CaptionView>;

    open spec fn view(&self) -> Seq<CaptionView> {
        self.captions@.map_values(|c: Caption| c@)
    }
}

impl SRTFile {
    /// Parses a document given as its lines (without line terminators; blank lines are empty
    /// strings). Fails on the first malformed caption. A caption not closed by a blank line
    /// before the end of the input is left out.
    pub fn new(lines: &Vec<String>) -> (r: Result<SRTFile, SrtError>)
        ensures
            match r {
                Ok(f) => parse_spec(lines_view(lines@)) == Ok::<Seq<CaptionView>, SrtError>(f@),
                Err(e) => parse_spec(lines_view(lines@)) == Err::<Seq<CaptionView>, SrtError>(e),
            },
    {
        let mut captions: Vec<Caption> = Vec::new();
        let mut state = ParserState::new();
        let mut i: usize = 0;
        let ghost all = lines_view(lines@);
        assert(all.take(0) =~= Seq::<Seq<char>>::empty());
        assert(captions@.map_values(|c: Caption| c@) =~= Seq::<CaptionView>::empty());
        while i < lines.len()
            invariant
                i <= lines@.len(),
                all == lines_view(lines@),
                run_spec(all.take(i as int)) == Ok::<
                    (crate::parser::Stage, crate::caption::BuilderView, Seq<CaptionView>),
                    SrtError,
                >((state.stage, state.builder@, captions@.map_values(|c: Caption| c@))),
            decreases lines@.len() - i,
        {
            let ghost before = captions@;
            assert(all.take(i + 1).drop_last() =~= all.take(i as int));
            assert(all.take(i + 1).last() == lines@[i as int]@);
            match state.step(lines[i].as_str()) {
                Err(e) => {
                    proof {
                        law_first_error_wins(all, i as int + 1, e);
                    }
                    return Err(e);
                },
                Ok(done) => {
                    match done {
                        Some(c) => {
                            captions.push(c);
                            assert(captions@.map_values(|c: Caption| c@) =~= before.map_values(
                                |c: Caption| c@,
                            ).push(c@));
                        },
                        None => {},
                    }
                },
            }
            i = i + 1;
        }
        assert(all.take(i as int) =~= all);
        Ok(SRTFile { captions })
    }
}

} // verus!
