//! Properties of the caption assembler over whole documents.
use vstd::prelude::*;
use crate::caption::{empty_builder, BuilderView, CaptionView};
use crate::error::SrtError;
use crate::parser::{appended_text, parse_spec, run_spec, timing_spec, Stage};
use crate::text::parse_unsigned;
use crate::encode::{caption_text, decimal, document_text, lemma_decimal, law_timing_round_trip, timestamp_text};
use crate::text::is_digit;
use crate::timestamp::Duration;

verus! {

/// Lines of text joined by line breaks.
pub open spec fn join_lines(ts: Seq<Seq<char>>) -> Seq<char>
    decreases ts.len(),
{
    if ts.len() == 0 {
        Seq::empty()
    } else if ts.len() == 1 {
        ts[0]
    } else {
        join_lines(ts.drop_last()) + seq!['\n'] + ts.last()
    }
}

/// The lines of one caption block: number, timing, text lines, then the blank separator.
pub open spec fn block(number_line: Seq<char>, timing_line: Seq<char>, texts: Seq<Seq<char>>) -> Seq<
    Seq<char>,
> {
    seq![number_line, timing_line] + texts + seq![Seq::<char>::empty()]
}

proof fn lemma_block_text(
    prefix: Seq<Seq<char>>,
    out: Seq<CaptionView>,
    number_line: Seq<char>,
    timing_line: Seq<char>,
    texts: Seq<Seq<char>>,
    n: nat,
    start: Duration,
    end: Duration,
    k: int,
)
    requires
        run_spec(prefix) == Ok::<(Stage, BuilderView, Seq<CaptionView>), SrtError>(
            (Stage::AwaitingNumber, empty_builder(), out),
        ),
        parse_unsigned(number_line, u64::MAX as nat) == Some(n),
        timing_spec(timing_line) == Ok::<(Duration, Duration), SrtError>((start, end)),
        forall|i: int| 0 <= i < texts.len() ==> (#[trigger] texts[i]).len() > 0,
        0 <= k <= texts.len(),
    ensures
        run_spec(prefix + block(number_line, timing_line, texts).take(2 + k)) == Ok::<
            (Stage, BuilderView, Seq<CaptionView>),
            SrtError,
        >(
            (
                Stage::AccumulatingText,
                (
                    Some(n as u64),
                    Some(start),
                    Some(end),
                    if k == 0 {
                        None
                    } else {
                        Some(join_lines(texts.take(k)))
                    },
                ),
                out,
            ),
        ),
    decreases k,
{
    let lines = block(number_line, timing_line, texts);
    if k == 0 {
        assert(prefix + lines.take(0) =~= prefix);
        assert((prefix + lines.take(1)).drop_last() =~= prefix + lines.take(0));
        assert((prefix + lines.take(2)).drop_last() =~= prefix + lines.take(1));
        assert((prefix + lines.take(1)).last() == number_line);
        assert((prefix + lines.take(2)).last() == timing_line);
        assert(number_line.len() > 0);
        assert(timing_line.len() > 0);
        assert(run_spec(prefix + lines.take(1)) == Ok::<
            (Stage, BuilderView, Seq<CaptionView>),
            SrtError,
        >((Stage::AwaitingTimestamps, (Some(n as u64), None, None, None), out)));
    } else {
        lemma_block_text(prefix, out, number_line, timing_line, texts, n, start, end, k - 1);
        assert((prefix + lines.take(2 + k)).drop_last() =~= prefix + lines.take(2 + k - 1));
        assert((prefix + lines.take(2 + k)).last() == texts[k - 1]);
        assert(texts.take(k).drop_last() =~= texts.take(k - 1));
        if k == 1 {
            assert(join_lines(texts.take(1)) == texts[0]);
        }
        assert(join_lines(texts.take(k)) == appended_text(
            if k == 1 {
                None
            } else {
                Some(join_lines(texts.take(k - 1)))
            },
            texts[k - 1],
        ));
    }
}

/// Reading a well-formed block after lines that ended a caption adds exactly its caption.
proof fn lemma_block_after(
    prefix: Seq<Seq<char>>,
    out: Seq<CaptionView>,
    number_line: Seq<char>,
    timing_line: Seq<char>,
    texts: Seq<Seq<char>>,
    n: nat,
    start: Duration,
    end: Duration,
)
    requires
        run_spec(prefix) == Ok::<(Stage, BuilderView, Seq<CaptionView>), SrtError>(
            (Stage::AwaitingNumber, empty_builder(), out),
        ),
        parse_unsigned(number_line, u64::MAX as nat) == Some(n),
        timing_spec(timing_line) == Ok::<(Duration, Duration), SrtError>((start, end)),
        texts.len() >= 1,
        forall|i: int| 0 <= i < texts.len() ==> (#[trigger] texts[i]).len() > 0,
    ensures
        run_spec(prefix + block(number_line, timing_line, texts)) == Ok::<
            (Stage, BuilderView, Seq<CaptionView>),
            SrtError,
        >(
            (
                Stage::AwaitingNumber,
                empty_builder(),
                out.push((n as u64, start, end, join_lines(texts))),
            ),
        ),
{
    let lines = block(number_line, timing_line, texts);
    let k = texts.len() as int;
    lemma_block_text(prefix, out, number_line, timing_line, texts, n, start, end, k);
    assert((prefix + lines).drop_last() =~= prefix + lines.take(2 + k));
    assert(texts.take(k) =~= texts);
    assert((prefix + lines).last() == Seq::<char>::empty());
}

/// A well-formed block — a number line, a timing line, one or more non-blank text lines and a
/// blank separator — gives exactly one caption, whose fields are the number and times read from
/// its first two lines and whose text is the text lines joined by line breaks.
pub proof fn law_block_round_trip(
    number_line: Seq<char>,
    timing_line: Seq<char>,
    texts: Seq<Seq<char>>,
    n: nat,
    start: Duration,
    end: Duration,
)
    requires
        parse_unsigned(number_line, u64::MAX as nat) == Some(n),
        timing_spec(timing_line) == Ok::<(Duration, Duration), SrtError>((start, end)),
        texts.len() >= 1,
        forall|i: int| 0 <= i < texts.len() ==> (#[trigger] texts[i]).len() > 0,
    ensures
        parse_spec(block(number_line, timing_line, texts)) == Ok::<Seq<CaptionView>, SrtError>(
            seq![(n as u64, start, end, join_lines(texts))],
        ),
{
    let empty = Seq::<Seq<char>>::empty();
    assert(run_spec(empty) == Ok::<(Stage, BuilderView, Seq<CaptionView>), SrtError>(
        (Stage::AwaitingNumber, empty_builder(), Seq::empty()),
    ));
    lemma_block_after(empty, Seq::empty(), number_line, timing_line, texts, n, start, end);
    assert(empty + block(number_line, timing_line, texts) =~= block(number_line, timing_line, texts));
    assert(Seq::<CaptionView>::empty().push((n as u64, start, end, join_lines(texts))) =~= seq![
        (n as u64, start, end, join_lines(texts)),
    ]);
}

/// Once reading the first `k` lines fails, the whole parse fails with that same error: the
/// first malformed caption decides, and nothing after it is read.
pub proof fn law_first_error_wins(lines: Seq<Seq<char>>, k: int, e: SrtError)
    requires
        0 <= k <= lines.len(),
        run_spec(lines.take(k)) == Err::<(Stage, BuilderView, Seq<CaptionView>), SrtError>(e),
    ensures
        parse_spec(lines) == Err::<Seq<CaptionView>, SrtError>(e),
    decreases lines.len() - k,
{
    if k < lines.len() {
        assert(lines.take(k + 1).drop_last() =~= lines.take(k));
        law_first_error_wins(lines, k + 1, e);
    } else {
        assert(lines.take(k) =~= lines);
    }
}

proof fn lemma_no_blank_tail(prefix: Seq<Seq<char>>, tail: Seq<Seq<char>>, j: int)
    requires
        forall|i: int| 0 <= i < tail.len() ==> (#[trigger] tail[i]).len() > 0,
        0 <= j <= tail.len(),
    ensures
        match run_spec(prefix + tail.take(j)) {
            Ok((_, _, out)) => run_spec(prefix) is Ok && out == run_spec(prefix)->Ok_0.2,
            Err(_) => true,
        },
    decreases j,
{
    if j == 0 {
        assert(prefix + tail.take(0) =~= prefix);
    } else {
        lemma_no_blank_tail(prefix, tail, j - 1);
        assert((prefix + tail.take(j)).drop_last() =~= prefix + tail.take(j - 1));
        assert((prefix + tail.take(j)).last() == tail[j - 1]);
    }
}

/// Lines after the last blank line never yield a caption: a caption not closed by a blank line
/// before the end of the input is dropped, and a successful parse of the whole gives just the
/// captions of the part up to that blank line.
pub proof fn law_unterminated_tail_dropped(prefix: Seq<Seq<char>>, tail: Seq<Seq<char>>)
    requires
        forall|i: int| 0 <= i < tail.len() ==> (#[trigger] tail[i]).len() > 0,
    ensures
        parse_spec(prefix + tail) is Ok ==> parse_spec(prefix) == parse_spec(prefix + tail),
{
    lemma_no_blank_tail(prefix, tail, tail.len() as int);
    assert(tail.take(tail.len() as int) =~= tail);
}

/// An empty document has no captions and no error.
pub proof fn law_empty_input()
    ensures
        parse_spec(Seq::empty()) == Ok::<Seq<CaptionView>, SrtError>(Seq::empty()),
{
}

/// Lines, each followed by a line break.
pub open spec fn terminated(ls: Seq<Seq<char>>) -> Seq<char>
    decreases ls.len(),
{
    if ls.len() == 0 {
        Seq::empty()
    } else {
        terminated(ls.drop_last()) + ls.last() + seq!['\n']
    }
}

/// The timing line that writing a caption produces.
pub open spec fn timing_text(c: CaptionView) -> Seq<char> {
    timestamp_text(c.1) + seq![' ', '-', '-', '>', ' '] + timestamp_text(c.2)
}

/// The lines that writing captions `cs` produces, where `tss[j]` are the lines of the text of
/// `cs[j]`.
pub open spec fn document_lines(cs: Seq<CaptionView>, tss: Seq<Seq<Seq<char>>>) -> Seq<Seq<char>>
    decreases cs.len(),
{
    if cs.len() == 0 || tss.len() == 0 {
        Seq::empty()
    } else {
        document_lines(cs.drop_last(), tss.drop_last()) + block(
            decimal(cs.last().0 as nat),
            timing_text(cs.last()),
            tss.last(),
        )
    }
}

/// A caption that writing and reading back keeps: times without a part below a millisecond,
/// and text made of one or more non-blank lines.
pub open spec fn writable(c: CaptionView, texts: Seq<Seq<char>>) -> bool {
    &&& c.1.wf()
    &&& c.2.wf()
    &&& c.1.nanos % 1_000_000 == 0
    &&& c.2.nanos % 1_000_000 == 0
    &&& texts.len() >= 1
    &&& (forall|i: int| 0 <= i < texts.len() ==> (#[trigger] texts[i]).len() > 0)
    &&& c.3 == join_lines(texts)
}

proof fn lemma_terminated_concat(a: Seq<Seq<char>>, b: Seq<Seq<char>>)
    ensures
        terminated(a + b) == terminated(a) + terminated(b),
    decreases b.len(),
{
    if b.len() == 0 {
        assert(a + b =~= a);
        assert(terminated(a) + terminated(b) =~= terminated(a));
    } else {
        assert((a + b).drop_last() =~= a + b.drop_last());
        lemma_terminated_concat(a, b.drop_last());
        assert(terminated(a + b) =~= terminated(a) + terminated(b));
    }
}

proof fn lemma_join_terminated(ts: Seq<Seq<char>>)
    requires
        ts.len() >= 1,
    ensures
        join_lines(ts) + seq!['\n'] == terminated(ts),
    decreases ts.len(),
{
    if ts.len() == 1 {
        assert(ts.drop_last() =~= Seq::<Seq<char>>::empty());
        assert(terminated(ts.drop_last()) == Seq::<char>::empty());
        assert(terminated(ts) == terminated(ts.drop_last()) + ts.last() + seq!['\n']);
        assert(join_lines(ts) + seq!['\n'] =~= terminated(ts));
    } else {
        lemma_join_terminated(ts.drop_last());
        assert(join_lines(ts) == join_lines(ts.drop_last()) + seq!['\n'] + ts.last());
        assert(terminated(ts) == terminated(ts.drop_last()) + ts.last() + seq!['\n']);
        assert(join_lines(ts) + seq!['\n'] =~= terminated(ts));
    }
}

proof fn lemma_number_line(n: nat)
    ensures
        parse_unsigned(decimal(n), u64::MAX as nat) == Some(n) || n > u64::MAX,
{
    lemma_decimal(n);
    assert(is_digit(decimal(n)[0]));
}

proof fn lemma_caption_text(c: CaptionView, texts: Seq<Seq<char>>)
    requires
        writable(c, texts),
    ensures
        caption_text(c) == terminated(block(decimal(c.0 as nat), timing_text(c), texts)),
{
    let head = seq![decimal(c.0 as nat), timing_text(c)];
    let tail = seq![Seq::<char>::empty()];
    lemma_terminated_concat(head + texts, tail);
    lemma_terminated_concat(head, texts);
    lemma_join_terminated(texts);
    assert(head.drop_last().drop_last() =~= Seq::<Seq<char>>::empty());
    assert(head.drop_last() =~= seq![decimal(c.0 as nat)]);
    let none = Seq::<Seq<char>>::empty();
    assert(terminated(none) == Seq::<char>::empty());
    assert(terminated(head.drop_last()) == terminated(none) + decimal(c.0 as nat) + seq!['\n']);
    assert(terminated(head) == terminated(head.drop_last()) + timing_text(c) + seq!['\n']);
    assert(terminated(head) =~= decimal(c.0 as nat) + seq!['\n'] + timing_text(c) + seq!['\n']);
    assert(tail.drop_last() =~= none);
    assert(terminated(tail) == terminated(none) + Seq::<char>::empty() + seq!['\n']);
    assert(terminated(tail) =~= seq!['\n']);
    assert(caption_text(c) =~= terminated(head) + terminated(texts) + terminated(tail));
}

proof fn lemma_writable_prefix(cs: Seq<CaptionView>, tss: Seq<Seq<Seq<char>>>)
    requires
        cs.len() == tss.len(),
        cs.len() > 0,
        forall|j: int| 0 <= j < cs.len() ==> writable(#[trigger] cs[j], tss[j]),
    ensures
        forall|j: int|
            0 <= j < cs.drop_last().len() ==> writable(
                #[trigger] cs.drop_last()[j],
                tss.drop_last()[j],
            ),
        writable(cs.last(), tss.last()),
{
    assert forall|j: int| 0 <= j < cs.drop_last().len() implies writable(
        #[trigger] cs.drop_last()[j],
        tss.drop_last()[j],
    ) by {
        assert(cs.drop_last()[j] == cs[j]);
        assert(tss.drop_last()[j] == tss[j]);
    }
    assert(writable(cs[cs.len() - 1], tss[tss.len() - 1]));
}

#[verifier::rlimit(40)]
proof fn lemma_document_parse(cs: Seq<CaptionView>, tss: Seq<Seq<Seq<char>>>)
    requires
        cs.len() == tss.len(),
        forall|j: int| 0 <= j < cs.len() ==> writable(#[trigger] cs[j], tss[j]),
    ensures
        run_spec(document_lines(cs, tss)) == Ok::<(Stage, BuilderView, Seq<CaptionView>), SrtError>(
            (Stage::AwaitingNumber, empty_builder(), cs),
        ),
    decreases cs.len(),
{
    if cs.len() == 0 {
        assert(document_lines(cs, tss) =~= Seq::<Seq<char>>::empty());
        assert(cs =~= Seq::<CaptionView>::empty());
    } else {
        let cs0 = cs.drop_last();
        let ts0 = tss.drop_last();
        lemma_writable_prefix(cs, tss);
        lemma_document_parse(cs0, ts0);
        let c = cs.last();
        let texts = tss.last();
        assert(document_lines(cs, tss) == document_lines(cs0, ts0) + block(
            decimal(c.0 as nat),
            timing_text(c),
            texts,
        ));
        assert(c.3 == join_lines(texts));
        lemma_number_line(c.0 as nat);
        assert(parse_unsigned(decimal(c.0 as nat), u64::MAX as nat) == Some(c.0 as nat));
        law_timing_round_trip(c.1, c.2);
        assert(timing_spec(timing_text(c)) == Ok::<(Duration, Duration), SrtError>((c.1, c.2)));
        lemma_block_after(
            document_lines(cs0, ts0),
            cs0,
            decimal(c.0 as nat),
            timing_text(c),
            texts,
            c.0 as nat,
            c.1,
            c.2,
        );
        assert(cs0.push((c.0, c.1, c.2, join_lines(texts))) =~= cs);
    }
}

proof fn lemma_document_text(cs: Seq<CaptionView>, tss: Seq<Seq<Seq<char>>>)
    requires
        cs.len() == tss.len(),
        forall|j: int| 0 <= j < cs.len() ==> writable(#[trigger] cs[j], tss[j]),
    ensures
        document_text(cs) == terminated(document_lines(cs, tss)),
    decreases cs.len(),
{
    if cs.len() == 0 {
        assert(document_lines(cs, tss) =~= Seq::<Seq<char>>::empty());
    } else {
        let cs0 = cs.drop_last();
        let ts0 = tss.drop_last();
        lemma_writable_prefix(cs, tss);
        lemma_document_text(cs0, ts0);
        let c = cs.last();
        let texts = tss.last();
        lemma_caption_text(c, texts);
        lemma_terminated_concat(
            document_lines(cs0, ts0),
            block(decimal(c.0 as nat), timing_text(c), texts),
        );
    }
}

/// Writing captions and reading back the lines written gives the same captions. The text that
/// `encode` writes is exactly these lines, each followed by a line break, when each caption's
/// text is its lines `tss[j]` joined by line breaks, its times have no part below a millisecond,
/// and its text has at least one line and no blank line.
pub proof fn law_document_round_trip(cs: Seq<CaptionView>, tss: Seq<Seq<Seq<char>>>)
    requires
        cs.len() == tss.len(),
        forall|j: int| 0 <= j < cs.len() ==> writable(#[trigger] cs[j], tss[j]),
    ensures
        document_text(cs) == terminated(document_lines(cs, tss)),
        parse_spec(document_lines(cs, tss)) == Ok::<Seq<CaptionView>, SrtError>(cs),
{
    lemma_document_text(cs, tss);
    lemma_document_parse(cs, tss);
}

} // verus!
