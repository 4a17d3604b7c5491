//! What holds of every tokenization.
use crate::model::{
    lemma_next_span_bounds, lex_spans, next_mode, next_span, tokens_from, Span,
};
use crate::token::LexMode;
use vstd::prelude::*;

verus! {

/// The pieces of `t` that `spans` cover, one after another.
pub open spec fn sources(t: Seq<char>, spans: Seq<Span>) -> Seq<char>
    decreases spans.len(),
{
    if spans.len() == 0 {
        seq![]
    } else {
        t.subrange(spans[0].start as int, spans[0].end as int) + sources(t, spans.drop_first())
    }
}

/// Whether each span of `spans` lies within `t` and starts where the one
/// before it ended.
pub open spec fn contiguous(t: Seq<char>, spans: Seq<Span>) -> bool {
    &&& forall|k: int| 0 <= k < spans.len() ==> (#[trigger] spans[k]).start <= spans[k].end <= t.len()
    &&& forall|i: int, j: int|
        0 <= i < spans.len() - 1 && j == i + 1 ==> #[trigger] spans[i].end == #[trigger] spans[j].start
}

/// The sources of contiguous spans make up the text from the first start to
/// the last end.
pub proof fn lemma_sources_contiguous(t: Seq<char>, spans: Seq<Span>)
    requires
        spans.len() >= 1,
        contiguous(t, spans),
    ensures
        spans[0].start <= spans.last().end,
        sources(t, spans) == t.subrange(spans[0].start as int, spans.last().end as int),
    decreases spans.len(),
{
    let rest = spans.drop_first();
    assert(spans[0].start <= spans[0].end <= t.len());
    if spans.len() == 1 {
        assert(rest =~= seq![]);
        assert(sources(t, rest) == Seq::<char>::empty());
        assert(sources(t, spans) =~= t.subrange(spans[0].start as int, spans[0].end as int));
    } else {
        assert forall|i: int, j: int| 0 <= i < rest.len() - 1 && j == i + 1 implies #[trigger] rest[i].end
            == #[trigger] rest[j].start by {
            assert(rest[i] == spans[i + 1]);
            assert(rest[j] == spans[j + 1]);
            assert(spans[i + 1].end == spans[j + 1].start);
        }
        assert forall|k: int| 0 <= k < rest.len() implies (#[trigger] rest[k]).start <= rest[k].end
            <= t.len() by {
            assert(rest[k] == spans[k + 1]);
        }
        lemma_sources_contiguous(t, rest);
        assert(spans[0].end == spans[1].start);
        assert(rest[0] == spans[1]);
        assert(rest.last() == spans.last());
        assert(spans.last().end <= t.len());
        assert(sources(t, spans) == t.subrange(spans[0].start as int, spans[0].end as int) + sources(t, rest));
        assert(sources(t, spans) =~= t.subrange(spans[0].start as int, spans.last().end as int));
    }
}

/// Outside statement-tag mode, the tokens from index `p` on start at `p`,
/// end at the end of the text, and each starts where the one before it ended.
pub proof fn lemma_tokens_from_tile(t: Seq<char>, p: nat, mode: LexMode)
    requires
        p <= t.len(),
        mode != LexMode::Keywords,
    ensures
        tokens_from(t, p, mode).len() >= 1,
        tokens_from(t, p, mode)[0].start == p,
        tokens_from(t, p, mode).last().end == t.len(),
        contiguous(t, tokens_from(t, p, mode)),
    decreases t.len() - p,
{
    let ts = tokens_from(t, p, mode);
    lemma_next_span_bounds(t, p, mode);
    if p < t.len() {
        let span = next_span(t, p, mode);
        let rest = tokens_from(t, span.end, next_mode(t, p, mode));
        lemma_tokens_from_tile(t, span.end, next_mode(t, p, mode));
        assert(ts == seq![span] + rest);
        assert forall|i: int, j: int| 0 <= i < ts.len() - 1 && j == i + 1 implies #[trigger] ts[i].end
            == #[trigger] ts[j].start by {
            assert(ts[j] == rest[j - 1]);
            if i > 0 {
                assert(ts[i] == rest[i - 1]);
                assert(rest[i - 1].end == rest[j - 1].start);
            }
        }
        assert forall|k: int| 0 <= k < ts.len() implies (#[trigger] ts[k]).start <= ts[k].end
            <= t.len() by {
            if k > 0 {
                assert(ts[k] == rest[k - 1]);
            }
        }
    }
}

/// Concatenating the source of every token gives back the text, and the
/// tokens follow one another without gap or overlap from its start to its end.
pub proof fn lemma_tokens_rebuild_text(t: Seq<char>)
    ensures
        sources(t, lex_spans(t)) == t,
        lex_spans(t)[0].start == 0,
        lex_spans(t).last().end == t.len(),
        contiguous(t, lex_spans(t)),
{
    lemma_tokens_from_tile(t, 0, LexMode::Markdown);
    lemma_sources_contiguous(t, lex_spans(t));
    assert(t.subrange(0, t.len() as int) =~= t);
}

/// Tokenizing starts in literal-text mode: the first token is the one that
/// literal-text mode produces at the first character.
pub proof fn lemma_lex_starts_in_literal_mode(t: Seq<char>)
    ensures
        lex_spans(t)[0] == next_span(t, 0, LexMode::Markdown),
{
}

} // verus!
