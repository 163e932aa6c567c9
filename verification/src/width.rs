//! Display-width helpers. Width is computed from logical text content, so
//! ANSI escape sequences never enter the calculation.

use vstd::prelude::*;

use unicode_width::UnicodeWidthStr;

use crate::style::{spans_view, SpanView, StyledSpan};

verus! {

/// The column width `UnicodeWidthStr::width` gives `s`.
pub uninterp spec fn str_width(s: Seq<char>) -> usize;

/// A character of the Unicode Box Drawing block (U+2500 to U+257F).
pub open spec fn is_box_glyph(c: char) -> bool {
    '\u{2500}' <= c && c <= '\u{257F}'
}

/// `UnicodeWidthStr::width`. Beyond the name, only what follows from the
/// width rules its documentation lists: a string of plain spaces, or of
/// Box Drawing characters (East Asian width ambiguous or neutral, none of
/// them part of a ligature), is one column per character.
#[verifier::external_body]
pub fn text_width(s: &str) -> (w: usize)
    ensures
        w == str_width(s@),
        (forall|i: int| 0 <= i < s@.len() ==> s@[i] == ' ') ==> w == s@.len(),
        (forall|i: int| 0 <= i < s@.len() ==> is_box_glyph(s@[i])) ==> w == s@.len(),
{
    UnicodeWidthStr::width(s)
}

pub fn span_width(span: &StyledSpan) -> (w: usize)
    ensures
        w == str_width(span.text@),
{
    text_width(span.text.as_str())
}

/// Sum of the widths of `spans` (exact, unbounded).
pub open spec fn spans_width_sum(spans: Seq<StyledSpan>) -> nat
    decreases spans.len(),
{
    if spans.len() == 0 {
        0
    } else {
        spans_width_sum(spans.drop_last()) + str_width(spans.last().text@) as nat
    }
}

/// The width of a span sequence as a `usize`: the sum, or `usize::MAX` when
/// the sum does not fit.
pub open spec fn spans_width_of(spans: Seq<StyledSpan>) -> usize {
    if spans_width_sum(spans) <= usize::MAX {
        spans_width_sum(spans) as usize
    } else {
        usize::MAX
    }
}

/// The width of span views, as `spans_width` counts it.
pub open spec fn views_width_sum(v: Seq<SpanView>) -> nat
    decreases v.len(),
{
    if v.len() == 0 {
        0
    } else {
        views_width_sum(v.drop_last()) + str_width(v.last().0) as nat
    }
}

/// The width of span views as a `usize`: the sum, or `usize::MAX` when it
/// does not fit.
pub open spec fn views_width(v: Seq<SpanView>) -> usize {
    if views_width_sum(v) <= usize::MAX {
        views_width_sum(v) as usize
    } else {
        usize::MAX
    }
}

/// Spans and their views are equally wide.
pub proof fn lemma_width_views(spans: Seq<StyledSpan>)
    ensures
        spans_width_sum(spans) == views_width_sum(spans_view(spans)),
        spans_width_of(spans) == views_width(spans_view(spans)),
    decreases spans.len(),
{
    if spans.len() > 0 {
        lemma_width_views(spans.drop_last());
        assert(spans_view(spans).drop_last() =~= spans_view(spans.drop_last()));
    }
}

/// The width of span views adds up over concatenation.
pub proof fn lemma_views_width_concat(a: Seq<SpanView>, b: Seq<SpanView>)
    ensures
        views_width_sum(a + b) == views_width_sum(a) + views_width_sum(b),
    decreases b.len(),
{
    if b.len() > 0 {
        lemma_views_width_concat(a, b.drop_last());
        assert((a + b).drop_last() =~= a + b.drop_last());
    } else {
        assert(a + b =~= a);
    }
}

pub proof fn lemma_width_sum_monotone(spans: Seq<StyledSpan>, k: int)
    requires
        0 <= k <= spans.len(),
    ensures
        spans_width_sum(spans.subrange(0, k)) <= spans_width_sum(spans),
    decreases spans.len() - k,
{
    if k < spans.len() {
        lemma_width_sum_monotone(spans, k + 1);
        assert(spans.subrange(0, k + 1).drop_last() =~= spans.subrange(0, k));
    } else {
        assert(spans.subrange(0, k) =~= spans);
    }
}

pub fn spans_width(spans: &[StyledSpan]) -> (w: usize)
    ensures
        w == spans_width_of(spans@),
{
    let mut total: usize = 0;
    let mut i: usize = 0;
    while i < spans.len()
        invariant
            i <= spans@.len(),
            total == spans_width_of(spans@.subrange(0, i as int)),
        decreases spans@.len() - i,
    {
        let w = span_width(&spans[i]);
        proof {
            assert(spans@.subrange(0, i as int + 1).drop_last() =~= spans@.subrange(0, i as int));
        }
        total = if total <= usize::MAX - w { total + w } else { usize::MAX };
        i = i + 1;
    }
    assert(spans@.subrange(0, spans@.len() as int) =~= spans@);
    total
}

} // verus!
