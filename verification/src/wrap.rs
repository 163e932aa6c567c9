//! Hard wrapping of display lines at grapheme boundaries, so that the
//! rows the browser counts are exactly the rows it draws.

use vstd::prelude::*;

use unicode_segmentation::UnicodeSegmentation;

use crate::style::{lines_view, spans_view, SpanView, Style, StyledLine, StyledSpan};
use crate::text::push_str;
use crate::width::{str_width, text_width};

verus! {

/// What `UnicodeSegmentation::graphemes(s, true)` yields for `s`: its
/// extended grapheme clusters, in order.
pub uninterp spec fn grapheme_clusters(s: Seq<char>) -> Seq<Seq<char>>;

/// `UnicodeSegmentation::graphemes` (extended clusters), collected. Its
/// result is named, not stated.
#[verifier::external_body]
pub fn graphemes(s: &str) -> (r: Vec<String>)
    ensures
        r@.len() == grapheme_clusters(s@).len(),
        forall|i: int| 0 <= i < r@.len() ==> #[trigger] r@[i]@ == grapheme_clusters(s@)[i],
{
    s.graphemes(true).map(|g| g.to_string()).collect()
}

/// The state of the wrapper: finished rows, the spans of the row being
/// filled, its width so far, and the text of the span being cut.
pub struct WrapState {
    pub rows: Seq<Seq<SpanView>>,
    pub spans: Seq<SpanView>,
    pub col: nat,
    pub buf: Seq<char>,
}

/// One grapheme `g` of a span styled `st` into a body `bw` cells wide: when
/// it would overflow a row that already holds something, the row is closed
/// first.
pub open spec fn step(s: WrapState, g: Seq<char>, st: Style, bw: nat) -> WrapState {
    let gw = str_width(g) as nat;
    let s1 = if s.col > 0 && s.col + gw > bw {
        WrapState {
            rows: s.rows.push(if s.buf.len() > 0 { s.spans.push((s.buf, st)) } else { s.spans }),
            spans: Seq::empty(),
            col: 0,
            buf: Seq::empty(),
        }
    } else {
        s
    };
    WrapState { buf: s1.buf + g, col: s1.col + gw, ..s1 }
}

/// The first `j` graphemes of a span.
pub open spec fn steps(s: WrapState, gs: Seq<Seq<char>>, st: Style, bw: nat, j: int) -> WrapState
    decreases j,
{
    if j <= 0 || j > gs.len() {
        s
    } else {
        step(steps(s, gs, st, bw, j - 1), gs[j - 1], st, bw)
    }
}

/// A whole span: its graphemes, then what is left of it onto the row.
pub open spec fn span_step(s: WrapState, sp: SpanView, bw: nat) -> WrapState {
    let gs = grapheme_clusters(sp.0);
    let t = steps(WrapState { buf: Seq::empty(), ..s }, gs, sp.1, bw, gs.len() as int);
    if t.buf.len() > 0 {
        WrapState { spans: t.spans.push((t.buf, sp.1)), buf: Seq::empty(), ..t }
    } else {
        t
    }
}

/// The first `k` spans of a line.
pub open spec fn span_steps(v: Seq<SpanView>, bw: nat, k: int) -> WrapState
    decreases k,
{
    if k <= 0 || k > v.len() {
        WrapState { rows: Seq::empty(), spans: Seq::empty(), col: 0, buf: Seq::empty() }
    } else {
        span_step(span_steps(v, bw, k - 1), v[k - 1], bw)
    }
}

/// The rows a line wraps to in a body `body_w` cells wide (at least one
/// cell): graphemes are never split, a row only overflows when a single
/// grapheme is wider than the body, and there is always at least one row.
pub open spec fn wrapped(v: Seq<SpanView>, body_w: usize) -> Seq<Seq<SpanView>> {
    let bw: nat = if body_w == 0 { 1 } else { body_w as nat };
    let s = span_steps(v, bw, v.len() as int);
    s.rows.push(s.spans)
}

fn copy_chars(s: &String) -> (r: String)
    ensures
        r@ == s@,
{
    s.clone()
}

/// Hard wrap of a display line to `body_w` cells at grapheme boundaries.
pub fn wrap_line(line: &StyledLine, body_w: usize) -> (out: Vec<StyledLine>)
    ensures
        lines_view(out@) == wrapped(spans_view(line.spans@), body_w),
{
    let bw: usize = if body_w == 0 { 1 } else { body_w };
    let ghost v = spans_view(line.spans@);
    let mut out: Vec<StyledLine> = Vec::new();
    let mut spans: Vec<StyledSpan> = Vec::new();
    let mut col: usize = 0;
    let mut k: usize = 0;
    while k < line.spans.len()
        invariant
            v == spans_view(line.spans@),
            bw >= 1,
            bw as nat == (if body_w == 0 { 1nat } else { body_w as nat }),
            k <= line.spans@.len(),
            ({
                let s = span_steps(v, bw as nat, k as int);
                &&& lines_view(out@) == s.rows
                &&& spans_view(spans@) == s.spans
                &&& col as nat == s.col
                &&& s.buf.len() == 0
            }),
        decreases line.spans@.len() - k,
    {
        let style = line.spans[k].style;
        let gs = graphemes(line.spans[k].text.as_str());
        let ghost gv = grapheme_clusters(line.spans@[k as int].text@);
        let ghost start = span_steps(v, bw as nat, k as int);
        let ghost start_b = WrapState { buf: Seq::empty(), ..start };
        let mut buf = String::new();
        let mut j: usize = 0;
        while j < gs.len()
            invariant
                gs@.len() == gv.len(),
                forall|i: int| 0 <= i < gs@.len() ==> #[trigger] gs@[i]@ == gv[i],
                bw >= 1,
                j <= gs@.len(),
                ({
                    let s = steps(start_b, gv, style, bw as nat, j as int);
                    &&& lines_view(out@) == s.rows
                    &&& spans_view(spans@) == s.spans
                    &&& col as nat == s.col
                    &&& buf@ == s.buf
                }),
            decreases gs@.len() - j,
        {
            let g = &gs[j];
            let gw = text_width(g.as_str());
            let ghost before = steps(start_b, gv, style, bw as nat, j as int);
            if col > 0 && (col as u128) + (gw as u128) > (bw as u128) {
                if buf.as_str().unicode_len() > 0 {
                    let ghost pre = spans@;
                    let piece = copy_chars(&buf);
                    spans.push(StyledSpan { text: piece, style });
                    assert(spans_view(spans@) =~= spans_view(pre).push((before.buf, style)));
                    buf = String::new();
                }
                let ghost pre_out = out@;
                let row = StyledLine { spans };
                out.push(row);
                assert(lines_view(out@) =~= lines_view(pre_out).push(spans_view(row.spans@)));
                spans = Vec::new();
                col = 0;
                buf = String::new();
            }
            push_str(&mut buf, g.as_str());
            col = col + gw;
            j = j + 1;
        }
        assert(v[k as int] == (line.spans@[k as int].text@, style));
        assert(j == gv.len());
        assert(start_b == WrapState { buf: Seq::empty(), ..span_steps(v, bw as nat, k as int) });
        if buf.as_str().unicode_len() > 0 {
            let ghost pre = spans@;
            let ghost bv = buf@;
            spans.push(StyledSpan { text: buf, style });
            assert(spans_view(spans@) =~= spans_view(pre).push((bv, style)));
        }
        k = k + 1;
    }
    let ghost pre_out = out@;
    let row = StyledLine { spans };
    out.push(row);
    assert(lines_view(out@) =~= lines_view(pre_out).push(spans_view(row.spans@)));
    out
}

} // verus!
