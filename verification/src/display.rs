//! What the browser's body shows: each document line with the overlays of
//! the moment (focused link, search hits, yank selection, cursor line,
//! line numbers) merged into its spans.

use vstd::prelude::*;

use crate::ansi::{decimal, push_decimal};
use crate::browser::App;
use crate::search::{
    apply_match_highlight, char_count, char_styles, highlighted, lemma_highlight_keeps_text, lemma_highlighted_styles,
    view_text, MatchPos,
};
use crate::style::{copy_spans, merged, plain_style, span_view, spans_view, Color, SpanView, Style, StyledLine, StyledSpan};
use crate::text::{push_str, repeat, repeat_char};
use crate::width::{lemma_width_views, spans_width, views_width};

verus! {


pub open spec fn search_style() -> Style {
    Style { reversed: true, ..plain_style() }
}

pub open spec fn current_search_style() -> Style {
    Style { bg: Some(Color::BrightYellow), fg: Some(Color::Black), bold: true, ..plain_style() }
}

pub open spec fn link_overlay() -> Style {
    Style { reversed: true, bold: true, ..plain_style() }
}

pub open spec fn cursor_overlay() -> Style {
    Style { bg: Some(Color::Rgb(72, 72, 92)), ..plain_style() }
}

pub open spec fn yank_overlay() -> Style {
    Style { bg: Some(Color::Rgb(58, 78, 110)), ..plain_style() }
}

pub open spec fn normal_lineno() -> Style {
    Style { fg: Some(Color::BrightBlack), ..plain_style() }
}

pub open spec fn cursor_lineno() -> Style {
    Style { fg: Some(Color::BrightYellow), bold: true, ..plain_style() }
}

/// `st` merged onto the spans with index in `[lo, hi)`.
pub open spec fn overlay_range(v: Seq<SpanView>, lo: int, hi: int, st: Style) -> Seq<SpanView> {
    Seq::new(v.len(), |k: int| if lo <= k < hi { (v[k].0, merged(v[k].1, st)) } else { v[k] })
}

/// `st` merged onto every span.
pub open spec fn overlay_all(v: Seq<SpanView>, st: Style) -> Seq<SpanView> {
    overlay_range(v, 0, v.len() as int, st)
}

/// The search hits on line `line`, in the order they were found.
pub open spec fn matches_on(ms: Seq<MatchPos>, line: int) -> Seq<MatchPos>
    decreases ms.len(),
{
    if ms.len() == 0 {
        Seq::empty()
    } else if ms.last().line == line {
        matches_on(ms.drop_last(), line).push(ms.last())
    } else {
        matches_on(ms.drop_last(), line)
    }
}

/// `x` placed into `s` after every hit that does not start after it.
pub open spec fn insert_by_start(s: Seq<MatchPos>, x: MatchPos) -> Seq<MatchPos>
    decreases s.len(),
{
    if s.len() == 0 {
        seq![x]
    } else if s.last().char_start <= x.char_start {
        s.push(x)
    } else {
        insert_by_start(s.drop_last(), x).push(s.last())
    }
}

/// `s` stably ordered by where each hit starts.
pub open spec fn by_start(s: Seq<MatchPos>) -> Seq<MatchPos>
    decreases s.len(),
{
    if s.len() == 0 {
        Seq::empty()
    } else {
        insert_by_start(by_start(s.drop_last()), s.last())
    }
}

/// The spans with the hits in `ms` highlighted, the last hit first (so the
/// offsets of the earlier ones stay valid); the current hit stands out.
pub open spec fn apply_hits(v: Seq<SpanView>, ms: Seq<MatchPos>, current: Option<MatchPos>) -> Seq<SpanView>
    decreases ms.len(),
{
    if ms.len() == 0 {
        v
    } else {
        let m = ms.last();
        let is_current = match current {
            Some(c) => c.line == m.line && c.char_start == m.char_start,
            None => false,
        };
        let st = if is_current { current_search_style() } else { search_style() };
        let h = if m.char_start < m.char_end { highlighted(v, m.char_start as int, m.char_end as int, st) } else { v };
        apply_hits(h, ms.drop_last(), current)
    }
}

/// Whether hit `m` is the current one: on the current hit's line and
/// starting where it starts.
pub open spec fn is_current_hit(m: MatchPos, current: Option<MatchPos>) -> bool {
    current matches Some(c) && c.line == m.line && c.char_start == m.char_start
}

/// Character `p` lies in none of the hits.
pub open spec fn outside_hits(ms: Seq<MatchPos>, p: int) -> bool {
    forall|i: int| 0 <= i < ms.len() ==> !((#[trigger] ms[i]).char_start <= p < ms[i].char_end)
}

/// No two of the hits share a character.
pub open spec fn hits_disjoint(ms: Seq<MatchPos>) -> bool {
    forall|i: int, j: int|
        0 <= i < j < ms.len() ==> (#[trigger] ms[i]).char_end <= (#[trigger] ms[j]).char_start || ms[j].char_end
            <= ms[i].char_start
}

/// How search hits are drawn: every character of the current hit gets the
/// bright-yellow current-hit style laid over it, every character of any
/// other hit the reversed hit style, and characters outside every hit keep
/// their style.
pub proof fn lemma_hit_styles(v: Seq<SpanView>, ms: Seq<MatchPos>, current: Option<MatchPos>)
    requires
        hits_disjoint(ms),
    ensures
        char_styles(apply_hits(v, ms, current)).len() == char_styles(v).len(),
        forall|i: int, p: int|
            #![trigger ms[i], char_styles(apply_hits(v, ms, current))[p]]
            0 <= i < ms.len() && ms[i].char_start <= p < ms[i].char_end && p < char_styles(v).len() && is_current_hit(
                ms[i],
                current,
            ) ==> char_styles(apply_hits(v, ms, current))[p] == merged(char_styles(v)[p], current_search_style()),
        forall|i: int, p: int|
            #![trigger ms[i], char_styles(apply_hits(v, ms, current))[p]]
            0 <= i < ms.len() && ms[i].char_start <= p < ms[i].char_end && p < char_styles(v).len()
                && !is_current_hit(ms[i], current) ==> char_styles(apply_hits(v, ms, current))[p] == merged(
                char_styles(v)[p],
                search_style(),
            ),
        forall|p: int|
            0 <= p < char_styles(v).len() && outside_hits(ms, p)
                ==> #[trigger] char_styles(apply_hits(v, ms, current))[p] == char_styles(v)[p],
    decreases ms.len(),
{
    if ms.len() > 0 {
        let m = ms.last();
        let rest = ms.drop_last();
        let st = if is_current_hit(m, current) { current_search_style() } else { search_style() };
        let h = if m.char_start < m.char_end { highlighted(v, m.char_start as int, m.char_end as int, st) } else { v };
        if m.char_start < m.char_end {
            lemma_highlighted_styles(v, m.char_start as int, m.char_end as int, st);
        }
        assert(hits_disjoint(rest)) by {
            assert forall|i: int, j: int| 0 <= i < j < rest.len() implies (#[trigger] rest[i]).char_end <= (
            #[trigger] rest[j]).char_start || rest[j].char_end <= rest[i].char_start by {
                assert(rest[i] == ms[i] && rest[j] == ms[j]);
            }
        }
        lemma_hit_styles(h, rest, current);
        assert(apply_hits(v, ms, current) == apply_hits(h, rest, current));
        let out = apply_hits(v, ms, current);
        let last = ms.len() - 1;
        assert forall|p: int|
            0 <= p < char_styles(v).len() && !(m.char_start <= p < m.char_end) implies char_styles(h)[p]
            == char_styles(v)[p] by {}
        assert forall|i: int, p: int|
            #![trigger ms[i], char_styles(out)[p]]
            0 <= i < ms.len() && ms[i].char_start <= p < ms[i].char_end && p < char_styles(v).len() implies
            char_styles(out)[p] == merged(
                char_styles(v)[p],
                if is_current_hit(ms[i], current) { current_search_style() } else { search_style() },
            ) by {
            if i < last {
                assert(rest[i] == ms[i]);
                assert(ms[i].char_end <= m.char_start || m.char_end <= ms[i].char_start) by {
                    assert(ms[last] == m);
                }
                assert(char_styles(h)[p] == char_styles(v)[p]);
            } else {
                assert(ms[i] == m);
                assert forall|k: int| 0 <= k < rest.len() implies !((#[trigger] rest[k]).char_start <= p < rest[k].char_end) by {
                    assert(rest[k] == ms[k]);
                    assert(ms[k].char_end <= ms[last].char_start || ms[last].char_end <= ms[k].char_start);
                }
                assert(outside_hits(rest, p));
            }
        }
        assert forall|p: int|
            0 <= p < char_styles(v).len() && outside_hits(ms, p)
                implies #[trigger] char_styles(out)[p] == char_styles(v)[p] by {
            assert(!(ms[last].char_start <= p < ms[last].char_end));
            assert forall|k: int| 0 <= k < rest.len() implies !((#[trigger] rest[k]).char_start <= p < rest[k].char_end) by {
                assert(rest[k] == ms[k]);
                assert(!(ms[k].char_start <= p < ms[k].char_end));
            }
            assert(outside_hits(rest, p));
        }
    }
}

/// `n` right-aligned in `width` cells.
pub open spec fn right_aligned(n: nat, width: nat) -> Seq<char> {
    let d = decimal(n);
    if d.len() >= width {
        d
    } else {
        repeat_char(' ', (width - d.len()) as nat) + d
    }
}

impl App {
    /// The current search hit.
    pub open spec fn current_hit(self) -> Option<MatchPos> {
        match self.search_cursor {
            Some(i) => if i < self.search_matches@.len() { Some(self.search_matches@[i as int]) } else { None },
            None => None,
        }
    }

    /// The line of the focused link.
    pub open spec fn focused_line(self) -> Option<usize> {
        match self.focused_link {
            Some(i) => if i < self.links@.len() { Some(self.links@[i as int].line) } else { None },
            None => None,
        }
    }

    pub open spec fn in_yank(self, idx: int) -> bool {
        match self.yank {
            Some(y) => y.level < y.path@.len() && y.path@[y.level as int].0 <= idx <= y.path@[y.level as int].1,
            None => false,
        }
    }

    pub open spec fn has_link(self, idx: int) -> bool {
        self.focused_line() == Some(idx as usize)
    }

    /// Stage one: the focused link's spans reversed and bold.
    pub open spec fn linked(self, idx: int, base: Seq<SpanView>) -> Seq<SpanView> {
        if self.has_link(idx) {
            let l = self.links@[self.focused_link->0 as int];
            overlay_range(base, l.span_range.start as int, l.span_range.end as int, link_overlay())
        } else {
            base
        }
    }

    /// Stage two: the search hits on the line highlighted.
    pub open spec fn hits_applied(self, idx: int, v: Seq<SpanView>) -> Seq<SpanView> {
        let hits = matches_on(self.search_matches@, idx);
        if hits.len() > 0 {
            apply_hits(v, by_start(hits), self.current_hit())
        } else {
            v
        }
    }

    /// Stage four: the line number in the gutter, styled for the cursor
    /// line and the yank selection.
    pub open spec fn guttered(self, idx: int, v: Seq<SpanView>) -> Seq<SpanView> {
        let is_cursor = idx == self.cursor_line;
        let in_yank = self.in_yank(idx);
        let g0 = if is_cursor { cursor_lineno() } else { normal_lineno() };
        let g1 = if in_yank { merged(g0, yank_overlay()) } else { g0 };
        let g2 = if is_cursor { merged(g1, cursor_overlay()) } else { g1 };
        let pad_to = if self.gutter() >= 1 { self.gutter() - 1 } else { 0 };
        if self.show_line_numbers {
            seq![(right_aligned((idx + 1) as nat, pad_to as nat) + " "@, g2)] + v
        } else {
            v
        }
    }

    /// Stage five: the cursor line and the yank selection padded to the
    /// body's width so their tint reaches the right edge.
    pub open spec fn padded(self, idx: int, v: Seq<SpanView>) -> Seq<SpanView> {
        let is_cursor = idx == self.cursor_line;
        let in_yank = self.in_yank(idx);
        let w = self.body_width as usize;
        let used = views_width(v);
        if (is_cursor || in_yank) && w > 0 && used < w {
            v.push((repeat_char(' ', (w - used) as nat), if is_cursor { cursor_overlay() } else { yank_overlay() }))
        } else {
            v
        }
    }

    /// What line `idx` looks like on screen, before wrapping: the focused
    /// link's spans reversed and bold, search hits highlighted (the
    /// current one in yellow), the yank selection and then the cursor line
    /// tinted, the line number in a gutter, and the tinted lines padded to
    /// the body's width. A line with none of these is drawn as it is.
    pub open spec fn display_line(self, idx: int) -> Seq<SpanView> {
        let base = spans_view(self.lines@[idx].spans@);
        let has_search = matches_on(self.search_matches@, idx).len() > 0;
        let is_cursor = idx == self.cursor_line;
        let in_yank = self.in_yank(idx);
        if !has_search && !self.has_link(idx) && !is_cursor && !self.show_line_numbers && !in_yank {
            base
        } else {
            let s2 = self.hits_applied(idx, self.linked(idx, base));
            let s3 = if in_yank { overlay_all(s2, yank_overlay()) } else { s2 };
            let s4 = if is_cursor { overlay_all(s3, cursor_overlay()) } else { s3 };
            self.padded(idx, self.guttered(idx, s4))
        }
    }
}

fn styles_search() -> (s: Style)
    ensures
        s == search_style(),
{
    Style::new().reversed()
}

fn styles_current() -> (s: Style)
    ensures
        s == current_search_style(),
{
    Style::new().bg(Color::BrightYellow).fg(Color::Black).bold()
}

fn styles_link() -> (s: Style)
    ensures
        s == link_overlay(),
{
    Style::new().reversed().bold()
}

fn styles_cursor() -> (s: Style)
    ensures
        s == cursor_overlay(),
{
    Style::new().bg(Color::Rgb(72, 72, 92))
}

fn styles_yank() -> (s: Style)
    ensures
        s == yank_overlay(),
{
    Style::new().bg(Color::Rgb(58, 78, 110))
}

/// Merge `st` onto the spans with index in `[lo, hi)`.
fn overlay_spans(v: &mut Vec<StyledSpan>, lo: usize, hi: usize, st: Style)
    ensures
        spans_view(final(v)@) == overlay_range(spans_view(old(v)@), lo as int, hi as int, st),
{
    let ghost orig = spans_view(v@);
    let n = v.len();
    let mut k: usize = 0;
    while k < n
        invariant
            n == v@.len(),
            orig.len() == n,
            k <= n,
            forall|j: int| 0 <= j < n ==> #[trigger] spans_view(v@)[j] == if j < k && lo <= j < hi {
                (orig[j].0, merged(orig[j].1, st))
            } else {
                orig[j]
            },
        decreases n - k,
    {
        if lo <= k && k < hi {
            let s = StyledSpan { text: v[k].text.clone(), style: v[k].style.merge(st) };
            let ghost pre = v@;
            v.set(k, s);
            assert forall|j: int| 0 <= j < n implies #[trigger] spans_view(v@)[j] == if j < k + 1 && lo <= j < hi {
                (orig[j].0, merged(orig[j].1, st))
            } else {
                orig[j]
            } by {
                assert(spans_view(pre)[j] == span_view(pre[j]));
                if j != k {
                    assert(v@[j] == pre[j]);
                } else {
                    assert(spans_view(pre)[j] == orig[j]);
                    assert(v@[j] == s);
                }
            }
        }
        k = k + 1;
    }
    assert(spans_view(v@) =~= overlay_range(orig, lo as int, hi as int, st));
}

fn insert_hit(r: &mut Vec<MatchPos>, x: MatchPos)
    ensures
        final(r)@ == insert_by_start(old(r)@, x),
{
    let ghost s = r@;
    let mut j: usize = r.len();
    assert(s.take(j as int) =~= s);
    assert(s.skip(j as int) =~= Seq::<MatchPos>::empty());
    assert(insert_by_start(s, x) =~= insert_by_start(s.take(j as int), x) + s.skip(j as int));
    while j > 0 && r[j - 1].char_start > x.char_start
        invariant
            r@ == s,
            j <= s.len(),
            insert_by_start(s, x) == insert_by_start(s.take(j as int), x) + s.skip(j as int),
        decreases j,
    {
        let ghost t = s.take(j as int);
        assert(t.drop_last() =~= s.take(j as int - 1));
        assert(t.last() == s[j as int - 1]);
        assert(insert_by_start(t, x) == insert_by_start(s.take(j as int - 1), x).push(s[j as int - 1]));
        assert(seq![s[j as int - 1]] + s.skip(j as int) =~= s.skip(j as int - 1));
        assert(insert_by_start(s.take(j as int - 1), x).push(s[j as int - 1]) + s.skip(j as int)
            =~= insert_by_start(s.take(j as int - 1), x) + s.skip(j as int - 1));
        j = j - 1;
    }
    assert(insert_by_start(s.take(j as int), x) == s.take(j as int).push(x));
    r.insert(j, x);
    assert(r@ =~= s.take(j as int).push(x) + s.skip(j as int));
}

/// The hits on line `idx`, ordered by where they start.
fn line_hits(ms: &Vec<MatchPos>, idx: usize) -> (r: Vec<MatchPos>)
    ensures
        r@ == by_start(matches_on(ms@, idx as int)),
        r@.len() == matches_on(ms@, idx as int).len(),
{
    let mut on: Vec<MatchPos> = Vec::new();
    let mut i: usize = 0;
    while i < ms.len()
        invariant
            i <= ms@.len(),
            on@ == matches_on(ms@.take(i as int), idx as int),
        decreases ms@.len() - i,
    {
        assert(ms@.take(i as int + 1).drop_last() =~= ms@.take(i as int));
        if ms[i].line == idx {
            on.push(ms[i]);
        }
        i = i + 1;
    }
    assert(ms@.take(ms@.len() as int) =~= ms@);
    let mut r: Vec<MatchPos> = Vec::new();
    let mut k: usize = 0;
    while k < on.len()
        invariant
            k <= on@.len(),
            r@ == by_start(on@.take(k as int)),
        decreases on@.len() - k,
    {
        assert(on@.take(k as int + 1).drop_last() =~= on@.take(k as int));
        insert_hit(&mut r, on[k]);
        k = k + 1;
    }
    assert(on@.take(on@.len() as int) =~= on@);
    proof {
        lemma_by_start_len(on@);
    }
    r
}

proof fn lemma_insert_by_start_len(s: Seq<MatchPos>, x: MatchPos)
    ensures
        insert_by_start(s, x).len() == s.len() + 1,
    decreases s.len(),
{
    if s.len() > 0 && s.last().char_start > x.char_start {
        lemma_insert_by_start_len(s.drop_last(), x);
    }
}

proof fn lemma_by_start_len(s: Seq<MatchPos>)
    ensures
        by_start(s).len() == s.len(),
    decreases s.len(),
{
    if s.len() > 0 {
        lemma_by_start_len(s.drop_last());
        lemma_insert_by_start_len(by_start(s.drop_last()), s.last());
    }
}

proof fn lemma_char_count_overlay(v: Seq<SpanView>, lo: int, hi: int, st: Style)
    ensures
        char_count(overlay_range(v, lo, hi, st)) == char_count(v),
    decreases v.len(),
{
    if v.len() > 0 {
        assert(overlay_range(v, lo, hi, st).drop_last() =~= overlay_range(v.drop_last(), lo, hi, st));
        lemma_char_count_overlay(v.drop_last(), lo, hi, st);
    }
}

proof fn lemma_char_count_text(v: Seq<SpanView>)
    ensures
        char_count(v) == view_text(v).len(),
    decreases v.len(),
{
    if v.len() > 0 {
        lemma_char_count_text(v.drop_last());
    }
}

/// `n` right-aligned in `width` cells.
fn right_aligned_text(n: usize, width: usize) -> (s: String)
    ensures
        s@ == right_aligned(n as nat, width as nat),
{
    let mut d = String::new();
    push_decimal(&mut d, n);
    assert(d@ =~= decimal(n as nat));
    let len = d.as_str().unicode_len();
    if len >= width {
        return d;
    }
    let mut s = repeat(' ', width - len);
    push_str(&mut s, d.as_str());
    s
}

impl App {
    fn stage_link(&self, idx: usize, working: &mut Vec<StyledSpan>)
        ensures
            spans_view(final(working)@) == self.linked(idx as int, spans_view(old(working)@)),
            char_count(spans_view(final(working)@)) == char_count(spans_view(old(working)@)),
    {
        let has_link = match self.focused_link {
            Some(i) => i < self.links.len() && self.links[i].line == idx,
            None => false,
        };
        if has_link {
            let i = match self.focused_link {
                Some(i) => i,
                None => 0,
            };
            let lo = self.links[i].span_range.start;
            let hi = self.links[i].span_range.end;
            let ghost before = spans_view(working@);
            overlay_spans(working, lo, hi, styles_link());
            proof {
                lemma_char_count_overlay(before, lo as int, hi as int, link_overlay());
            }
        }
    }

    fn stage_hits(&self, idx: usize, working: Vec<StyledSpan>) -> (r: Vec<StyledSpan>)
        requires
            char_count(spans_view(working@)) <= usize::MAX,
        ensures
            spans_view(r@) == self.hits_applied(idx as int, spans_view(working@)),
    {
        let hits = line_hits(&self.search_matches, idx);
        if hits.len() == 0 {
            return working;
        }
        let ghost s1 = spans_view(working@);
        let current: Option<MatchPos> = match self.search_cursor {
            Some(i) => if i < self.search_matches.len() { Some(self.search_matches[i]) } else { None },
            None => None,
        };
        let mut line_w = StyledLine { spans: working };
        let mut j: usize = hits.len();
        proof {
            assert(hits@.take(j as int) =~= hits@);
        }
        while j > 0
            invariant
                j <= hits@.len(),
                current == self.current_hit(),
                apply_hits(s1, hits@, current) == apply_hits(spans_view(line_w.spans@), hits@.take(j as int), current),
                char_count(spans_view(line_w.spans@)) == char_count(s1),
                char_count(s1) <= usize::MAX,
            decreases j,
        {
            let m = hits[j - 1];
            let is_current = match current {
                Some(c) => c.line == m.line && c.char_start == m.char_start,
                None => false,
            };
            let st = if is_current { styles_current() } else { styles_search() };
            let ghost before = spans_view(line_w.spans@);
            assert(hits@.take(j as int).drop_last() =~= hits@.take(j as int - 1));
            assert(hits@.take(j as int).last() == m);
            apply_match_highlight(&mut line_w, m.char_start, m.char_end, st);
            proof {
                if m.char_start < m.char_end {
                    lemma_highlight_keeps_text(before, m.char_start as int, m.char_end as int, st);
                    lemma_char_count_text(before);
                    lemma_char_count_text(spans_view(line_w.spans@));
                }
            }
            j = j - 1;
        }
        assert(hits@.take(0) =~= Seq::<MatchPos>::empty());
        line_w.spans
    }

    fn stage_gutter(&self, idx: usize, working: &mut Vec<StyledSpan>)
        requires
            idx < self.lines@.len(),
        ensures
            spans_view(final(working)@) == self.guttered(idx as int, spans_view(old(working)@)),
    {
        if !self.show_line_numbers {
            return;
        }
        let n = self.lines.len();
        let is_cursor = idx == self.cursor_line;
        let in_yank = match &self.yank {
            Some(y) => y.level < y.path.len() && y.path[y.level].0 <= idx && idx <= y.path[y.level].1,
            None => false,
        };
        let g0 = if is_cursor {
            Style::new().fg(Color::BrightYellow).bold()
        } else {
            Style::new().fg(Color::BrightBlack)
        };
        let g1 = if in_yank { g0.merge(styles_yank()) } else { g0 };
        let g2 = if is_cursor { g1.merge(styles_cursor()) } else { g1 };
        let gw = self.gutter_width();
        let pad_to = if gw >= 1 { gw - 1 } else { 0 };
        let mut text = right_aligned_text(idx + 1, pad_to);
        push_str(&mut text, " ");
        let ghost pre = working@;
        let ghost tv = text@;
        working.insert(0, StyledSpan { text, style: g2 });
        assert(spans_view(working@) =~= seq![(tv, g2)] + spans_view(pre));
    }

    fn stage_pad(&self, idx: usize, working: &mut Vec<StyledSpan>)
        ensures
            spans_view(final(working)@) == self.padded(idx as int, spans_view(old(working)@)),
    {
        let is_cursor = idx == self.cursor_line;
        let in_yank = match &self.yank {
            Some(y) => y.level < y.path.len() && y.path[y.level].0 <= idx && idx <= y.path[y.level].1,
            None => false,
        };
        if is_cursor || in_yank {
            let w = self.body_width as usize;
            let used = spans_width(working.as_slice());
            proof {
                lemma_width_views(working@);
            }
            if w > 0 && used < w {
                let pad_style = if is_cursor { styles_cursor() } else { styles_yank() };
                let pad = repeat(' ', w - used);
                let ghost pre = working@;
                let ghost pv = pad@;
                working.push(StyledSpan { text: pad, style: pad_style });
                assert(spans_view(working@) =~= spans_view(pre).push((pv, pad_style)));
            }
        }
    }

    /// Line `idx` as it is to be drawn.
    pub fn display_line_at(&self, idx: usize) -> (r: StyledLine)
        requires
            idx < self.lines@.len(),
            char_count(spans_view(self.lines@[idx as int].spans@)) <= usize::MAX,
        ensures
            spans_view(r.spans@) == self.display_line(idx as int),
    {
        let line = &self.lines[idx];
        let has_search = line_hits(&self.search_matches, idx).len() > 0;
        let has_link = match self.focused_link {
            Some(i) => i < self.links.len() && self.links[i].line == idx,
            None => false,
        };
        let is_cursor = idx == self.cursor_line;
        let in_yank = match &self.yank {
            Some(y) => y.level < y.path.len() && y.path[y.level].0 <= idx && idx <= y.path[y.level].1,
            None => false,
        };
        let mut working = copy_spans(&line.spans);
        if !has_search && !has_link && !is_cursor && !self.show_line_numbers && !in_yank {
            return StyledLine { spans: working };
        }
        self.stage_link(idx, &mut working);
        let mut working = self.stage_hits(idx, working);
        if in_yank {
            let n = working.len();
            overlay_spans(&mut working, 0, n, styles_yank());
        }
        if is_cursor {
            let n = working.len();
            overlay_spans(&mut working, 0, n, styles_cursor());
        }
        self.stage_gutter(idx, &mut working);
        self.stage_pad(idx, &mut working);
        StyledLine { spans: working }
    }

    /// Every line as it is to be drawn.
    pub fn display_lines(&self) -> (r: Vec<StyledLine>)
        requires
            forall|i: int| 0 <= i < self.lines@.len() ==> char_count(spans_view(#[trigger] self.lines@[i].spans@)) <= usize::MAX,
        ensures
            r@.len() == self.lines@.len(),
            forall|i: int| 0 <= i < r@.len() ==> spans_view((#[trigger] r@[i]).spans@) == self.display_line(i),
    {
        let mut r: Vec<StyledLine> = Vec::new();
        let mut i: usize = 0;
        while i < self.lines.len()
            invariant
                i <= self.lines@.len(),
                r@.len() == i,
                forall|k: int| 0 <= k < i ==> spans_view((#[trigger] r@[k]).spans@) == self.display_line(k),
                forall|k: int| 0 <= k < self.lines@.len() ==> char_count(spans_view(#[trigger] self.lines@[k].spans@)) <= usize::MAX,
            decreases self.lines@.len() - i,
        {
            let l = self.display_line_at(i);
            r.push(l);
            i = i + 1;
        }
        r
    }
}

} // verus!
