//! Incremental search: case-insensitive matches over the rendered lines,
//! and the highlight that marks a match inside a line's spans.

use vstd::prelude::*;

use crate::style::{merged, span_view, spans_view, Style, StyledLine, StyledSpan};
use crate::text::{push_char, push_str, str_chars, to_lowercase, unicode_lowercase};

verus! {

/// One search hit: a line and a half-open range of character offsets in
/// that line's lowercased plain text.
#[derive(Debug, Clone, Copy, PartialEq, Eq, Structural)]
pub struct MatchPos {
    pub line: usize,
    pub char_start: usize,
    pub char_end: usize,
}

/// The text of a line: its spans' texts joined.
pub open spec fn plain_text(spans: Seq<StyledSpan>) -> Seq<char>
    decreases spans.len(),
{
    if spans.len() == 0 {
        Seq::empty()
    } else {
        plain_text(spans.drop_last()) + spans.last().text@
    }
}

/// `needle` occurs in `hay` at `k`.
pub open spec fn occurs_at(hay: Seq<char>, needle: Seq<char>, k: int) -> bool {
    0 <= k && k + needle.len() <= hay.len() && hay.subrange(k, k + needle.len()) == needle
}

/// The leftmost occurrence of `needle` at or after `from`.
pub open spec fn find_from(hay: Seq<char>, needle: Seq<char>, from: int) -> Option<int>
    decreases hay.len() + 1 - from,
{
    if from < 0 || from + needle.len() > hay.len() {
        None
    } else if occurs_at(hay, needle, from) {
        Some(from)
    } else {
        find_from(hay, needle, from + 1)
    }
}

/// The non-overlapping occurrences of a non-empty `needle` in `hay` from
/// `from` on, leftmost first, as half-open ranges.
pub open spec fn occurrences(hay: Seq<char>, needle: Seq<char>, from: int) -> Seq<(int, int)>
    decreases hay.len() + 1 - from,
{
    if needle.len() == 0 || from < 0 || from > hay.len() {
        Seq::empty()
    } else {
        match find_from(hay, needle, from) {
            None => Seq::empty(),
            Some(k) => if from < k + needle.len() <= hay.len() {
                seq![(k, k + needle.len())] + occurrences(hay, needle, k + needle.len())
            } else {
                Seq::empty()
            },
        }
    }
}

proof fn lemma_find_from_bounds(hay: Seq<char>, needle: Seq<char>, from: int)
    ensures
        find_from(hay, needle, from) matches Some(k) ==> from <= k && occurs_at(hay, needle, k),
    decreases hay.len() + 1 - from,
{
    if !(from < 0 || from + needle.len() > hay.len()) && !occurs_at(hay, needle, from) {
        lemma_find_from_bounds(hay, needle, from + 1);
    }
}

/// The matches of `needle` in line number `line`, whose lowercased text is
/// `hay`.
pub open spec fn line_matches(line: int, hay: Seq<char>, needle: Seq<char>) -> Seq<MatchPos> {
    occurrences(hay, needle, 0).map_values(|r: (int, int)| MatchPos { line: line as usize, char_start: r.0 as usize, char_end: r.1 as usize })
}

/// The matches of `needle` over all of `lines`, in document order.
pub open spec fn all_matches(lines: Seq<StyledLine>, needle: Seq<char>) -> Seq<MatchPos>
    decreases lines.len(),
{
    if lines.len() == 0 {
        Seq::empty()
    } else {
        all_matches(lines.drop_last(), needle) + line_matches(
            lines.len() - 1,
            unicode_lowercase(plain_text(lines.last().spans@)),
            needle,
        )
    }
}

/// The matches of a search for `query`: case-insensitive (by Unicode
/// lowercase), non-overlapping, in document order. An empty query finds
/// nothing.
pub open spec fn search_matches(lines: Seq<StyledLine>, query: Seq<char>) -> Seq<MatchPos> {
    if query.len() == 0 {
        Seq::empty()
    } else {
        all_matches(lines, unicode_lowercase(query))
    }
}

/// The line's text, its spans joined.
pub fn line_text(line: &StyledLine) -> (s: String)
    ensures
        s@ == plain_text(line.spans@),
{
    let mut s = String::new();
    let mut i: usize = 0;
    while i < line.spans.len()
        invariant
            i <= line.spans@.len(),
            s@ == plain_text(line.spans@.take(i as int)),
        decreases line.spans@.len() - i,
    {
        assert(line.spans@.take(i as int + 1).drop_last() =~= line.spans@.take(i as int));
        push_str(&mut s, line.spans[i].text.as_str());
        i = i + 1;
    }
    assert(line.spans@.take(line.spans@.len() as int) =~= line.spans@);
    s
}

fn occurs_at_exec(hay: &Vec<char>, needle: &Vec<char>, k: usize) -> (r: bool)
    requires
        k + needle@.len() <= hay@.len(),
    ensures
        r == occurs_at(hay@, needle@, k as int),
{
    let hn = hay.len();
    let mut j: usize = 0;
    while j < needle.len()
        invariant
            k + needle@.len() <= hay@.len(),
            hn == hay@.len(),
            j <= needle@.len(),
            forall|m: int| 0 <= m < j ==> hay@[k + m] == needle@[m],
        decreases needle@.len() - j,
    {
        if hay[k + j] != needle[j] {
            assert(hay@.subrange(k as int, k + needle@.len())[j as int] != needle@[j as int]);
            return false;
        }
        j = j + 1;
    }
    assert(hay@.subrange(k as int, k + needle@.len()) =~= needle@);
    true
}

fn find_from_exec(hay: &Vec<char>, needle: &Vec<char>, from: usize) -> (r: Option<usize>)
    requires
        from <= hay@.len(),
        needle@.len() > 0,
    ensures
        r matches Some(k) ==> find_from(hay@, needle@, from as int) == Some(k as int),
        r is None ==> find_from(hay@, needle@, from as int) is None,
{
    if needle.len() > hay.len() {
        return None;
    }
    let hn = hay.len();
    let limit: usize = hay.len() - needle.len();
    let mut k: usize = from;
    while k <= limit
        invariant
            hn == hay@.len(),
            needle@.len() > 0,
            from <= k,
            limit == hay@.len() - needle@.len(),
            find_from(hay@, needle@, from as int) == find_from(hay@, needle@, k as int),
        decreases hay@.len() + 1 - k,
    {
        if occurs_at_exec(hay, needle, k) {
            return Some(k);
        }
        k = k + 1;
    }
    None
}

/// The matches of `needle` (non-empty) in one line's lowercased text.
fn matches_in_line(line: usize, hay: &Vec<char>, needle: &Vec<char>, out: &mut Vec<MatchPos>)
    requires
        needle@.len() > 0,
    ensures
        final(out)@ == old(out)@ + line_matches(line as int, hay@, needle@),
{
    let ghost start = out@;
    let ghost all = occurrences(hay@, needle@, 0);
    let mut from: usize = 0;
    let ghost mut done: Seq<(int, int)> = Seq::empty();
    while from <= hay.len()
        invariant
            needle@.len() > 0,
            from <= hay@.len() + 1,
            all == occurrences(hay@, needle@, 0),
            all == done + occurrences(hay@, needle@, from as int),
            out@ == start + done.map_values(|r: (int, int)| MatchPos { line: line as usize, char_start: r.0 as usize, char_end: r.1 as usize }),
            forall|m: int| 0 <= m < done.len() ==> 0 <= (#[trigger] done[m]).0 && done[m].1 <= hay@.len(),
        ensures
            all == done,
            out@ == start + done.map_values(|r: (int, int)| MatchPos { line: line as usize, char_start: r.0 as usize, char_end: r.1 as usize }),
        decreases hay@.len() + 1 - from,
    {
        match find_from_exec(hay, needle, from) {
            None => {
                assert(occurrences(hay@, needle@, from as int) =~= Seq::<(int, int)>::empty());
                assert(done + Seq::<(int, int)>::empty() =~= done);
                break;
            },
            Some(k) => {
                proof {
                    lemma_find_from_bounds(hay@, needle@, from as int);
                }
                let end: usize = k + needle.len();
                out.push(MatchPos { line, char_start: k, char_end: end });
                proof {
                    let piece = seq![(k as int, end as int)];
                    assert(occurrences(hay@, needle@, from as int) == piece + occurrences(hay@, needle@, end as int));
                    assert(done + (piece + occurrences(hay@, needle@, end as int)) =~= (done + piece) + occurrences(hay@, needle@, end as int));
                    done = done + piece;
                }
                assert(out@ =~= start + done.map_values(|r: (int, int)| MatchPos { line: line as usize, char_start: r.0 as usize, char_end: r.1 as usize }));
                from = end;
            },
        }
    }
}

/// Every match of `query` in `lines`: case-insensitive, non-overlapping,
/// leftmost first, in document order; offsets are characters of the line's
/// lowercased text.
pub fn find_matches(lines: &Vec<StyledLine>, query: &str) -> (r: Vec<MatchPos>)
    ensures
        r@ == search_matches(lines@, query@),
{
    let mut r: Vec<MatchPos> = Vec::new();
    let qv = str_chars(query);
    if qv.len() == 0 {
        return r;
    }
    let needle_s = to_lowercase(query);
    let needle = str_chars(needle_s.as_str());
    if needle.len() == 0 {
        proof {
            lemma_no_matches(lines@, needle@);
        }
        return r;
    }
    let mut i: usize = 0;
    while i < lines.len()
        invariant
            i <= lines@.len(),
            needle@ == unicode_lowercase(query@),
            needle@.len() > 0,
            r@ == all_matches(lines@.take(i as int), needle@),
        decreases lines@.len() - i,
    {
        assert(lines@.take(i as int + 1).drop_last() =~= lines@.take(i as int));
        let plain = line_text(&lines[i]);
        let lower = to_lowercase(plain.as_str());
        let hay = str_chars(lower.as_str());
        matches_in_line(i, &hay, &needle, &mut r);
        i = i + 1;
    }
    assert(lines@.take(lines@.len() as int) =~= lines@);
    r
}

proof fn lemma_no_matches(lines: Seq<StyledLine>, needle: Seq<char>)
    requires
        needle.len() == 0,
    ensures
        all_matches(lines, needle) == Seq::<MatchPos>::empty(),
    decreases lines.len(),
{
    if lines.len() > 0 {
        lemma_no_matches(lines.drop_last(), needle);
        let hay = unicode_lowercase(plain_text(lines.last().spans@));
        assert(occurrences(hay, needle, 0) =~= Seq::<(int, int)>::empty());
        assert(line_matches(lines.len() - 1, hay, needle) =~= Seq::<MatchPos>::empty());
        assert(all_matches(lines, needle) =~= Seq::<MatchPos>::empty());
    }
}

/// What one span becomes when the character range `[start, end)` of its
/// line, which holds the span from offset `cur`, is highlighted: the part
/// before the range, the part inside it (restyled), the part after it,
/// each only when not empty.
pub open spec fn highlight_piece(text: Seq<char>, sty: Style, cur: int, start: int, end: int, over: Style) -> Seq<(Seq<char>, Style)> {
    let n = text.len() as int;
    if cur + n <= start || cur >= end {
        seq![(text, sty)]
    } else {
        let b = if start - cur < 0 { 0 } else { start - cur };
        let e = if end - cur > n { n } else { end - cur };
        let before = text.take(b);
        let middle = text.subrange(b, e);
        let after = text.skip(e);
        (if before.len() > 0 { seq![(before, sty)] } else { Seq::empty() })
            + (if middle.len() > 0 { seq![(middle, merged(sty, over))] } else { Seq::empty() })
            + (if after.len() > 0 { seq![(after, sty)] } else { Seq::empty() })
    }
}

/// How many characters the spans hold.
pub open spec fn char_count(v: Seq<(Seq<char>, Style)>) -> int
    decreases v.len(),
{
    if v.len() == 0 {
        0
    } else {
        char_count(v.drop_last()) + v.last().0.len()
    }
}

/// The style of each character of the spans, in order.
pub open spec fn char_styles(v: Seq<(Seq<char>, Style)>) -> Seq<Style>
    decreases v.len(),
{
    if v.len() == 0 {
        Seq::empty()
    } else {
        char_styles(v.drop_last()) + Seq::new(v.last().0.len(), |q: int| v.last().1)
    }
}

proof fn lemma_char_styles_len(v: Seq<(Seq<char>, Style)>)
    ensures
        char_styles(v).len() == char_count(v),
    decreases v.len(),
{
    if v.len() > 0 {
        lemma_char_styles_len(v.drop_last());
    }
}

proof fn lemma_char_styles_concat(a: Seq<(Seq<char>, Style)>, b: Seq<(Seq<char>, Style)>)
    ensures
        char_styles(a + b) == char_styles(a) + char_styles(b),
    decreases b.len(),
{
    if b.len() == 0 {
        assert(a + b =~= a);
        assert(char_styles(b) =~= Seq::<Style>::empty());
        assert(char_styles(a) + char_styles(b) =~= char_styles(a));
    } else {
        assert((a + b).drop_last() =~= a + b.drop_last());
        lemma_char_styles_concat(a, b.drop_last());
        assert(char_styles(a + b) =~= char_styles(a) + char_styles(b));
    }
}

proof fn lemma_char_styles_one(t: Seq<char>, sty: Style)
    ensures
        char_styles(seq![(t, sty)]) =~= Seq::new(t.len(), |q: int| sty),
{
    let one = seq![(t, sty)];
    assert(one.drop_last() =~= Seq::<(Seq<char>, Style)>::empty());
    assert(char_styles(Seq::<(Seq<char>, Style)>::empty()) =~= Seq::<Style>::empty());
    assert(one.last() == (t, sty));
    assert(char_styles(one) == char_styles(one.drop_last()) + Seq::new(t.len(), |q: int| sty));
    assert(Seq::<Style>::empty() + Seq::new(t.len(), |q: int| sty) =~= Seq::new(t.len(), |q: int| sty));
}

proof fn lemma_optional_piece(t: Seq<char>, sty: Style)
    ensures
        char_styles(if t.len() > 0 { seq![(t, sty)] } else { Seq::empty() }) =~= Seq::new(t.len(), |q: int| sty),
{
    lemma_char_styles_one(t, sty);
}

proof fn lemma_piece_styles(text: Seq<char>, sty: Style, cur: int, start: int, end: int, over: Style)
    requires
        start < end,
    ensures
        char_styles(highlight_piece(text, sty, cur, start, end, over)) =~= Seq::new(
            text.len(),
            |q: int| if start <= cur + q < end { merged(sty, over) } else { sty },
        ),
{
    let n = text.len() as int;
    if cur + n <= start || cur >= end {
        lemma_char_styles_one(text, sty);
    } else {
        let b = if start - cur < 0 { 0 } else { start - cur };
        let e = if end - cur > n { n } else { end - cur };
        let before = text.take(b);
        let middle = text.subrange(b, e);
        let after = text.skip(e);
        let p1: Seq<(Seq<char>, Style)> = if before.len() > 0 { seq![(before, sty)] } else { Seq::empty() };
        let p2: Seq<(Seq<char>, Style)> = if middle.len() > 0 { seq![(middle, merged(sty, over))] } else { Seq::empty() };
        let p3: Seq<(Seq<char>, Style)> = if after.len() > 0 { seq![(after, sty)] } else { Seq::empty() };
        lemma_optional_piece(before, sty);
        lemma_optional_piece(middle, merged(sty, over));
        lemma_optional_piece(after, sty);
        lemma_char_styles_concat(p1, p2);
        lemma_char_styles_concat(p1 + p2, p3);
        assert(highlight_piece(text, sty, cur, start, end, over) == p1 + p2 + p3);
    }
}

/// Highlighting `[start, end)` lays `over` onto exactly the characters in
/// that range and leaves every other character's style alone.
pub proof fn lemma_highlighted_styles(v: Seq<(Seq<char>, Style)>, start: int, end: int, over: Style)
    requires
        start < end,
    ensures
        char_styles(highlighted(v, start, end, over)) =~= Seq::new(
            char_styles(v).len(),
            |p: int| if start <= p < end { merged(char_styles(v)[p], over) } else { char_styles(v)[p] },
        ),
    decreases v.len(),
{
    if v.len() > 0 {
        let pre = v.drop_last();
        let t = v.last().0;
        let sty = v.last().1;
        let cur = char_count(pre);
        lemma_highlighted_styles(pre, start, end, over);
        lemma_char_styles_len(pre);
        lemma_piece_styles(t, sty, cur, start, end, over);
        lemma_char_styles_concat(highlighted(pre, start, end, over), highlight_piece(t, sty, cur, start, end, over));
    }
}

/// The spans, with `[start, end)` highlighted.
pub open spec fn highlighted(v: Seq<(Seq<char>, Style)>, start: int, end: int, over: Style) -> Seq<(Seq<char>, Style)>
    decreases v.len(),
{
    if v.len() == 0 {
        Seq::empty()
    } else {
        highlighted(v.drop_last(), start, end, over) + highlight_piece(
            v.last().0,
            v.last().1,
            char_count(v.drop_last()),
            start,
            end,
            over,
        )
    }
}

fn chars_string(v: &Vec<char>, from: usize, to: usize) -> (s: String)
    requires
        from <= to <= v@.len(),
    ensures
        s@ == v@.subrange(from as int, to as int),
{
    let mut s = String::new();
    let mut i: usize = from;
    while i < to
        invariant
            from <= i <= to,
            to <= v@.len(),
            s@ == v@.subrange(from as int, i as int),
        decreases to - i,
    {
        push_char(&mut s, v[i]);
        i = i + 1;
        assert(s@ =~= v@.subrange(from as int, i as int));
    }
    s
}

/// Split the spans that meet the character range `[start, end)` and merge
/// `style` onto the part inside it. An empty range changes nothing.
pub fn apply_match_highlight(line: &mut StyledLine, start: usize, end: usize, style: Style)
    requires
        char_count(spans_view(old(line).spans@)) <= usize::MAX,
    ensures
        start >= end ==> spans_view(final(line).spans@) == spans_view(old(line).spans@),
        start < end ==> spans_view(final(line).spans@) == highlighted(spans_view(old(line).spans@), start as int, end as int, style),
{
    if start >= end {
        return;
    }
    let ghost orig = spans_view(line.spans@);
    let mut out: Vec<StyledSpan> = Vec::new();
    let mut cur: usize = 0;
    let mut i: usize = 0;
    while i < line.spans.len()
        invariant
            orig == spans_view(line.spans@),
            orig.len() == line.spans@.len(),
            char_count(orig) <= usize::MAX,
            start < end,
            i <= orig.len(),
            cur as int == char_count(orig.take(i as int)),
            spans_view(out@) == highlighted(orig.take(i as int), start as int, end as int, style),
        decreases orig.len() - i,
    {
        let span = &line.spans[i];
        let chars = str_chars(span.text.as_str());
        let n = chars.len();
        let ghost pre = out@;
        assert(orig[i as int] == span_view(*span));
        assert(orig.take(i as int + 1).drop_last() =~= orig.take(i as int));
        assert(orig.take(i as int + 1).last() == span_view(*span));
        proof {
            lemma_char_count_prefix(orig, i as int + 1);
        }
        let span_end: usize = cur + n;
        if span_end <= start || cur >= end {
            out.push(span.copy());
            assert(spans_view(out@) =~= spans_view(pre) + seq![span_view(*span)]);
        } else {
            let b: usize = if start < cur { 0 } else { start - cur };
            let e: usize = if end - cur > n { n } else { end - cur };
            if b > 0 {
                out.push(StyledSpan { text: chars_string(&chars, 0, b), style: span.style });
            }
            if e > b {
                out.push(StyledSpan { text: chars_string(&chars, b, e), style: span.style.merge(style) });
            }
            if n > e {
                out.push(StyledSpan { text: chars_string(&chars, e, n), style: span.style });
            }
            proof {
                let t = span.text@;
                assert(t.take(b as int) =~= t.subrange(0, b as int));
                assert(t.skip(e as int) =~= t.subrange(e as int, n as int));
                assert(spans_view(out@) =~= spans_view(pre) + highlight_piece(t, span.style, cur as int, start as int, end as int, style));
            }
        }
        cur = span_end;
        i = i + 1;
    }
    assert(orig.take(orig.len() as int) =~= orig);
    line.spans = out;
}

proof fn lemma_char_count_prefix(spans: Seq<(Seq<char>, Style)>, k: int)
    requires
        0 <= k <= spans.len(),
    ensures
        char_count(spans.take(k)) <= char_count(spans),
    decreases spans.len() - k,
{
    if k < spans.len() {
        lemma_char_count_prefix(spans, k + 1);
        assert(spans.take(k + 1).drop_last() =~= spans.take(k));
    } else {
        assert(spans.take(k) =~= spans);
    }
}

/// The text of span views, joined.
pub open spec fn view_text(v: Seq<(Seq<char>, Style)>) -> Seq<char>
    decreases v.len(),
{
    if v.len() == 0 {
        Seq::empty()
    } else {
        view_text(v.drop_last()) + v.last().0
    }
}

/// The text of joined spans is their texts joined.
pub proof fn lemma_view_text_concat(a: Seq<(Seq<char>, Style)>, b: Seq<(Seq<char>, Style)>)
    ensures
        view_text(a + b) == view_text(a) + view_text(b),
    decreases b.len(),
{
    if b.len() == 0 {
        assert(a + b =~= a);
        assert(view_text(a) + Seq::<char>::empty() =~= view_text(a));
    } else {
        assert((a + b).drop_last() =~= a + b.drop_last());
        lemma_view_text_concat(a, b.drop_last());
        assert(view_text(a) + view_text(b.drop_last()) + b.last().0 =~= view_text(a) + (view_text(b.drop_last()) + b.last().0));
    }
}

pub proof fn lemma_view_text_small(x: (Seq<char>, Style))
    ensures
        view_text(seq![x]) == x.0,
        view_text(Seq::<(Seq<char>, Style)>::empty()) == Seq::<char>::empty(),
{
    let one = seq![x];
    assert(one.drop_last() =~= Seq::<(Seq<char>, Style)>::empty());
    assert(one.last() == x);
    assert(view_text(one.drop_last()) == Seq::<char>::empty());
    assert(view_text(one) == view_text(one.drop_last()) + one.last().0);
    assert(Seq::<char>::empty() + x.0 =~= x.0);
}

proof fn lemma_piece_text(text: Seq<char>, sty: Style, cur: int, start: int, end: int, over: Style)
    requires
        start < end,
    ensures
        view_text(highlight_piece(text, sty, cur, start, end, over)) == text,
{
    let n = text.len() as int;
    lemma_view_text_small((text, sty));
    if cur + n <= start || cur >= end {
    } else {
        let b = if start - cur < 0 { 0 } else { start - cur };
        let e = if end - cur > n { n } else { end - cur };
        let before = text.take(b);
        let middle = text.subrange(b, e);
        let after = text.skip(e);
        let p1: Seq<(Seq<char>, Style)> = if before.len() > 0 { seq![(before, sty)] } else { Seq::empty() };
        let p2: Seq<(Seq<char>, Style)> = if middle.len() > 0 { seq![(middle, merged(sty, over))] } else { Seq::empty() };
        let p3: Seq<(Seq<char>, Style)> = if after.len() > 0 { seq![(after, sty)] } else { Seq::empty() };
        lemma_view_text_concat(p1, p2);
        lemma_view_text_concat(p1 + p2, p3);
        lemma_view_text_small((before, sty));
        lemma_view_text_small((middle, merged(sty, over)));
        lemma_view_text_small((after, sty));
        assert(view_text(p1) =~= before);
        assert(view_text(p2) =~= middle);
        assert(view_text(p3) =~= after);
        assert(before + middle + after =~= text);
    }
}

/// Highlighting a range never changes a line's text, only its styles.
pub proof fn lemma_highlight_keeps_text(v: Seq<(Seq<char>, Style)>, start: int, end: int, over: Style)
    requires
        start < end,
    ensures
        view_text(highlighted(v, start, end, over)) == view_text(v),
    decreases v.len(),
{
    if v.len() > 0 {
        lemma_highlight_keeps_text(v.drop_last(), start, end, over);
        let piece = highlight_piece(v.last().0, v.last().1, char_count(v.drop_last()), start, end, over);
        lemma_view_text_concat(highlighted(v.drop_last(), start, end, over), piece);
        lemma_piece_text(v.last().0, v.last().1, char_count(v.drop_last()), start, end, over);
    }
}

} // verus!
