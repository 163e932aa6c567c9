//! Yank-mode selection: the ladder of line ranges that `y` climbs and `Y`
//! descends, from the cursor line up to the whole document.

use vstd::prelude::*;

use crate::anchor::Anchor;
use crate::render::{BlockKind, BlockRange};

verus! {

/// `r` covers `last` and more.
pub open spec fn strict_superset(r: (usize, usize), last: (usize, usize)) -> bool {
    r.0 <= last.0 && r.1 >= last.1 && (r.0 < last.0 || r.1 > last.1)
}

/// `path` with `r` appended when it is a strict superset of the last entry
/// (or the path is empty).
pub open spec fn pushed(path: Seq<(usize, usize)>, r: (usize, usize)) -> Seq<(usize, usize)> {
    if path.len() == 0 || strict_superset(r, path.last()) {
        path.push(r)
    } else {
        path
    }
}

/// `pushed` over each of `rs` in order.
pub open spec fn pushed_all(path: Seq<(usize, usize)>, rs: Seq<(usize, usize)>) -> Seq<(usize, usize)>
    decreases rs.len(),
{
    if rs.len() == 0 {
        path
    } else {
        pushed(pushed_all(path, rs.drop_last()), rs.last())
    }
}

/// Every entry strictly contains the one before it.
pub open spec fn is_chain(path: Seq<(usize, usize)>) -> bool {
    forall|i: int| 0 < i < path.len() ==> strict_superset(#[trigger] path[i], path[i - 1])
}

/// Append `range` to `path` only when it is a strict superset of the last
/// entry, keeping the path deduplicated and monotonically expanding.
pub fn push_strict_superset(path: &mut Vec<(usize, usize)>, range: (usize, usize))
    ensures
        final(path)@ == pushed(old(path)@, range),
{
    let n = path.len();
    if n > 0 {
        let last = path[n - 1];
        if range.0 <= last.0 && range.1 >= last.1 && (range.0 < last.0 || range.1 > last.1) {
            path.push(range);
        }
    } else {
        path.push(range);
    }
}

/// Appending keeps a chain a chain and leaves its first entry alone.
pub proof fn lemma_pushed_chain(path: Seq<(usize, usize)>, r: (usize, usize))
    requires
        is_chain(path),
    ensures
        is_chain(pushed(path, r)),
        path.len() > 0 ==> pushed(path, r)[0] == path[0],
        pushed(path, r).len() >= 1,
{
    let p = pushed(path, r);
    assert forall|i: int| 0 < i < p.len() implies strict_superset(#[trigger] p[i], p[i - 1]) by {
        if i < path.len() {
            assert(p[i] == path[i] && p[i - 1] == path[i - 1]);
        }
    }
}

pub proof fn lemma_pushed_all_chain(path: Seq<(usize, usize)>, rs: Seq<(usize, usize)>)
    requires
        is_chain(path),
        path.len() > 0,
    ensures
        is_chain(pushed_all(path, rs)),
        pushed_all(path, rs).len() > 0,
        pushed_all(path, rs)[0] == path[0],
    decreases rs.len(),
{
    if rs.len() > 0 {
        lemma_pushed_all_chain(path, rs.drop_last());
        lemma_pushed_chain(pushed_all(path, rs.drop_last()), rs.last());
    }
}

pub open spec fn within(r: (usize, usize), last: usize) -> bool {
    r.0 <= r.1 <= last
}

pub open spec fn all_within(path: Seq<(usize, usize)>, last: usize) -> bool {
    forall|i: int| 0 <= i < path.len() ==> within(#[trigger] path[i], last)
}

pub proof fn lemma_pushed_all_within(path: Seq<(usize, usize)>, rs: Seq<(usize, usize)>, last: usize)
    requires
        all_within(path, last),
        all_within(rs, last),
    ensures
        all_within(pushed_all(path, rs), last),
    decreases rs.len(),
{
    if rs.len() > 0 {
        assert forall|i: int| 0 <= i < rs.drop_last().len() implies within(#[trigger] rs.drop_last()[i], last) by {
            assert(rs.drop_last()[i] == rs[i]);
        }
        lemma_pushed_all_within(path, rs.drop_last(), last);
        assert(within(rs[rs.len() - 1], last));
    }
}

/// The blocks of `kind` that contain line `c`, in document order.
pub open spec fn enclosing(blocks: Seq<BlockRange>, kind: BlockKind, c: usize) -> Seq<BlockRange>
    decreases blocks.len(),
{
    if blocks.len() == 0 {
        Seq::empty()
    } else {
        let prev = enclosing(blocks.drop_last(), kind, c);
        let b = blocks.last();
        if b.kind == kind && b.start <= c && c <= b.end {
            prev.push(b)
        } else {
            prev
        }
    }
}

pub open spec fn span_of(b: BlockRange) -> int {
    b.end - b.start
}

/// `x` placed into `s` after every entry no longer than it.
pub open spec fn insert_by_span(s: Seq<BlockRange>, x: BlockRange) -> Seq<BlockRange>
    decreases s.len(),
{
    if s.len() == 0 {
        seq![x]
    } else if span_of(s.last()) <= span_of(x) {
        s.push(x)
    } else {
        insert_by_span(s.drop_last(), x).push(s.last())
    }
}

/// `s` stably ordered from the shortest range to the longest.
pub open spec fn by_span(s: Seq<BlockRange>) -> Seq<BlockRange>
    decreases s.len(),
{
    if s.len() == 0 {
        Seq::empty()
    } else {
        insert_by_span(by_span(s.drop_last()), s.last())
    }
}

pub open spec fn ranges_of(s: Seq<BlockRange>) -> Seq<(usize, usize)> {
    s.map_values(|b: BlockRange| (b.start, b.end))
}

/// The innermost section of each heading level (1 to 6) that is open at
/// the cursor: slot `n` holds the line of the last level-`n` heading at or
/// above the cursor with no shallower heading after it.
pub open spec fn open_sections(anchors: Seq<Anchor>) -> Seq<Option<usize>>
    decreases anchors.len(),
{
    if anchors.len() == 0 {
        Seq::new(7, |_i: int| None)
    } else {
        let prev = open_sections(anchors.drop_last());
        let a = anchors.last();
        let lvl: int = if a.level < 1 {
            1
        } else if a.level > 6 {
            6
        } else {
            a.level as int
        };
        Seq::new(7, |i: int| if i < lvl { prev[i] } else if i == lvl { Some(a.line) } else { None })
    }
}

/// How many leading anchors start at or above line `c`.
pub open spec fn anchors_before(anchors: Seq<Anchor>, c: usize) -> int
    decreases anchors.len(),
{
    if anchors.len() == 0 {
        0
    } else if anchors[0].line > c {
        0
    } else {
        1 + anchors_before(anchors.drop_first(), c)
    }
}

/// The index of the first anchor after line `start` whose level is at most
/// `n`.
pub open spec fn next_section(anchors: Seq<Anchor>, start: usize, n: int) -> Option<int>
    decreases anchors.len(),
{
    if anchors.len() == 0 {
        None
    } else if anchors[0].line > start && anchors[0].level as int <= n {
        Some(0)
    } else {
        match next_section(anchors.drop_first(), start, n) {
            Some(j) => Some(j + 1),
            None => None,
        }
    }
}

/// The last line of the level-`n` section that starts at `start`.
pub open spec fn section_end(anchors: Seq<Anchor>, start: usize, n: int, last: usize) -> usize {
    match next_section(anchors, start, n) {
        Some(j) => if anchors[j].line >= 1 {
            (anchors[j].line - 1) as usize
        } else {
            0
        },
        None => last,
    }
}

/// The open sections from level `n` down to level 1, as line ranges.
pub open spec fn section_ranges(anchors: Seq<Anchor>, open: Seq<Option<usize>>, last: usize, n: int) -> Seq<(usize, usize)>
    decreases n,
{
    if n <= 0 {
        Seq::empty()
    } else {
        let here = match open[n] {
            Some(start) => seq![(start, section_end(anchors, start, n, last))],
            None => Seq::empty(),
        };
        here + section_ranges(anchors, open, last, n - 1)
    }
}

/// The yank ladder for cursor line `cursor` in a document whose last line
/// is `last`: the cursor line, then each enclosing leaf block and each
/// enclosing container from innermost out, then each open heading section
/// from h6 to h1, then the whole document, keeping only strict growth.
pub open spec fn yank_path(cursor: usize, last: usize, blocks: Seq<BlockRange>, anchors: Seq<Anchor>) -> Seq<(usize, usize)> {
    let c = if cursor < last { cursor } else { last };
    let p1 = seq![(c, c)];
    let p2 = pushed_all(p1, ranges_of(by_span(enclosing(blocks, BlockKind::Leaf, c))));
    let p3 = pushed_all(p2, ranges_of(by_span(enclosing(blocks, BlockKind::Container, c))));
    let open = open_sections(anchors.take(anchors_before(anchors, c)));
    let p4 = pushed_all(p3, section_ranges(anchors, open, last, 6));
    pushed(p4, (0, last))
}

/// Pushing a concatenation is pushing one part, then the other.
pub proof fn lemma_pushed_all_concat(path: Seq<(usize, usize)>, a: Seq<(usize, usize)>, b: Seq<(usize, usize)>)
    ensures
        pushed_all(path, a + b) == pushed_all(pushed_all(path, a), b),
    decreases b.len(),
{
    if b.len() == 0 {
        assert(a + b =~= a);
    } else {
        assert((a + b).drop_last() =~= a + b.drop_last());
        lemma_pushed_all_concat(path, a, b.drop_last());
    }
}

proof fn lemma_pushed_all_one(path: Seq<(usize, usize)>, r: (usize, usize))
    ensures
        pushed_all(path, seq![r]) == pushed(path, r),
{
    assert(seq![r].drop_last() =~= Seq::<(usize, usize)>::empty());
    assert(pushed_all(path, seq![r].drop_last()) == path);
    assert(seq![r].last() == r);
}

fn enclosing_blocks(blocks: &Vec<BlockRange>, kind: BlockKind, c: usize) -> (r: Vec<BlockRange>)
    ensures
        r@ == enclosing(blocks@, kind, c),
{
    let mut r: Vec<BlockRange> = Vec::new();
    let mut i: usize = 0;
    while i < blocks.len()
        invariant
            i <= blocks@.len(),
            r@ == enclosing(blocks@.take(i as int), kind, c),
        decreases blocks@.len() - i,
    {
        let b = blocks[i];
        assert(blocks@.take(i as int + 1).drop_last() =~= blocks@.take(i as int));
        if b.kind == kind && b.start <= c && c <= b.end {
            r.push(b);
        }
        i = i + 1;
    }
    assert(blocks@.take(blocks@.len() as int) =~= blocks@);
    r
}

/// `a` spans more lines than `b`.
fn longer(a: &BlockRange, b: &BlockRange) -> (r: bool)
    ensures
        r == (span_of(*a) > span_of(*b)),
{
    (a.end as u128) + (b.start as u128) > (b.end as u128) + (a.start as u128)
}

fn insert_sorted(r: &mut Vec<BlockRange>, x: BlockRange)
    ensures
        final(r)@ == insert_by_span(old(r)@, x),
{
    let ghost s = r@;
    let mut j: usize = r.len();
    assert(s.take(j as int) =~= s);
    assert(s.skip(j as int) =~= Seq::<BlockRange>::empty());
    assert(insert_by_span(s, x) =~= insert_by_span(s.take(j as int), x) + s.skip(j as int));
    while j > 0 && longer(&r[j - 1], &x)
        invariant
            r@ == s,
            j <= s.len(),
            insert_by_span(s, x) == insert_by_span(s.take(j as int), x) + s.skip(j as int),
        decreases j,
    {
        let ghost t = s.take(j as int);
        assert(t.drop_last() =~= s.take(j as int - 1));
        assert(t.last() == s[j as int - 1]);
        assert(insert_by_span(t, x) == insert_by_span(s.take(j as int - 1), x).push(s[j as int - 1]));
        assert(seq![s[j as int - 1]] + s.skip(j as int) =~= s.skip(j as int - 1));
        assert(insert_by_span(s.take(j as int - 1), x).push(s[j as int - 1]) + s.skip(j as int)
            =~= insert_by_span(s.take(j as int - 1), x) + s.skip(j as int - 1));
        j = j - 1;
    }
    assert(insert_by_span(s.take(j as int), x) == s.take(j as int).push(x));
    r.insert(j, x);
    assert(r@ =~= s.take(j as int).push(x) + s.skip(j as int));
}

fn sort_by_span(v: &Vec<BlockRange>) -> (r: Vec<BlockRange>)
    ensures
        r@ == by_span(v@),
{
    let mut r: Vec<BlockRange> = Vec::new();
    let mut i: usize = 0;
    while i < v.len()
        invariant
            i <= v@.len(),
            r@ == by_span(v@.take(i as int)),
        decreases v@.len() - i,
    {
        assert(v@.take(i as int + 1).drop_last() =~= v@.take(i as int));
        insert_sorted(&mut r, v[i]);
        i = i + 1;
    }
    assert(v@.take(v@.len() as int) =~= v@);
    r
}

fn push_ranges(path: &mut Vec<(usize, usize)>, rs: &Vec<BlockRange>)
    ensures
        final(path)@ == pushed_all(old(path)@, ranges_of(rs@)),
{
    let ghost start = path@;
    let ghost all = ranges_of(rs@);
    let mut i: usize = 0;
    while i < rs.len()
        invariant
            all == ranges_of(rs@),
            i <= rs@.len(),
            path@ == pushed_all(start, all.take(i as int)),
        decreases rs@.len() - i,
    {
        assert(all.take(i as int + 1).drop_last() =~= all.take(i as int));
        assert(all.take(i as int + 1).last() == (rs@[i as int].start, rs@[i as int].end));
        push_strict_superset(path, (rs[i].start, rs[i].end));
        i = i + 1;
    }
    assert(all.take(rs@.len() as int) =~= all);
}

proof fn lemma_anchors_before(s: Seq<Anchor>, c: usize, i: int)
    requires
        0 <= i <= s.len(),
        forall|j: int| 0 <= j < i ==> (#[trigger] s[j]).line <= c,
    ensures
        anchors_before(s, c) >= i,
        (i == s.len() || s[i].line > c) ==> anchors_before(s, c) == i,
        anchors_before(s, c) <= s.len(),
    decreases i,
{
    if i > 0 {
        assert forall|j: int| 0 <= j < i - 1 implies (#[trigger] s.drop_first()[j]).line <= c by {
            assert(s.drop_first()[j] == s[j + 1]);
        }
        lemma_anchors_before(s.drop_first(), c, i - 1);
        if i < s.len() {
            assert(s.drop_first()[i - 1] == s[i]);
        }
    } else {
        lemma_anchors_before_le(s, c);
    }
}

proof fn lemma_anchors_before_le(s: Seq<Anchor>, c: usize)
    ensures
        0 <= anchors_before(s, c) <= s.len(),
    decreases s.len(),
{
    if s.len() > 0 {
        lemma_anchors_before_le(s.drop_first(), c);
    }
}

fn open_sections_at(anchors: &Vec<Anchor>, c: usize) -> (r: Vec<Option<usize>>)
    ensures
        r@ == open_sections(anchors@.take(anchors_before(anchors@, c))),
{
    let mut slots: Vec<Option<usize>> = vec![None, None, None, None, None, None, None];
    assert(slots@ =~= open_sections(anchors@.take(0)));
    let mut i: usize = 0;
    while i < anchors.len() && anchors[i].line <= c
        invariant
            i <= anchors@.len(),
            forall|j: int| 0 <= j < i ==> (#[trigger] anchors@[j]).line <= c,
            slots@ == open_sections(anchors@.take(i as int)),
            slots@.len() == 7,
        decreases anchors@.len() - i,
    {
        let a = &anchors[i];
        let lvl: usize = if a.level < 1 {
            1
        } else if a.level > 6 {
            6
        } else {
            a.level as usize
        };
        let ghost prev = slots@;
        let mut k: usize = lvl + 1;
        while k < 7
            invariant
                1 <= lvl <= 6,
                lvl + 1 <= k <= 7,
                slots@.len() == 7,
                forall|m: int| 0 <= m < 7 ==> #[trigger] slots@[m] == if lvl < m < k { None } else { prev[m] },
            decreases 7 - k,
        {
            slots.set(k, None);
            k = k + 1;
        }
        slots.set(lvl, Some(a.line));
        assert(anchors@.take(i as int + 1).drop_last() =~= anchors@.take(i as int));
        assert(anchors@.take(i as int + 1).last() == *a);
        assert(slots@ =~= open_sections(anchors@.take(i as int + 1)));
        i = i + 1;
    }
    proof {
        lemma_anchors_before(anchors@, c, i as int);
    }
    slots
}

proof fn lemma_next_section_found(s: Seq<Anchor>, start: usize, n: int, j: int)
    requires
        0 <= j < s.len(),
        s[j].line > start && s[j].level as int <= n,
        forall|k: int| 0 <= k < j ==> !((#[trigger] s[k]).line > start && s[k].level as int <= n),
    ensures
        next_section(s, start, n) == Some(j),
    decreases j,
{
    if j > 0 {
        assert forall|k: int| 0 <= k < j - 1 implies !((#[trigger] s.drop_first()[k]).line > start && s.drop_first()[k].level as int <= n) by {
            assert(s.drop_first()[k] == s[k + 1]);
        }
        assert(s.drop_first()[j - 1] == s[j]);
        lemma_next_section_found(s.drop_first(), start, n, j - 1);
        assert(!(s[0].line > start && s[0].level as int <= n));
    }
}

proof fn lemma_next_section_none(s: Seq<Anchor>, start: usize, n: int)
    requires
        forall|k: int| 0 <= k < s.len() ==> !((#[trigger] s[k]).line > start && s[k].level as int <= n),
    ensures
        next_section(s, start, n) is None,
    decreases s.len(),
{
    if s.len() > 0 {
        assert forall|k: int| 0 <= k < s.len() - 1 implies !((#[trigger] s.drop_first()[k]).line > start && s.drop_first()[k].level as int <= n) by {
            assert(s.drop_first()[k] == s[k + 1]);
        }
        lemma_next_section_none(s.drop_first(), start, n);
        assert(!(s[0].line > start && s[0].level as int <= n));
    }
}

fn section_end_of(anchors: &Vec<Anchor>, start: usize, n: usize, last: usize) -> (r: usize)
    ensures
        r == section_end(anchors@, start, n as int, last),
{
    let mut j: usize = 0;
    while j < anchors.len()
        invariant
            j <= anchors@.len(),
            forall|k: int| 0 <= k < j ==> !((#[trigger] anchors@[k]).line > start && anchors@[k].level as int <= n),
        decreases anchors@.len() - j,
    {
        let a = &anchors[j];
        if a.line > start && (a.level as usize) <= n {
            proof {
                lemma_next_section_found(anchors@, start, n as int, j as int);
            }
            return if a.line >= 1 { a.line - 1 } else { 0 };
        }
        j = j + 1;
    }
    proof {
        lemma_next_section_none(anchors@, start, n as int);
    }
    last
}

/// The candidate ranges for yank-mode expansion, from the single cursor
/// line to the whole document, each a strict superset of the one before.
pub fn build_yank_path(cursor: usize, last: usize, blocks: &Vec<BlockRange>, anchors: &Vec<Anchor>) -> (path: Vec<(usize, usize)>)
    ensures
        path@ == yank_path(cursor, last, blocks@, anchors@),
{
    let c = if cursor < last { cursor } else { last };
    let mut path: Vec<(usize, usize)> = Vec::new();
    path.push((c, c));
    assert(path@ =~= seq![(c, c)]);

    let leaves = enclosing_blocks(blocks, BlockKind::Leaf, c);
    let leaves = sort_by_span(&leaves);
    push_ranges(&mut path, &leaves);

    let containers = enclosing_blocks(blocks, BlockKind::Container, c);
    let containers = sort_by_span(&containers);
    push_ranges(&mut path, &containers);

    let open = open_sections_at(anchors, c);
    let ghost p3 = path@;
    let ghost all = section_ranges(anchors@, open@, last, 6);
    let mut n: usize = 6;
    assert(pushed_all(path@, section_ranges(anchors@, open@, last, n as int)) == pushed_all(p3, all));
    while n > 0
        invariant
            n <= 6,
            open@.len() == 7,
            pushed_all(path@, section_ranges(anchors@, open@, last, n as int)) == pushed_all(p3, all),
        decreases n,
    {
        let ghost rest = section_ranges(anchors@, open@, last, n as int - 1);
        let ghost pre = path@;
        match open[n] {
            Some(start) => {
                let end = section_end_of(anchors, start, n, last);
                proof {
                    lemma_pushed_all_concat(pre, seq![(start, end)], rest);
                    lemma_pushed_all_one(pre, (start, end));
                }
                push_strict_superset(&mut path, (start, end));
            },
            None => {
                assert(Seq::<(usize, usize)>::empty() + rest =~= rest);
            },
        }
        n = n - 1;
    }
    assert(section_ranges(anchors@, open@, last, 0) =~= Seq::<(usize, usize)>::empty());
    push_strict_superset(&mut path, (0, last));
    path
}

/// Live state of yank mode: the candidate ranges, smallest first, and which
/// one is selected.
#[derive(Debug, Clone)]
pub struct YankSelection {
    pub path: Vec<(usize, usize)>,
    pub level: usize,
}

impl YankSelection {
    /// The selected range.
    pub fn current(&self) -> (r: (usize, usize))
        requires
            self.level < self.path@.len(),
        ensures
            r == self.path@[self.level as int],
    {
        self.path[self.level]
    }
}

proof fn lemma_enclosing_within(blocks: Seq<BlockRange>, kind: BlockKind, c: usize, last: usize)
    requires
        forall|j: int| 0 <= j < blocks.len() ==> (#[trigger] blocks[j]).start <= blocks[j].end <= last,
    ensures
        forall|j: int| 0 <= j < enclosing(blocks, kind, c).len() ==> (#[trigger] enclosing(blocks, kind, c)[j]).start <= enclosing(blocks, kind, c)[j].end <= last,
    decreases blocks.len(),
{
    if blocks.len() > 0 {
        assert forall|j: int| 0 <= j < blocks.drop_last().len() implies (#[trigger] blocks.drop_last()[j]).start <= blocks.drop_last()[j].end <= last by {
            assert(blocks.drop_last()[j] == blocks[j]);
        }
        lemma_enclosing_within(blocks.drop_last(), kind, c, last);
        assert(blocks.last() == blocks[blocks.len() - 1]);
    }
}

proof fn lemma_insert_by_span_within(s: Seq<BlockRange>, x: BlockRange, last: usize)
    requires
        forall|j: int| 0 <= j < s.len() ==> (#[trigger] s[j]).start <= s[j].end <= last,
        x.start <= x.end <= last,
    ensures
        forall|j: int| 0 <= j < insert_by_span(s, x).len() ==> (#[trigger] insert_by_span(s, x)[j]).start <= insert_by_span(s, x)[j].end <= last,
    decreases s.len(),
{
    if s.len() > 0 && span_of(s.last()) > span_of(x) {
        assert forall|j: int| 0 <= j < s.drop_last().len() implies (#[trigger] s.drop_last()[j]).start <= s.drop_last()[j].end <= last by {
            assert(s.drop_last()[j] == s[j]);
        }
        lemma_insert_by_span_within(s.drop_last(), x, last);
        assert(s.last() == s[s.len() - 1]);
    }
}

proof fn lemma_by_span_within(s: Seq<BlockRange>, last: usize)
    requires
        forall|j: int| 0 <= j < s.len() ==> (#[trigger] s[j]).start <= s[j].end <= last,
    ensures
        forall|j: int| 0 <= j < by_span(s).len() ==> (#[trigger] by_span(s)[j]).start <= by_span(s)[j].end <= last,
        all_within(ranges_of(by_span(s)), last),
    decreases s.len(),
{
    if s.len() > 0 {
        assert forall|j: int| 0 <= j < s.drop_last().len() implies (#[trigger] s.drop_last()[j]).start <= s.drop_last()[j].end <= last by {
            assert(s.drop_last()[j] == s[j]);
        }
        lemma_by_span_within(s.drop_last(), last);
        assert(s.last() == s[s.len() - 1]);
        lemma_insert_by_span_within(by_span(s.drop_last()), s.last(), last);
    }
    assert forall|j: int| 0 <= j < ranges_of(by_span(s)).len() implies within(#[trigger] ranges_of(by_span(s))[j], last) by {
        assert(ranges_of(by_span(s))[j] == (by_span(s)[j].start, by_span(s)[j].end));
    }
}

proof fn lemma_open_sections_bounded(s: Seq<Anchor>, bound: usize)
    requires
        forall|j: int| 0 <= j < s.len() ==> (#[trigger] s[j]).line <= bound,
    ensures
        open_sections(s).len() == 7,
        forall|i: int| 0 <= i < 7 && (#[trigger] open_sections(s)[i]) is Some ==> open_sections(s)[i]->0 <= bound,
    decreases s.len(),
{
    if s.len() > 0 {
        assert forall|j: int| 0 <= j < s.drop_last().len() implies (#[trigger] s.drop_last()[j]).line <= bound by {
            assert(s.drop_last()[j] == s[j]);
        }
        lemma_open_sections_bounded(s.drop_last(), bound);
        assert(s.last() == s[s.len() - 1]);
    }
}

proof fn lemma_anchors_before_prefix(s: Seq<Anchor>, c: usize)
    ensures
        0 <= anchors_before(s, c) <= s.len(),
        forall|j: int| 0 <= j < anchors_before(s, c) ==> (#[trigger] s[j]).line <= c,
    decreases s.len(),
{
    if s.len() > 0 && s[0].line <= c {
        lemma_anchors_before_prefix(s.drop_first(), c);
        assert forall|j: int| 0 <= j < anchors_before(s, c) implies (#[trigger] s[j]).line <= c by {
            if j > 0 {
                assert(s[j] == s.drop_first()[j - 1]);
            }
        }
    }
}

proof fn lemma_section_end_bounds(anchors: Seq<Anchor>, start: usize, n: int, last: usize)
    requires
        start <= last,
        forall|j: int| 0 <= j < anchors.len() ==> (#[trigger] anchors[j]).line <= last,
    ensures
        start <= section_end(anchors, start, n, last) <= last,
{
    lemma_next_section_spec(anchors, start, n);
}

proof fn lemma_next_section_spec(s: Seq<Anchor>, start: usize, n: int)
    ensures
        next_section(s, start, n) matches Some(j) ==> 0 <= j < s.len() && s[j].line > start,
    decreases s.len(),
{
    if s.len() > 0 {
        lemma_next_section_spec(s.drop_first(), start, n);
        if let Some(j) = next_section(s.drop_first(), start, n) {
            assert(s.drop_first()[j] == s[j + 1]);
        }
    }
}

proof fn lemma_section_ranges_within(anchors: Seq<Anchor>, open: Seq<Option<usize>>, last: usize, n: int)
    requires
        open.len() == 7,
        n <= 6,
        forall|i: int| 0 <= i < 7 && (#[trigger] open[i]) is Some ==> open[i]->0 <= last,
        forall|j: int| 0 <= j < anchors.len() ==> (#[trigger] anchors[j]).line <= last,
    ensures
        all_within(section_ranges(anchors, open, last, n), last),
    decreases n,
{
    if n > 0 {
        lemma_section_ranges_within(anchors, open, last, n - 1);
        let rest = section_ranges(anchors, open, last, n - 1);
        let all = section_ranges(anchors, open, last, n);
        if let Some(start) = open[n] {
            lemma_section_end_bounds(anchors, start, n, last);
            assert forall|i: int| 0 <= i < all.len() implies within(#[trigger] all[i], last) by {
                if i > 0 {
                    assert(all[i] == rest[i - 1]);
                }
            }
        } else {
            assert(all =~= rest);
        }
    }
}

/// The yank ladder starts at the cursor line, ends at the whole document,
/// and each step strictly contains the one before, provided the blocks and
/// headings it is built from lie within the document.
pub proof fn lemma_yank_path_shape(cursor: usize, last: usize, blocks: Seq<BlockRange>, anchors: Seq<Anchor>)
    requires
        forall|j: int| 0 <= j < blocks.len() ==> (#[trigger] blocks[j]).start <= blocks[j].end <= last,
        forall|j: int| 0 <= j < anchors.len() ==> (#[trigger] anchors[j]).line <= last,
    ensures
        is_chain(yank_path(cursor, last, blocks, anchors)),
        yank_path(cursor, last, blocks, anchors)[0] == (if cursor < last { (cursor, cursor) } else { (last, last) }),
        yank_path(cursor, last, blocks, anchors).last() == (0usize, last),
        all_within(yank_path(cursor, last, blocks, anchors), last),
{
    let c = if cursor < last { cursor } else { last };
    let p1 = seq![(c, c)];
    let r2 = ranges_of(by_span(enclosing(blocks, BlockKind::Leaf, c)));
    let p2 = pushed_all(p1, r2);
    let r3 = ranges_of(by_span(enclosing(blocks, BlockKind::Container, c)));
    let p3 = pushed_all(p2, r3);
    let k = anchors_before(anchors, c);
    let open = open_sections(anchors.take(k));
    let r4 = section_ranges(anchors, open, last, 6);
    let p4 = pushed_all(p3, r4);
    assert(is_chain(p1));
    lemma_pushed_all_chain(p1, r2);
    lemma_pushed_all_chain(p2, r3);
    lemma_pushed_all_chain(p3, r4);
    lemma_pushed_chain(p4, (0, last));

    lemma_enclosing_within(blocks, BlockKind::Leaf, c, last);
    lemma_by_span_within(enclosing(blocks, BlockKind::Leaf, c), last);
    lemma_enclosing_within(blocks, BlockKind::Container, c, last);
    lemma_by_span_within(enclosing(blocks, BlockKind::Container, c), last);
    lemma_anchors_before_prefix(anchors, c);
    assert forall|j: int| 0 <= j < anchors.take(k).len() implies (#[trigger] anchors.take(k)[j]).line <= last by {
        assert(anchors.take(k)[j] == anchors[j]);
    }
    lemma_open_sections_bounded(anchors.take(k), last);
    lemma_section_ranges_within(anchors, open, last, 6);
    assert(all_within(p1, last));
    lemma_pushed_all_within(p1, r2, last);
    lemma_pushed_all_within(p2, r3, last);
    lemma_pushed_all_within(p3, r4, last);
    assert(within(p4[p4.len() - 1], last));
}

/// The yank ladder always has a first rung.
pub proof fn lemma_yank_path_nonempty(cursor: usize, last: usize, blocks: Seq<BlockRange>, anchors: Seq<Anchor>)
    ensures
        yank_path(cursor, last, blocks, anchors).len() >= 1,
{
    let c = if cursor < last { cursor } else { last };
    let p1 = seq![(c, c)];
    let p2 = pushed_all(p1, ranges_of(by_span(enclosing(blocks, BlockKind::Leaf, c))));
    let p3 = pushed_all(p2, ranges_of(by_span(enclosing(blocks, BlockKind::Container, c))));
    let open = open_sections(anchors.take(anchors_before(anchors, c)));
    let r4 = section_ranges(anchors, open, last, 6);
    assert(is_chain(p1));
    lemma_pushed_all_chain(p1, ranges_of(by_span(enclosing(blocks, BlockKind::Leaf, c))));
    lemma_pushed_all_chain(p2, ranges_of(by_span(enclosing(blocks, BlockKind::Container, c))));
    lemma_pushed_all_chain(p3, r4);
    lemma_pushed_chain(pushed_all(p3, r4), (0, last));
}

} // verus!
