//! The table-of-contents overlay: one tree-style prefix per heading.

use vstd::prelude::*;

use crate::anchor::Anchor;
use crate::text::push_str;

verus! {

/// Whether the subtree at level `depth` that holds anchor `k - 1` has no
/// later member, judged from anchor `k` on: the walk stops at the first
/// anchor shallower than `depth` (the subtree ended) or at a peer of level
/// `depth` (the subtree goes on).
pub open spec fn last_from(anchors: Seq<Anchor>, k: int, depth: int) -> bool
    decreases anchors.len() - k,
{
    if k < 0 || k >= anchors.len() {
        true
    } else if (anchors[k].level as int) < depth {
        true
    } else if anchors[k].level as int == depth {
        false
    } else {
        last_from(anchors, k + 1, depth)
    }
}

/// True iff no later anchor extends the subtree at level `depth` that
/// contains anchor `i`.
pub fn is_last_at_depth(anchors: &Vec<Anchor>, i: usize, depth: usize) -> (r: bool)
    requires
        i < anchors@.len(),
    ensures
        r == last_from(anchors@, i + 1, depth as int),
{
    let n = anchors.len();
    let mut k: usize = i + 1;
    while k < anchors.len()
        invariant
            i + 1 <= k <= anchors@.len(),
            last_from(anchors@, i + 1, depth as int) == last_from(anchors@, k as int, depth as int),
        decreases anchors@.len() - k,
    {
        let lvl = anchors[k].level as usize;
        if lvl < depth {
            return true;
        }
        if lvl == depth {
            return false;
        }
        k = k + 1;
    }
    true
}

/// The four-cell glyph for one depth of a prefix.
pub open spec fn tree_glyph(leaf: bool, last: bool) -> Seq<char> {
    if leaf {
        if last {
            "└── "@
        } else {
            "├── "@
        }
    } else if last {
        "    "@
    } else {
        "│   "@
    }
}

pub open spec fn toc_level(a: Anchor) -> int {
    if a.level < 1 {
        1
    } else {
        a.level as int
    }
}

/// The glyphs for depths 1 to `d` of anchor `i`'s prefix.
pub open spec fn prefix_upto(anchors: Seq<Anchor>, i: int, d: int) -> Seq<char>
    decreases d,
{
    if d <= 0 {
        Seq::empty()
    } else {
        prefix_upto(anchors, i, d - 1) + tree_glyph(d == toc_level(anchors[i]), last_from(anchors, i + 1, d))
    }
}

/// The full tree prefix of anchor `i`: a continuation column (`│   ` or
/// blank) for each ancestor depth, then the branch (`├── ` or `└── `).
pub open spec fn toc_prefix(anchors: Seq<Anchor>, i: int) -> Seq<char> {
    prefix_upto(anchors, i, toc_level(anchors[i]))
}

fn glyph(leaf: bool, last: bool) -> (s: &'static str)
    ensures
        s@ == tree_glyph(leaf, last),
{
    if leaf {
        if last {
            "└── "
        } else {
            "├── "
        }
    } else if last {
        "    "
    } else {
        "│   "
    }
}

/// One tree-style prefix per anchor (`├── ` / `└── `, with `│   `
/// continuation columns for ancestors that still have siblings below). A
/// later anchor counts as a sibling at level `d` when it is the next anchor
/// of level at most `d` and its level is exactly `d`.
pub fn toc_tree_prefixes(anchors: &Vec<Anchor>) -> (r: Vec<String>)
    ensures
        r@.len() == anchors@.len(),
        forall|i: int| 0 <= i < r@.len() ==> (#[trigger] r@[i])@ == toc_prefix(anchors@, i),
{
    let mut r: Vec<String> = Vec::new();
    let mut i: usize = 0;
    while i < anchors.len()
        invariant
            i <= anchors@.len(),
            r@.len() == i,
            forall|k: int| 0 <= k < i ==> (#[trigger] r@[k])@ == toc_prefix(anchors@, k),
        decreases anchors@.len() - i,
    {
        let level: usize = if anchors[i].level < 1 { 1 } else { anchors[i].level as usize };
        let mut prefix = String::new();
        let mut d: usize = 1;
        while d <= level
            invariant
                i < anchors@.len(),
                level == toc_level(anchors@[i as int]),
                1 <= d <= level + 1,
                level <= 255,
                prefix@ == prefix_upto(anchors@, i as int, d - 1),
            decreases level + 1 - d,
        {
            let last = is_last_at_depth(anchors, i, d);
            push_str(&mut prefix, glyph(d == level, last));
            d = d + 1;
        }
        r.push(prefix);
        i = i + 1;
    }
    r
}

/// Every prefix is four cells per depth of its heading.
pub proof fn lemma_prefix_length(anchors: Seq<Anchor>, i: int, d: int)
    requires
        0 <= i < anchors.len(),
    ensures
        prefix_upto(anchors, i, d).len() == if d <= 0 { 0 } else { 4 * d },
    decreases d,
{
    if d > 0 {
        lemma_prefix_length(anchors, i, d - 1);
        reveal_strlit("└── ");
        reveal_strlit("├── ");
        reveal_strlit("    ");
        reveal_strlit("│   ");
    }
}

} // verus!
