//! The rendering layer's output model: styled lines plus the metadata the
//! browser needs (heading anchors, inline links, block ranges, mermaid
//! blocks), and the operations that grow it while keeping every recorded
//! position pointing into the lines.

use vstd::prelude::*;

use std::ops::Range;

use crate::anchor::{slug, Anchor};
use crate::style::{copy_spans, lines_view, merged, span_view, spans_view, SpanView, Style, StyledLine, StyledSpan};

verus! {

/// Inline-link metadata produced alongside the lines. The browser uses these
/// records to highlight the focused link and resolve `Enter` to a navigation
/// action.
#[derive(Debug, PartialEq, Eq)]
pub struct Link {
    /// Index into `RenderOutput.lines` where the link text begins.
    pub line: usize,
    /// Range over `StyledLine.spans` covered by the link text on that line.
    pub span_range: Range<usize>,
    /// Raw URL/path/anchor as written in the markdown source.
    pub url: String,
}

impl Clone for Link {
    fn clone(&self) -> (l: Link)
        ensures
            l.line == self.line,
            l.span_range == self.span_range,
            l.url@ == self.url@,
    {
        Link {
            line: self.line,
            span_range: Range { start: self.span_range.start, end: self.span_range.end },
            url: self.url.clone(),
        }
    }
}

/// A link as plain values: its line, the start and end of its span range,
/// and its URL.
pub open spec fn link_view(l: Link) -> (int, int, int, Seq<char>) {
    (l.line as int, l.span_range.start as int, l.span_range.end as int, l.url@)
}

pub open spec fn links_view(ls: Seq<Link>) -> Seq<(int, int, int, Seq<char>)> {
    ls.map_values(|l: Link| link_view(l))
}

/// A fenced code block tagged as `mermaid`, captured during render so the
/// preview server can find it by cursor line.
#[derive(Debug, Clone)]
pub struct MermaidBlock {
    /// Inclusive logical-line range covering the full block including fences.
    pub start: usize,
    pub end: usize,
    /// Raw mermaid source (the body between the fences), unmodified.
    pub source: String,
}

#[derive(Debug, Clone, Copy, PartialEq, Eq, Structural)]
pub enum BlockKind {
    /// Leaf block: paragraph, heading, code block, table, thematic break,
    /// html block. The "paragraph" stop in the yank expand path.
    Leaf,
    /// Container block: list item or blockquote. The "enclosing container"
    /// stop in the yank expand path.
    Container,
}

/// Inclusive line range for a markdown block.
#[derive(Debug, Clone, Copy, PartialEq, Eq, Structural)]
pub struct BlockRange {
    pub start: usize,
    pub end: usize,
    pub kind: BlockKind,
}

#[derive(Debug, Clone)]
pub struct RenderOutput {
    pub lines: Vec<StyledLine>,
    pub anchors: Vec<Anchor>,
    pub links: Vec<Link>,
    /// Block ranges in emission order. Used by yank-mode expand/shrink to
    /// map a cursor line to the enclosing paragraph / list-item / blockquote
    /// / code block / table.
    pub blocks: Vec<BlockRange>,
    /// Fenced code blocks whose info string starts with `mermaid`: the
    /// inclusive line range covered by the block (fences included) plus the
    /// raw source, so the preview server can stream it to a browser when the
    /// cursor lands inside the range.
    pub mermaid_blocks: Vec<MermaidBlock>,
}

impl RenderOutput {
    pub fn new() -> (o: RenderOutput)
        ensures
            o.lines@.len() == 0,
            o.anchors@.len() == 0,
            o.links@.len() == 0,
            o.blocks@.len() == 0,
            o.mermaid_blocks@.len() == 0,
            wf(o),
    {
        RenderOutput {
            lines: Vec::new(),
            anchors: Vec::new(),
            links: Vec::new(),
            blocks: Vec::new(),
            mermaid_blocks: Vec::new(),
        }
    }
}

impl Default for RenderOutput {
    fn default() -> (o: RenderOutput)
        ensures
            o.lines@.len() == 0,
            o.anchors@.len() == 0,
            o.links@.len() == 0,
            o.blocks@.len() == 0,
            o.mermaid_blocks@.len() == 0,
    {
        RenderOutput::new()
    }
}

/// A render output as plain values: what each line shows, each anchor's
/// level, text, slug and line, each link's line, span range and URL, the
/// block ranges, and each mermaid block's lines and source.
#[verifier::ext_equal]
pub struct Rendered {
    pub lines: Seq<Seq<SpanView>>,
    pub anchors: Seq<(u8, Seq<char>, Seq<char>, usize)>,
    pub links: Seq<(int, int, int, Seq<char>)>,
    pub blocks: Seq<BlockRange>,
    pub mermaid: Seq<(usize, usize, Seq<char>)>,
}

pub open spec fn anchor_view(a: Anchor) -> (u8, Seq<char>, Seq<char>, usize) {
    (a.level, a.text@, a.slug@, a.line)
}

pub open spec fn mermaid_view(m: MermaidBlock) -> (usize, usize, Seq<char>) {
    (m.start, m.end, m.source@)
}

/// `out` as plain values.
pub open spec fn out_view(out: RenderOutput) -> Rendered {
    Rendered {
        lines: lines_view(out.lines@),
        anchors: out.anchors@.map_values(|a: Anchor| anchor_view(a)),
        links: links_view(out.links@),
        blocks: out.blocks@,
        mermaid: out.mermaid_blocks@.map_values(|m: MermaidBlock| mermaid_view(m)),
    }
}

/// An output with nothing in it.
pub open spec fn empty_rendered() -> Rendered {
    Rendered {
        lines: Seq::empty(),
        anchors: Seq::empty(),
        links: Seq::empty(),
        blocks: Seq::empty(),
        mermaid: Seq::empty(),
    }
}

/// `r` with `line` added at the end.
pub open spec fn with_line(r: Rendered, line: Seq<SpanView>) -> Rendered {
    Rendered { lines: r.lines.push(line), ..r }
}

/// `r` with a block range added.
pub open spec fn with_block(r: Rendered, start: usize, end: usize, kind: BlockKind) -> Rendered {
    Rendered { blocks: r.blocks.push(BlockRange { start, end, kind }), ..r }
}

/// `r` with an anchor added.
pub open spec fn with_anchor(r: Rendered, a: (u8, Seq<char>, Seq<char>, usize)) -> Rendered {
    Rendered { anchors: r.anchors.push(a), ..r }
}

/// `r` with a mermaid block added.
pub open spec fn with_mermaid(r: Rendered, m: (usize, usize, Seq<char>)) -> Rendered {
    Rendered { mermaid: r.mermaid.push(m), ..r }
}

/// A link moved down `base` lines and right `shift` spans.
pub open spec fn moved_link(v: (int, int, int, Seq<char>), base: int, shift: int) -> (int, int, int, Seq<char>) {
    (v.0 + base, v.1 + shift, v.2 + shift, v.3)
}

/// `r` with `lines` added at the end, and `links` (relative to `lines`)
/// moved down past `r`'s lines.
pub open spec fn with_inline(r: Rendered, lines: Seq<Seq<SpanView>>, links: Seq<(int, int, int, Seq<char>)>) -> Rendered {
    Rendered {
        lines: r.lines + lines,
        links: r.links + links.map_values(|v: (int, int, int, Seq<char>)| moved_link(v, r.lines.len() as int, 0)),
        ..r
    }
}

pub open spec fn nonblank(lines: Seq<StyledLine>, i: int) -> bool {
    0 <= i < lines.len() && lines[i].spans@.len() > 0
}

/// The link's text lies on an existing line, over a non-empty range of its
/// spans.
pub open spec fn link_fits(l: Link, lines: Seq<StyledLine>) -> bool {
    &&& l.line < lines.len()
    &&& l.span_range.start < l.span_range.end
    &&& l.span_range.end <= lines[l.line as int].spans@.len()
}

pub open spec fn links_fit(links: Seq<Link>, lines: Seq<StyledLine>) -> bool {
    forall|i: int| 0 <= i < links.len() ==> link_fits(#[trigger] links[i], lines)
}

/// Every anchor sits on a non-blank line, in strictly increasing order,
/// and carries the slug of its own text.
pub open spec fn anchors_fit(anchors: Seq<Anchor>, lines: Seq<StyledLine>) -> bool {
    &&& forall|i: int| 0 <= i < anchors.len() ==> nonblank(lines, #[trigger] anchors[i].line as int)
    &&& forall|i: int| 0 <= i < anchors.len() ==> #[trigger] anchors[i].slug@ == slug(anchors[i].text@)
    &&& forall|i: int, j: int|
        0 <= i < j < anchors.len() ==> #[trigger] anchors[i].line < #[trigger] anchors[j].line
}

pub open spec fn blocks_fit(blocks: Seq<BlockRange>, n: int) -> bool {
    forall|i: int| 0 <= i < blocks.len() ==> #[trigger] blocks[i].start <= blocks[i].end < n
}

/// Every mermaid block spans at least two lines and ends on a non-blank
/// one; the blocks come in document order without overlap.
pub open spec fn mermaid_fit(ms: Seq<MermaidBlock>, lines: Seq<StyledLine>) -> bool {
    &&& forall|i: int|
        0 <= i < ms.len() ==> #[trigger] ms[i].start < ms[i].end && nonblank(lines, ms[i].end as int)
    &&& forall|i: int, j: int| 0 <= i < j < ms.len() ==> #[trigger] ms[i].end < #[trigger] ms[j].start
}

/// Every position the output records points into its lines.
pub open spec fn wf(out: RenderOutput) -> bool {
    &&& links_fit(out.links@, out.lines@)
    &&& anchors_fit(out.anchors@, out.lines@)
    &&& blocks_fit(out.blocks@, out.lines@.len() as int)
    &&& mermaid_fit(out.mermaid_blocks@, out.lines@)
}

/// `new` holds everything `old` held, unchanged; anchors and mermaid blocks
/// added since lie past `old`'s lines.
pub open spec fn extends(old: RenderOutput, new: RenderOutput) -> bool {
    &&& new.lines@.len() >= old.lines@.len()
    &&& forall|k: int| 0 <= k < old.lines@.len() ==> #[trigger] new.lines@[k] == old.lines@[k]
    &&& new.anchors@.len() >= old.anchors@.len()
    &&& forall|i: int| 0 <= i < old.anchors@.len() ==> #[trigger] new.anchors@[i] == old.anchors@[i]
    &&& forall|i: int|
        old.anchors@.len() <= i < new.anchors@.len() ==> #[trigger] new.anchors@[i].line
            >= old.lines@.len()
    &&& new.links@.len() >= old.links@.len()
    &&& forall|i: int| 0 <= i < old.links@.len() ==> #[trigger] new.links@[i] == old.links@[i]
    &&& new.blocks@.len() >= old.blocks@.len()
    &&& forall|i: int| 0 <= i < old.blocks@.len() ==> #[trigger] new.blocks@[i] == old.blocks@[i]
    &&& new.mermaid_blocks@.len() >= old.mermaid_blocks@.len()
    &&& forall|i: int|
        0 <= i < old.mermaid_blocks@.len() ==> #[trigger] new.mermaid_blocks@[i]
            == old.mermaid_blocks@[i]
    &&& forall|i: int|
        old.mermaid_blocks@.len() <= i < new.mermaid_blocks@.len()
            ==> #[trigger] new.mermaid_blocks@[i].start >= old.lines@.len()
}

pub proof fn lemma_extends_refl(a: RenderOutput)
    ensures
        extends(a, a),
{
}

pub proof fn lemma_extends_trans(a: RenderOutput, b: RenderOutput, c: RenderOutput)
    requires
        extends(a, b),
        extends(b, c),
    ensures
        extends(a, c),
{
    assert forall|i: int| a.anchors@.len() <= i < c.anchors@.len() implies #[trigger] c.anchors@[i].line
        >= a.lines@.len() by {
        if i < b.anchors@.len() {
            assert(c.anchors@[i] == b.anchors@[i]);
        }
    }
    assert forall|i: int|
        a.mermaid_blocks@.len() <= i < c.mermaid_blocks@.len() implies #[trigger] c.mermaid_blocks@[i].start
        >= a.lines@.len() by {
        if i < b.mermaid_blocks@.len() {
            assert(c.mermaid_blocks@[i] == b.mermaid_blocks@[i]);
        }
    }
}

/// Adding an anchor or a mermaid block that lies past `a`'s lines keeps
/// `c` an extension of `a`.
pub proof fn lemma_extends_record(a: RenderOutput, b: RenderOutput, c: RenderOutput)
    requires
        extends(a, b),
        c.lines@ == b.lines@,
        c.links@ == b.links@,
        c.blocks@ == b.blocks@,
        c.anchors@.len() >= b.anchors@.len(),
        forall|i: int| 0 <= i < b.anchors@.len() ==> #[trigger] c.anchors@[i] == b.anchors@[i],
        forall|i: int| b.anchors@.len() <= i < c.anchors@.len() ==> #[trigger] c.anchors@[i].line >= a.lines@.len(),
        c.mermaid_blocks@.len() >= b.mermaid_blocks@.len(),
        forall|i: int| 0 <= i < b.mermaid_blocks@.len() ==> #[trigger] c.mermaid_blocks@[i] == b.mermaid_blocks@[i],
        forall|i: int| b.mermaid_blocks@.len() <= i < c.mermaid_blocks@.len() ==> #[trigger] c.mermaid_blocks@[i].start >= a.lines@.len(),
    ensures
        extends(a, c),
{
    assert forall|i: int| a.anchors@.len() <= i < c.anchors@.len() implies #[trigger] c.anchors@[i].line
        >= a.lines@.len() by {
        if i < b.anchors@.len() {
            assert(c.anchors@[i] == b.anchors@[i]);
        }
    }
    assert forall|i: int|
        a.mermaid_blocks@.len() <= i < c.mermaid_blocks@.len() implies #[trigger] c.mermaid_blocks@[i].start
        >= a.lines@.len() by {
        if i < b.mermaid_blocks@.len() {
            assert(c.mermaid_blocks@[i] == b.mermaid_blocks@[i]);
        }
    }
}

/// Append a blank line.
pub fn push_blank(out: &mut RenderOutput)
    requires
        wf(*old(out)),
    ensures
        wf(*final(out)),
        extends(*old(out), *final(out)),
        final(out).lines@.len() == old(out).lines@.len() + 1,
        out_view(*final(out)) == with_line(out_view(*old(out)), seq![]),
{
    let ghost pre = *out;
    let fresh = StyledLine::new();
    assert(spans_view(fresh.spans@) =~= seq![]);
    out.lines.push(fresh);
    proof {
        let post = *out;
        assert(out_view(post) =~= with_line(out_view(pre), seq![]));
        assert forall|i: int| 0 <= i < post.links@.len() implies link_fits(#[trigger] post.links@[i], post.lines@) by {
            assert(link_fits(pre.links@[i], pre.lines@));
        }
        assert forall|i: int| 0 <= i < post.anchors@.len() implies nonblank(
            post.lines@,
            #[trigger] post.anchors@[i].line as int,
        ) by {
            assert(nonblank(pre.lines@, pre.anchors@[i].line as int));
        }
        assert forall|i: int| 0 <= i < post.mermaid_blocks@.len() implies #[trigger] post.mermaid_blocks@[i].start
            < post.mermaid_blocks@[i].end && nonblank(post.lines@, post.mermaid_blocks@[i].end as int) by {
            assert(post.mermaid_blocks@[i] == pre.mermaid_blocks@[i]);
            assert(pre.mermaid_blocks@[i].start < pre.mermaid_blocks@[i].end);
            assert(nonblank(pre.lines@, pre.mermaid_blocks@[i].end as int));
        }
    }
}

/// Append one line.
pub fn push_line(out: &mut RenderOutput, line: StyledLine)
    requires
        wf(*old(out)),
    ensures
        wf(*final(out)),
        extends(*old(out), *final(out)),
        final(out).lines@ == old(out).lines@.push(line),
        final(out).anchors@ == old(out).anchors@,
        final(out).links@ == old(out).links@,
        final(out).blocks@ == old(out).blocks@,
        final(out).mermaid_blocks@ == old(out).mermaid_blocks@,
        out_view(*final(out)) == with_line(out_view(*old(out)), spans_view(line.spans@)),
{
    let ghost pre = *out;
    out.lines.push(line);
    proof {
        let post = *out;
        assert(out_view(post) =~= with_line(out_view(pre), spans_view(line.spans@)));
        assert forall|i: int| 0 <= i < post.links@.len() implies link_fits(#[trigger] post.links@[i], post.lines@) by {
            assert(link_fits(pre.links@[i], pre.lines@));
        }
        assert forall|i: int| 0 <= i < post.anchors@.len() implies nonblank(
            post.lines@,
            #[trigger] post.anchors@[i].line as int,
        ) by {
            assert(nonblank(pre.lines@, pre.anchors@[i].line as int));
        }
        assert forall|i: int| 0 <= i < post.mermaid_blocks@.len() implies #[trigger] post.mermaid_blocks@[i].start
            < post.mermaid_blocks@[i].end && nonblank(post.lines@, post.mermaid_blocks@[i].end as int) by {
            assert(post.mermaid_blocks@[i] == pre.mermaid_blocks@[i]);
            assert(pre.mermaid_blocks@[i].start < pre.mermaid_blocks@[i].end);
            assert(nonblank(pre.lines@, pre.mermaid_blocks@[i].end as int));
        }
    }
}

/// Record a block range over lines already emitted.
pub fn push_block(out: &mut RenderOutput, start: usize, end: usize, kind: BlockKind)
    requires
        wf(*old(out)),
        start <= end < old(out).lines@.len(),
    ensures
        wf(*final(out)),
        extends(*old(out), *final(out)),
        final(out).lines@ == old(out).lines@,
        final(out).anchors@ == old(out).anchors@,
        final(out).links@ == old(out).links@,
        final(out).blocks@ == old(out).blocks@.push(BlockRange { start, end, kind }),
        final(out).mermaid_blocks@ == old(out).mermaid_blocks@,
        out_view(*final(out)) == with_block(out_view(*old(out)), start, end, kind),
{
    out.blocks.push(BlockRange { start, end, kind });
    assert(out_view(*out) =~= with_block(out_view(*old(out)), start, end, kind));
}

/// Record a heading anchor on a non-blank line past every earlier anchor.
pub fn push_anchor(out: &mut RenderOutput, a: Anchor)
    requires
        wf(*old(out)),
        nonblank(old(out).lines@, a.line as int),
        a.slug@ == slug(a.text@),
        forall|i: int| 0 <= i < old(out).anchors@.len() ==> #[trigger] old(out).anchors@[i].line < a.line,
    ensures
        wf(*final(out)),
        final(out).lines@ == old(out).lines@,
        final(out).anchors@ == old(out).anchors@.push(a),
        final(out).links@ == old(out).links@,
        final(out).blocks@ == old(out).blocks@,
        final(out).mermaid_blocks@ == old(out).mermaid_blocks@,
        out_view(*final(out)) == with_anchor(out_view(*old(out)), anchor_view(a)),
{
    let ghost av = anchor_view(a);
    out.anchors.push(a);
    assert(out_view(*out) =~= with_anchor(out_view(*old(out)), av));
}

/// Record a mermaid block whose lines are already emitted, after every
/// earlier one.
pub fn push_mermaid(out: &mut RenderOutput, m: MermaidBlock)
    requires
        wf(*old(out)),
        m.start < m.end,
        nonblank(old(out).lines@, m.end as int),
        forall|i: int| 0 <= i < old(out).mermaid_blocks@.len() ==> #[trigger] old(out).mermaid_blocks@[i].end < m.start,
    ensures
        wf(*final(out)),
        final(out).lines@ == old(out).lines@,
        final(out).anchors@ == old(out).anchors@,
        final(out).links@ == old(out).links@,
        final(out).blocks@ == old(out).blocks@,
        final(out).mermaid_blocks@ == old(out).mermaid_blocks@.push(m),
        out_view(*final(out)) == with_mermaid(out_view(*old(out)), mermaid_view(m)),
{
    let ghost mv = mermaid_view(m);
    out.mermaid_blocks.push(m);
    assert(out_view(*out) =~= with_mermaid(out_view(*old(out)), mv));
}

/// A link moved down `base` lines and right `shift` spans.
pub open spec fn rebased_link(l: Link, base: int, shift: int) -> Link {
    Link {
        line: (l.line + base) as usize,
        span_range: Range { start: (l.span_range.start + shift) as usize, end: (l.span_range.end + shift) as usize },
        url: l.url,
    }
}

pub open spec fn rebased_anchor(a: Anchor, base: int) -> Anchor {
    Anchor { line: (a.line + base) as usize, ..a }
}

pub open spec fn rebased_block(b: BlockRange, base: int) -> BlockRange {
    BlockRange { start: (b.start + base) as usize, end: (b.end + base) as usize, kind: b.kind }
}

pub open spec fn rebased_mermaid(m: MermaidBlock, base: int) -> MermaidBlock {
    MermaidBlock { start: (m.start + base) as usize, end: (m.end + base) as usize, source: m.source }
}

/// The elements of `v` in reverse order.
pub fn reversed<T>(v: Vec<T>) -> (r: Vec<T>)
    ensures
        r@ == v@.reverse(),
{
    let mut v = v;
    let ghost orig = v@;
    let mut r: Vec<T> = Vec::new();
    while v.len() > 0
        invariant
            v@.len() <= orig.len(),
            v@ == orig.subrange(0, v@.len() as int),
            r@ == orig.subrange(v@.len() as int, orig.len() as int).reverse(),
        decreases v@.len(),
    {
        let x = v.pop().unwrap();
        r.push(x);
        assert(r@ =~= orig.subrange(v@.len() as int, orig.len() as int).reverse());
    }
    assert(orig.subrange(0, orig.len() as int) =~= orig);
    r
}

/// Append `lines` and their `links` (positions relative to `lines`) to `out`.
pub fn merge_inline(out: &mut RenderOutput, lines: Vec<StyledLine>, links: Vec<Link>)
    requires
        wf(*old(out)),
        links_fit(links@, lines@),
    ensures
        wf(*final(out)),
        extends(*old(out), *final(out)),
        final(out).lines@ == old(out).lines@ + lines@,
        final(out).links@ == old(out).links@ + links@.map_values(
            |l: Link| rebased_link(l, old(out).lines@.len() as int, 0),
        ),
        final(out).anchors@ == old(out).anchors@,
        final(out).blocks@ == old(out).blocks@,
        final(out).mermaid_blocks@ == old(out).mermaid_blocks@,
        out_view(*final(out)) == with_inline(out_view(*old(out)), lines_view(lines@), links_view(links@)),
{
    let ghost pre = *out;
    let ghost added = lines@;
    let ghost orig_links = links@;
    let base = out.lines.len();
    let mut lines = lines;
    out.lines.append(&mut lines);
    let total = out.lines.len();
    assert(total == base + added.len());
    let mut rev = reversed(links);
    while rev.len() > 0
        invariant
            base == pre.lines@.len(),
            total == base + added.len(),
            links_fit(orig_links, added),
            rev@.len() <= orig_links.len(),
            rev@ == orig_links.subrange(orig_links.len() - rev@.len(), orig_links.len() as int).reverse(),
            out.lines@ == pre.lines@ + added,
            out.links@ == pre.links@ + orig_links.subrange(0, orig_links.len() - rev@.len()).map_values(
                |l: Link| rebased_link(l, base as int, 0),
            ),
            out.anchors@ == pre.anchors@,
            out.blocks@ == pre.blocks@,
            out.mermaid_blocks@ == pre.mermaid_blocks@,
        decreases rev@.len(),
    {
        let ghost k = orig_links.len() - rev@.len();
        assert(rev@[rev@.len() - 1] == orig_links[k]);
        let mut l = rev.pop().unwrap();
        assert(l == orig_links[k]);
        assert(link_fits(orig_links[k], added));
        l.line = l.line + base;
        out.links.push(l);
        assert(rev@ =~= orig_links.subrange(orig_links.len() - rev@.len(), orig_links.len() as int).reverse());
        assert(out.links@ =~= pre.links@ + orig_links.subrange(0, k + 1).map_values(
            |l: Link| rebased_link(l, base as int, 0),
        ));
    }
    assert(orig_links.subrange(0, orig_links.len() as int) =~= orig_links);
    proof {
        let post = *out;
        assert forall|i: int| 0 <= i < post.links@.len() implies link_fits(#[trigger] post.links@[i], post.lines@) by {
            if i < pre.links@.len() {
                assert(link_fits(pre.links@[i], pre.lines@));
            } else {
                let l = orig_links[i - pre.links@.len()];
                assert(post.links@[i] == rebased_link(l, base as int, 0));
                assert(link_fits(l, added));
                assert(post.lines@[base + l.line] == added[l.line as int]);
            }
        }
        assert forall|i: int| 0 <= i < post.anchors@.len() implies nonblank(
            post.lines@,
            #[trigger] post.anchors@[i].line as int,
        ) by {
            assert(nonblank(pre.lines@, pre.anchors@[i].line as int));
        }
        assert forall|i: int| 0 <= i < post.mermaid_blocks@.len() implies #[trigger] post.mermaid_blocks@[i].start
            < post.mermaid_blocks@[i].end && nonblank(post.lines@, post.mermaid_blocks@[i].end as int) by {
            assert(post.mermaid_blocks@[i] == pre.mermaid_blocks@[i]);
            assert(pre.mermaid_blocks@[i].start < pre.mermaid_blocks@[i].end);
            assert(nonblank(pre.lines@, pre.mermaid_blocks@[i].end as int));
        }
        let moved = links_view(orig_links).map_values(
            |v: (int, int, int, Seq<char>)| moved_link(v, base as int, 0),
        );
        assert forall|i: int| 0 <= i < post.links@.len() implies #[trigger] links_view(post.links@)[i] == (
        links_view(pre.links@) + moved)[i] by {
            if i >= pre.links@.len() {
                let l = orig_links[i - pre.links@.len()];
                assert(post.links@[i] == rebased_link(l, base as int, 0));
                assert(link_fits(l, added));
            }
        }
        assert(out_view(post) =~= with_inline(out_view(pre), lines_view(added), links_view(orig_links)));
    }
}

/// A span style with `restyle`, if any, laid over it.
pub open spec fn restyled(s: Style, restyle: Option<Style>) -> Style {
    match restyle {
        Some(t) => merged(s, t),
        None => s,
    }
}

/// An inner line as a container shows it: the prefix spans, then the inner
/// spans restyled.
pub open spec fn wrapped_line(prefix: Seq<SpanView>, inner: Seq<SpanView>, restyle: Option<Style>) -> Seq<SpanView> {
    prefix + inner.map_values(|p: SpanView| (p.0, restyled(p.1, restyle)))
}

/// The new lines of `out` (from `base`) are `inner`'s lines wrapped with
/// `first` on the first line and `rest` on the others.
pub open spec fn wrapped_lines(
    lines: Seq<StyledLine>,
    base: int,
    inner: Seq<StyledLine>,
    first: Seq<StyledSpan>,
    rest: Seq<StyledSpan>,
    restyle: Option<Style>,
) -> bool {
    &&& lines.len() == base + inner.len()
    &&& forall|k: int|
        0 <= k < inner.len() ==> spans_view(#[trigger] lines[base + k].spans@) == wrapped_line(
            spans_view(if k == 0 { first } else { rest }),
            spans_view(inner[k].spans@),
            restyle,
        )
}

/// `r` with `inner` added as a container shows it: each inner line behind
/// `first` (the first line) or `rest` (the others), its spans restyled;
/// everything `inner` records moved down past `r`'s lines, and links also
/// right past the prefix.
pub open spec fn wrapped_into(
    r: Rendered,
    inner: Rendered,
    first: Seq<SpanView>,
    rest: Seq<SpanView>,
    restyle: Option<Style>,
) -> Rendered {
    let base = r.lines.len() as int;
    Rendered {
        lines: r.lines + Seq::new(
            inner.lines.len(),
            |k: int| wrapped_line(if k == 0 { first } else { rest }, inner.lines[k], restyle),
        ),
        anchors: r.anchors + inner.anchors.map_values(
            |a: (u8, Seq<char>, Seq<char>, usize)| (a.0, a.1, a.2, (a.3 + base) as usize),
        ),
        links: r.links + inner.links.map_values(|v: (int, int, int, Seq<char>)| moved_link(v, base, first.len() as int)),
        blocks: r.blocks + inner.blocks.map_values(|b: BlockRange| rebased_block(b, base)),
        mermaid: r.mermaid + inner.mermaid.map_values(
            |m: (usize, usize, Seq<char>)| ((m.0 + base) as usize, (m.1 + base) as usize, m.2),
        ),
    }
}

proof fn lemma_wrapped_into(
    pre: RenderOutput,
    inn: RenderOutput,
    post: RenderOutput,
    first: Seq<StyledSpan>,
    rest: Seq<StyledSpan>,
    restyle: Option<Style>,
)
    requires
        wf(inn),
        first.len() == rest.len(),
        post.lines@.len() <= usize::MAX,
        forall|k: int| 0 <= k < pre.lines@.len() ==> #[trigger] post.lines@[k] == pre.lines@[k],
        wrapped_lines(post.lines@, pre.lines@.len() as int, inn.lines@, first, rest, restyle),
        forall|k: int|
            0 <= k < inn.lines@.len() ==> #[trigger] post.lines@[pre.lines@.len() + k].spans@.len() <= usize::MAX,
        post.anchors@ == pre.anchors@ + inn.anchors@.map_values(
            |a: Anchor| rebased_anchor(a, pre.lines@.len() as int),
        ),
        post.links@ == pre.links@ + inn.links@.map_values(
            |l: Link| rebased_link(l, pre.lines@.len() as int, first.len() as int),
        ),
        post.blocks@ == pre.blocks@ + inn.blocks@.map_values(
            |b: BlockRange| rebased_block(b, pre.lines@.len() as int),
        ),
        post.mermaid_blocks@ == pre.mermaid_blocks@ + inn.mermaid_blocks@.map_values(
            |m: MermaidBlock| rebased_mermaid(m, pre.lines@.len() as int),
        ),
    ensures
        out_view(post) == wrapped_into(out_view(pre), out_view(inn), spans_view(first), spans_view(rest), restyle),
{
    let base = pre.lines@.len() as int;
    let want = wrapped_into(out_view(pre), out_view(inn), spans_view(first), spans_view(rest), restyle);
    assert forall|k: int| 0 <= k < post.lines@.len() implies #[trigger] lines_view(post.lines@)[k] == want.lines[k] by {
        if k >= base {
            let j = k - base;
            assert(post.lines@[base + j] == post.lines@[k]);
        }
    }
    assert(lines_view(post.lines@) =~= want.lines);
    assert forall|i: int| 0 <= i < post.links@.len() implies #[trigger] links_view(post.links@)[i] == want.links[i] by {
        if i >= pre.links@.len() {
            let l = inn.links@[i - pre.links@.len()];
            assert(post.links@[i] == rebased_link(l, base, first.len() as int));
            assert(link_fits(l, inn.lines@));
            lemma_wrapped_len(
                spans_view(if l.line == 0 { first } else { rest }),
                inn.lines@[l.line as int],
                restyle,
                post.lines@[base + l.line],
            );
            assert(post.lines@[base + l.line].spans@.len() <= usize::MAX);
        }
    }
    assert(links_view(post.links@) =~= want.links);
    assert(out_view(post).anchors =~= want.anchors);
    assert(out_view(post).mermaid =~= want.mermaid);
    assert(out_view(post) =~= want);
}

proof fn lemma_wrapped_len(prefix: Seq<(Seq<char>, Style)>, inner: StyledLine, restyle: Option<Style>, line: StyledLine)
    requires
        spans_view(line.spans@) == wrapped_line(prefix, spans_view(inner.spans@), restyle),
    ensures
        line.spans@.len() == prefix.len() + inner.spans@.len(),
{
    assert(spans_view(line.spans@).len() == line.spans@.len());
}

/// Build one wrapped line: copies of `prefix`, then `inner`'s spans with
/// `restyle` laid over their styles.
fn wrap_line(prefix: &Vec<StyledSpan>, inner: StyledLine, restyle: Option<Style>) -> (l: StyledLine)
    ensures
        spans_view(l.spans@) == wrapped_line(spans_view(prefix@), spans_view(inner.spans@), restyle),
        l.spans@.len() == prefix@.len() + inner.spans@.len(),
        l.spans@.len() <= usize::MAX,
{
    let mut spans = copy_spans(prefix);
    let ghost p = spans_view(prefix@);
    let ghost orig = inner.spans@;
    let mut rs = reversed(inner.spans);
    let ghost n = orig.len();
    assert(orig.subrange(0, 0) =~= Seq::<StyledSpan>::empty());
    assert(spans_view(spans@) =~= p + spans_view(orig.subrange(0, 0)).map_values(
        |q: (Seq<char>, Style)| (q.0, restyled(q.1, restyle)),
    ));
    while rs.len() > 0
        invariant
            rs@.len() <= n,
            n == orig.len(),
            rs@ == orig.subrange(n - rs@.len(), n as int).reverse(),
            spans@.len() == p.len() + (n - rs@.len()),
            spans_view(spans@) == p + spans_view(orig.subrange(0, n - rs@.len())).map_values(
                |q: (Seq<char>, Style)| (q.0, restyled(q.1, restyle)),
            ),
        decreases rs@.len(),
    {
        let ghost k = n - rs@.len();
        assert(rs@[rs@.len() - 1] == orig[k]);
        let mut sp = rs.pop().unwrap();
        assert(sp == orig[k]);
        if let Some(t) = restyle {
            sp.style = sp.style.merge(t);
        }
        assert(span_view(sp) == (orig[k].text@, restyled(orig[k].style, restyle)));
        let ghost pre = spans@;
        spans.push(sp);
        proof {
            assert(rs@ =~= orig.subrange(n - rs@.len(), n as int).reverse());
            let want = p + spans_view(orig.subrange(0, k + 1)).map_values(
                |q: (Seq<char>, Style)| (q.0, restyled(q.1, restyle)),
            );
            let old_want = p + spans_view(orig.subrange(0, k)).map_values(
                |q: (Seq<char>, Style)| (q.0, restyled(q.1, restyle)),
            );
            assert forall|j: int| 0 <= j < spans@.len() implies spans_view(spans@)[j] == want[j] by {
                if j < pre.len() {
                    assert(spans@[j] == pre[j]);
                    assert(spans_view(pre)[j] == old_want[j]);
                    if j >= p.len() {
                        assert(orig.subrange(0, k + 1)[j - p.len()] == orig.subrange(0, k)[j - p.len()]);
                    }
                } else {
                    assert(spans@[j] == sp);
                    assert(orig.subrange(0, k + 1)[j - p.len()] == orig[k]);
                }
            }
            assert(spans_view(spans@) =~= want);
        }
    }
    assert(orig.subrange(0, n as int) =~= orig);
    let _ = spans.len();
    StyledLine { spans }
}

/// Append `inner`'s output to `out` as a container shows it: every line
/// prefixed with copies of `first` (first line) or `rest` (other lines),
/// inner span styles restyled, and every recorded position moved down by
/// the lines already in `out` (and links right by the prefix length).
pub fn append_wrapped(
    out: &mut RenderOutput,
    inner: RenderOutput,
    first: &Vec<StyledSpan>,
    rest: &Vec<StyledSpan>,
    restyle: Option<Style>,
)
    requires
        wf(*old(out)),
        wf(inner),
        first@.len() == rest@.len(),
        first@.len() > 0,
    ensures
        wf(*final(out)),
        extends(*old(out), *final(out)),
        wrapped_lines(final(out).lines@, old(out).lines@.len() as int, inner.lines@, first@, rest@, restyle),
        final(out).anchors@ == old(out).anchors@ + inner.anchors@.map_values(
            |a: Anchor| rebased_anchor(a, old(out).lines@.len() as int),
        ),
        final(out).links@ == old(out).links@ + inner.links@.map_values(
            |l: Link| rebased_link(l, old(out).lines@.len() as int, first@.len() as int),
        ),
        final(out).blocks@ == old(out).blocks@ + inner.blocks@.map_values(
            |b: BlockRange| rebased_block(b, old(out).lines@.len() as int),
        ),
        final(out).mermaid_blocks@ == old(out).mermaid_blocks@ + inner.mermaid_blocks@.map_values(
            |m: MermaidBlock| rebased_mermaid(m, old(out).lines@.len() as int),
        ),
        out_view(*final(out)) == wrapped_into(
            out_view(*old(out)),
            out_view(inner),
            spans_view(first@),
            spans_view(rest@),
            restyle,
        ),
{
    let ghost pre = *out;
    let ghost inn = inner;
    let base = out.lines.len();
    let shift = first.len();
    let RenderOutput { lines, anchors, links, blocks, mermaid_blocks } = inner;
    // Lines.
    let ghost n = inn.lines@.len();
    let mut rl = reversed(lines);
    while rl.len() > 0
        invariant
            rl@.len() <= n,
            n == inn.lines@.len(),
            rl@ == inn.lines@.subrange(n - rl@.len(), n as int).reverse(),
            base == pre.lines@.len(),
            out.lines@.len() == base + (n - rl@.len()),
            forall|k: int| 0 <= k < base ==> #[trigger] out.lines@[k] == pre.lines@[k],
            forall|k: int| base <= k < out.lines@.len() ==> #[trigger] out.lines@[k].spans@.len() <= usize::MAX,
            wrapped_lines(out.lines@, base as int, inn.lines@.subrange(0, n - rl@.len()), first@, rest@, restyle),
            out.anchors@ == pre.anchors@,
            out.links@ == pre.links@,
            out.blocks@ == pre.blocks@,
            out.mermaid_blocks@ == pre.mermaid_blocks@,
        decreases rl@.len(),
    {
        let ghost k = n - rl@.len();
        assert(rl@[rl@.len() - 1] == inn.lines@[k]);
        let line = rl.pop().unwrap();
        let w = if out.lines.len() == base { wrap_line(first, line, restyle) } else { wrap_line(rest, line, restyle) };
        out.lines.push(w);
        proof {
            assert(rl@ =~= inn.lines@.subrange(n - rl@.len(), n as int).reverse());
            let sub = inn.lines@.subrange(0, k + 1);
            assert forall|j: int| 0 <= j < sub.len() implies spans_view(#[trigger] out.lines@[base + j].spans@) == wrapped_line(
                spans_view(if j == 0 { first@ } else { rest@ }),
                spans_view(sub[j].spans@),
                restyle,
            ) by {
                if j < k {
                    assert(inn.lines@.subrange(0, k)[j] == sub[j]);
                }
            }
        }
    }
    let total = out.lines.len();
    let ghost lines_done = out.lines@;
    assert(forall|k: int| base <= k < lines_done.len() ==> #[trigger] lines_done[k].spans@.len() <= usize::MAX);
    proof {
        assert(inn.lines@.subrange(0, n as int) =~= inn.lines@);
        // Every new line holds at least the prefix.
        assert forall|k: int| 0 <= k < n implies out.lines@[base + k].spans@.len() == shift + inn.lines@[k].spans@.len() by {
            lemma_wrapped_len(spans_view(if k == 0 { first@ } else { rest@ }), inn.lines@[k], restyle, out.lines@[base + k]);
        }
    }
    // Anchors.
    let ghost na = inn.anchors@.len();
    let mut ra = reversed(anchors);
    while ra.len() > 0
        invariant
            ra@.len() <= na,
            na == inn.anchors@.len(),
            ra@ == inn.anchors@.subrange(na - ra@.len(), na as int).reverse(),
            out.lines@ == lines_done,
            n == inn.lines@.len(),
            total == lines_done.len(),
            total == base + n,
            base == pre.lines@.len(),
            shift == first@.len(),
            forall|k: int| 0 <= k < n ==> #[trigger] lines_done[base + k].spans@.len() == shift + inn.lines@[k].spans@.len(),
            forall|k: int| base <= k < lines_done.len() ==> #[trigger] lines_done[k].spans@.len() <= usize::MAX,
            anchors_fit(inn.anchors@, inn.lines@),
            out.links@ == pre.links@,
            out.blocks@ == pre.blocks@,
            out.mermaid_blocks@ == pre.mermaid_blocks@,
            out.anchors@ == pre.anchors@ + inn.anchors@.subrange(0, na - ra@.len()).map_values(
                |a: Anchor| rebased_anchor(a, base as int),
            ),
        decreases ra@.len(),
    {
        let ghost k = na - ra@.len();
        assert(ra@[ra@.len() - 1] == inn.anchors@[k]);
        let mut a = ra.pop().unwrap();
        assert(nonblank(inn.lines@, inn.anchors@[k].line as int));
        assert(a == inn.anchors@[k]);
        assert(a.line < n);
        assert(base + n <= usize::MAX);
        a.line = a.line + base;
        out.anchors.push(a);
        assert(ra@ =~= inn.anchors@.subrange(na - ra@.len(), na as int).reverse());
        assert(out.anchors@ =~= pre.anchors@ + inn.anchors@.subrange(0, k + 1).map_values(
            |a: Anchor| rebased_anchor(a, base as int),
        ));
    }
    assert(inn.anchors@.subrange(0, na as int) =~= inn.anchors@);
    // Links.
    let ghost nl = inn.links@.len();
    let mut rk = reversed(links);
    while rk.len() > 0
        invariant
            rk@.len() <= nl,
            nl == inn.links@.len(),
            rk@ == inn.links@.subrange(nl - rk@.len(), nl as int).reverse(),
            out.lines@ == lines_done,
            n == inn.lines@.len(),
            total == lines_done.len(),
            total == base + n,
            base == pre.lines@.len(),
            shift == first@.len(),
            forall|k: int| 0 <= k < n ==> #[trigger] lines_done[base + k].spans@.len() == shift + inn.lines@[k].spans@.len(),
            forall|k: int| base <= k < lines_done.len() ==> #[trigger] lines_done[k].spans@.len() <= usize::MAX,
            links_fit(inn.links@, inn.lines@),
            out.anchors@ == pre.anchors@ + inn.anchors@.map_values(|a: Anchor| rebased_anchor(a, base as int)),
            out.blocks@ == pre.blocks@,
            out.mermaid_blocks@ == pre.mermaid_blocks@,
            out.links@ == pre.links@ + inn.links@.subrange(0, nl - rk@.len()).map_values(
                |l: Link| rebased_link(l, base as int, shift as int),
            ),
        decreases rk@.len(),
    {
        let ghost k = nl - rk@.len();
        assert(rk@[rk@.len() - 1] == inn.links@[k]);
        let mut l = rk.pop().unwrap();
        assert(link_fits(inn.links@[k], inn.lines@));
        let row = l.line + base;
        let room = out.lines[row].spans.len();
        assert(lines_done[base + l.line as int].spans@.len() == shift + inn.lines@[l.line as int].spans@.len());
        l.line = row;
        l.span_range = Range { start: l.span_range.start + shift, end: l.span_range.end + shift };
        out.links.push(l);
        assert(rk@ =~= inn.links@.subrange(nl - rk@.len(), nl as int).reverse());
        assert(out.links@ =~= pre.links@ + inn.links@.subrange(0, k + 1).map_values(
            |l: Link| rebased_link(l, base as int, shift as int),
        ));
    }
    assert(inn.links@.subrange(0, nl as int) =~= inn.links@);
    // Blocks.
    let ghost nb = inn.blocks@.len();
    let mut rb = reversed(blocks);
    while rb.len() > 0
        invariant
            rb@.len() <= nb,
            nb == inn.blocks@.len(),
            rb@ == inn.blocks@.subrange(nb - rb@.len(), nb as int).reverse(),
            out.lines@ == lines_done,
            n == inn.lines@.len(),
            total == lines_done.len(),
            total == base + n,
            base == pre.lines@.len(),
            shift == first@.len(),
            forall|k: int| 0 <= k < n ==> #[trigger] lines_done[base + k].spans@.len() == shift + inn.lines@[k].spans@.len(),
            forall|k: int| base <= k < lines_done.len() ==> #[trigger] lines_done[k].spans@.len() <= usize::MAX,
            blocks_fit(inn.blocks@, n as int),
            out.anchors@ == pre.anchors@ + inn.anchors@.map_values(|a: Anchor| rebased_anchor(a, base as int)),
            out.links@ == pre.links@ + inn.links@.map_values(|l: Link| rebased_link(l, base as int, shift as int)),
            out.mermaid_blocks@ == pre.mermaid_blocks@,
            out.blocks@ == pre.blocks@ + inn.blocks@.subrange(0, nb - rb@.len()).map_values(
                |b: BlockRange| rebased_block(b, base as int),
            ),
        decreases rb@.len(),
    {
        let ghost k = nb - rb@.len();
        assert(rb@[rb@.len() - 1] == inn.blocks@[k]);
        let mut b = rb.pop().unwrap();
        assert(inn.blocks@[k].start <= inn.blocks@[k].end < n);
        assert(b.end < n);
        b.start = b.start + base;
        b.end = b.end + base;
        out.blocks.push(b);
        assert(rb@ =~= inn.blocks@.subrange(nb - rb@.len(), nb as int).reverse());
        assert(out.blocks@ =~= pre.blocks@ + inn.blocks@.subrange(0, k + 1).map_values(
            |b: BlockRange| rebased_block(b, base as int),
        ));
    }
    assert(inn.blocks@.subrange(0, nb as int) =~= inn.blocks@);
    // Mermaid blocks.
    let ghost nm = inn.mermaid_blocks@.len();
    let mut rm = reversed(mermaid_blocks);
    while rm.len() > 0
        invariant
            rm@.len() <= nm,
            nm == inn.mermaid_blocks@.len(),
            rm@ == inn.mermaid_blocks@.subrange(nm - rm@.len(), nm as int).reverse(),
            out.lines@ == lines_done,
            n == inn.lines@.len(),
            total == lines_done.len(),
            total == base + n,
            base == pre.lines@.len(),
            shift == first@.len(),
            forall|k: int| 0 <= k < n ==> #[trigger] lines_done[base + k].spans@.len() == shift + inn.lines@[k].spans@.len(),
            forall|k: int| base <= k < lines_done.len() ==> #[trigger] lines_done[k].spans@.len() <= usize::MAX,
            mermaid_fit(inn.mermaid_blocks@, inn.lines@),
            out.anchors@ == pre.anchors@ + inn.anchors@.map_values(|a: Anchor| rebased_anchor(a, base as int)),
            out.links@ == pre.links@ + inn.links@.map_values(|l: Link| rebased_link(l, base as int, shift as int)),
            out.blocks@ == pre.blocks@ + inn.blocks@.map_values(|b: BlockRange| rebased_block(b, base as int)),
            out.mermaid_blocks@ == pre.mermaid_blocks@ + inn.mermaid_blocks@.subrange(0, nm - rm@.len()).map_values(
                |m: MermaidBlock| rebased_mermaid(m, base as int),
            ),
        decreases rm@.len(),
    {
        let ghost k = nm - rm@.len();
        assert(rm@[rm@.len() - 1] == inn.mermaid_blocks@[k]);
        let mut m = rm.pop().unwrap();
        assert(inn.mermaid_blocks@[k].start < inn.mermaid_blocks@[k].end);
        assert(nonblank(inn.lines@, inn.mermaid_blocks@[k].end as int));
        assert(m.end < n);
        m.start = m.start + base;
        m.end = m.end + base;
        out.mermaid_blocks.push(m);
        assert(rm@ =~= inn.mermaid_blocks@.subrange(nm - rm@.len(), nm as int).reverse());
        assert(out.mermaid_blocks@ =~= pre.mermaid_blocks@ + inn.mermaid_blocks@.subrange(0, k + 1).map_values(
            |m: MermaidBlock| rebased_mermaid(m, base as int),
        ));
    }
    assert(inn.mermaid_blocks@.subrange(0, nm as int) =~= inn.mermaid_blocks@);
    proof {
        assert forall|k: int| 0 <= k < n implies #[trigger] out.lines@[base + k].spans@.len() <= usize::MAX by {
            assert(lines_done[base + k].spans@.len() <= usize::MAX);
        }
        lemma_append_wrapped_wf(pre, inn, *out, shift as int);
        lemma_wrapped_into(pre, inn, *out, first@, rest@, restyle);
    }
}

proof fn lemma_append_wrapped_wf(pre: RenderOutput, inn: RenderOutput, post: RenderOutput, shift: int)
    requires
        wf(pre),
        wf(inn),
        shift > 0,
        post.lines@.len() <= usize::MAX,
        post.lines@.len() == pre.lines@.len() + inn.lines@.len(),
        forall|k: int| 0 <= k < pre.lines@.len() ==> #[trigger] post.lines@[k] == pre.lines@[k],
        forall|k: int|
            0 <= k < inn.lines@.len() ==> #[trigger] post.lines@[pre.lines@.len() + k].spans@.len()
                == shift + inn.lines@[k].spans@.len(),
        forall|k: int|
            0 <= k < inn.lines@.len() ==> #[trigger] post.lines@[pre.lines@.len() + k].spans@.len()
                <= usize::MAX,
        post.anchors@ == pre.anchors@ + inn.anchors@.map_values(
            |a: Anchor| rebased_anchor(a, pre.lines@.len() as int),
        ),
        post.links@ == pre.links@ + inn.links@.map_values(
            |l: Link| rebased_link(l, pre.lines@.len() as int, shift),
        ),
        post.blocks@ == pre.blocks@ + inn.blocks@.map_values(
            |b: BlockRange| rebased_block(b, pre.lines@.len() as int),
        ),
        post.mermaid_blocks@ == pre.mermaid_blocks@ + inn.mermaid_blocks@.map_values(
            |m: MermaidBlock| rebased_mermaid(m, pre.lines@.len() as int),
        ),
    ensures
        wf(post),
        extends(pre, post),
{
    let base = pre.lines@.len() as int;
    assert forall|i: int| 0 <= i < post.links@.len() implies link_fits(#[trigger] post.links@[i], post.lines@) by {
        if i < pre.links@.len() {
            assert(link_fits(pre.links@[i], pre.lines@));
        } else {
            let l = inn.links@[i - pre.links@.len()];
            assert(post.links@[i] == rebased_link(l, base, shift));
            assert(link_fits(l, inn.lines@));
            assert(post.lines@[base + l.line].spans@.len() == shift + inn.lines@[l.line as int].spans@.len());
        }
    }
    assert forall|i: int| 0 <= i < post.anchors@.len() implies nonblank(post.lines@, #[trigger] post.anchors@[i].line as int) by {
        if i < pre.anchors@.len() {
            assert(nonblank(pre.lines@, pre.anchors@[i].line as int));
        } else {
            let a = inn.anchors@[i - pre.anchors@.len()];
            assert(post.anchors@[i] == rebased_anchor(a, base));
            assert(nonblank(inn.lines@, inn.anchors@[i - pre.anchors@.len()].line as int));
            assert(post.lines@[base + a.line].spans@.len() == shift + inn.lines@[a.line as int].spans@.len());
        }
    }
    assert forall|i: int, j: int| 0 <= i < j < post.anchors@.len() implies #[trigger] post.anchors@[i].line
        < #[trigger] post.anchors@[j].line by {
        if j < pre.anchors@.len() {
        } else if i < pre.anchors@.len() {
            assert(nonblank(pre.lines@, pre.anchors@[i].line as int));
            assert(post.anchors@[j] == rebased_anchor(inn.anchors@[j - pre.anchors@.len()], base));
        } else {
            let ii = i - pre.anchors@.len();
            let jj = j - pre.anchors@.len();
            assert(post.anchors@[i] == rebased_anchor(inn.anchors@[ii], base));
            assert(post.anchors@[j] == rebased_anchor(inn.anchors@[jj], base));
            assert(nonblank(inn.lines@, inn.anchors@[ii].line as int));
            assert(nonblank(inn.lines@, inn.anchors@[jj].line as int));
            assert(inn.anchors@[ii].line < inn.anchors@[jj].line);
        }
    }
    assert forall|i: int| 0 <= i < post.blocks@.len() implies #[trigger] post.blocks@[i].start <= post.blocks@[i].end
        < post.lines@.len() by {
        if i < pre.blocks@.len() {
            assert(pre.blocks@[i].start <= pre.blocks@[i].end < pre.lines@.len());
        } else {
            let b = inn.blocks@[i - pre.blocks@.len()];
            assert(post.blocks@[i] == rebased_block(b, base));
            assert(inn.blocks@[i - pre.blocks@.len()].start <= b.end < inn.lines@.len());
        }
    }
    assert forall|i: int| 0 <= i < post.mermaid_blocks@.len() implies #[trigger] post.mermaid_blocks@[i].start
        < post.mermaid_blocks@[i].end && nonblank(post.lines@, post.mermaid_blocks@[i].end as int) by {
        if i < pre.mermaid_blocks@.len() {
            assert(pre.mermaid_blocks@[i].start < pre.mermaid_blocks@[i].end);
            assert(nonblank(pre.lines@, pre.mermaid_blocks@[i].end as int));
        } else {
            let m = inn.mermaid_blocks@[i - pre.mermaid_blocks@.len()];
            assert(post.mermaid_blocks@[i] == rebased_mermaid(m, base));
            assert(inn.mermaid_blocks@[i - pre.mermaid_blocks@.len()].start < m.end);
            assert(nonblank(inn.lines@, m.end as int));
            assert(post.lines@[base + m.end].spans@.len() == shift + inn.lines@[m.end as int].spans@.len());
        }
    }
    assert forall|i: int, j: int| 0 <= i < j < post.mermaid_blocks@.len() implies #[trigger] post.mermaid_blocks@[i].end
        < #[trigger] post.mermaid_blocks@[j].start by {
        if j < pre.mermaid_blocks@.len() {
        } else if i < pre.mermaid_blocks@.len() {
            assert(pre.mermaid_blocks@[i].start < pre.mermaid_blocks@[i].end);
            assert(nonblank(pre.lines@, pre.mermaid_blocks@[i].end as int));
            assert(post.mermaid_blocks@[j] == rebased_mermaid(inn.mermaid_blocks@[j - pre.mermaid_blocks@.len()], base));
        } else {
            let ii = i - pre.mermaid_blocks@.len();
            let jj = j - pre.mermaid_blocks@.len();
            assert(post.mermaid_blocks@[i] == rebased_mermaid(inn.mermaid_blocks@[ii], base));
            assert(post.mermaid_blocks@[j] == rebased_mermaid(inn.mermaid_blocks@[jj], base));
            assert(inn.mermaid_blocks@[ii].start < inn.mermaid_blocks@[ii].end);
            assert(inn.mermaid_blocks@[jj].start < inn.mermaid_blocks@[jj].end);
            assert(nonblank(inn.lines@, inn.mermaid_blocks@[jj].end as int));
            assert(inn.mermaid_blocks@[ii].end < inn.mermaid_blocks@[jj].start);
        }
    }
}

/// Render a parsed markdown document with the dark theme, text-only media
/// and the bundled syntax highlighting.
pub fn render_document(root: &crate::ast::MdNode) -> (out: RenderOutput)
    ensures
        wf(out),
        out.lines@.len() == 0 || nonblank(out.lines@, out.lines@.len() - 1),
        forall|i: int, j: int|
            0 <= i < j < out.anchors@.len() ==> #[trigger] out.anchors@[i].line < #[trigger] out.anchors@[j].line,
        forall|i: int|
            0 <= i < out.anchors@.len() ==> #[trigger] out.anchors@[i].line < out.lines@.len()
                && out.anchors@[i].slug@ == slug(out.anchors@[i].text@),
        forall|i: int| 0 <= i < out.links@.len() ==> link_fits(#[trigger] out.links@[i], out.lines@),
        exists|t: crate::theme::Theme|
            crate::theme::is_dark_theme(t) && out_view(out) == #[trigger] crate::block::document_rendered(*root, t),
{
    let theme = crate::theme::Theme::dark();
    let media = crate::image::TextOnlyRenderer;
    let highlighter = crate::highlight::Highlighter::new();
    let ctx = crate::block::RenderContext { theme: &theme, media: &media, highlighter: &highlighter };
    crate::block::render_document(root, &ctx)
}

/// Parse `input` (emoji shortcodes expanded when `shortcodes` is set) and
/// render it: the rendering, in the dark theme, of the tree whose
/// traversal comrak gives.
pub fn parse_and_render(input: &str, shortcodes: bool) -> (out: RenderOutput)
    ensures
        wf(out),
        out.lines@.len() == 0 || nonblank(out.lines@, out.lines@.len() - 1),
        exists|root: crate::ast::MdNode, t: crate::theme::Theme|
            crate::markdown::traversal(root) == crate::markdown::parsed_steps(input@, shortcodes)
                && crate::theme::is_dark_theme(t) && out_view(out) == #[trigger] crate::block::document_rendered(root, t),
{
    let root = crate::markdown::parse(input, shortcodes);
    let out = render_document(&root);
    proof {
        let t = choose|t: crate::theme::Theme|
            crate::theme::is_dark_theme(t) && out_view(out) == #[trigger] crate::block::document_rendered(root, t);
        assert(crate::markdown::traversal(root) == crate::markdown::parsed_steps(input@, shortcodes)
            && crate::theme::is_dark_theme(t) && out_view(out) == crate::block::document_rendered(root, t));
    }
    out
}

} // verus!
