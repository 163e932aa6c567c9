//! Block-level rendering. Walks the markdown tree top-down, emitting styled
//! lines and recording heading anchors, links, block ranges and mermaid
//! blocks as it goes. Each block is responsible for any trailing blank line
//! that separates it from the next sibling.

use vstd::prelude::*;

use crate::anchor::{slug, slugify, Anchor};
use crate::ansi::{decimal, push_decimal};
use crate::ast::{MdNode, NodeKind};
use crate::highlight::{chosen_syntax, highlight_code, syntax_tokens, token_spans, Highlighter};
use crate::image::MediaRenderer;
use crate::inline::{children_lines, children_links, render_inlines, started};
use crate::search::{lemma_view_text_concat, lemma_view_text_small, view_text};
use crate::render::{
    append_wrapped, empty_rendered, extends, lemma_extends_record, lemma_extends_refl, lemma_extends_trans,
    link_fits, link_view, links_fit, links_view, merge_inline, moved_link, nonblank, out_view, push_anchor,
    push_blank, push_block, push_line, push_mermaid, with_anchor, with_block, with_inline, with_line,
    with_mermaid, restyled, wrapped_into, wrapped_line, wf, BlockKind, BlockRange, Link, MermaidBlock, Rendered, RenderOutput,
};
use crate::style::{lines_view, plain_style, spans_view, SpanView, Style, StyledLine, StyledSpan};
use crate::table::{render_table, table_lines};
use crate::text::{
    first_token, first_word, lines_of, lower_char, push_char, push_str, repeat_char, split_lines, str_chars, trim,
    trim_ws,
};
use crate::theme::{heading_index, Theme};

verus! {

pub struct RenderContext<'r> {
    pub theme: &'r Theme,
    pub media: &'r dyn MediaRenderer,
    pub highlighter: &'r Highlighter,
}

/// The text a heading contributes to the table of contents: text and code
/// literally, line breaks as spaces, everything else unwrapped.
pub open spec fn plain_of(node: MdNode) -> Seq<char>
    decreases node, 1nat, 0int,
{
    match node.kind {
        NodeKind::Text(t) => t@,
        NodeKind::Code(c) => c@,
        NodeKind::SoftBreak | NodeKind::LineBreak => seq![' '],
        _ => plain_of_children(node, node.children@.len() as int),
    }
}

/// The plain text of the first `n` children of `node`, concatenated.
pub open spec fn plain_of_children(node: MdNode, n: int) -> Seq<char>
    decreases node, 0nat, n,
{
    if n <= 0 || n > node.children@.len() {
        Seq::empty()
    } else {
        plain_of_children(node, n - 1) + plain_of(node.children@[n - 1])
    }
}

fn walk_plain(node: &MdNode, out: &mut String)
    ensures
        final(out)@ == old(out)@ + plain_of(*node),
    decreases node,
{
    match &node.kind {
        NodeKind::Text(t) => push_str(out, t.as_str()),
        NodeKind::Code(c) => push_str(out, c.as_str()),
        NodeKind::SoftBreak | NodeKind::LineBreak => {
            push_char(out, ' ');
            assert(final(out)@ =~= old(out)@ + plain_of(*node));
        },
        _ => {
            let mut i: usize = 0;
            while i < node.children.len()
                invariant
                    i <= node.children@.len(),
                    out@ == old(out)@ + plain_of_children(*node, i as int),
                decreases node.children@.len() - i,
            {
                proof {
                    assert(decreases_to!(node => node.children@[i as int]));
                }
                walk_plain(&node.children[i], out);
                i = i + 1;
                assert(out@ =~= old(out)@ + plain_of_children(*node, i as int));
            }
        },
    }
}

/// Flatten a heading's inline children into plain text — used for the TOC
/// and anchor slugs. Code spans contribute their literal text; emphasis et
/// al. are unwrapped.
pub fn collect_plain_text(node: &MdNode) -> (s: String)
    ensures
        s@ == trim_ws(plain_of(*node)),
{
    let mut buf = String::new();
    walk_plain(node, &mut buf);
    assert(buf@ =~= plain_of(*node));
    trim(buf.as_str())
}

/// Character count of a marker string (its display width: markers are
/// narrow characters).
pub fn display_width(s: &str) -> (n: usize)
    ensures
        n == s@.len(),
{
    let v = str_chars(s);
    v.len()
}

/// `line` behind an unstyled `indent` span, when `indent` is not empty.
pub open spec fn with_indent(line: Seq<SpanView>, indent: Seq<char>) -> Seq<SpanView> {
    if indent.len() == 0 {
        line
    } else {
        seq![(indent, plain_style())] + line
    }
}

/// Every one of `lines` behind `indent`.
pub open spec fn indented(lines: Seq<Seq<SpanView>>, indent: Seq<char>) -> Seq<Seq<SpanView>> {
    lines.map_values(|l: Seq<SpanView>| with_indent(l, indent))
}

/// `links` moved right past the indent span, when there is one.
pub open spec fn indented_links(links: Seq<(int, int, int, Seq<char>)>, indent: Seq<char>) -> Seq<
    (int, int, int, Seq<char>),
> {
    if indent.len() == 0 {
        links
    } else {
        links.map_values(|v: (int, int, int, Seq<char>)| moved_link(v, 0, 1))
    }
}

/// Prefix every line with an unstyled `indent` span (no-op for an empty
/// indent), moving the links' span ranges right by one.
pub fn prepend_indent(lines: Vec<StyledLine>, links: Vec<Link>, indent: &str) -> (r: (Vec<StyledLine>, Vec<Link>))
    requires
        links_fit(links@, lines@),
    ensures
        links_fit(r.1@, r.0@),
        r.0@.len() == lines@.len(),
        forall|k: int| 0 <= k < lines@.len() ==> #[trigger] r.0@[k].spans@.len() >= lines@[k].spans@.len(),
        lines_view(r.0@) == indented(lines_view(lines@), indent@),
        links_view(r.1@) == indented_links(links_view(links@), indent@),
{
    if indent.is_empty() {
        assert(lines_view(lines@) =~= indented(lines_view(lines@), indent@));
        return (lines, links);
    }
    let ghost orig = lines@;
    let n = lines.len();
    let mut out_lines: Vec<StyledLine> = Vec::new();
    let mut rl = crate::render::reversed(lines);
    while rl.len() > 0
        invariant
            rl@.len() <= n,
            n == orig.len(),
            rl@ == orig.subrange(n - rl@.len(), n as int).reverse(),
            out_lines@.len() == n - rl@.len(),
            forall|k: int| 0 <= k < out_lines@.len() ==> #[trigger] out_lines@[k].spans@.len() == orig[k].spans@.len() + 1,
            forall|k: int|
                0 <= k < out_lines@.len() ==> #[trigger] spans_view(out_lines@[k].spans@) == with_indent(
                    spans_view(orig[k].spans@),
                    indent@,
                ),
            indent@.len() > 0,
        decreases rl@.len(),
    {
        let ghost k = n - rl@.len();
        assert(rl@[rl@.len() - 1] == orig[k]);
        let line = rl.pop().unwrap();
        let mut spans: Vec<StyledSpan> = Vec::new();
        spans.push(StyledSpan::plain(indent));
        let ghost line_spans = line.spans@;
        let mut rest = line.spans;
        spans.append(&mut rest);
        assert(spans_view(spans@) =~= with_indent(spans_view(line_spans), indent@));
        out_lines.push(StyledLine { spans });
        assert(rl@ =~= orig.subrange(n - rl@.len(), n as int).reverse());
    }
    assert(lines_view(out_lines@) =~= indented(lines_view(orig), indent@));
    let ghost lk = links@;
    let mut out_links: Vec<Link> = Vec::new();
    let mut rk = crate::render::reversed(links);
    let nl = rk.len();
    while rk.len() > 0
        invariant
            rk@.len() <= nl,
            nl == lk.len(),
            rk@ == lk.subrange(nl - rk@.len(), nl as int).reverse(),
            links_fit(lk, orig),
            out_lines@.len() == n,
            n == orig.len(),
            forall|k: int| 0 <= k < n ==> #[trigger] out_lines@[k].spans@.len() == orig[k].spans@.len() + 1,
            links_fit(out_links@, out_lines@),
            out_links@.len() == nl - rk@.len(),
            forall|i: int|
                0 <= i < out_links@.len() ==> #[trigger] link_view(out_links@[i]) == moved_link(link_view(lk[i]), 0, 1),
        decreases rk@.len(),
    {
        let ghost k = nl - rk@.len();
        assert(rk@[rk@.len() - 1] == lk[k]);
        let mut l = rk.pop().unwrap();
        assert(link_fits(lk[k], orig));
        let room = out_lines[l.line].spans.len();
        assert(room == orig[l.line as int].spans@.len() + 1);
        l.span_range = std::ops::Range { start: l.span_range.start + 1, end: l.span_range.end + 1 };
        let ghost pre = out_links@;
        out_links.push(l);
        assert(rk@ =~= lk.subrange(nl - rk@.len(), nl as int).reverse());
        assert forall|i: int| 0 <= i < out_links@.len() implies link_fits(#[trigger] out_links@[i], out_lines@) by {
            if i < pre.len() {
                assert(out_links@[i] == pre[i]);
            }
        }
    }
    assert(links_view(out_links@) =~= indented_links(links_view(lk), indent@));
    (out_lines, out_links)
}

/// How many of `lines` remain once trailing blank lines are dropped.
pub open spec fn kept_lines(lines: Seq<Seq<SpanView>>) -> nat
    decreases lines.len(),
{
    if lines.len() > 0 && lines.last().len() == 0 {
        kept_lines(lines.drop_last())
    } else {
        lines.len()
    }
}

/// `blocks` kept within the first `n` lines: a block starting past them is
/// dropped, one running past them is cut at the last.
pub open spec fn clamped_blocks(blocks: Seq<BlockRange>, n: int) -> Seq<BlockRange>
    decreases blocks.len(),
{
    if blocks.len() == 0 {
        Seq::empty()
    } else {
        let prev = clamped_blocks(blocks.drop_last(), n);
        let b = blocks.last();
        if b.start < n {
            let end = if b.end < n { b.end } else { (n - 1) as usize };
            if b.start <= end {
                prev.push(BlockRange { start: b.start, end, kind: b.kind })
            } else {
                prev
            }
        } else {
            prev
        }
    }
}

/// `r` without its trailing blank lines, its block ranges kept within the
/// lines that remain.
pub open spec fn trimmed(r: Rendered) -> Rendered {
    let n = kept_lines(r.lines);
    Rendered { lines: r.lines.take(n as int), blocks: clamped_blocks(r.blocks, n as int), ..r }
}

/// Drop trailing blank lines; block ranges are then kept within the lines
/// that remain.
pub fn trim_trailing_blank(out: &mut RenderOutput)
    requires
        wf(*old(out)),
    ensures
        wf(*final(out)),
        final(out).lines@.len() == 0 || nonblank(final(out).lines@, final(out).lines@.len() - 1),
        final(out).lines@ == old(out).lines@.subrange(0, final(out).lines@.len() as int),
        final(out).anchors@ == old(out).anchors@,
        final(out).links@ == old(out).links@,
        final(out).mermaid_blocks@ == old(out).mermaid_blocks@,
        out_view(*final(out)) == trimmed(out_view(*old(out))),
{
    let ghost pre = *out;
    while out.lines.len() > 0 && out.lines[out.lines.len() - 1].is_empty()
        invariant
            kept_lines(lines_view(out.lines@)) == kept_lines(lines_view(pre.lines@)),
            out.lines@.len() <= pre.lines@.len(),
            out.lines@ == pre.lines@.subrange(0, out.lines@.len() as int),
            forall|k: int| out.lines@.len() <= k < pre.lines@.len() ==> !nonblank(pre.lines@, k),
            out.anchors@ == pre.anchors@,
            out.links@ == pre.links@,
            out.blocks@ == pre.blocks@,
            out.mermaid_blocks@ == pre.mermaid_blocks@,
        decreases out.lines@.len(),
    {
        let ghost before = out.lines@;
        out.lines.pop();
        assert(lines_view(before).drop_last() =~= lines_view(out.lines@));
        assert(lines_view(before).last().len() == 0);
    }
    let ghost kept = out.lines@;
    assert(kept_lines(lines_view(kept)) == kept.len());
    assert(lines_view(kept) =~= lines_view(pre.lines@).take(kept.len() as int));
    proof {
        // Everything recorded sits on a non-blank line, so it survived.
        assert forall|i: int| 0 <= i < out.links@.len() implies link_fits(#[trigger] out.links@[i], out.lines@) by {
            assert(link_fits(pre.links@[i], pre.lines@));
            let l = pre.links@[i];
            assert(nonblank(pre.lines@, l.line as int));
        }
        assert forall|i: int| 0 <= i < out.anchors@.len() implies nonblank(out.lines@, #[trigger] out.anchors@[i].line as int) by {
            assert(nonblank(pre.lines@, pre.anchors@[i].line as int));
        }
        assert forall|i: int| 0 <= i < out.mermaid_blocks@.len() implies #[trigger] out.mermaid_blocks@[i].start
            < out.mermaid_blocks@[i].end && nonblank(out.lines@, out.mermaid_blocks@[i].end as int) by {
            assert(pre.mermaid_blocks@[i].start < pre.mermaid_blocks@[i].end);
            assert(nonblank(pre.lines@, pre.mermaid_blocks@[i].end as int));
        }
    }
    // Keep block ranges within the remaining lines.
    let n = out.lines.len();
    let mut blocks: Vec<BlockRange> = Vec::new();
    let mut taken: Vec<BlockRange> = Vec::new();
    std::mem::swap(&mut taken, &mut out.blocks);
    let ghost all = taken@;
    let nb = taken.len();
    let mut rb = crate::render::reversed(taken);
    assert(all.subrange(0, nb as int) =~= all);
    assert(all.take(0) =~= Seq::<BlockRange>::empty());
    while rb.len() > 0
        invariant
            n == kept.len(),
            nb == all.len(),
            rb@.len() <= nb,
            rb@ == all.subrange(nb - rb@.len(), nb as int).reverse(),
            blocks@ == clamped_blocks(all.take(nb - rb@.len()), n as int),
            forall|i: int| 0 <= i < blocks@.len() ==> #[trigger] blocks@[i].start <= blocks@[i].end < n,
        decreases rb@.len(),
    {
        let ghost k = nb - rb@.len();
        assert(rb@[rb@.len() - 1] == all[k]);
        let b = rb.pop().unwrap();
        assert(all.take(k + 1).drop_last() =~= all.take(k));
        assert(all.take(k + 1).last() == all[k]);
        assert(rb@ =~= all.subrange(nb - rb@.len(), nb as int).reverse());
        if b.start < n {
            let end = if b.end < n { b.end } else { n - 1 };
            if b.start <= end {
                blocks.push(BlockRange { start: b.start, end, kind: b.kind });
            }
        }
    }
    assert(all.take(nb as int) =~= all);
    out.blocks = blocks;
    assert(out_view(*out) =~= trimmed(out_view(pre)));
}

/// True when the info string starts with `mermaid`, in any letter case.
pub open spec fn is_mermaid_info(info: Seq<char>) -> bool {
    info.len() >= 7 && info.subrange(0, 7).map_values(|c: char| lower_char(c)) == "mermaid"@
}

fn mermaid_info(info: &str) -> (b: bool)
    ensures
        b == is_mermaid_info(info@),
{
    let v = str_chars(info);
    proof {
        reveal_strlit("mermaid");
    }
    if v.len() < 7 {
        return false;
    }
    let want = ['m', 'e', 'r', 'm', 'a', 'i', 'd'];
    let mut i: usize = 0;
    while i < 7
        invariant
            i <= 7,
            v@.len() >= 7,
            v@ == info@,
            want@ == "mermaid"@,
            forall|j: int| 0 <= j < i ==> lower_char(v@[j]) == "mermaid"@[j],
        decreases 7 - i,
    {
        if crate::text::ascii_lower(v[i]) != want[i] {
            proof {
                let m = v@.subrange(0, 7).map_values(|c: char| lower_char(c));
                assert(m[i as int] != "mermaid"@[i as int]);
            }
            return false;
        }
        i = i + 1;
    }
    assert(v@.subrange(0, 7).map_values(|c: char| lower_char(c)) =~= "mermaid"@);
    true
}

/// `r` with `lines` (and `links`, relative to them) added as one leaf
/// block; no block is recorded for no lines.
pub open spec fn with_leaf(r: Rendered, lines: Seq<Seq<SpanView>>, links: Seq<(int, int, int, Seq<char>)>) -> Rendered {
    let m = with_inline(r, lines, links);
    if lines.len() > 0 {
        with_block(m, r.lines.len() as usize, (m.lines.len() - 1) as usize, BlockKind::Leaf)
    } else {
        m
    }
}

/// A fenced code block's opening fence: three backticks and the info
/// string, if any, after a space.
pub open spec fn fence_text(info: Seq<char>) -> Seq<char> {
    if info.len() == 0 {
        "```"@
    } else {
        "```"@ + seq![' '] + info
    }
}

/// The highlighted lines of a code block body.
pub open spec fn code_lines(lang: Seq<char>, body: Seq<char>) -> Seq<Seq<SpanView>> {
    let tokens = syntax_tokens(chosen_syntax(lang), body);
    Seq::new(tokens.len(), |k: int| token_spans(tokens[k]))
}

/// The marker of a heading of `level`: that many `#` and a space.
pub open spec fn heading_marker(level: u8) -> Seq<char> {
    repeat_char('#', level as nat) + seq![' ']
}

/// What rendering `node` adds to `r`, at `indent`: the heart of the
/// renderer, one case per kind of block.
pub open spec fn block_rendered(node: MdNode, theme: Theme, indent: Seq<char>, r: Rendered) -> Rendered
    decreases node, 2nat, 0int,
{
    let n = node.children@.len() as int;
    let base = r.lines.len();
    match node.kind {
        NodeKind::Heading(level) => {
            let style = theme.heading@[heading_index(level as u32)];
            let start = seq![seq![(heading_marker(level), style)]];
            let m = with_inline(
                r,
                indented(children_lines(node, style, theme, start, n), indent),
                indented_links(children_links(node, style, theme, start, n), indent),
            );
            let text = trim_ws(plain_of(node));
            with_block(
                with_anchor(m, (level, text, slug(text), base as usize)),
                base as usize,
                (m.lines.len() - 1) as usize,
                BlockKind::Leaf,
            )
        },
        NodeKind::Paragraph => with_leaf(
            r,
            indented(children_lines(node, theme.paragraph, theme, seq![seq![]], n), indent),
            indented_links(children_links(node, theme.paragraph, theme, seq![seq![]], n), indent),
        ),
        NodeKind::BlockQuote => {
            let inner = blocks_rendered(node, theme, Seq::empty(), true, empty_rendered(), n);
            let prefix = with_indent(seq![("│ "@, theme.blockquote_marker)], indent);
            let w = wrapped_into(r, inner, prefix, prefix, Some(theme.blockquote));
            if inner.lines.len() > 0 {
                with_block(w, base as usize, (w.lines.len() - 1) as usize, BlockKind::Container)
            } else {
                w
            }
        },
        NodeKind::List { ordered, start, tight } => list_rendered(
            node,
            theme,
            indent,
            ordered,
            tight,
            if start > 1 { start } else { 1 },
            r,
            n,
        ),
        NodeKind::TaskItem(done) => item_rendered(
            node,
            theme,
            indent,
            if done { "[x] "@ } else { "[ ] "@ },
            if done { theme.task_marker_done } else { theme.task_marker_todo },
            true,
            r,
        ),
        NodeKind::CodeBlock { info, literal } => {
            let top = with_indent(seq![(fence_text(info@), theme.code_fence)], indent);
            let body = indented(code_lines(first_word(info@), literal@), indent);
            let bottom = with_indent(seq![("```"@, theme.code_fence)], indent);
            let with_lines = Rendered { lines: r.lines.push(top) + body + seq![bottom], ..r };
            let total = with_lines.lines.len();
            let with_body = if body.len() > 0 {
                with_block(with_lines, (base + 1) as usize, (total - 2) as usize, BlockKind::Leaf)
            } else {
                with_lines
            };
            let whole = with_block(with_body, base as usize, (total - 1) as usize, BlockKind::Leaf);
            if is_mermaid_info(info@) {
                with_mermaid(whole, (base as usize, (total - 1) as usize, literal@))
            } else {
                whole
            }
        },
        NodeKind::HtmlBlock(literal) => with_leaf(
            r,
            lines_of(literal@).map_values(|l: Seq<char>| with_indent(seq![(l, theme.code_inline)], indent)),
            Seq::empty(),
        ),
        NodeKind::ThematicBreak => with_leaf(
            r,
            seq![with_indent(seq![(repeat_char('─', 40), theme.thematic_break)], indent)],
            Seq::empty(),
        ),
        NodeKind::Table(_) => with_leaf(r, indented(table_lines(node, theme), indent), Seq::empty()),
        NodeKind::TableRow(_) => r,
        NodeKind::TableCell => r,
        _ => blocks_rendered(node, theme, indent, true, r, n),
    }
}

/// What rendering the first `n` children of `parent` adds to `r`, a blank
/// line between blocks when `separate`.
pub open spec fn blocks_rendered(
    parent: MdNode,
    theme: Theme,
    indent: Seq<char>,
    separate: bool,
    r: Rendered,
    n: int,
) -> Rendered
    decreases parent, 0nat, n,
{
    if n <= 0 || n > parent.children@.len() {
        r
    } else {
        let prev = blocks_rendered(parent, theme, indent, separate, r, n - 1);
        let spaced = if n - 1 > 0 && separate { with_line(prev, Seq::empty()) } else { prev };
        proof {
            assert(decreases_to!(parent => parent.children@[n - 1]));
        }
        block_rendered(parent.children@[n - 1], theme, indent, spaced)
    }
}

/// What rendering list item `item` behind `marker` adds to `r`: its blocks,
/// the first line behind the marker, the others behind as many spaces.
pub open spec fn item_rendered(
    item: MdNode,
    theme: Theme,
    indent: Seq<char>,
    marker: Seq<char>,
    marker_style: Style,
    tight: bool,
    r: Rendered,
) -> Rendered
    decreases item, 1nat, 0int,
{
    let inner = blocks_rendered(item, theme, Seq::empty(), !tight, empty_rendered(), item.children@.len() as int);
    let first = with_indent(seq![(marker, marker_style)], indent);
    let rest = with_indent(seq![(repeat_char(' ', marker.len()), plain_style())], indent);
    let w = wrapped_into(r, inner, first, rest, None);
    if inner.lines.len() > 0 {
        with_block(w, r.lines.len() as usize, (w.lines.len() - 1) as usize, BlockKind::Container)
    } else {
        w
    }
}

proof fn lemma_restyled_text(v: Seq<SpanView>, restyle: Option<Style>)
    ensures
        view_text(v.map_values(|p: SpanView| (p.0, restyled(p.1, restyle)))) == view_text(v),
    decreases v.len(),
{
    if v.len() > 0 {
        let m = v.map_values(|p: SpanView| (p.0, restyled(p.1, restyle)));
        assert(m.drop_last() =~= v.drop_last().map_values(|p: SpanView| (p.0, restyled(p.1, restyle))));
        lemma_restyled_text(v.drop_last(), restyle);
    }
}

proof fn lemma_indented_text(line: Seq<SpanView>, indent: Seq<char>)
    ensures
        view_text(with_indent(line, indent)) == indent + view_text(line),
{
    if indent.len() == 0 {
        assert(indent + view_text(line) =~= view_text(line));
    } else {
        lemma_view_text_concat(seq![(indent, plain_style())], line);
        lemma_view_text_small((indent, plain_style()));
    }
}

/// A list item's lines: its first line reads as the indent, the marker and
/// the item's own first line; every later line as the indent, as many
/// spaces as the marker is wide, and the item's own line, so the item's
/// content (nested lists included) sits one marker further right than the
/// text around the list. The lines before stay as they were.
pub proof fn lemma_item_lines(
    item: MdNode,
    theme: Theme,
    indent: Seq<char>,
    marker: Seq<char>,
    marker_style: Style,
    tight: bool,
    r: Rendered,
)
    ensures
        ({
            let out = item_rendered(item, theme, indent, marker, marker_style, tight, r);
            let inner = blocks_rendered(item, theme, Seq::empty(), !tight, empty_rendered(), item.children@.len() as int);
            &&& out.lines.len() == r.lines.len() + inner.lines.len()
            &&& forall|k: int| 0 <= k < r.lines.len() ==> #[trigger] out.lines[k] == r.lines[k]
            &&& inner.lines.len() > 0 ==> view_text(out.lines[r.lines.len() as int]) == indent + marker + view_text(
                inner.lines[0],
            )
            &&& forall|k: int|
                0 < k < inner.lines.len() ==> view_text(#[trigger] out.lines[r.lines.len() + k]) == indent + repeat_char(
                    ' ',
                    marker.len(),
                ) + view_text(inner.lines[k])
        }),
{
    let out = item_rendered(item, theme, indent, marker, marker_style, tight, r);
    let inner = blocks_rendered(item, theme, Seq::empty(), !tight, empty_rendered(), item.children@.len() as int);
    let first = with_indent(seq![(marker, marker_style)], indent);
    let rest = with_indent(seq![(repeat_char(' ', marker.len()), plain_style())], indent);
    let w = wrapped_into(r, inner, first, rest, None);
    assert(out.lines == w.lines);
    lemma_view_text_small((marker, marker_style));
    lemma_view_text_small((repeat_char(' ', marker.len()), plain_style()));
    lemma_indented_text(seq![(marker, marker_style)], indent);
    lemma_indented_text(seq![(repeat_char(' ', marker.len()), plain_style())], indent);
    assert forall|k: int| 0 <= k < inner.lines.len() implies view_text(#[trigger] out.lines[r.lines.len() + k])
        == view_text(if k == 0 { first } else { rest }) + view_text(inner.lines[k]) by {
        let pre = if k == 0 { first } else { rest };
        let body = inner.lines[k].map_values(|p: SpanView| (p.0, restyled(p.1, None::<Style>)));
        assert(out.lines[r.lines.len() + k] == wrapped_line(pre, inner.lines[k], None));
        lemma_view_text_concat(pre, body);
        lemma_restyled_text(inner.lines[k], None);
    }
    if inner.lines.len() > 0 {
        assert(view_text(out.lines[r.lines.len() as int + 0]) == view_text(first) + view_text(inner.lines[0]));
    }
}

/// The number an ordered list gives its next item after the first `n`
/// items, counting from `first`: task items take no number.
pub open spec fn list_counter(node: MdNode, ordered: bool, first: usize, n: int) -> usize
    decreases n,
{
    if n <= 0 || n > node.children@.len() {
        first
    } else {
        let c = list_counter(node, ordered, first, n - 1);
        if ordered && !(node.children@[n - 1].kind is TaskItem) && c < usize::MAX {
            (c + 1) as usize
        } else {
            c
        }
    }
}

/// What rendering the first `n` items of list `node` adds to `r`: a blank
/// line between items of a loose list, task items behind their checkbox,
/// others behind a bullet or their number.
pub open spec fn list_rendered(
    node: MdNode,
    theme: Theme,
    indent: Seq<char>,
    ordered: bool,
    tight: bool,
    first: usize,
    r: Rendered,
    n: int,
) -> Rendered
    decreases node, 1nat, n,
{
    if n <= 0 || n > node.children@.len() {
        r
    } else {
        let prev = list_rendered(node, theme, indent, ordered, tight, first, r, n - 1);
        let spaced = if n - 1 > 0 && !tight { with_line(prev, Seq::empty()) } else { prev };
        let item = node.children@[n - 1];
        proof {
            assert(decreases_to!(node => node.children@[n - 1]));
        }
        match item.kind {
            NodeKind::TaskItem(done) => item_rendered(
                item,
                theme,
                indent,
                if done { "[x] "@ } else { "[ ] "@ },
                if done { theme.task_marker_done } else { theme.task_marker_todo },
                tight,
                spaced,
            ),
            _ => item_rendered(
                item,
                theme,
                indent,
                if ordered { decimal(list_counter(node, ordered, first, n - 1) as nat) + ". "@ } else { "• "@ },
                theme.list_marker,
                tight,
                spaced,
            ),
        }
    }
}

fn indent_prefix(indent: &str, marker: StyledSpan) -> (v: Vec<StyledSpan>)
    ensures
        v@.len() == if indent@.len() == 0 { 1nat } else { 2nat },
        spans_view(v@) == with_indent(seq![(marker.text@, marker.style)], indent@),
{
    let ghost mv = (marker.text@, marker.style);
    let mut v: Vec<StyledSpan> = Vec::new();
    if !indent.is_empty() {
        v.push(StyledSpan::plain(indent));
    }
    v.push(marker);
    assert(spans_view(v@) =~= with_indent(seq![mv], indent@));
    v
}

/// What a document renders to: its blocks in order, a blank line between
/// them, trailing blank lines dropped.
pub open spec fn document_rendered(root: MdNode, theme: Theme) -> Rendered {
    trimmed(blocks_rendered(root, theme, Seq::empty(), true, empty_rendered(), root.children@.len() as int))
}

/// Render the document under `root`.
pub fn render_document(root: &MdNode, ctx: &RenderContext<'_>) -> (out: RenderOutput)
    ensures
        wf(out),
        out.lines@.len() == 0 || nonblank(out.lines@, out.lines@.len() - 1),
        out_view(out) == document_rendered(*root, *ctx.theme),
        forall|i: int, j: int|
            0 <= i < j < out.anchors@.len() ==> #[trigger] out.anchors@[i].line < #[trigger] out.anchors@[j].line,
        forall|i: int|
            0 <= i < out.anchors@.len() ==> #[trigger] out.anchors@[i].line < out.lines@.len()
                && out.anchors@[i].slug@ == slug(out.anchors@[i].text@),
        forall|i: int| 0 <= i < out.links@.len() ==> link_fits(#[trigger] out.links@[i], out.lines@),
{
    let mut out = RenderOutput::new();
    assert(out_view(out) =~= empty_rendered());
    proof {
        reveal_strlit("");
        assert(""@ =~= Seq::<char>::empty());
    }
    render_blocks(root, ctx, "", true, &mut out);
    trim_trailing_blank(&mut out);
    out
}

/// Walk every direct child block of `parent`, emitting them in order. When
/// `separate` is true a blank line is inserted between adjacent blocks (the
/// usual document layout). Tight-list item interiors pass `false` to keep
/// their inner paragraphs / nested lists compact, matching CommonMark.
pub fn render_blocks(parent: &MdNode, ctx: &RenderContext<'_>, indent: &str, separate: bool, out: &mut RenderOutput)
    requires
        wf(*old(out)),
    ensures
        wf(*final(out)),
        extends(*old(out), *final(out)),
        out_view(*final(out)) == blocks_rendered(
            *parent,
            *ctx.theme,
            indent@,
            separate,
            out_view(*old(out)),
            parent.children@.len() as int,
        ),
    decreases parent, 0nat,
{
    let ghost pre = *out;
    proof {
        lemma_extends_refl(pre);
    }
    let mut i: usize = 0;
    while i < parent.children.len()
        invariant
            i <= parent.children@.len(),
            wf(*out),
            extends(pre, *out),
            out_view(*out) == blocks_rendered(*parent, *ctx.theme, indent@, separate, out_view(pre), i as int),
        decreases parent.children@.len() - i,
    {
        if i > 0 && separate {
            let ghost a = *out;
            push_blank(out);
            proof {
                lemma_extends_trans(pre, a, *out);
            }
        }
        let ghost b = *out;
        proof {
            assert(decreases_to!(parent => parent.children@[i as int]));
        }
        render_block(&parent.children[i], ctx, indent, out);
        proof {
            lemma_extends_trans(pre, b, *out);
        }
        i = i + 1;
    }
}

/// Append inline-rendered `lines` as one leaf block (with their links).
fn emit_leaf(out: &mut RenderOutput, lines: Vec<StyledLine>, links: Vec<Link>)
    requires
        wf(*old(out)),
        links_fit(links@, lines@),
    ensures
        wf(*final(out)),
        extends(*old(out), *final(out)),
        final(out).lines@ == old(out).lines@ + lines@,
        final(out).anchors@ == old(out).anchors@,
        out_view(*final(out)) == with_leaf(out_view(*old(out)), lines_view(lines@), links_view(links@)),
{
    let ghost pre = *out;
    let base = out.lines.len();
    let n = lines.len();
    merge_inline(out, lines, links);
    let ghost mid = *out;
    if n > 0 {
        let total = out.lines.len();
        push_block(out, base, total - 1, BlockKind::Leaf);
        proof {
            lemma_extends_trans(pre, mid, *out);
        }
    }
}

fn render_block(node: &MdNode, ctx: &RenderContext<'_>, indent: &str, out: &mut RenderOutput)
    requires
        wf(*old(out)),
    ensures
        wf(*final(out)),
        extends(*old(out), *final(out)),
        out_view(*final(out)) == block_rendered(*node, *ctx.theme, indent@, out_view(*old(out))),
    decreases node, 2nat,
{
    let ghost pre = *out;
    match &node.kind {
        NodeKind::Heading(level) => render_heading(node, *level, ctx, indent, out),
        NodeKind::Paragraph => {
            let mut lines: Vec<StyledLine> = Vec::new();
            let mut links: Vec<Link> = Vec::new();
            assert(started(lines_view(lines@)) =~= seq![seq![]]);
            assert(links_view(links@) =~= Seq::<(int, int, int, Seq<char>)>::empty());
            render_inlines(node, ctx.theme.paragraph, ctx.theme, &mut lines, &mut links);
            assert(links_view(links@) =~= children_links(
                *node,
                ctx.theme.paragraph,
                *ctx.theme,
                seq![seq![]],
                node.children@.len() as int,
            ));
            let (lines, links) = prepend_indent(lines, links, indent);
            emit_leaf(out, lines, links);
        },
        NodeKind::BlockQuote => render_quote(node, ctx, indent, out),
        NodeKind::List { ordered, start, tight } => render_list(node, *ordered, *start, *tight, ctx, indent, out),
        NodeKind::TaskItem(done) => {
            // A task item outside a list: tight layout.
            let marker = if *done { "[x] " } else { "[ ] " };
            let style = if *done { ctx.theme.task_marker_done } else { ctx.theme.task_marker_todo };
            render_item(node, ctx, indent, marker, style, true, out);
        },
        NodeKind::CodeBlock { info, literal } => render_code(node, info, literal, ctx, indent, out),
        NodeKind::HtmlBlock(literal) => render_html(node, literal, ctx, indent, out),
        NodeKind::ThematicBreak => {
            let mut line = StyledLine::new();
            if !indent.is_empty() {
                line.push_plain(indent);
            }
            let rule = crate::text::repeat('─', 40);
            line.push_styled(rule.as_str(), ctx.theme.thematic_break);
            assert(spans_view(line.spans@) =~= with_indent(seq![(repeat_char('─', 40), ctx.theme.thematic_break)], indent@));
            let mut lines: Vec<StyledLine> = Vec::new();
            lines.push(line);
            assert(lines_view(lines@) =~= seq![
                with_indent(seq![(repeat_char('─', 40), ctx.theme.thematic_break)], indent@),
            ]);
            let no_links: Vec<Link> = Vec::new();
            assert(links_view(no_links@) =~= Seq::<(int, int, int, Seq<char>)>::empty());
            emit_leaf(out, lines, no_links);
        },
        NodeKind::Table(_) => {
            let mut lines: Vec<StyledLine> = Vec::new();
            render_table(node, ctx.theme, &mut lines);
            assert(lines_view(lines@) =~= table_lines(*node, *ctx.theme));
            let no_links: Vec<Link> = Vec::new();
            assert(links_view(no_links@) =~= Seq::<(int, int, int, Seq<char>)>::empty());
            let (lines, links) = prepend_indent(lines, no_links, indent);
            assert(links_view(links@) =~= Seq::<(int, int, int, Seq<char>)>::empty());
            emit_leaf(out, lines, links);
        },
        // Rows and cells are walked by the table renderer; bare occurrences
        // would be malformed, so they render nothing.
        NodeKind::TableRow(_) | NodeKind::TableCell => {
            proof {
                lemma_extends_refl(pre);
            }
        },
        // Anything else (the document, list items, footnotes, ...): render
        // the children so no content is dropped.
        _ => render_blocks(node, ctx, indent, true, out),
    }
}

/// A heading: its marker and inline text on one line, an anchor for it,
/// and a leaf block.
fn render_heading(node: &MdNode, level: u8, ctx: &RenderContext<'_>, indent: &str, out: &mut RenderOutput)
    requires
        wf(*old(out)),
        node.kind == NodeKind::Heading(level),
    ensures
        wf(*final(out)),
        extends(*old(out), *final(out)),
        out_view(*final(out)) == block_rendered(*node, *ctx.theme, indent@, out_view(*old(out))),
{
    let ghost pre = *out;
    let plain = collect_plain_text(node);
    let slug_text = slugify(plain.as_str());
    let style = ctx.theme.heading(level as u32);
    let mut marker = crate::text::repeat('#', level as usize);
    push_char(&mut marker, ' ');
    assert(marker@ =~= heading_marker(level));
    let mut first = StyledLine::new();
    first.push_styled(marker.as_str(), style);
    let mut lines: Vec<StyledLine> = Vec::new();
    lines.push(first);
    let ghost start_lines = lines@;
    assert(spans_view(first.spans@) =~= seq![(heading_marker(level), style)]);
    assert(lines_view(lines@) =~= seq![seq![(heading_marker(level), style)]]);
    let mut links: Vec<Link> = Vec::new();
    assert(links_view(links@) =~= Seq::<(int, int, int, Seq<char>)>::empty());
    render_inlines(node, style, ctx.theme, &mut lines, &mut links);
    assert(lines@[0].spans@.len() >= start_lines[0].spans@.len());
    let (lines, links) = prepend_indent(lines, links, indent);
    let base = out.lines.len();
    let n = lines.len();
    merge_inline(out, lines, links);
    let ghost mid = *out;
    let total = out.lines.len();
    proof {
        assert forall|i: int| 0 <= i < out.anchors@.len() implies #[trigger] out.anchors@[i].line < base by {
            assert(out.anchors@[i] == pre.anchors@[i]);
            assert(nonblank(pre.lines@, pre.anchors@[i].line as int));
        }
        lemma_extends_trans(pre, pre, mid);
    }
    push_anchor(out, Anchor { level, text: plain, slug: slug_text, line: base });
    let ghost with_a = *out;
    proof {
        lemma_extends_record(pre, mid, with_a);
    }
    push_block(out, base, total - 1, BlockKind::Leaf);
    proof {
        lemma_extends_trans(pre, with_a, *out);
    }
}

/// A block quote: its blocks rendered on their own, each line behind the
/// quote bar, the whole a container block.
fn render_quote(node: &MdNode, ctx: &RenderContext<'_>, indent: &str, out: &mut RenderOutput)
    requires
        wf(*old(out)),
        node.kind == NodeKind::BlockQuote,
    ensures
        wf(*final(out)),
        extends(*old(out), *final(out)),
        out_view(*final(out)) == block_rendered(*node, *ctx.theme, indent@, out_view(*old(out))),
    decreases node, 1nat,
{
    let ghost pre = *out;
    let mut inner = RenderOutput::new();
    assert(out_view(inner) =~= empty_rendered());
    proof {
        reveal_strlit("");
        assert(""@ =~= Seq::<char>::empty());
    }
    render_blocks(node, ctx, "", true, &mut inner);
    let n = inner.lines.len();
    let base = out.lines.len();
    let prefix = indent_prefix(indent, StyledSpan::new("│ ", ctx.theme.blockquote_marker));
    append_wrapped(out, inner, &prefix, &prefix, Some(ctx.theme.blockquote));
    let ghost mid = *out;
    if n > 0 {
        let total = out.lines.len();
        push_block(out, base, total - 1, BlockKind::Container);
        proof {
            lemma_extends_trans(pre, mid, *out);
        }
    }
}

/// A list: each item behind its bullet, number or checkbox, a blank line
/// between the items of a loose list.
fn render_list(
    node: &MdNode,
    ordered: bool,
    start: usize,
    tight: bool,
    ctx: &RenderContext<'_>,
    indent: &str,
    out: &mut RenderOutput,
)
    requires
        wf(*old(out)),
        node.kind == (NodeKind::List { ordered, start, tight }),
    ensures
        wf(*final(out)),
        extends(*old(out), *final(out)),
        out_view(*final(out)) == block_rendered(*node, *ctx.theme, indent@, out_view(*old(out))),
    decreases node, 1nat,
{
    let ghost pre = *out;
    let first_number: usize = if start > 1 { start } else { 1 };
    let mut counter: usize = first_number;
    proof {
        lemma_extends_refl(pre);
    }
    let mut idx: usize = 0;
    while idx < node.children.len()
        invariant
            idx <= node.children@.len(),
            wf(*out),
            extends(pre, *out),
            counter == list_counter(*node, ordered, first_number, idx as int),
            out_view(*out) == list_rendered(
                *node,
                *ctx.theme,
                indent@,
                ordered,
                tight,
                first_number,
                out_view(pre),
                idx as int,
            ),
        decreases node.children@.len() - idx,
    {
        if idx > 0 && !tight {
            let ghost a = *out;
            push_blank(out);
            proof {
                lemma_extends_trans(pre, a, *out);
            }
        }
        let item = &node.children[idx];
        proof {
            assert(decreases_to!(node => node.children@[idx as int]));
        }
        let ghost b = *out;
        match &item.kind {
            NodeKind::TaskItem(done) => {
                let marker = if *done { "[x] " } else { "[ ] " };
                let style = if *done { ctx.theme.task_marker_done } else { ctx.theme.task_marker_todo };
                render_item(item, ctx, indent, marker, style, tight, out);
            },
            _ => {
                let mut marker = String::new();
                if ordered {
                    push_decimal(&mut marker, counter);
                    push_str(&mut marker, ". ");
                    assert(marker@ =~= decimal(counter as nat) + ". "@);
                    counter = if counter < usize::MAX { counter + 1 } else { counter };
                } else {
                    push_str(&mut marker, "• ");
                    assert(marker@ =~= "• "@);
                }
                render_item(item, ctx, indent, marker.as_str(), ctx.theme.list_marker, tight, out);
            },
        }
        proof {
            lemma_extends_trans(pre, b, *out);
        }
        idx = idx + 1;
    }
}

/// A fenced code block: the fences around the highlighted body, a leaf
/// block for the body and one for the whole, and a mermaid block when the
/// info string asks for one.
fn render_code(
    node: &MdNode,
    info: &String,
    literal: &String,
    ctx: &RenderContext<'_>,
    indent: &str,
    out: &mut RenderOutput,
)
    requires
        wf(*old(out)),
        node.kind == (NodeKind::CodeBlock { info: *info, literal: *literal }),
    ensures
        wf(*final(out)),
        extends(*old(out), *final(out)),
        out_view(*final(out)) == block_rendered(*node, *ctx.theme, indent@, out_view(*old(out))),
{
    let ghost pre = *out;
    let ghost pv = out_view(pre);
    let base = out.lines.len();
    let mut fence_str = String::new();
    push_str(&mut fence_str, "```");
    if !info.as_str().is_empty() {
        push_char(&mut fence_str, ' ');
        push_str(&mut fence_str, info.as_str());
    }
    proof {
        reveal_strlit("```");
    }
    assert(fence_str@ =~= fence_text(info@));
    let mut top = StyledLine::new();
    if !indent.is_empty() {
        top.push_plain(indent);
    }
    top.push_styled(fence_str.as_str(), ctx.theme.code_fence);
    let ghost top_view = with_indent(seq![(fence_text(info@), ctx.theme.code_fence)], indent@);
    assert(spans_view(top.spans@) =~= top_view);
    push_line(out, top);
    let lang = first_token(info.as_str());
    let highlighted = highlight_code(ctx.highlighter, literal.as_str(), lang.as_str());
    let ghost hl = highlighted@;
    let ghost body = indented(code_lines(first_word(info@), literal@), indent@);
    let n = highlighted.len();
    assert(body.len() == n);
    let mut rh = crate::render::reversed(highlighted);
    let ghost a = *out;
    proof {
        lemma_extends_trans(pre, pre, a);
        assert(out_view(*out).lines.push(top_view) == out_view(*out).lines.push(top_view));
        assert(body.take(0) =~= Seq::<Seq<SpanView>>::empty());
        assert(out_view(*out) =~= Rendered { lines: pv.lines.push(top_view) + body.take(0), ..pv });
        assert(hl.subrange(0, n as int) =~= hl);
    }
    while rh.len() > 0
        invariant
            wf(*out),
            extends(pre, *out),
            out.lines@.len() > base,
            out.lines@.len() == base + 1 + (n - rh@.len()),
            rh@.len() <= n,
            n == hl.len(),
            body.len() == n,
            body == indented(code_lines(first_word(info@), literal@), indent@),
            forall|k: int| 0 <= k < n ==> #[trigger] spans_view(hl[k].spans@) == code_lines(first_word(info@), literal@)[k],
            rh@ == hl.subrange(n - rh@.len(), n as int).reverse(),
            base == pre.lines@.len(),
            pv == out_view(pre),
            out.mermaid_blocks@ == pre.mermaid_blocks@,
            out_view(*out) == (Rendered { lines: pv.lines.push(top_view) + body.take(n - rh@.len()), ..pv }),
        decreases rh@.len(),
    {
        let ghost k = n - rh@.len();
        assert(rh@[rh@.len() - 1] == hl[k]);
        let mut line = rh.pop().unwrap();
        assert(spans_view(line.spans@) == code_lines(first_word(info@), literal@)[k]);
        if !indent.is_empty() {
            let mut spans: Vec<StyledSpan> = Vec::new();
            spans.push(StyledSpan::plain(indent));
            let ghost old_spans = line.spans@;
            spans.append(&mut line.spans);
            line.spans = spans;
            assert(spans_view(line.spans@) =~= with_indent(spans_view(old_spans), indent@));
        }
        assert(spans_view(line.spans@) == body[k]);
        let ghost c = *out;
        push_line(out, line);
        proof {
            lemma_extends_trans(pre, c, *out);
            assert(rh@ =~= hl.subrange(n - rh@.len(), n as int).reverse());
            assert(body.take(k + 1) =~= body.take(k).push(body[k]));
            assert(out_view(*out) =~= Rendered { lines: pv.lines.push(top_view) + body.take(k + 1), ..pv });
        }
    }
    assert(body.take(n as int) =~= body);
    let mut bottom = StyledLine::new();
    if !indent.is_empty() {
        bottom.push_plain(indent);
    }
    bottom.push_styled("```", ctx.theme.code_fence);
    let ghost bottom_view = with_indent(seq![("```"@, ctx.theme.code_fence)], indent@);
    assert(spans_view(bottom.spans@) =~= bottom_view);
    let ghost d = *out;
    push_line(out, bottom);
    proof {
        lemma_extends_trans(pre, d, *out);
        assert(out_view(*out) =~= Rendered { lines: pv.lines.push(top_view) + body + seq![bottom_view], ..pv });
    }
    let total = out.lines.len();
    let ghost e = *out;
    if n > 0 {
        push_block(out, base + 1, total - 2, BlockKind::Leaf);
        proof {
            lemma_extends_trans(pre, e, *out);
        }
    }
    let ghost f = *out;
    push_block(out, base, total - 1, BlockKind::Leaf);
    proof {
        lemma_extends_trans(pre, f, *out);
    }
    if mermaid_info(info.as_str()) {
        let ghost g = *out;
        proof {
            assert forall|i: int| 0 <= i < out.mermaid_blocks@.len() implies #[trigger] out.mermaid_blocks@[i].end
                < base by {
                assert(out.mermaid_blocks@[i] == pre.mermaid_blocks@[i]);
                assert(pre.mermaid_blocks@[i].start < pre.mermaid_blocks@[i].end);
                assert(nonblank(pre.lines@, pre.mermaid_blocks@[i].end as int));
            }
        }
        push_mermaid(out, MermaidBlock { start: base, end: total - 1, source: literal.clone() });
        proof {
            lemma_extends_record(pre, g, *out);
        }
    }
}

/// A raw HTML block: each of its lines verbatim, in the inline-code style.
fn render_html(node: &MdNode, literal: &String, ctx: &RenderContext<'_>, indent: &str, out: &mut RenderOutput)
    requires
        wf(*old(out)),
        node.kind == NodeKind::HtmlBlock(*literal),
    ensures
        wf(*final(out)),
        extends(*old(out), *final(out)),
        out_view(*final(out)) == block_rendered(*node, *ctx.theme, indent@, out_view(*old(out))),
{
    let raw = split_lines(literal.as_str());
    let ghost want = lines_of(literal@).map_values(
        |l: Seq<char>| with_indent(seq![(l, ctx.theme.code_inline)], indent@),
    );
    let mut lines: Vec<StyledLine> = Vec::new();
    let mut i: usize = 0;
    while i < raw.len()
        invariant
            i <= raw@.len(),
            crate::text::string_views(raw@) == lines_of(literal@),
            want == lines_of(literal@).map_values(
                |l: Seq<char>| with_indent(seq![(l, ctx.theme.code_inline)], indent@),
            ),
            lines_view(lines@) == want.take(i as int),
        decreases raw@.len() - i,
    {
        let mut line = StyledLine::new();
        if !indent.is_empty() {
            line.push_plain(indent);
        }
        line.push_styled(raw[i].as_str(), ctx.theme.code_inline);
        assert(raw@[i as int]@ == lines_of(literal@)[i as int]);
        assert(spans_view(line.spans@) =~= want[i as int]);
        let ghost prev = lines_view(lines@);
        let ghost lv = spans_view(line.spans@);
        lines.push(line);
        assert(lines_view(lines@) =~= prev.push(lv));
        assert(want.take(i + 1) =~= want.take(i as int).push(want[i as int]));
        i = i + 1;
    }
    assert(want.take(raw@.len() as int) =~= want);
    let no_links: Vec<Link> = Vec::new();
    assert(links_view(no_links@) =~= Seq::<(int, int, int, Seq<char>)>::empty());
    emit_leaf(out, lines, no_links);
}

/// Render a list item (or task item): its blocks, the first line behind
/// `marker`, the others behind as many spaces.
fn render_item(
    item: &MdNode,
    ctx: &RenderContext<'_>,
    indent: &str,
    marker: &str,
    marker_style: Style,
    tight: bool,
    out: &mut RenderOutput,
)
    requires
        wf(*old(out)),
    ensures
        wf(*final(out)),
        extends(*old(out), *final(out)),
        out_view(*final(out)) == item_rendered(
            *item,
            *ctx.theme,
            indent@,
            marker@,
            marker_style,
            tight,
            out_view(*old(out)),
        ),
    decreases item, 1nat,
{
    let ghost pre = *out;
    let marker_width = display_width(marker);
    let mut inner = RenderOutput::new();
    assert(out_view(inner) =~= empty_rendered());
    proof {
        reveal_strlit("");
        assert(""@ =~= Seq::<char>::empty());
    }
    render_blocks(item, ctx, "", !tight, &mut inner);
    let n = inner.lines.len();
    let base = out.lines.len();
    let first = indent_prefix(indent, StyledSpan::new(marker, marker_style));
    let pad = crate::text::repeat(' ', marker_width);
    let rest = indent_prefix(indent, StyledSpan::plain(pad.as_str()));
    append_wrapped(out, inner, &first, &rest, None);
    let ghost mid = *out;
    if n > 0 {
        let total = out.lines.len();
        push_block(out, base, total - 1, BlockKind::Container);
        proof {
            lemma_extends_trans(pre, mid, *out);
        }
    }
}

} // verus!
