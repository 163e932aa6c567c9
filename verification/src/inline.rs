//! Inline-level rendering. Walks inline nodes and emits styled spans into
//! the current line, splitting on hard line breaks.

use vstd::prelude::*;

use std::ops::Range;

use crate::ast::{MdNode, NodeKind};
use crate::render::{link_fits, links_fit, links_view, Link};
use crate::style::{lines_view, merged, spans_view, SpanView, Style, StyledLine, StyledSpan};
use crate::text::{str_chars, string_from_chars};
use crate::theme::Theme;

verus! {

/// `new` keeps every line of `old`, each with at least its spans, and adds
/// lines only at the end.
pub open spec fn lines_grow(old: Seq<StyledLine>, new: Seq<StyledLine>) -> bool {
    &&& new.len() >= old.len()
    &&& forall|k: int| 0 <= k < old.len() ==> #[trigger] new[k].spans@.len() >= old[k].spans@.len()
}

proof fn lemma_links_keep_fitting(links: Seq<Link>, old: Seq<StyledLine>, new: Seq<StyledLine>)
    requires
        links_fit(links, old),
        lines_grow(old, new),
    ensures
        links_fit(links, new),
{
    assert forall|i: int| 0 <= i < links.len() implies link_fits(#[trigger] links[i], new) by {
        assert(link_fits(links[i], old));
        assert(new[links[i].line as int].spans@.len() >= old[links[i].line as int].spans@.len());
    }
}

proof fn lemma_grow_trans(a: Seq<StyledLine>, b: Seq<StyledLine>, c: Seq<StyledLine>)
    requires
        lines_grow(a, b),
        lines_grow(b, c),
    ensures
        lines_grow(a, c),
{
    assert forall|k: int| 0 <= k < a.len() implies #[trigger] c[k].spans@.len() >= a[k].spans@.len() by {
        assert(c[k].spans@.len() >= b[k].spans@.len());
    }
}

/// Index of the first `'\n'` in `text`, or its length when it has none.
pub open spec fn newline_at(text: Seq<char>) -> int
    decreases text.len(),
{
    if text.len() == 0 {
        0
    } else if text[0] == '\n' {
        0
    } else {
        1 + newline_at(text.drop_first())
    }
}

pub proof fn lemma_newline_at(text: Seq<char>)
    ensures
        0 <= newline_at(text) <= text.len(),
        forall|j: int| 0 <= j < newline_at(text) ==> text[j] != '\n',
        newline_at(text) < text.len() ==> text[newline_at(text)] == '\n',
    decreases text.len(),
{
    if text.len() > 0 && text[0] != '\n' {
        lemma_newline_at(text.drop_first());
        assert forall|j: int| 0 <= j < newline_at(text) implies text[j] != '\n' by {
            if j > 0 {
                assert(text[j] == text.drop_first()[j - 1]);
            }
        }
    }
}

/// `lines` with `(piece, style)` added at the end of the last line; an
/// empty piece adds nothing.
pub open spec fn on_last(lines: Seq<Seq<SpanView>>, piece: Seq<char>, style: Style) -> Seq<Seq<SpanView>> {
    if piece.len() == 0 {
        lines
    } else {
        lines.update(lines.len() - 1, lines.last().push((piece, style)))
    }
}

/// `lines` after `text` is appended in `style`: the text up to each
/// `'\n'` goes on the last line, and each `'\n'` starts a new line.
pub open spec fn pushed_text(lines: Seq<Seq<SpanView>>, text: Seq<char>, style: Style) -> Seq<Seq<SpanView>>
    decreases text.len(),
{
    let i = newline_at(text);
    if i < 0 || i >= text.len() {
        on_last(lines, text, style)
    } else {
        pushed_text(on_last(lines, text.take(i), style).push(seq![]), text.skip(i + 1), style)
    }
}

/// A text without `'\n'` followed by one starting with `'\n'` has its
/// first newline right after the first part.
proof fn lemma_newline_after(p: Seq<char>, r: Seq<char>)
    requires
        forall|j: int| 0 <= j < p.len() ==> p[j] != '\n',
        r.len() > 0,
        r[0] == '\n',
    ensures
        newline_at(p + r) == p.len(),
    decreases p.len(),
{
    if p.len() > 0 {
        assert((p + r).drop_first() =~= p.drop_first() + r);
        lemma_newline_after(p.drop_first(), r);
    } else {
        assert(p + r =~= r);
    }
}

/// A text without `'\n'` is pushed onto the last line whole.
proof fn lemma_no_newline(p: Seq<char>)
    requires
        forall|j: int| 0 <= j < p.len() ==> p[j] != '\n',
    ensures
        newline_at(p) == p.len(),
    decreases p.len(),
{
    if p.len() > 0 {
        lemma_no_newline(p.drop_first());
    }
}

/// `lines` with ` (url)` appended in `style`, when `url` is not empty.
pub open spec fn url_suffix(lines: Seq<Seq<SpanView>>, url: Seq<char>, style: Style) -> Seq<Seq<SpanView>> {
    if url.len() == 0 {
        lines
    } else {
        pushed_text(pushed_text(pushed_text(lines, " ("@, style), url, style), ")"@, style)
    }
}

/// The lines after inline node `node` is rendered in style `base` at the
/// end of `lines`.
pub open spec fn inline_lines(node: MdNode, base: Style, theme: Theme, lines: Seq<Seq<SpanView>>) -> Seq<Seq<SpanView>>
    decreases node, 1nat, 0int,
{
    let n = node.children@.len() as int;
    match node.kind {
        NodeKind::Text(t) => pushed_text(lines, t@, base),
        NodeKind::SoftBreak => pushed_text(lines, " "@, base),
        NodeKind::LineBreak => lines.push(seq![]),
        NodeKind::Code(c) => pushed_text(lines, c@, merged(base, theme.code_inline)),
        NodeKind::Emph => children_lines(node, merged(base, theme.emph), theme, lines, n),
        NodeKind::Strong => children_lines(node, merged(base, theme.strong), theme, lines, n),
        NodeKind::Strikethrough => children_lines(node, merged(base, theme.strikethrough), theme, lines, n),
        NodeKind::Link(url) => url_suffix(
            children_lines(node, merged(base, theme.link_text), theme, lines, n),
            url@,
            merged(base, theme.link_url),
        ),
        NodeKind::Image(url) => url_suffix(
            children_lines(
                node,
                merged(base, theme.image_alt),
                theme,
                pushed_text(lines, "🖼 "@, merged(base, theme.image_alt)),
                n,
            ),
            url@,
            merged(base, theme.link_url),
        ),
        NodeKind::HtmlInline(h) => pushed_text(lines, h@, merged(base, theme.code_inline)),
        NodeKind::ShortCode(e) => pushed_text(lines, e@, base),
        _ => children_lines(node, base, theme, lines, n),
    }
}

/// The lines after the first `n` children of `node` are rendered in
/// `style` at the end of `lines`.
pub open spec fn children_lines(node: MdNode, style: Style, theme: Theme, lines: Seq<Seq<SpanView>>, n: int) -> Seq<
    Seq<SpanView>,
>
    decreases node, 0nat, n,
{
    if n <= 0 || n > node.children@.len() {
        lines
    } else {
        proof {
            assert(decreases_to!(node => node.children@[n - 1]));
        }
        inline_lines(node.children@[n - 1], style, theme, children_lines(node, style, theme, lines, n - 1))
    }
}

proof fn lemma_newline_free(text: Seq<char>)
    requires
        forall|j: int| 0 <= j < text.len() ==> text[j] != '\n',
    ensures
        newline_at(text) == text.len(),
    decreases text.len(),
{
    if text.len() > 0 {
        assert forall|j: int| 0 <= j < text.drop_first().len() implies text.drop_first()[j] != '\n' by {
            assert(text.drop_first()[j] == text[j + 1]);
        }
        lemma_newline_free(text.drop_first());
    }
}

/// The theme style an emphasis kind lays over its text.
pub open spec fn emphasis_style(kind: NodeKind, theme: Theme) -> Style {
    match kind {
        NodeKind::Emph => theme.emph,
        NodeKind::Strong => theme.strong,
        _ => theme.strikethrough,
    }
}

/// A code span goes on the current line in the base style with the theme's
/// inline-code style laid over it.
pub proof fn lemma_code_span(node: MdNode, base: Style, theme: Theme, lines: Seq<Seq<SpanView>>, t: Seq<char>)
    requires
        node.kind matches NodeKind::Code(c) && c@ == t,
        lines.len() > 0,
        t.len() > 0,
        forall|j: int| 0 <= j < t.len() ==> t[j] != '\n',
    ensures
        inline_lines(node, base, theme, lines) == lines.update(
            lines.len() - 1,
            lines.last().push((t, merged(base, theme.code_inline))),
        ),
{
    lemma_newline_free(t);
}

/// Emphasis, strong emphasis and strikethrough around one run of text: the
/// text goes on the current line in the base style with the theme's
/// emphasis laid over it (italic under the default theme), its strong style
/// (bold), or its strikethrough style.
pub proof fn lemma_emphasis_text(node: MdNode, base: Style, theme: Theme, lines: Seq<Seq<SpanView>>, t: Seq<char>)
    requires
        node.kind is Emph || node.kind is Strong || node.kind is Strikethrough,
        node.children@.len() == 1,
        node.children@[0].kind matches NodeKind::Text(x) && x@ == t,
        lines.len() > 0,
        t.len() > 0,
        forall|j: int| 0 <= j < t.len() ==> t[j] != '\n',
    ensures
        inline_lines(node, base, theme, lines) == lines.update(
            lines.len() - 1,
            lines.last().push((t, merged(base, emphasis_style(node.kind, theme)))),
        ),
{
    let st = merged(base, emphasis_style(node.kind, theme));
    assert(children_lines(node, st, theme, lines, 0) == lines);
    lemma_newline_free(t);
    assert(inline_lines(node.children@[0], st, theme, lines) == on_last(lines, t, st));
    assert(children_lines(node, st, theme, lines, 1) == inline_lines(node.children@[0], st, theme, lines));
}

/// Under the default theme emphasis is italic and not bold, strong emphasis
/// bold and not italic.
pub proof fn lemma_default_emphasis(theme: Theme)
    requires
        crate::theme::is_dark_theme(theme),
    ensures
        merged(crate::style::plain_style(), theme.emph).italic,
        !merged(crate::style::plain_style(), theme.emph).bold,
        merged(crate::style::plain_style(), theme.strong).bold,
        !merged(crate::style::plain_style(), theme.strong).italic,
{
}

/// The links recorded while inline node `node` is rendered in style
/// `base` at the end of `lines`: one per link whose text stays on one line
/// and is not empty, with its line, span range and URL.
pub open spec fn inline_links(node: MdNode, base: Style, theme: Theme, lines: Seq<Seq<SpanView>>) -> Seq<
    (int, int, int, Seq<char>),
>
    decreases node, 1nat, 0int,
{
    let n = node.children@.len() as int;
    match node.kind {
        NodeKind::Text(_) => seq![],
        NodeKind::SoftBreak => seq![],
        NodeKind::LineBreak => seq![],
        NodeKind::Code(_) => seq![],
        NodeKind::HtmlInline(_) => seq![],
        NodeKind::ShortCode(_) => seq![],
        NodeKind::Emph => children_links(node, merged(base, theme.emph), theme, lines, n),
        NodeKind::Strong => children_links(node, merged(base, theme.strong), theme, lines, n),
        NodeKind::Strikethrough => children_links(node, merged(base, theme.strikethrough), theme, lines, n),
        NodeKind::Link(url) => {
            let ts = merged(base, theme.link_text);
            let after = children_lines(node, ts, theme, lines, n);
            let inner = children_links(node, ts, theme, lines, n);
            if after.len() == lines.len() && lines.last().len() < after.last().len() {
                inner.push((lines.len() - 1, lines.last().len() as int, after.last().len() as int, url@))
            } else {
                inner
            }
        },
        NodeKind::Image(_) => {
            let alt = merged(base, theme.image_alt);
            children_links(node, alt, theme, pushed_text(lines, "🖼 "@, alt), n)
        },
        _ => children_links(node, base, theme, lines, n),
    }
}

/// The links recorded while the first `n` children of `node` are rendered
/// in `style` at the end of `lines`.
pub open spec fn children_links(node: MdNode, style: Style, theme: Theme, lines: Seq<Seq<SpanView>>, n: int) -> Seq<
    (int, int, int, Seq<char>),
>
    decreases node, 0nat, n,
{
    if n <= 0 || n > node.children@.len() {
        seq![]
    } else {
        proof {
            assert(decreases_to!(node => node.children@[n - 1]));
        }
        children_links(node, style, theme, lines, n - 1) + inline_links(
            node.children@[n - 1],
            style,
            theme,
            children_lines(node, style, theme, lines, n - 1),
        )
    }
}

/// The lines inline rendering starts from: `lines`, or one empty line
/// when there are none.
pub open spec fn started(lines: Seq<Seq<SpanView>>) -> Seq<Seq<SpanView>> {
    if lines.len() == 0 {
        seq![seq![]]
    } else {
        lines
    }
}

/// Add `span` at the end of the last line.
fn push_on_last(out: &mut Vec<StyledLine>, span: StyledSpan)
    requires
        old(out)@.len() > 0,
    ensures
        final(out)@.len() == old(out)@.len(),
        lines_grow(old(out)@, final(out)@),
        final(out)@[final(out)@.len() - 1].spans@ == old(out)@[old(out)@.len() - 1].spans@.push(span),
        forall|k: int| 0 <= k < old(out)@.len() - 1 ==> #[trigger] final(out)@[k] == old(out)@[k],
        span.text@.len() > 0 ==> lines_view(final(out)@) == on_last(lines_view(old(out)@), span.text@, span.style),
{
    let ghost pre = out@;
    let mut last = out.pop().unwrap();
    last.spans.push(span);
    out.push(last);
    proof {
        let n = pre.len();
        assert(spans_view(out@[n - 1].spans@) =~= spans_view(pre[n - 1].spans@).push((span.text@, span.style)));
        if span.text@.len() > 0 {
            assert(lines_view(out@) =~= on_last(lines_view(pre), span.text@, span.style));
        }
    }
}

/// Append `text` in `style` to the last line; each `'\n'` in it starts a
/// new line. Empty pieces add no span.
pub fn push(out: &mut Vec<StyledLine>, text: &str, style: Style)
    requires
        old(out)@.len() > 0,
    ensures
        lines_grow(old(out)@, final(out)@),
        lines_view(final(out)@) == pushed_text(lines_view(old(out)@), text@, style),
{
    let chars = str_chars(text);
    let mut piece: Vec<char> = Vec::new();
    let mut i: usize = 0;
    assert(seq![] + text@.skip(0) =~= text@);
    while i < chars.len()
        invariant
            i <= chars@.len(),
            chars@ == text@,
            out@.len() > 0,
            lines_grow(old(out)@, out@),
            forall|j: int| 0 <= j < piece@.len() ==> piece@[j] != '\n',
            pushed_text(lines_view(old(out)@), text@, style) == pushed_text(
                lines_view(out@),
                piece@ + text@.skip(i as int),
                style,
            ),
        decreases chars@.len() - i,
    {
        let ghost before = out@;
        let ghost p = piece@;
        if chars[i] == '\n' {
            proof {
                let whole = p + text@.skip(i as int);
                assert(text@.skip(i as int)[0] == '\n');
                lemma_newline_after(p, text@.skip(i as int));
                assert(whole.take(p.len() as int) =~= p);
                assert(whole.skip(p.len() as int + 1) =~= text@.skip(i + 1));
            }
            if piece.len() > 0 {
                let t = string_from_chars(piece.as_slice());
                push_on_last(out, StyledSpan::new(t.as_str(), style));
            }
            let ghost mid = out@;
            let fresh = StyledLine::new();
            assert(spans_view(fresh.spans@) =~= seq![]);
            out.push(fresh);
            proof {
                assert(lines_view(out@) =~= lines_view(mid).push(seq![]));
                assert(lines_view(mid) == on_last(lines_view(before), p, style));
            }
            piece = Vec::new();
            proof {
                assert(piece@ + text@.skip(i + 1) =~= text@.skip(i + 1));
            }
        } else {
            piece.push(chars[i]);
            proof {
                assert(piece@ + text@.skip(i + 1) =~= p + text@.skip(i as int));
            }
        }
        proof {
            lemma_grow_trans(old(out)@, before, out@);
        }
        i = i + 1;
    }
    proof {
        assert(piece@ + text@.skip(i as int) =~= piece@);
        lemma_no_newline(piece@);
    }
    if piece.len() > 0 {
        let ghost before = out@;
        let t = string_from_chars(piece.as_slice());
        push_on_last(out, StyledSpan::new(t.as_str(), style));
        proof {
            lemma_grow_trans(old(out)@, before, out@);
        }
    }
}

/// Render inline children of `parent`, appending styled spans to `out` and
/// recording any inline links into `links`. New lines are produced when a
/// hard line break is encountered.
pub fn render_inlines(
    parent: &MdNode,
    base: Style,
    theme: &Theme,
    out: &mut Vec<StyledLine>,
    links: &mut Vec<Link>,
)
    requires
        links_fit(old(links)@, old(out)@),
    ensures
        final(out)@.len() > 0,
        lines_grow(old(out)@, final(out)@),
        links_fit(final(links)@, final(out)@),
        lines_view(final(out)@) == children_lines(
            *parent,
            base,
            *theme,
            started(lines_view(old(out)@)),
            parent.children@.len() as int,
        ),
        links_view(final(links)@) == links_view(old(links)@) + children_links(
            *parent,
            base,
            *theme,
            started(lines_view(old(out)@)),
            parent.children@.len() as int,
        ),
{
    if out.len() == 0 {
        let fresh = StyledLine::new();
        assert(spans_view(fresh.spans@) =~= seq![]);
        out.push(fresh);
        assert(lines_view(out@) =~= seq![seq![]]);
    }
    render_children(parent, base, theme, out, links);
}

fn render_children(
    node: &MdNode,
    style: Style,
    theme: &Theme,
    out: &mut Vec<StyledLine>,
    links: &mut Vec<Link>,
)
    requires
        old(out)@.len() > 0,
        links_fit(old(links)@, old(out)@),
    ensures
        final(out)@.len() > 0,
        lines_grow(old(out)@, final(out)@),
        links_fit(final(links)@, final(out)@),
        lines_view(final(out)@) == children_lines(
            *node,
            style,
            *theme,
            lines_view(old(out)@),
            node.children@.len() as int,
        ),
        links_view(final(links)@) == links_view(old(links)@) + children_links(
            *node,
            style,
            *theme,
            lines_view(old(out)@),
            node.children@.len() as int,
        ),
    decreases node, 0nat,
{
    let mut i: usize = 0;
    assert(links_view(links@) =~= links_view(old(links)@) + seq![]);
    while i < node.children.len()
        invariant
            i <= node.children@.len(),
            out@.len() > 0,
            lines_grow(old(out)@, out@),
            links_fit(links@, out@),
            lines_view(out@) == children_lines(*node, style, *theme, lines_view(old(out)@), i as int),
            links_view(links@) == links_view(old(links)@) + children_links(
                *node,
                style,
                *theme,
                lines_view(old(out)@),
                i as int,
            ),
        decreases node.children@.len() - i,
    {
        let ghost before = out@;
        let ghost before_links = links@;
        proof {
            assert(decreases_to!(node => node.children@[i as int]));
        }
        render_inline(&node.children[i], style, theme, out, links);
        proof {
            lemma_grow_trans(old(out)@, before, out@);
            assert(links_view(links@) =~= links_view(old(links)@) + children_links(
                *node,
                style,
                *theme,
                lines_view(old(out)@),
                i + 1,
            ));
        }
        i = i + 1;
    }
}

/// Append ` (url)` in the link-URL style.
fn push_url(out: &mut Vec<StyledLine>, url: &str, base: Style, theme: &Theme)
    requires
        old(out)@.len() > 0,
        url@.len() > 0,
    ensures
        lines_grow(old(out)@, final(out)@),
        lines_view(final(out)@) == url_suffix(lines_view(old(out)@), url@, merged(base, theme.link_url)),
{
    let s = base.merge(theme.link_url);
    let ghost a = out@;
    push(out, " (", s);
    let ghost b = out@;
    push(out, url, s);
    let ghost c = out@;
    push(out, ")", s);
    proof {
        lemma_grow_trans(a, b, c);
        lemma_grow_trans(a, c, out@);
    }
}

fn push_fitting(out: &mut Vec<StyledLine>, links: &Vec<Link>, text: &str, style: Style)
    requires
        old(out)@.len() > 0,
        links_fit(links@, old(out)@),
    ensures
        final(out)@.len() > 0,
        lines_grow(old(out)@, final(out)@),
        links_fit(links@, final(out)@),
        lines_view(final(out)@) == pushed_text(lines_view(old(out)@), text@, style),
{
    push(out, text, style);
    proof {
        lemma_links_keep_fitting(links@, old(out)@, out@);
    }
}

fn render_inline(
    node: &MdNode,
    base: Style,
    theme: &Theme,
    out: &mut Vec<StyledLine>,
    links: &mut Vec<Link>,
)
    requires
        old(out)@.len() > 0,
        links_fit(old(links)@, old(out)@),
    ensures
        final(out)@.len() > 0,
        lines_grow(old(out)@, final(out)@),
        links_fit(final(links)@, final(out)@),
        lines_view(final(out)@) == inline_lines(*node, base, *theme, lines_view(old(out)@)),
        links_view(final(links)@) == links_view(old(links)@) + inline_links(
            *node,
            base,
            *theme,
            lines_view(old(out)@),
        ),
    decreases node, 1nat,
{
    assert(links_view(links@) =~= links_view(old(links)@) + seq![]);
    match &node.kind {
        NodeKind::Text(text) => push_fitting(out, links, text.as_str(), base),
        NodeKind::SoftBreak => push_fitting(out, links, " ", base),
        NodeKind::LineBreak => {
            let fresh = StyledLine::new();
            assert(spans_view(fresh.spans@) =~= seq![]);
            out.push(fresh);
            assert(lines_view(out@) =~= lines_view(old(out)@).push(seq![]));
            proof {
                lemma_links_keep_fitting(links@, old(out)@, out@);
            }
        },
        NodeKind::Code(code) => push_fitting(out, links, code.as_str(), base.merge(theme.code_inline)),
        NodeKind::Emph => render_children(node, base.merge(theme.emph), theme, out, links),
        NodeKind::Strong => render_children(node, base.merge(theme.strong), theme, out, links),
        NodeKind::Strikethrough => render_children(node, base.merge(theme.strikethrough), theme, out, links),
        NodeKind::Link(url) => {
            let text_style = base.merge(theme.link_text);
            let line_before = out.len() - 1;
            let span_before = out[line_before].spans.len();
            let ghost lines0 = lines_view(out@);
            let ghost links0 = links@;
            render_children(node, text_style, theme, out, links);
            let ghost inner_links = links@;
            // Only record links that stayed on the same line. Multi-line
            // links can't host an in-line focus highlight cleanly yet.
            if out.len() - 1 == line_before {
                let span_after = out[line_before].spans.len();
                if span_before < span_after {
                    links.push(Link {
                        line: line_before,
                        span_range: Range { start: span_before, end: span_after },
                        url: url.clone(),
                    });
                    assert(links_view(links@) =~= links_view(inner_links).push(
                        (line_before as int, span_before as int, span_after as int, url@),
                    ));
                }
            }
            proof {
                assert(lines0.last().len() == span_before);
                assert(lines_view(out@).len() == out@.len());
                assert(lines_view(out@).last().len() == out@.last().spans@.len());
            }
            if !url.as_str().is_empty() {
                let ghost mid = out@;
                push_url(out, url.as_str(), base, theme);
                proof {
                    lemma_links_keep_fitting(links@, mid, out@);
                    lemma_grow_trans(old(out)@, mid, out@);
                }
            }
        },
        NodeKind::Image(url) => {
            let alt_style = base.merge(theme.image_alt);
            let ghost a = out@;
            push_fitting(out, links, "🖼 ", alt_style);
            let ghost b = out@;
            render_children(node, alt_style, theme, out, links);
            proof {
                lemma_grow_trans(a, b, out@);
            }
            if !url.as_str().is_empty() {
                let ghost mid = out@;
                push_url(out, url.as_str(), base, theme);
                proof {
                    lemma_links_keep_fitting(links@, mid, out@);
                    lemma_grow_trans(old(out)@, mid, out@);
                }
            }
        },
        NodeKind::HtmlInline(html) => push_fitting(out, links, html.as_str(), base.merge(theme.code_inline)),
        NodeKind::ShortCode(emoji) => push_fitting(out, links, emoji.as_str(), base),
        _ => render_children(node, base, theme, out, links),
    }
}

} // verus!
