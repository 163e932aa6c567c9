//! GFM table rendering. Column widths come from styled cell content (so ANSI
//! escapes are never counted); cells are laid out inside Unicode
//! box-drawing borders, aligned as the table's delimiter row asks.

use vstd::prelude::*;

use crate::ast::{MdNode, NodeKind, TableAlign};
use crate::inline::{children_lines, render_inlines};
use crate::render::Link;
use crate::style::{
    copy_spans, lines_view, plain_style, span_view, spans_view, SpanView, Style, StyledLine, StyledSpan,
};
use crate::text::{repeat, repeat_char};
use crate::theme::Theme;
use crate::width::{
    is_box_glyph, lemma_views_width_concat, lemma_width_views, spans_width, spans_width_of, spans_width_sum, str_width,
    text_width, views_width, views_width_sum,
};

verus! {

#[derive(Debug, Clone, Copy, PartialEq, Eq, Structural)]
pub enum Align {
    Left,
    Center,
    Right,
}

/// How a delimiter-row alignment lays out a cell: unspecified means left.
pub open spec fn align_of(a: TableAlign) -> Align {
    match a {
        TableAlign::Unspecified | TableAlign::Left => Align::Left,
        TableAlign::Center => Align::Center,
        TableAlign::Right => Align::Right,
    }
}

impl Align {
    pub fn from_table(a: TableAlign) -> (r: Align)
        ensures
            r == align_of(a),
    {
        match a {
            TableAlign::Unspecified | TableAlign::Left => Align::Left,
            TableAlign::Center => Align::Center,
            TableAlign::Right => Align::Right,
        }
    }
}

pub struct Row {
    pub header: bool,
    pub cells: Vec<Vec<StyledSpan>>,
}

/// The padding a cell of width `w` gets to reach `target`, left and right.
pub open spec fn padding(w: int, target: int, align: Align) -> (int, int) {
    let pad = if target > w { target - w } else { 0 };
    match align {
        Align::Left => (0, pad),
        Align::Right => (pad, 0),
        Align::Center => (pad / 2, pad - pad / 2),
    }
}

/// A run of `n` spaces as an unstyled span; nothing when `n` is zero.
pub open spec fn pad_span(n: int) -> Seq<(Seq<char>, Style)> {
    if n > 0 {
        seq![(repeat_char(' ', n as nat), plain_style())]
    } else {
        Seq::empty()
    }
}

/// `extra`, when given, laid over each span's style.
pub open spec fn with_extra(cell: Seq<(Seq<char>, Style)>, extra: Option<Style>) -> Seq<(Seq<char>, Style)> {
    cell.map_values(|p: (Seq<char>, Style)| (p.0, match extra {
        Some(e) => crate::style::merged(p.1, e),
        None => p.1,
    }))
}

/// A cell padded to `target` columns.
pub open spec fn padded_cell(cell: Seq<SpanView>, target: usize, align: Align, extra: Option<Style>) -> Seq<SpanView> {
    let (l, r) = padding(views_width(cell) as int, target as int, align);
    pad_span(l) + with_extra(cell, extra) + pad_span(r)
}

proof fn lemma_width_sum_push(s: Seq<StyledSpan>, x: StyledSpan)
    ensures
        spans_width_sum(s.push(x)) == spans_width_sum(s) + str_width(x.text@) as nat,
{
    assert(s.push(x).drop_last() =~= s);
}

fn spaces_span(n: usize) -> (s: StyledSpan)
    ensures
        span_view(s) == (repeat_char(' ', n as nat), plain_style()),
        str_width(s.text@) == n,
{
    let text = repeat(' ', n);
    let _ = text_width(text.as_str());
    StyledSpan { text, style: Style::new() }
}

/// Pad `cell` to `target_width` columns as `align` asks, laying
/// `extra_style` over its spans when given.
pub fn pad_cell(cell: &Vec<StyledSpan>, target_width: usize, align: Align, extra_style: Option<Style>) -> (out: Vec<StyledSpan>)
    ensures
        spans_view(out@) == padded_cell(spans_view(cell@), target_width, align, extra_style),
        // A padded cell is exactly as wide as its column: the target, or the
        // cell itself when it is wider.
        spans_width_sum(cell@) <= usize::MAX ==> spans_width_sum(out@) == if target_width >= spans_width_sum(cell@) {
            target_width as nat
        } else {
            spans_width_sum(cell@)
        },
{
    let w = spans_width(cell.as_slice());
    let pad = if target_width > w { target_width - w } else { 0 };
    let (left, right) = match align {
        Align::Left => (0, pad),
        Align::Right => (pad, 0),
        Align::Center => {
            let l = pad / 2;
            (l, pad - l)
        },
    };
    let mut out: Vec<StyledSpan> = Vec::new();
    if left > 0 {
        let sp = spaces_span(left);
        proof {
            lemma_width_sum_push(out@, sp);
        }
        out.push(sp);
    }
    let ghost lead = spans_view(out@);
    assert(spans_width_sum(out@) == left);
    assert(lead =~= pad_span(left as int));
    let mut i: usize = 0;
    while i < cell.len()
        invariant
            i <= cell@.len(),
            out@.len() == lead.len() + i,
            spans_view(out@) == lead + with_extra(spans_view(cell@.subrange(0, i as int)), extra_style),
            spans_width_sum(out@) == left + spans_width_sum(cell@.subrange(0, i as int)),
        decreases cell@.len() - i,
    {
        let mut s = cell[i].copy();
        if let Some(extra) = extra_style {
            s.style = s.style.merge(extra);
        }
        let ghost pre = out@;
        proof {
            lemma_width_sum_push(out@, s);
            lemma_width_sum_push(cell@.subrange(0, i as int), cell@[i as int]);
            assert(cell@.subrange(0, i as int).push(cell@[i as int]) =~= cell@.subrange(0, i as int + 1));
        }
        out.push(s);
        proof {
            let want = lead + with_extra(spans_view(cell@.subrange(0, i as int + 1)), extra_style);
            let old_want = lead + with_extra(spans_view(cell@.subrange(0, i as int)), extra_style);
            assert forall|j: int| 0 <= j < out@.len() implies spans_view(out@)[j] == want[j] by {
                if j < pre.len() {
                    assert(out@[j] == pre[j]);
                    assert(spans_view(pre)[j] == old_want[j]);
                    if j >= lead.len() {
                        assert(cell@.subrange(0, i as int + 1)[j - lead.len()] == cell@.subrange(0, i as int)[j - lead.len()]);
                    }
                } else {
                    assert(cell@.subrange(0, i as int + 1)[j - lead.len()] == cell@[i as int]);
                }
            }
            assert(spans_view(out@) =~= want);
        }
        i = i + 1;
    }
    assert(cell@.subrange(0, cell@.len() as int) =~= cell@);
    if right > 0 {
        let sp = spaces_span(right);
        proof {
            lemma_width_sum_push(out@, sp);
        }
        out.push(sp);
    }
    assert(w == spans_width_of(cell@));
    proof {
        lemma_width_views(cell@);
    }
    assert(spans_view(out@) =~= padded_cell(spans_view(cell@), target_width, align, extra_style));
    out
}

/// The cells of each row as span views.
pub open spec fn cells_view(rows: Seq<Row>) -> Seq<Seq<Seq<SpanView>>> {
    rows.map_values(|r: Row| r.cells@.map_values(|c: Vec<StyledSpan>| spans_view(c@)))
}

/// Widest cell of column `i` among the first `n` rows (zero for none).
pub open spec fn column_max(rows: Seq<Seq<Seq<SpanView>>>, i: int, n: int) -> nat
    decreases n,
{
    if n <= 0 {
        0
    } else {
        let prev = column_max(rows, i, n - 1);
        let w = views_width(rows[n - 1][i]) as nat;
        if w > prev { w } else { prev }
    }
}

/// The width of column `i`: its widest cell, at least one column so that
/// an empty column still looks like one.
pub open spec fn column_width(rows: Seq<Seq<Seq<SpanView>>>, i: int) -> nat {
    let m = column_max(rows, i, rows.len() as int);
    if m < 1 { 1 } else { m }
}

pub open spec fn rows_have_cols(rows: Seq<Row>, col_count: int) -> bool {
    forall|r: int| 0 <= r < rows.len() ==> #[trigger] rows[r].cells@.len() == col_count
}

proof fn lemma_column_max_bound(rows: Seq<Seq<Seq<SpanView>>>, i: int, n: int)
    requires
        0 <= n <= rows.len(),
    ensures
        column_max(rows, i, n) <= usize::MAX,
        forall|r: int| 0 <= r < n ==> views_width(#[trigger] rows[r][i]) <= column_max(rows, i, n),
    decreases n,
{
    if n > 0 {
        lemma_column_max_bound(rows, i, n - 1);
    }
}

/// Column widths: each column as wide as its widest cell, at least one.
pub fn compute_widths(rows: &Vec<Row>, col_count: usize) -> (widths: Vec<usize>)
    requires
        rows_have_cols(rows@, col_count as int),
    ensures
        widths@.len() == col_count,
        forall|i: int| 0 <= i < col_count ==> #[trigger] widths@[i] == column_width(cells_view(rows@), i),
{
    let ghost cv = cells_view(rows@);
    let mut widths: Vec<usize> = Vec::new();
    let mut i: usize = 0;
    while i < col_count
        invariant
            i <= col_count,
            rows_have_cols(rows@, col_count as int),
            widths@.len() == i,
            cv == cells_view(rows@),
            forall|j: int| 0 <= j < i ==> #[trigger] widths@[j] == column_width(cv, j),
        decreases col_count - i,
    {
        let mut w: usize = 0;
        let mut r: usize = 0;
        while r < rows.len()
            invariant
                r <= rows@.len(),
                i < col_count,
                rows_have_cols(rows@, col_count as int),
                cv == cells_view(rows@),
                w == column_max(cv, i as int, r as int),
            decreases rows@.len() - r,
        {
            assert(rows@[r as int].cells@.len() == col_count);
            let cw = spans_width(rows[r].cells[i].as_slice());
            proof {
                lemma_width_views(rows@[r as int].cells@[i as int]@);
                assert(cv[r as int][i as int] == spans_view(rows@[r as int].cells@[i as int]@));
            }
            if cw > w {
                w = cw;
            }
            r = r + 1;
        }
        if w < 1 {
            w = 1;
        }
        widths.push(w);
        i = i + 1;
    }
    widths
}

#[derive(Debug, Clone, Copy, PartialEq, Eq, Structural)]
pub enum BorderKind {
    Top,
    HeaderSep,
    Bottom,
}

/// The (left, junction, right) glyphs of a border; the fill is `─`.
pub open spec fn glyphs_of(kind: BorderKind) -> (char, char, char) {
    match kind {
        BorderKind::Top => ('┌', '┬', '┐'),
        BorderKind::HeaderSep => ('├', '┼', '┤'),
        BorderKind::Bottom => ('└', '┴', '┘'),
    }
}

impl BorderKind {
    pub fn glyphs(self) -> (g: (char, char, char, char))
        ensures
            (g.0, g.1, g.2) == glyphs_of(self),
            g.3 == '─',
    {
        match self {
            BorderKind::Top => ('┌', '┬', '┐', '─'),
            BorderKind::HeaderSep => ('├', '┼', '┤', '─'),
            BorderKind::Bottom => ('└', '┴', '┘', '─'),
        }
    }
}

/// The fills and junctions of a border over the first `n` columns.
pub open spec fn border_body(widths: Seq<usize>, n: int, junction: char) -> Seq<char>
    decreases n,
{
    if n <= 0 {
        Seq::empty()
    } else {
        border_body(widths, n - 1, junction) + repeat_char('─', (widths[n - 1] + 2) as nat) + if n < widths.len() {
            seq![junction]
        } else {
            Seq::empty()
        }
    }
}

/// A horizontal border: left glyph, `─` runs two wider than each column
/// joined by junctions, right glyph.
pub open spec fn border_text(widths: Seq<usize>, kind: BorderKind) -> Seq<char> {
    let (l, j, r) = glyphs_of(kind);
    seq![l] + border_body(widths, widths.len() as int, j) + seq![r]
}

/// The columns the first `n` columns take on a line: each column's
/// width, two spaces of padding and one border glyph.
pub open spec fn cols_width(widths: Seq<usize>, n: int) -> nat
    decreases n,
{
    if n <= 0 {
        0
    } else {
        cols_width(widths, n - 1) + widths[n - 1] as nat + 3
    }
}

/// How wide every line of a table with column widths `widths` is: the
/// leading border glyph and each column.
pub open spec fn table_width(widths: Seq<usize>) -> nat {
    1 + cols_width(widths, widths.len() as int)
}

proof fn lemma_border_body(widths: Seq<usize>, n: int, junction: char)
    requires
        0 <= n <= widths.len(),
        is_box_glyph(junction),
    ensures
        border_body(widths, n, junction).len() + (if n == widths.len() && n > 0 { 1int } else { 0int }) == cols_width(
            widths,
            n,
        ),
        forall|i: int| 0 <= i < border_body(widths, n, junction).len() ==> is_box_glyph(
            #[trigger] border_body(widths, n, junction)[i],
        ),
    decreases n,
{
    if n > 0 {
        lemma_border_body(widths, n - 1, junction);
        let prev = border_body(widths, n - 1, junction);
        let fill = repeat_char('─', (widths[n - 1] + 2) as nat);
        let tail: Seq<char> = if n < widths.len() { seq![junction] } else { Seq::empty() };
        assert(border_body(widths, n, junction) == prev + fill + tail);
        assert forall|i: int| 0 <= i < border_body(widths, n, junction).len() implies is_box_glyph(
            #[trigger] border_body(widths, n, junction)[i],
        ) by {
            let b = border_body(widths, n, junction);
            if i < prev.len() {
                assert(b[i] == prev[i]);
            } else if i < prev.len() + fill.len() {
                assert(b[i] == fill[i - prev.len()]);
            } else {
                assert(b[i] == tail[i - prev.len() - fill.len()]);
            }
        }
    }
}

/// A border is drawn wholly in Box Drawing glyphs, and as wide as the
/// table.
proof fn lemma_border_text(widths: Seq<usize>, kind: BorderKind)
    requires
        widths.len() > 0,
    ensures
        border_text(widths, kind).len() == table_width(widths),
        forall|i: int| 0 <= i < border_text(widths, kind).len() ==> is_box_glyph(#[trigger] border_text(widths, kind)[i]),
{
    let (l, j, r) = glyphs_of(kind);
    lemma_border_body(widths, widths.len() as int, j);
    let body = border_body(widths, widths.len() as int, j);
    let t = border_text(widths, kind);
    assert(t == seq![l] + body + seq![r]);
    assert forall|i: int| 0 <= i < t.len() implies is_box_glyph(#[trigger] t[i]) by {
        if i > 0 && i < t.len() - 1 {
            assert(t[i] == body[i - 1]);
        }
    }
}

pub fn border_line(widths: &Vec<usize>, kind: BorderKind, style: Style) -> (line: StyledLine)
    ensures
        spans_view(line.spans@) == seq![(border_text(widths@, kind), style)],
        widths@.len() > 0 ==> views_width_sum(spans_view(line.spans@)) == table_width(widths@),
{
    let (l, j, r, f) = kind.glyphs();
    let mut buf: Vec<char> = Vec::new();
    buf.push(l);
    let mut i: usize = 0;
    while i < widths.len()
        invariant
            i <= widths@.len(),
            f == '─',
            buf@ == seq![l] + border_body(widths@, i as int, j),
        decreases widths@.len() - i,
    {
        let ghost start = buf@;
        let w = widths[i];
        let mut k: usize = 0;
        while k < w
            invariant
                k <= w,
                f == '─',
                buf@ == start + repeat_char('─', k as nat),
            decreases w - k,
        {
            buf.push(f);
            k = k + 1;
            assert(buf@ =~= start + repeat_char('─', k as nat));
        }
        buf.push(f);
        buf.push(f);
        assert(buf@ =~= start + repeat_char('─', (w + 2) as nat));
        if i + 1 < widths.len() {
            buf.push(j);
        }
        i = i + 1;
        assert(buf@ =~= seq![l] + border_body(widths@, i as int, j));
    }
    buf.push(r);
    assert(buf@ =~= border_text(widths@, kind));
    let text = crate::text::string_from_chars(buf.as_slice());
    if widths.len() > 0 {
        proof {
            lemma_border_text(widths@, kind);
        }
        let _ = text_width(text.as_str());
    }
    let mut line = StyledLine::new();
    line.push_span(StyledSpan { text, style });
    assert(span_view(line.spans@[0]) == (border_text(widths@, kind), style));
    assert(spans_view(line.spans@) =~= seq![(border_text(widths@, kind), style)]);
    proof {
        let v = spans_view(line.spans@);
        assert(v.drop_last() =~= Seq::<SpanView>::empty());
        assert(views_width_sum(v.drop_last()) == 0);
        assert(v.last() == (border_text(widths@, kind), style));
    }
    line
}

/// The spans of a content row after the leading border: for each cell a
/// space, the cell, a space and a border.
pub open spec fn row_body(cells: Seq<Seq<SpanView>>, n: int, border: Style) -> Seq<SpanView>
    decreases n,
{
    if n <= 0 {
        Seq::empty()
    } else {
        row_body(cells, n - 1, border) + seq![(" "@, plain_style())] + cells[n - 1] + seq![
            (" "@, plain_style()),
            ("│"@, border),
        ]
    }
}

/// The columns the first `n` cells take on a content line: each cell, the
/// space on either side and the border glyph after it.
pub open spec fn cells_width(cells: Seq<Seq<SpanView>>, n: int) -> nat
    decreases n,
{
    if n <= 0 {
        0
    } else {
        cells_width(cells, n - 1) + views_width_sum(cells[n - 1]) + 3
    }
}

/// A space and the vertical border glyph are one column each.
fn unit_widths()
    ensures
        str_width(" "@) == 1,
        str_width("│"@) == 1,
{
    proof {
        reveal_strlit(" ");
        reveal_strlit("│");
    }
    let _ = text_width(" ");
    let _ = text_width("│");
}

proof fn lemma_single_width(v: SpanView)
    ensures
        views_width_sum(seq![v]) == str_width(v.0) as nat,
{
    assert(seq![v].drop_last() =~= Seq::<SpanView>::empty());
    assert(views_width_sum(Seq::<SpanView>::empty()) == 0);
}

proof fn lemma_row_body_width(cells: Seq<Seq<SpanView>>, n: int, border: Style)
    requires
        0 <= n <= cells.len(),
        str_width(" "@) == 1,
        str_width("│"@) == 1,
    ensures
        views_width_sum(row_body(cells, n, border)) == cells_width(cells, n),
    decreases n,
{
    if n > 0 {
        lemma_row_body_width(cells, n - 1, border);
        let prev = row_body(cells, n - 1, border);
        let sp: Seq<SpanView> = seq![(" "@, plain_style())];
        let tail: Seq<SpanView> = seq![(" "@, plain_style()), ("│"@, border)];
        lemma_views_width_concat(prev, sp);
        lemma_views_width_concat(prev + sp, cells[n - 1]);
        lemma_views_width_concat(prev + sp + cells[n - 1], tail);
        lemma_single_width((" "@, plain_style()));
        lemma_views_width_concat(seq![(" "@, plain_style())], seq![("│"@, border)]);
        lemma_single_width(("│"@, border));
        assert(seq![(" "@, plain_style())] + seq![("│"@, border)] =~= tail);
    }
}

pub fn content_line(cells: &Vec<Vec<StyledSpan>>, border_style: Style) -> (line: StyledLine)
    ensures
        spans_view(line.spans@) == seq![("│"@, border_style)] + row_body(
            cells@.map_values(|c: Vec<StyledSpan>| spans_view(c@)),
            cells@.len() as int,
            border_style,
        ),
        views_width_sum(spans_view(line.spans@)) == 1 + cells_width(
            cells@.map_values(|c: Vec<StyledSpan>| spans_view(c@)),
            cells@.len() as int,
        ),
{
    unit_widths();
    let ghost cv = cells@.map_values(|c: Vec<StyledSpan>| spans_view(c@));
    let mut spans: Vec<StyledSpan> = Vec::new();
    spans.push(StyledSpan::new("│", border_style));
    let mut i: usize = 0;
    while i < cells.len()
        invariant
            i <= cells@.len(),
            cv == cells@.map_values(|c: Vec<StyledSpan>| spans_view(c@)),
            spans_view(spans@) == seq![("│"@, border_style)] + row_body(cv, i as int, border_style),
        decreases cells@.len() - i,
    {
        let ghost start = spans_view(spans@);
        let ghost start_len = spans@.len();
        spans.push(StyledSpan::plain(" "));
        let cell = copy_spans(&cells[i]);
        let ghost mid = spans@;
        let mut rest = cell;
        spans.append(&mut rest);
        spans.push(StyledSpan::plain(" "));
        spans.push(StyledSpan::new("│", border_style));
        proof {
            assert(cv[i as int] == spans_view(cells@[i as int]@));
            let want = start + seq![(" "@, plain_style())] + spans_view(cells@[i as int]@) + seq![
                (" "@, plain_style()),
                ("│"@, border_style),
            ];
            assert(spans_view(spans@).len() == want.len());
            assert forall|j: int| 0 <= j < spans@.len() implies spans_view(spans@)[j] == want[j] by {
                if j < start_len {
                    assert(spans@[j] == mid[j]);
                } else if j > start_len && j < mid.len() + spans_view(cells@[i as int]@).len() {
                    assert(spans_view(spans@)[j] == span_view(spans@[j]));
                }
            }
            assert(spans_view(spans@) =~= want);
        }
        i = i + 1;
    }
    proof {
        let body = row_body(cv, cells@.len() as int, border_style);
        lemma_row_body_width(cv, cells@.len() as int, border_style);
        lemma_views_width_concat(seq![("│"@, border_style)], body);
        lemma_single_width(("│"@, border_style));
    }
    StyledLine { spans }
}

/// Every cell fits its column: no cell of column `i` is wider than the
/// column's width, so padding brings each to exactly that width.
pub proof fn lemma_cells_fit_column(rows: Seq<Seq<Seq<SpanView>>>, i: int, r: int)
    requires
        0 <= r < rows.len(),
    ensures
        views_width(rows[r][i]) <= column_width(rows, i),
{
    lemma_column_max_bound(rows, i, rows.len() as int);
}

/// Lines joined into one: a plain single space between consecutive lines.
pub open spec fn joined_lines(lines: Seq<Seq<SpanView>>) -> Seq<SpanView>
    decreases lines.len(),
{
    if lines.len() == 0 {
        Seq::empty()
    } else if lines.len() == 1 {
        lines[0]
    } else {
        joined_lines(lines.drop_last()) + seq![(" "@, plain_style())] + lines.last()
    }
}

/// A table cell's spans: its inline content rendered unstyled, the lines a
/// hard break starts joined by single spaces.
pub open spec fn cell_view(cell: MdNode, theme: Theme) -> Seq<SpanView> {
    joined_lines(children_lines(cell, plain_style(), theme, seq![seq![]], cell.children@.len() as int))
}

/// The cells of `row`: its `TableCell` children among the first `n`.
pub open spec fn row_cells(row: MdNode, theme: Theme, n: int) -> Seq<Seq<SpanView>>
    decreases n,
{
    if n <= 0 || n > row.children@.len() {
        Seq::empty()
    } else if row.children@[n - 1].kind is TableCell {
        row_cells(row, theme, n - 1).push(cell_view(row.children@[n - 1], theme))
    } else {
        row_cells(row, theme, n - 1)
    }
}

/// The rows of `table`: its `TableRow` children among the first `n`, each
/// with whether it is a header row and its cells.
pub open spec fn table_rows(table: MdNode, theme: Theme, n: int) -> Seq<(bool, Seq<Seq<SpanView>>)>
    decreases n,
{
    if n <= 0 || n > table.children@.len() {
        Seq::empty()
    } else {
        let child = table.children@[n - 1];
        match child.kind {
            NodeKind::TableRow(h) => table_rows(table, theme, n - 1).push(
                (h, row_cells(child, theme, child.children@.len() as int)),
            ),
            _ => table_rows(table, theme, n - 1),
        }
    }
}

/// The most cells any of the first `n` rows has.
pub open spec fn most_cells(rows: Seq<(bool, Seq<Seq<SpanView>>)>, n: int) -> nat
    decreases n,
{
    if n <= 0 {
        0
    } else if rows[n - 1].1.len() > most_cells(rows, n - 1) {
        rows[n - 1].1.len()
    } else {
        most_cells(rows, n - 1)
    }
}

/// `cells` with empty cells added up to `count`.
pub open spec fn filled(cells: Seq<Seq<SpanView>>, count: nat) -> Seq<Seq<SpanView>> {
    Seq::new(count, |c: int| if c < cells.len() { cells[c] } else { Seq::empty() })
}

/// The alignment of column `c`: as the delimiter row says, left where it
/// says nothing.
pub open spec fn column_align(aligns: Seq<TableAlign>, c: int) -> Align {
    if 0 <= c < aligns.len() {
        align_of(aligns[c])
    } else {
        Align::Left
    }
}

/// A row's content line: each cell padded to its column's width and
/// alignment, with `extra` laid over a header row's text.
pub open spec fn row_line(
    cells: Seq<Seq<SpanView>>,
    widths: Seq<usize>,
    aligns: Seq<TableAlign>,
    extra: Option<Style>,
    border: Style,
) -> Seq<SpanView> {
    seq![("│"@, border)] + row_body(
        Seq::new(widths.len(), |c: int| padded_cell(cells[c], widths[c], column_align(aligns, c), extra)),
        widths.len() as int,
        border,
    )
}

/// The lines of the first `n` rows: each row's content line, and under a
/// header row a separator.
pub open spec fn rows_lines(
    rows: Seq<(bool, Seq<Seq<SpanView>>)>,
    widths: Seq<usize>,
    aligns: Seq<TableAlign>,
    theme: Theme,
    n: int,
) -> Seq<Seq<SpanView>>
    decreases n,
{
    if n <= 0 {
        Seq::empty()
    } else {
        let prev = rows_lines(rows, widths, aligns, theme, n - 1);
        let row = rows[n - 1];
        let extra = if row.0 { Some(theme.strong) } else { None };
        let line = row_line(filled(row.1, widths.len()), widths, aligns, extra, theme.thematic_break);
        if row.0 {
            prev.push(line).push(seq![(border_text(widths, BorderKind::HeaderSep), theme.thematic_break)])
        } else {
            prev.push(line)
        }
    }
}

/// The column widths of `rows` filled to `count` cells.
pub open spec fn table_widths(rows: Seq<(bool, Seq<Seq<SpanView>>)>, count: nat) -> Seq<usize> {
    let cells = rows.map_values(|r: (bool, Seq<Seq<SpanView>>)| filled(r.1, count));
    Seq::new(count, |c: int| column_width(cells, c) as usize)
}

/// The lines a table renders to: a top border, each row's content line
/// (a separator under each header row), a bottom border; nothing for a
/// table without rows or columns.
pub open spec fn table_lines(table: MdNode, theme: Theme) -> Seq<Seq<SpanView>> {
    match table.kind {
        NodeKind::Table(aligns) => {
            let rows = table_rows(table, theme, table.children@.len() as int);
            let count = most_cells(rows, rows.len() as int);
            if rows.len() == 0 || count == 0 {
                Seq::empty()
            } else {
                let widths = table_widths(rows, count);
                seq![seq![(border_text(widths, BorderKind::Top), theme.thematic_break)]] + rows_lines(
                    rows,
                    widths,
                    aligns@,
                    theme,
                    rows.len() as int,
                ) + seq![seq![(border_text(widths, BorderKind::Bottom), theme.thematic_break)]]
            }
        },
        _ => Seq::empty(),
    }
}

/// A table cell's inline content flattened onto one line: hard breaks
/// become single spaces. Links inside cells are not recorded.
pub fn collect_cell(cell: &MdNode, theme: &Theme) -> (out: Vec<StyledSpan>)
    ensures
        spans_view(out@) == cell_view(*cell, *theme),
{
    let mut tmp: Vec<StyledLine> = Vec::new();
    let fresh = StyledLine::new();
    assert(spans_view(fresh.spans@) =~= seq![]);
    tmp.push(fresh);
    assert(lines_view(tmp@) =~= seq![seq![]]);
    let mut discarded: Vec<Link> = Vec::new();
    render_inlines(cell, Style::new(), theme, &mut tmp, &mut discarded);
    let ghost orig = tmp@;
    let ghost all = lines_view(tmp@);
    assert(all == children_lines(*cell, plain_style(), *theme, seq![seq![]], cell.children@.len() as int));
    let n = tmp.len();
    let mut out: Vec<StyledSpan> = Vec::new();
    let mut rl = crate::render::reversed(tmp);
    let mut first = true;
    assert(all.take(0) =~= Seq::<Seq<SpanView>>::empty());
    assert(orig.subrange(0, n as int) =~= orig);
    while rl.len() > 0
        invariant
            n == all.len(),
            n == orig.len(),
            all == lines_view(orig),
            rl@.len() <= n,
            first == (rl@.len() == n),
            rl@ == orig.subrange(n - rl@.len(), n as int).reverse(),
            spans_view(out@) == joined_lines(all.take(n - rl@.len())),
        decreases rl@.len(),
    {
        let ghost k = n - rl@.len();
        let ghost before = out@;
        assert(rl@[rl@.len() - 1] == orig[k]);
        let line = rl.pop().unwrap();
        assert(spans_view(line.spans@) == all[k]);
        if !first {
            out.push(StyledSpan::plain(" "));
        }
        first = false;
        let ghost mid = out@;
        let mut spans = line.spans;
        out.append(&mut spans);
        proof {
            assert(rl@ =~= orig.subrange(n - rl@.len(), n as int).reverse());
            let t = all.take(k + 1);
            assert(t.last() == all[k]);
            assert(t.drop_last() =~= all.take(k));
            if k == 0 {
                assert(spans_view(out@) =~= joined_lines(t));
            } else {
                assert(spans_view(mid) =~= spans_view(before) + seq![(" "@, plain_style())]);
                assert(spans_view(out@) =~= spans_view(mid) + all[k]);
                assert(spans_view(out@) =~= joined_lines(t));
            }
        }
    }
    assert(all.take(n as int) =~= all);
    out
}

/// What the rows built so far hold: each row's header flag and its cells'
/// views.
pub open spec fn rows_view(rows: Seq<Row>) -> Seq<(bool, Seq<Seq<SpanView>>)> {
    rows.map_values(|r: Row| (r.header, r.cells@.map_values(|c: Vec<StyledSpan>| spans_view(c@))))
}

/// Every cell of the table is no wider than a `usize` can count.
pub open spec fn table_cells_fit(table: MdNode, theme: Theme) -> bool {
    let rows = table_rows(table, theme, table.children@.len() as int);
    forall|r: int, c: int|
        0 <= r < rows.len() && 0 <= c < rows[r].1.len() ==> views_width_sum(#[trigger] rows[r].1[c]) <= usize::MAX
}

proof fn lemma_cells_cols(cells: Seq<Seq<SpanView>>, widths: Seq<usize>, n: int)
    requires
        0 <= n <= cells.len(),
        n <= widths.len(),
        forall|j: int| 0 <= j < n ==> views_width_sum(#[trigger] cells[j]) == widths[j],
    ensures
        cells_width(cells, n) == cols_width(widths, n),
    decreases n,
{
    if n > 0 {
        lemma_cells_cols(cells, widths, n - 1);
        assert(views_width_sum(cells[n - 1]) == widths[n - 1]);
    }
}

/// Lines rendered for a table: a top border, one content line per row with
/// a separator under each header row, and a bottom border; nothing for a
/// table without rows or columns.
pub fn render_table(table: &MdNode, theme: &Theme, out: &mut Vec<StyledLine>)
    ensures
        final(out)@.len() >= old(out)@.len(),
        final(out)@.subrange(0, old(out)@.len() as int) == old(out)@,
        forall|k: int| old(out)@.len() <= k < final(out)@.len() ==> #[trigger] final(out)@[k].spans@.len() > 0,
        lines_view(final(out)@) == lines_view(old(out)@) + table_lines(*table, *theme),
        // Every line of the table is equally wide, borders and rows alike.
        table_cells_fit(*table, *theme) ==> forall|a: int, b: int|
            old(out)@.len() <= a < final(out)@.len() && old(out)@.len() <= b < final(out)@.len() ==> views_width_sum(
                #[trigger] spans_view(final(out)@[a].spans@),
            ) == views_width_sum(#[trigger] spans_view(final(out)@[b].spans@)),
{
    let ghost start = out@;
    let ghost aligns_spec: Seq<TableAlign> = match &table.kind {
        NodeKind::Table(a) => a@,
        _ => Seq::empty(),
    };
    let mut aligns: Vec<Align> = match &table.kind {
        NodeKind::Table(a) => {
            let mut v: Vec<Align> = Vec::new();
            let mut i: usize = 0;
            while i < a.len()
                invariant
                    i <= a@.len(),
                    v@.len() == i,
                    forall|j: int| 0 <= j < i ==> #[trigger] v@[j] == align_of(a@[j]),
                decreases a@.len() - i,
            {
                v.push(Align::from_table(a[i]));
                i = i + 1;
            }
            v
        },
        _ => {
            assert(out@.subrange(0, out@.len() as int) =~= out@);
            assert(lines_view(out@) =~= lines_view(start) + table_lines(*table, *theme));
            return;
        },
    };
    assert(aligns@.len() == aligns_spec.len());
    let ghost all_rows = table_rows(*table, *theme, table.children@.len() as int);
    let mut rows: Vec<Row> = Vec::new();
    let mut r: usize = 0;
    while r < table.children.len()
        invariant
            r <= table.children@.len(),
            rows_view(rows@) == table_rows(*table, *theme, r as int),
        decreases table.children@.len() - r,
    {
        let row_node = &table.children[r];
        let ghost before = rows@;
        if let NodeKind::TableRow(is_header) = row_node.kind {
            let mut cells: Vec<Vec<StyledSpan>> = Vec::new();
            let mut c: usize = 0;
            while c < row_node.children.len()
                invariant
                    c <= row_node.children@.len(),
                    cells@.map_values(|x: Vec<StyledSpan>| spans_view(x@)) == row_cells(*row_node, *theme, c as int),
                decreases row_node.children@.len() - c,
            {
                let cell_node = &row_node.children[c];
                let ghost cb = cells@;
                if let NodeKind::TableCell = cell_node.kind {
                    cells.push(collect_cell(cell_node, theme));
                    assert(cells@.map_values(|x: Vec<StyledSpan>| spans_view(x@)) =~= cb.map_values(
                        |x: Vec<StyledSpan>| spans_view(x@),
                    ).push(cell_view(*cell_node, *theme)));
                }
                c = c + 1;
            }
            rows.push(Row { header: is_header, cells });
            assert(rows_view(rows@) =~= rows_view(before).push(
                (is_header, row_cells(*row_node, *theme, row_node.children@.len() as int)),
            ));
        }
        r = r + 1;
    }
    assert(rows_view(rows@) == all_rows);
    if rows.len() == 0 {
        assert(out@.subrange(0, out@.len() as int) =~= out@);
        assert(lines_view(out@) =~= lines_view(start) + table_lines(*table, *theme));
        return;
    }
    let mut col_count: usize = 0;
    let mut i: usize = 0;
    while i < rows.len()
        invariant
            i <= rows@.len(),
            rows_view(rows@) == all_rows,
            col_count == most_cells(all_rows, i as int),
            forall|j: int| 0 <= j < i ==> #[trigger] rows@[j].cells@.len() <= col_count,
        decreases rows@.len() - i,
    {
        assert(all_rows[i as int].1.len() == rows@[i as int].cells@.len());
        if rows[i].cells.len() > col_count {
            col_count = rows[i].cells.len();
        }
        i = i + 1;
    }
    let ghost count = col_count as nat;
    if col_count == 0 {
        assert(out@.subrange(0, out@.len() as int) =~= out@);
        assert(lines_view(out@) =~= lines_view(start) + table_lines(*table, *theme));
        return;
    }
    // Pad short rows; widen the alignments if the parser gave fewer.
    let ghost filled_rows = all_rows.map_values(|x: (bool, Seq<Seq<SpanView>>)| (x.0, filled(x.1, count)));
    let nrows = rows.len();
    let ghost rows_orig = rows@;
    let mut padded: Vec<Row> = Vec::new();
    let mut rr = crate::render::reversed(rows);
    assert(filled_rows.take(0) =~= Seq::<(bool, Seq<Seq<SpanView>>)>::empty());
    assert(rows_view(padded@) =~= Seq::<(bool, Seq<Seq<SpanView>>)>::empty());
    while rr.len() > 0
        invariant
            nrows == all_rows.len(),
            nrows == rows_orig.len(),
            rows_view(rows_orig) == all_rows,
            rr@.len() <= nrows,
            rr@ == rows_orig.subrange(nrows - rr@.len(), nrows as int).reverse(),
            forall|j: int| 0 <= j < rr@.len() ==> #[trigger] rr@[j].cells@.len() <= col_count,
            rows_have_cols(padded@, col_count as int),
            rows_view(padded@) == filled_rows.take(nrows - rr@.len()),
            filled_rows == all_rows.map_values(|x: (bool, Seq<Seq<SpanView>>)| (x.0, filled(x.1, count))),
            count == col_count,
        decreases rr@.len(),
    {
        let ghost k = nrows - rr@.len();
        let ghost pre = padded@;
        assert(rr@[rr@.len() - 1].cells@.len() <= col_count);
        assert(rr@[rr@.len() - 1] == rows_orig[k]);
        assert(rows_view(rows_orig)[k] == all_rows[k]);
        let mut row = rr.pop().unwrap();
        let ghost header = row.header;
        assert(header == all_rows[k].0);
        let ghost orig = row.cells@.map_values(|x: Vec<StyledSpan>| spans_view(x@));
        assert(orig == all_rows[k].1);
        while row.cells.len() < col_count
            invariant
                row.header == header,
                row.cells@.len() <= col_count,
                orig.len() <= row.cells@.len(),
                forall|j: int| 0 <= j < row.cells@.len() ==> #[trigger] spans_view(row.cells@[j]@) == (if j < orig.len() {
                    orig[j]
                } else {
                    Seq::empty()
                }),
            decreases col_count - row.cells@.len(),
        {
            row.cells.push(Vec::new());
            assert(spans_view(row.cells@.last()@) =~= Seq::<SpanView>::empty());
        }
        proof {
            assert(row.cells@.map_values(|x: Vec<StyledSpan>| spans_view(x@)) =~= filled(orig, count));
        }
        padded.push(row);
        proof {
            assert(rr@ =~= rows_orig.subrange(nrows - rr@.len(), nrows as int).reverse());
            assert(rows_view(padded@) =~= rows_view(pre).push((header, filled(orig, count))));
            assert(filled_rows[k] == (header, filled(orig, count)));
            assert(rows_view(padded@) =~= filled_rows.take(k + 1));
            assert forall|q: int| 0 <= q < padded@.len() implies #[trigger] padded@[q].cells@.len() == col_count by {
                if q < pre.len() {
                    assert(padded@[q] == pre[q]);
                }
            }
        }
    }
    assert(filled_rows.take(nrows as int) =~= filled_rows);
    assert forall|j: int| 0 <= j < aligns@.len() implies #[trigger] aligns@[j] == column_align(aligns_spec, j) by {}
    while aligns.len() < col_count
        invariant
            aligns@.len() >= aligns_spec.len(),
            forall|j: int| 0 <= j < aligns@.len() ==> #[trigger] aligns@[j] == column_align(aligns_spec, j),
        decreases col_count - aligns@.len(),
    {
        aligns.push(Align::Left);
    }
    let widths = compute_widths(&padded, col_count);
    proof {
        let cells = all_rows.map_values(|x: (bool, Seq<Seq<SpanView>>)| filled(x.1, count));
        assert forall|q: int| 0 <= q < padded@.len() implies #[trigger] cells_view(padded@)[q] == cells[q] by {
            assert(rows_view(padded@)[q] == filled_rows[q]);
        }
        assert(cells_view(padded@) =~= cells);
        assert(widths@ =~= table_widths(all_rows, count));
    }
    let ghost spec_widths = table_widths(all_rows, count);
    let ghost tw = table_width(spec_widths);
    let ghost fit = table_cells_fit(*table, *theme);
    let ghost cells_tbl = all_rows.map_values(|x: (bool, Seq<Seq<SpanView>>)| filled(x.1, count));
    let border_style = theme.thematic_break;
    let header_text_style = theme.strong;
    let top = border_line(&widths, BorderKind::Top, border_style);
    assert(spans_view(top.spans@).len() > 0);
    assert(out@ == start);
    let ghost top_view = spans_view(top.spans@);
    out.push(top);
    assert(out@.subrange(0, start.len() as int) =~= start);
    assert(spans_view(out@[start.len() as int].spans@) == top_view);
    assert(lines_view(out@) =~= lines_view(start) + seq![seq![(border_text(spec_widths, BorderKind::Top), border_style)]]
        + rows_lines(all_rows, spec_widths, aligns_spec, *theme, 0));
    let mut k: usize = 0;
    while k < padded.len()
        invariant
            k <= padded@.len(),
            padded@.len() == all_rows.len(),
            rows_have_cols(padded@, col_count as int),
            rows_view(padded@) == filled_rows,
            filled_rows == all_rows.map_values(|x: (bool, Seq<Seq<SpanView>>)| (x.0, filled(x.1, count))),
            count == col_count,
            widths@ == spec_widths,
            spec_widths.len() == col_count,
            widths@.len() == col_count,
            aligns@.len() >= col_count,
            forall|j: int| 0 <= j < aligns@.len() ==> #[trigger] aligns@[j] == column_align(aligns_spec, j),
            border_style == theme.thematic_break,
            header_text_style == theme.strong,
            out@.len() > start.len(),
            out@.subrange(0, start.len() as int) == start,
            forall|q: int| start.len() <= q < out@.len() ==> #[trigger] out@[q].spans@.len() > 0,
            lines_view(out@) == lines_view(start) + seq![seq![(border_text(spec_widths, BorderKind::Top), border_style)]]
                + rows_lines(all_rows, spec_widths, aligns_spec, *theme, k as int),
            tw == table_width(spec_widths),
            fit == table_cells_fit(*table, *theme),
            all_rows == table_rows(*table, *theme, table.children@.len() as int),
            cells_tbl == all_rows.map_values(|x: (bool, Seq<Seq<SpanView>>)| filled(x.1, count)),
            spec_widths == table_widths(all_rows, count),
            col_count > 0,
            fit ==> forall|q: int| start.len() <= q < out@.len() ==> views_width_sum(#[trigger] spans_view(out@[q].spans@)) == tw,
        decreases padded@.len() - k,
    {
        let row = &padded[k];
        assert(row.cells@.len() == col_count);
        assert(rows_view(padded@)[k as int] == filled_rows[k as int]);
        let extra = if row.header { Some(header_text_style) } else { None };
        let ghost cells_k = filled(all_rows[k as int].1, count);
        let ghost want = Seq::new(
            col_count as nat,
            |c: int| padded_cell(cells_k[c], spec_widths[c], column_align(aligns_spec, c), extra),
        );
        let mut styled: Vec<Vec<StyledSpan>> = Vec::new();
        let mut c: usize = 0;
        while c < col_count
            invariant
                c <= col_count,
                row.cells@.len() == col_count,
                widths@.len() == col_count,
                widths@ == spec_widths,
                aligns@.len() >= col_count,
                forall|j: int| 0 <= j < aligns@.len() ==> #[trigger] aligns@[j] == column_align(aligns_spec, j),
                row.cells@.map_values(|x: Vec<StyledSpan>| spans_view(x@)) == cells_k,
                want == Seq::new(
                    col_count as nat,
                    |c: int| padded_cell(cells_k[c], spec_widths[c], column_align(aligns_spec, c), extra),
                ),
                styled@.map_values(|x: Vec<StyledSpan>| spans_view(x@)) == want.take(c as int),
                fit == table_cells_fit(*table, *theme),
                all_rows == table_rows(*table, *theme, table.children@.len() as int),
                cells_tbl == all_rows.map_values(|x: (bool, Seq<Seq<SpanView>>)| filled(x.1, count)),
                spec_widths == table_widths(all_rows, count),
                cells_k == filled(all_rows[k as int].1, count),
                count == col_count,
                k < all_rows.len(),
                fit ==> forall|j: int| 0 <= j < c ==> views_width_sum(#[trigger] want[j]) == spec_widths[j],
            decreases col_count - c,
        {
            let ghost sb = styled@;
            assert(spans_view(row.cells@[c as int]@) == cells_k[c as int]);
            proof {
                if fit {
                    let cv = cells_k[c as int];
                    if (c as int) < all_rows[k as int].1.len() {
                        assert(views_width_sum(all_rows[k as int].1[c as int]) <= usize::MAX);
                    } else {
                        assert(cv =~= Seq::<SpanView>::empty());
                    }
                    assert(views_width_sum(cv) <= usize::MAX);
                    assert(cells_tbl[k as int] == cells_k);
                    lemma_cells_fit_column(cells_tbl, c as int, k as int);
                    lemma_column_max_bound(cells_tbl, c as int, cells_tbl.len() as int);
                    assert(spec_widths[c as int] == column_width(cells_tbl, c as int) as usize);
                    lemma_width_views(row.cells@[c as int]@);
                }
            }
            let cell = pad_cell(&row.cells[c], widths[c], aligns[c], extra);
            proof {
                lemma_width_views(cell@);
            }
            assert(spans_view(cell@) == want[c as int]);
            styled.push(cell);
            assert(styled@.map_values(|x: Vec<StyledSpan>| spans_view(x@)) =~= sb.map_values(
                |x: Vec<StyledSpan>| spans_view(x@),
            ).push(want[c as int]));
            assert(styled@.map_values(|x: Vec<StyledSpan>| spans_view(x@)) =~= want.take(c + 1));
            c = c + 1;
        }
        proof {
            if fit {
                lemma_cells_cols(want, spec_widths, col_count as int);
            }
        }
        assert(want.take(col_count as int) =~= want);
        let ghost before = out@;
        let line = content_line(&styled, border_style);
        assert(spans_view(line.spans@) == row_line(cells_k, spec_widths, aligns_spec, extra, border_style));
        assert(spans_view(line.spans@).len() > 0);
        assert(line.spans@.len() > 0);
        let ghost line_view = spans_view(line.spans@);
        let ghost lv_before = lines_view(before);
        proof {
            if fit {
                assert(styled@.map_values(|x: Vec<StyledSpan>| spans_view(x@)) == want);
                assert(views_width_sum(line_view) == tw);
            }
        }
        out.push(line);
        assert(lines_view(out@) =~= lv_before.push(line_view));
        proof {
            if fit {
                assert forall|q: int| start.len() <= q < out@.len() implies views_width_sum(
                    #[trigger] spans_view(out@[q].spans@),
                ) == tw by {
                    if q < before.len() {
                        assert(out@[q] == before[q]);
                    } else {
                        assert(lines_view(out@)[q] == spans_view(out@[q].spans@));
                    }
                }
            }
        }
        if row.header {
            let sep = border_line(&widths, BorderKind::HeaderSep, border_style);
            assert(spans_view(sep.spans@).len() > 0);
            assert(sep.spans@.len() > 0);
            let ghost sep_view = spans_view(sep.spans@);
            let ghost mid = out@;
            out.push(sep);
            assert(lines_view(out@) =~= lines_view(mid).push(
                seq![(border_text(spec_widths, BorderKind::HeaderSep), border_style)],
            ));
            proof {
                if fit {
                    assert forall|q: int| start.len() <= q < out@.len() implies views_width_sum(
                        #[trigger] spans_view(out@[q].spans@),
                    ) == tw by {
                        if q < mid.len() {
                            assert(out@[q] == mid[q]);
                        } else {
                            assert(lines_view(out@)[q] == spans_view(out@[q].spans@));
                        }
                    }
                }
            }
        }
        proof {
            assert forall|q: int| start.len() <= q < out@.len() implies #[trigger] out@[q].spans@.len() > 0 by {
                if q < before.len() {
                    assert(out@[q] == before[q]);
                    assert(before[q].spans@.len() > 0);
                } else {
                    assert(lines_view(out@)[q] == spans_view(out@[q].spans@));
                    assert(lines_view(out@)[q].len() > 0);
                    assert(spans_view(out@[q].spans@).len() == out@[q].spans@.len());
                }
            }
            assert(all_rows[k as int].0 == row.header);
            assert(extra == (if all_rows[k as int].0 { Some(theme.strong) } else { None }));
            assert(lines_view(out@) =~= lines_view(start) + seq![seq![(border_text(spec_widths, BorderKind::Top), border_style)]]
                + rows_lines(all_rows, spec_widths, aligns_spec, *theme, k + 1));
        }
        assert(out@.subrange(0, start.len() as int) =~= before.subrange(0, start.len() as int));
        k = k + 1;
    }
    let ghost before = out@;
    let bottom = border_line(&widths, BorderKind::Bottom, border_style);
    assert(spans_view(bottom.spans@).len() > 0);
    assert(bottom.spans@.len() > 0);
    let ghost bottom_view = spans_view(bottom.spans@);
    out.push(bottom);
    proof {
        if fit {
            assert forall|q: int| start.len() <= q < out@.len() implies views_width_sum(
                #[trigger] spans_view(out@[q].spans@),
            ) == tw by {
                if q < before.len() {
                    assert(out@[q] == before[q]);
                } else {
                    assert(spans_view(out@[q].spans@) == bottom_view);
                }
            }
        }
    }
    assert(lines_view(out@) =~= lines_view(before).push(
        seq![(border_text(spec_widths, BorderKind::Bottom), border_style)],
    ));
    assert forall|q: int| start.len() <= q < out@.len() implies #[trigger] out@[q].spans@.len() > 0 by {
        if q < before.len() {
            assert(out@[q] == before[q]);
            assert(before[q].spans@.len() > 0);
        } else {
            assert(lines_view(out@)[q] == spans_view(out@[q].spans@));
            assert(lines_view(out@)[q].len() > 0);
            assert(spans_view(out@[q].spans@).len() == out@[q].spans@.len());
        }
    }
    assert(out@.subrange(0, start.len() as int) =~= before.subrange(0, start.len() as int));
    assert(lines_view(out@) =~= lines_view(start) + table_lines(*table, *theme));
}

} // verus!
