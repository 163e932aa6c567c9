//! Device-independent styling: logical colours, styles, spans and lines.

use vstd::prelude::*;

verus! {

/// Logical color. Concrete realization (256-color, true color, ratatui) is
/// the sink's responsibility.
#[derive(Debug, Clone, Copy, PartialEq, Eq, Structural)]
pub enum Color {
    Black,
    Red,
    Green,
    Yellow,
    Blue,
    Magenta,
    Cyan,
    White,
    BrightBlack,
    BrightRed,
    BrightGreen,
    BrightYellow,
    BrightBlue,
    BrightMagenta,
    BrightCyan,
    BrightWhite,
    Rgb(u8, u8, u8),
}

#[derive(Debug, Clone, Copy, PartialEq, Eq, Structural)]
pub struct Style {
    pub fg: Option<Color>,
    pub bg: Option<Color>,
    pub bold: bool,
    pub italic: bool,
    pub underline: bool,
    pub strikethrough: bool,
    pub dim: bool,
    pub reversed: bool,
}

/// The style with no colour and no attribute.
pub open spec fn plain_style() -> Style {
    Style {
        fg: None,
        bg: None,
        bold: false,
        italic: false,
        underline: false,
        strikethrough: false,
        dim: false,
        reversed: false,
    }
}

/// `top` laid over `base`: a colour set in `top` wins, attributes accumulate.
pub open spec fn merged(base: Style, top: Style) -> Style {
    Style {
        fg: if top.fg.is_some() { top.fg } else { base.fg },
        bg: if top.bg.is_some() { top.bg } else { base.bg },
        bold: base.bold || top.bold,
        italic: base.italic || top.italic,
        underline: base.underline || top.underline,
        strikethrough: base.strikethrough || top.strikethrough,
        dim: base.dim || top.dim,
        reversed: base.reversed || top.reversed,
    }
}

impl Style {
    pub fn new() -> (s: Style)
        ensures
            s == plain_style(),
    {
        Style {
            fg: None,
            bg: None,
            bold: false,
            italic: false,
            underline: false,
            strikethrough: false,
            dim: false,
            reversed: false,
        }
    }

    pub fn fg(self, c: Color) -> (s: Style)
        ensures
            s == (Style { fg: Some(c), ..self }),
    {
        Style { fg: Some(c), ..self }
    }

    pub fn bg(self, c: Color) -> (s: Style)
        ensures
            s == (Style { bg: Some(c), ..self }),
    {
        Style { bg: Some(c), ..self }
    }

    pub fn bold(self) -> (s: Style)
        ensures
            s == (Style { bold: true, ..self }),
    {
        Style { bold: true, ..self }
    }

    pub fn italic(self) -> (s: Style)
        ensures
            s == (Style { italic: true, ..self }),
    {
        Style { italic: true, ..self }
    }

    pub fn underline(self) -> (s: Style)
        ensures
            s == (Style { underline: true, ..self }),
    {
        Style { underline: true, ..self }
    }

    pub fn strikethrough(self) -> (s: Style)
        ensures
            s == (Style { strikethrough: true, ..self }),
    {
        Style { strikethrough: true, ..self }
    }

    pub fn dim(self) -> (s: Style)
        ensures
            s == (Style { dim: true, ..self }),
    {
        Style { dim: true, ..self }
    }

    pub fn reversed(self) -> (s: Style)
        ensures
            s == (Style { reversed: true, ..self }),
    {
        Style { reversed: true, ..self }
    }

    /// Lay `top` over `self`.
    pub fn merge(self, top: Style) -> (s: Style)
        ensures
            s == merged(self, top),
    {
        Style {
            fg: if top.fg.is_some() { top.fg } else { self.fg },
            bg: if top.bg.is_some() { top.bg } else { self.bg },
            bold: self.bold || top.bold,
            italic: self.italic || top.italic,
            underline: self.underline || top.underline,
            strikethrough: self.strikethrough || top.strikethrough,
            dim: self.dim || top.dim,
            reversed: self.reversed || top.reversed,
        }
    }

    pub fn is_default(&self) -> (b: bool)
        ensures
            b == (*self == plain_style()),
    {
        self.fg.is_none() && self.bg.is_none() && !self.bold && !self.italic && !self.underline
            && !self.strikethrough && !self.dim && !self.reversed
    }
}

impl Default for Style {
    fn default() -> (s: Style)
        ensures
            s == plain_style(),
    {
        Style::new()
    }
}

/// Merging is associative, the plain style is its unit, and merging a style
/// onto itself changes nothing.
pub proof fn lemma_merge_laws(a: Style, b: Style, c: Style)
    ensures
        merged(merged(a, b), c) == merged(a, merged(b, c)),
        merged(a, plain_style()) == a,
        merged(plain_style(), a) == a,
        merged(a, a) == a,
{
}

/// A styled span of text. The output device decides how to realize the style
/// (ANSI escape, ratatui `Span`, plain text, etc.).
#[derive(Debug, Clone, PartialEq, Eq)]
pub struct StyledSpan {
    pub text: String,
    pub style: Style,
}

/// A line of styled spans. Lines are emitted by the renderer in display order.
#[derive(Debug, Clone, PartialEq, Eq)]
pub struct StyledLine {
    pub spans: Vec<StyledSpan>,
}

/// Text and style of a span.
pub open spec fn span_view(s: StyledSpan) -> (Seq<char>, Style) {
    (s.text@, s.style)
}

pub open spec fn spans_view(s: Seq<StyledSpan>) -> Seq<(Seq<char>, Style)> {
    s.map_values(|x: StyledSpan| span_view(x))
}

/// The text and style of a span, as plain values.
pub type SpanView = (Seq<char>, Style);

/// What each of `ls` shows: the text and style of each of its spans.
pub open spec fn lines_view(ls: Seq<StyledLine>) -> Seq<Seq<SpanView>> {
    ls.map_values(|l: StyledLine| spans_view(l.spans@))
}

impl StyledSpan {
    /// A copy of the span: same text, same style.
    pub fn copy(&self) -> (s: StyledSpan)
        ensures
            span_view(s) == span_view(*self),
    {
        StyledSpan { text: self.text.clone(), style: self.style }
    }

    pub fn new(text: &str, style: Style) -> (s: StyledSpan)
        ensures
            s.text@ == text@,
            s.style == style,
    {
        StyledSpan { text: text.to_string(), style }
    }

    pub fn plain(text: &str) -> (s: StyledSpan)
        ensures
            s.text@ == text@,
            s.style == plain_style(),
    {
        StyledSpan { text: text.to_string(), style: Style::new() }
    }
}

/// Copies of `v`'s spans.
pub fn copy_spans(v: &Vec<StyledSpan>) -> (r: Vec<StyledSpan>)
    ensures
        spans_view(r@) == spans_view(v@),
{
    let mut r: Vec<StyledSpan> = Vec::new();
    let mut i: usize = 0;
    while i < v.len()
        invariant
            i <= v@.len(),
            r@.len() == i,
            spans_view(r@) == spans_view(v@.subrange(0, i as int)),
        decreases v@.len() - i,
    {
        let ghost pre = r@;
        let c = v[i].copy();
        r.push(c);
        proof {
            let sub = v@.subrange(0, i as int + 1);
            assert forall|j: int| 0 <= j < i + 1 implies spans_view(r@)[j] == spans_view(sub)[j] by {
                if j < i {
                    assert(spans_view(pre)[j] == spans_view(v@.subrange(0, i as int))[j]);
                    assert(r@[j] == pre[j]);
                    assert(sub[j] == v@.subrange(0, i as int)[j]);
                }
            }
            assert(spans_view(r@) =~= spans_view(sub));
        }
        i = i + 1;
    }
    assert(v@.subrange(0, v@.len() as int) =~= v@);
    r
}

impl StyledLine {
    pub fn new() -> (l: StyledLine)
        ensures
            l.spans@.len() == 0,
    {
        StyledLine { spans: Vec::new() }
    }

    pub fn is_empty(&self) -> (b: bool)
        ensures
            b == (self.spans@.len() == 0),
    {
        self.spans.len() == 0
    }

    pub fn push_span(&mut self, span: StyledSpan)
        ensures
            final(self).spans@ == old(self).spans@.push(span),
    {
        self.spans.push(span);
    }

    pub fn push_styled(&mut self, text: &str, style: Style)
        ensures
            final(self).spans@.len() == old(self).spans@.len() + 1,
            final(self).spans@.drop_last() == old(self).spans@,
            final(self).spans@.last().text@ == text@,
            final(self).spans@.last().style == style,
    {
        self.spans.push(StyledSpan::new(text, style));
    }

    pub fn push_plain(&mut self, text: &str)
        ensures
            final(self).spans@.len() == old(self).spans@.len() + 1,
            final(self).spans@.drop_last() == old(self).spans@,
            final(self).spans@.last().text@ == text@,
            final(self).spans@.last().style == plain_style(),
    {
        self.spans.push(StyledSpan::plain(text));
    }
}

} // verus!
