//! Syntax highlighting for fenced code blocks, backed by syntect's bundled
//! syntaxes and themes. Each theme's background colour is ignored so it
//! doesn't fight the terminal's own background: foreground colour and font
//! style only.

use vstd::prelude::*;

use syntect::easy::HighlightLines;
use syntect::highlighting::{FontStyle, Theme as SynTheme, ThemeSet};
use syntect::parsing::SyntaxSet;
use syntect::util::LinesWithEndings;

use crate::search::view_text;
use crate::style::{plain_style, span_view, spans_view, Color, Style, StyledLine, StyledSpan};
use crate::text::{str_chars, string_from_chars};

verus! {

#[verifier::external_type_specification]
#[verifier::external_body]
pub struct ExSyntaxSet(SyntaxSet);

#[verifier::external_type_specification]
#[verifier::external_body]
pub struct ExSynTheme(SynTheme);

/// One highlighted piece of a source line as syntect styles it.
#[derive(Debug, Clone)]
pub struct SyntaxToken {
    pub r: u8,
    pub g: u8,
    pub b: u8,
    pub bold: bool,
    pub italic: bool,
    pub underline: bool,
    pub text: String,
}

/// syntect's bundled syntaxes (newline variant) and the dark theme the
/// renderer uses. Only [`Highlighter::new`] builds one.
pub struct Highlighter {
    syntaxes: SyntaxSet,
    theme: SynTheme,
}

/// The syntax syntect's `find_syntax_by_token` finds for `lang` among the
/// bundled syntaxes, by name.
pub uninterp spec fn token_syntax(lang: Seq<char>) -> Option<Seq<char>>;

/// The syntax syntect's `find_syntax_by_name` finds for `lang` among the
/// bundled syntaxes, by name.
pub uninterp spec fn named_syntax(lang: Seq<char>) -> Option<Seq<char>>;

/// The tokens syntect's `HighlightLines` produces for each line of `body`
/// (lines kept with their endings) under the syntax named `syntax` (plain
/// text when there is none of that name) and the renderer's theme.
pub uninterp spec fn syntax_tokens(syntax: Seq<char>, body: Seq<char>) -> Seq<Seq<SyntaxToken>>;

/// The pieces `LinesWithEndings` cuts `cur + s` into, `cur` being the start
/// of the piece under way: each piece runs up to and including a `\n`, the
/// last one to the end of the text.
pub open spec fn pieces_from(s: Seq<char>, cur: Seq<char>) -> Seq<Seq<char>>
    decreases s.len(),
{
    if s.len() == 0 {
        if cur.len() == 0 {
            Seq::empty()
        } else {
            seq![cur]
        }
    } else if s[0] == '\n' {
        seq![cur.push('\n')] + pieces_from(s.drop_first(), Seq::empty())
    } else {
        pieces_from(s.drop_first(), cur.push(s[0]))
    }
}

/// The lines of `s` as `LinesWithEndings` hands them out: each keeps its
/// `\n`, the last has none when `s` does not end in a newline; no line
/// for empty text.
pub open spec fn line_pieces(s: Seq<char>) -> Seq<Seq<char>> {
    pieces_from(s, Seq::empty())
}

/// `p` holds no `\n` but possibly as its last character.
pub open spec fn newline_last_only(p: Seq<char>) -> bool {
    forall|j: int| 0 <= j < p.len() - 1 ==> p[j] != '\n'
}

/// The text of a line's tokens, joined.
pub open spec fn tokens_text(tokens: Seq<SyntaxToken>) -> Seq<char>
    decreases tokens.len(),
{
    if tokens.len() == 0 {
        Seq::empty()
    } else {
        tokens_text(tokens.drop_last()) + tokens.last().text@
    }
}

pub open spec fn token_lines(v: Seq<Vec<SyntaxToken>>) -> Seq<Seq<SyntaxToken>> {
    v.map_values(|l: Vec<SyntaxToken>| l@)
}

/// `SyntaxSet::load_defaults_newlines`.
#[verifier::external_body]
fn load_syntaxes() -> SyntaxSet {
    SyntaxSet::load_defaults_newlines()
}

/// The bundled theme called `name`, taken out of `ThemeSet::load_defaults`.
#[verifier::external_body]
fn named_theme(name: &str) -> Option<SynTheme> {
    ThemeSet::load_defaults().themes.remove(name)
}

/// The first bundled theme of `ThemeSet::load_defaults`, by name order.
#[verifier::external_body]
fn first_theme() -> Option<SynTheme> {
    ThemeSet::load_defaults().themes.into_values().next()
}

/// `Theme::default()`.
#[verifier::external_body]
fn empty_theme() -> SynTheme {
    SynTheme::default()
}

/// `SyntaxSet::find_syntax_by_token`, giving the syntax's name.
#[verifier::external_body]
fn syntax_by_token(h: &Highlighter, lang: &str) -> (r: Option<String>)
    ensures
        match r {
            Some(n) => token_syntax(lang@) == Some(n@),
            None => token_syntax(lang@) is None,
        },
{
    h.syntaxes.find_syntax_by_token(lang).map(|s| s.name.clone())
}

/// `SyntaxSet::find_syntax_by_name`, giving the syntax's name.
#[verifier::external_body]
fn syntax_by_name(h: &Highlighter, lang: &str) -> (r: Option<String>)
    ensures
        match r {
            Some(n) => named_syntax(lang@) == Some(n@),
            None => named_syntax(lang@) is None,
        },
{
    h.syntaxes.find_syntax_by_name(lang).map(|s| s.name.clone())
}

/// `HighlightLines::highlight_line` over `LinesWithEndings` of `body`: one
/// token line per line of `body`, whose token texts joined make up that
/// line (syntect's `HighlightIterator` promises this), or no token when
/// syntect fails on the line.
#[verifier::external_body]
fn highlight_tokens(h: &Highlighter, syntax: &str, body: &str) -> (r: Vec<Vec<SyntaxToken>>)
    ensures
        token_lines(r@) == syntax_tokens(syntax@, body@),
        r@.len() == line_pieces(body@).len(),
        forall|i: int|
            0 <= i < r@.len() ==> (#[trigger] r@[i])@.len() == 0 || tokens_text(r@[i]@) == line_pieces(body@)[i],
{
    let plain = h.syntaxes.find_syntax_plain_text();
    let mut hl = HighlightLines::new(h.syntaxes.find_syntax_by_name(syntax).unwrap_or(plain), &h.theme);
    let mut out = Vec::new();
    for line in LinesWithEndings::from(body) {
        let ranges = hl.highlight_line(line, &h.syntaxes).unwrap_or_default();
        out.push(ranges.into_iter().map(|(s, t)| SyntaxToken {
            r: s.foreground.r, g: s.foreground.g, b: s.foreground.b,
            bold: s.font_style.contains(FontStyle::BOLD),
            italic: s.font_style.contains(FontStyle::ITALIC),
            underline: s.font_style.contains(FontStyle::UNDERLINE),
            text: t.to_string(),
        }).collect());
    }
    out
}

impl Highlighter {
    /// Load the bundled syntaxes and pick the theme: `base16-ocean.dark`,
    /// else `Solarized (dark)`, else the first bundled one, else an empty
    /// theme.
    pub fn new() -> Highlighter {
        let theme = match named_theme("base16-ocean.dark") {
            Some(t) => t,
            None => match named_theme("Solarized (dark)") {
                Some(t) => t,
                None => match first_theme() {
                    Some(t) => t,
                    None => empty_theme(),
                },
            },
        };
        Highlighter { syntaxes: load_syntaxes(), theme }
    }
}

/// The syntax a fence language selects: none for an empty language, else
/// the token match, else the name match, else none (plain text).
pub open spec fn chosen_syntax(lang: Seq<char>) -> Seq<char> {
    if lang.len() == 0 {
        Seq::empty()
    } else {
        match token_syntax(lang) {
            Some(n) => n,
            None => match named_syntax(lang) {
                Some(n) => n,
                None => Seq::empty(),
            },
        }
    }
}

/// A renderer style for a syntect token: its foreground colour and font
/// style, no background.
pub open spec fn token_style(t: SyntaxToken) -> Style {
    Style {
        fg: Some(Color::Rgb(t.r, t.g, t.b)),
        bold: t.bold,
        italic: t.italic,
        underline: t.underline,
        ..plain_style()
    }
}

pub fn convert_style(t: &SyntaxToken) -> (s: Style)
    ensures
        s == token_style(*t),
{
    let mut style = Style::new().fg(Color::Rgb(t.r, t.g, t.b));
    if t.bold {
        style.bold = true;
    }
    if t.italic {
        style.italic = true;
    }
    if t.underline {
        style.underline = true;
    }
    style
}

/// `s` without its trailing newlines.
pub open spec fn trim_newlines(s: Seq<char>) -> Seq<char>
    decreases s.len(),
{
    if s.len() > 0 && s.last() == '\n' {
        trim_newlines(s.drop_last())
    } else {
        s
    }
}

/// The spans of one highlighted line: each token with its trailing newlines
/// dropped, tokens left empty skipped.
pub open spec fn token_spans(tokens: Seq<SyntaxToken>) -> Seq<(Seq<char>, Style)>
    decreases tokens.len(),
{
    if tokens.len() == 0 {
        Seq::empty()
    } else {
        let t = tokens.last();
        let rest = token_spans(tokens.drop_last());
        if trim_newlines(t.text@).len() == 0 {
            rest
        } else {
            rest.push((trim_newlines(t.text@), token_style(t)))
        }
    }
}

proof fn lemma_pieces_from(s: Seq<char>, cur: Seq<char>)
    requires
        forall|j: int| 0 <= j < cur.len() ==> cur[j] != '\n',
    ensures
        forall|i: int| 0 <= i < pieces_from(s, cur).len() ==> newline_last_only(#[trigger] pieces_from(s, cur)[i]),
    decreases s.len(),
{
    if s.len() == 0 {
        if cur.len() > 0 {
            assert(pieces_from(s, cur) == seq![cur]);
            assert(newline_last_only(cur));
        }
    } else if s[0] == '\n' {
        lemma_pieces_from(s.drop_first(), Seq::empty());
        let first = cur.push('\n');
        let rest = pieces_from(s.drop_first(), Seq::empty());
        assert(newline_last_only(first)) by {
            assert forall|j: int| 0 <= j < first.len() - 1 implies first[j] != '\n' by {
                assert(first[j] == cur[j]);
            }
        }
        assert forall|i: int| 0 <= i < pieces_from(s, cur).len() implies newline_last_only(
            #[trigger] pieces_from(s, cur)[i],
        ) by {
            if i > 0 {
                assert(pieces_from(s, cur)[i] == rest[i - 1]);
            }
        }
    } else {
        let next = cur.push(s[0]);
        assert forall|j: int| 0 <= j < next.len() implies next[j] != '\n' by {
            if j < cur.len() {
                assert(next[j] == cur[j]);
            }
        }
        lemma_pieces_from(s.drop_first(), next);
        assert(pieces_from(s, cur) == pieces_from(s.drop_first(), next));
    }
}

/// Each line holds a newline at most as its last character.
proof fn lemma_line_pieces(s: Seq<char>)
    ensures
        forall|i: int| 0 <= i < line_pieces(s).len() ==> newline_last_only(#[trigger] line_pieces(s)[i]),
{
    lemma_pieces_from(s, Seq::empty());
}

proof fn lemma_trim_all_newlines(a: Seq<char>, t: Seq<char>)
    requires
        forall|k: int| 0 <= k < t.len() ==> t[k] == '\n',
    ensures
        trim_newlines(a + t) == trim_newlines(a),
    decreases t.len(),
{
    if t.len() > 0 {
        assert((a + t).drop_last() =~= a + t.drop_last());
        lemma_trim_all_newlines(a, t.drop_last());
    } else {
        assert(a + t =~= a);
    }
}

proof fn lemma_trim_empty_all_newlines(t: Seq<char>)
    requires
        trim_newlines(t).len() == 0,
    ensures
        forall|k: int| 0 <= k < t.len() ==> t[k] == '\n',
    decreases t.len(),
{
    if t.len() > 0 {
        lemma_trim_empty_all_newlines(t.drop_last());
        assert forall|k: int| 0 <= k < t.len() implies t[k] == '\n' by {
            if k < t.len() - 1 {
                assert(t[k] == t.drop_last()[k]);
            }
        }
    }
}

proof fn lemma_trim_concat(a: Seq<char>, b: Seq<char>)
    requires
        trim_newlines(b).len() > 0,
    ensures
        trim_newlines(a + b) == a + trim_newlines(b),
    decreases b.len(),
{
    if b.len() > 0 && b.last() == '\n' {
        assert((a + b).drop_last() =~= a + b.drop_last());
        lemma_trim_concat(a, b.drop_last());
    } else {
        assert(b.len() > 0);
        assert((a + b).last() == b.last());
    }
}

/// The spans of a highlighted line read as its tokens' text without the
/// trailing newline, when the text holds no other newline.
proof fn lemma_token_spans_text(tokens: Seq<SyntaxToken>)
    requires
        newline_last_only(tokens_text(tokens)),
    ensures
        view_text(token_spans(tokens)) == trim_newlines(tokens_text(tokens)),
    decreases tokens.len(),
{
    if tokens.len() > 0 {
        let pre = tokens.drop_last();
        let tt = tokens_text(tokens);
        let tp = tokens_text(pre);
        let t = tokens.last().text@;
        assert(tt == tp + t);
        assert forall|j: int| 0 <= j < tp.len() - 1 implies tp[j] != '\n' by {
            assert(tt[j] == tp[j]);
        }
        lemma_token_spans_text(pre);
        let rest = token_spans(pre);
        if trim_newlines(t).len() == 0 {
            lemma_trim_empty_all_newlines(t);
            lemma_trim_all_newlines(tp, t);
        } else {
            let x = (trim_newlines(t), token_style(tokens.last()));
            assert(rest.push(x).drop_last() =~= rest);
            if tp.len() > 0 {
                assert(tt[tp.len() - 1] == tp.last());
                assert(t.len() > 0);
            }
            assert(trim_newlines(tp) == tp);
            lemma_trim_concat(tp, t);
        }
    }
}

fn trim_newlines_exec(s: &str) -> (r: String)
    ensures
        r@ == trim_newlines(s@),
{
    let chars = str_chars(s);
    let mut end = chars.len();
    assert(chars@.subrange(0, end as int) =~= s@);
    while end > 0 && chars[end - 1] == '\n'
        invariant
            end <= chars@.len(),
            trim_newlines(chars@.subrange(0, end as int)) == trim_newlines(s@),
            chars@ == s@,
        decreases end,
    {
        assert(chars@.subrange(0, end as int).drop_last() =~= chars@.subrange(0, end - 1));
        end = end - 1;
    }
    proof {
        assert(chars@.subrange(0, chars@.len() as int) =~= s@);
    }
    string_from_chars(&chars.as_slice()[0..end])
}

/// Highlight a code block body. `lang` is the fence info string's first
/// token (e.g. "rust", "py"). Returns one line per source line.
pub fn highlight_code(h: &Highlighter, body: &str, lang: &str) -> (lines: Vec<StyledLine>)
    ensures
        lines@.len() == syntax_tokens(chosen_syntax(lang@), body@).len(),
        lines@.len() == line_pieces(body@).len(),
        // Each line shows its source line without the newline, unless
        // highlighting failed on it and it is left empty.
        forall|i: int|
            0 <= i < lines@.len() ==> (#[trigger] lines@[i]).spans@.len() == 0 || view_text(spans_view(lines@[i].spans@))
                == trim_newlines(line_pieces(body@)[i]),
        forall|i: int|
            0 <= i < lines@.len() ==> spans_view(#[trigger] lines@[i].spans@) == token_spans(
                syntax_tokens(chosen_syntax(lang@), body@)[i],
            ),
{
    let syntax: String = if lang.is_empty() {
        String::new()
    } else {
        match syntax_by_token(h, lang) {
            Some(n) => n,
            None => match syntax_by_name(h, lang) {
                Some(n) => n,
                None => String::new(),
            },
        }
    };
    assert(syntax@ == chosen_syntax(lang@));
    let tokens = highlight_tokens(h, syntax.as_str(), body);
    let ghost all = syntax_tokens(syntax@, body@);
    let mut out: Vec<StyledLine> = Vec::new();
    let mut i: usize = 0;
    while i < tokens.len()
        invariant
            i <= tokens@.len(),
            token_lines(tokens@) == all,
            out@.len() == i,
            forall|k: int| 0 <= k < i ==> spans_view(#[trigger] out@[k].spans@) == token_spans(all[k]),
            tokens@.len() == line_pieces(body@).len(),
            forall|k: int|
                0 <= k < tokens@.len() ==> (#[trigger] tokens@[k])@.len() == 0 || tokens_text(tokens@[k]@)
                    == line_pieces(body@)[k],
            forall|k: int|
                0 <= k < i ==> (#[trigger] out@[k]).spans@.len() == 0 || view_text(spans_view(out@[k].spans@))
                    == trim_newlines(line_pieces(body@)[k]),
        decreases tokens@.len() - i,
    {
        let line = &tokens[i];
        assert(line@ == all[i as int]);
        let mut styled = StyledLine::new();
        let mut j: usize = 0;
        while j < line.len()
            invariant
                j <= line@.len(),
                spans_view(styled.spans@) == token_spans(line@.subrange(0, j as int)),
            decreases line@.len() - j,
        {
            let t = &line[j];
            let text = trim_newlines_exec(t.text.as_str());
            proof {
                assert(line@.subrange(0, j as int + 1).drop_last() =~= line@.subrange(0, j as int));
            }
            if !text.as_str().is_empty() {
                let style = convert_style(t);
                styled.push_span(StyledSpan { text, style });
                proof {
                    assert(spans_view(styled.spans@) =~= spans_view(styled.spans@.drop_last()).push(
                        span_view(styled.spans@.last()),
                    ));
                }
            } else {
                proof {
                    assert(text@.len() == 0);
                }
            }
            j = j + 1;
        }
        assert(line@.subrange(0, line@.len() as int) =~= line@);
        proof {
            if line@.len() > 0 {
                lemma_line_pieces(body@);
                assert(tokens_text(tokens@[i as int]@) == line_pieces(body@)[i as int]);
                lemma_token_spans_text(line@);
            }
        }
        let ghost pre = out@;
        out.push(styled);
        proof {
            assert forall|k: int|
                0 <= k < i + 1 implies (#[trigger] out@[k]).spans@.len() == 0 || view_text(spans_view(out@[k].spans@))
                == trim_newlines(line_pieces(body@)[k]) by {
                if k < i {
                    assert(out@[k] == pre[k]);
                } else if line@.len() == 0 {
                    assert(spans_view(out@[k].spans@).len() == out@[k].spans@.len());
                }
            }
        }
        i = i + 1;
    }
    out
}

} // verus!
