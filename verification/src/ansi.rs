//! Encode styled lines as ANSI escape sequences for terminal output.

use vstd::prelude::*;

use crate::style::{plain_style, Color, Style, StyledLine, StyledSpan};
use crate::text::{push_char, push_str};

verus! {

/// Decimal digits of `n`, most significant first, no leading zero.
pub open spec fn decimal(n: nat) -> Seq<char>
    decreases n,
{
    if n < 10 {
        seq![digit_char(n)]
    } else {
        decimal(n / 10).push(digit_char(n % 10))
    }
}

pub open spec fn digit_char(d: nat) -> char {
    ((('0' as u32) as nat + d) as u32) as char
}

/// Append the decimal digits of `n` to `out`.
pub fn push_decimal(out: &mut String, n: usize)
    ensures
        final(out)@ == old(out)@ + decimal(n as nat),
    decreases n,
{
    if n >= 10 {
        push_decimal(out, n / 10);
    }
    let d: u8 = (n % 10) as u8;
    push_char(out, (48u8 + d) as char);
    assert(digit_char((n % 10) as nat) == (48u8 + d) as char);
}

/// SGR parameter of a colour: the first `base` of the group for the eight
/// plain colours, the bright group 60 above, and `base + 8;2;r;g;b` for a
/// true colour.
pub open spec fn color_code(c: Color, base: nat) -> Seq<char> {
    match c {
        Color::Black => decimal(base),
        Color::Red => decimal(base + 1),
        Color::Green => decimal(base + 2),
        Color::Yellow => decimal(base + 3),
        Color::Blue => decimal(base + 4),
        Color::Magenta => decimal(base + 5),
        Color::Cyan => decimal(base + 6),
        Color::White => decimal(base + 7),
        Color::BrightBlack => decimal(base + 60),
        Color::BrightRed => decimal(base + 61),
        Color::BrightGreen => decimal(base + 62),
        Color::BrightYellow => decimal(base + 63),
        Color::BrightBlue => decimal(base + 64),
        Color::BrightMagenta => decimal(base + 65),
        Color::BrightCyan => decimal(base + 66),
        Color::BrightWhite => decimal(base + 67),
        Color::Rgb(r, g, b) => decimal(base + 8) + ";2;"@ + decimal(r as nat) + ";"@ + decimal(
            g as nat,
        ) + ";"@ + decimal(b as nat),
    }
}

proof fn lemma_digits()
    ensures
        digit_char(0) == '0',
        digit_char(1) == '1',
        digit_char(2) == '2',
        digit_char(3) == '3',
        digit_char(4) == '4',
        digit_char(5) == '5',
        digit_char(6) == '6',
        digit_char(7) == '7',
        digit_char(8) == '8',
        digit_char(9) == '9',
{
}

proof fn lemma_decimal_small(n: nat)
    requires
        n < 1000,
    ensures
        n < 10 ==> decimal(n) == seq![digit_char(n)],
        10 <= n < 100 ==> decimal(n) == seq![digit_char(n / 10), digit_char(n % 10)],
        100 <= n ==> decimal(n) == seq![digit_char(n / 100), digit_char((n / 10) % 10), digit_char(n % 10)],
{
    if n >= 10 {
        assert(decimal(n) == decimal(n / 10).push(digit_char(n % 10)));
        if n >= 100 {
            assert(decimal(n / 10) == decimal(n / 10 / 10).push(digit_char((n / 10) % 10)));
            assert(n / 10 / 10 == n / 100);
            assert(decimal(n / 100) == seq![digit_char(n / 100)]);
        } else {
            assert(decimal(n / 10) == seq![digit_char(n / 10)]);
        }
    }
}

/// The SGR codes of the named colours, as the ANSI standard fixes them:
/// foreground 30 to 37 for black, red, green, yellow, blue, magenta, cyan
/// and white, background 40 to 47; the bright ones 90 to 97 and 100 to 107.
pub proof fn lemma_named_color_codes()
    ensures
        color_code(Color::Black, 30) == seq!['3', '0'],
        color_code(Color::Red, 30) == seq!['3', '1'],
        color_code(Color::Green, 30) == seq!['3', '2'],
        color_code(Color::Yellow, 30) == seq!['3', '3'],
        color_code(Color::Blue, 30) == seq!['3', '4'],
        color_code(Color::Magenta, 30) == seq!['3', '5'],
        color_code(Color::Cyan, 30) == seq!['3', '6'],
        color_code(Color::White, 30) == seq!['3', '7'],
        color_code(Color::Black, 40) == seq!['4', '0'],
        color_code(Color::Red, 40) == seq!['4', '1'],
        color_code(Color::Green, 40) == seq!['4', '2'],
        color_code(Color::Yellow, 40) == seq!['4', '3'],
        color_code(Color::Blue, 40) == seq!['4', '4'],
        color_code(Color::Magenta, 40) == seq!['4', '5'],
        color_code(Color::Cyan, 40) == seq!['4', '6'],
        color_code(Color::White, 40) == seq!['4', '7'],
        color_code(Color::BrightBlack, 30) == seq!['9', '0'],
        color_code(Color::BrightRed, 30) == seq!['9', '1'],
        color_code(Color::BrightGreen, 30) == seq!['9', '2'],
        color_code(Color::BrightYellow, 30) == seq!['9', '3'],
        color_code(Color::BrightBlue, 30) == seq!['9', '4'],
        color_code(Color::BrightMagenta, 30) == seq!['9', '5'],
        color_code(Color::BrightCyan, 30) == seq!['9', '6'],
        color_code(Color::BrightWhite, 30) == seq!['9', '7'],
        color_code(Color::BrightBlack, 40) == seq!['1', '0', '0'],
        color_code(Color::BrightRed, 40) == seq!['1', '0', '1'],
        color_code(Color::BrightGreen, 40) == seq!['1', '0', '2'],
        color_code(Color::BrightYellow, 40) == seq!['1', '0', '3'],
        color_code(Color::BrightBlue, 40) == seq!['1', '0', '4'],
        color_code(Color::BrightMagenta, 40) == seq!['1', '0', '5'],
        color_code(Color::BrightCyan, 40) == seq!['1', '0', '6'],
        color_code(Color::BrightWhite, 40) == seq!['1', '0', '7'],
{
    lemma_digits();
    lemma_decimal_small(30);
    lemma_decimal_small(40);
    lemma_decimal_small(90);
    lemma_decimal_small(100);
    lemma_decimal_small(31);
    lemma_decimal_small(41);
    lemma_decimal_small(91);
    lemma_decimal_small(101);
    lemma_decimal_small(32);
    lemma_decimal_small(42);
    lemma_decimal_small(92);
    lemma_decimal_small(102);
    lemma_decimal_small(33);
    lemma_decimal_small(43);
    lemma_decimal_small(93);
    lemma_decimal_small(103);
    lemma_decimal_small(34);
    lemma_decimal_small(44);
    lemma_decimal_small(94);
    lemma_decimal_small(104);
    lemma_decimal_small(35);
    lemma_decimal_small(45);
    lemma_decimal_small(95);
    lemma_decimal_small(105);
    lemma_decimal_small(36);
    lemma_decimal_small(46);
    lemma_decimal_small(96);
    lemma_decimal_small(106);
    lemma_decimal_small(37);
    lemma_decimal_small(47);
    lemma_decimal_small(97);
    lemma_decimal_small(107);
}

fn color_code_exec(c: Color, base: usize) -> (s: String)
    requires
        base <= 40,
    ensures
        s@ == color_code(c, base as nat),
{
    let mut s = String::new();
    match c {
        Color::Black => push_decimal(&mut s, base),
        Color::Red => push_decimal(&mut s, base + 1),
        Color::Green => push_decimal(&mut s, base + 2),
        Color::Yellow => push_decimal(&mut s, base + 3),
        Color::Blue => push_decimal(&mut s, base + 4),
        Color::Magenta => push_decimal(&mut s, base + 5),
        Color::Cyan => push_decimal(&mut s, base + 6),
        Color::White => push_decimal(&mut s, base + 7),
        Color::BrightBlack => push_decimal(&mut s, base + 60),
        Color::BrightRed => push_decimal(&mut s, base + 61),
        Color::BrightGreen => push_decimal(&mut s, base + 62),
        Color::BrightYellow => push_decimal(&mut s, base + 63),
        Color::BrightBlue => push_decimal(&mut s, base + 64),
        Color::BrightMagenta => push_decimal(&mut s, base + 65),
        Color::BrightCyan => push_decimal(&mut s, base + 66),
        Color::BrightWhite => push_decimal(&mut s, base + 67),
        Color::Rgb(r, g, b) => {
            push_decimal(&mut s, base + 8);
            push_str(&mut s, ";2;");
            push_decimal(&mut s, r as usize);
            push_str(&mut s, ";");
            push_decimal(&mut s, g as usize);
            push_str(&mut s, ";");
            push_decimal(&mut s, b as usize);
        },
    }
    assert(s@ =~= color_code(c, base as nat));
    s
}

/// SGR parameter that selects `color` as the foreground.
pub fn fg_code(color: Color) -> (s: String)
    ensures
        s@ == color_code(color, 30),
{
    color_code_exec(color, 30)
}

/// SGR parameter that selects `color` as the background.
pub fn bg_code(color: Color) -> (s: String)
    ensures
        s@ == color_code(color, 40),
{
    color_code_exec(color, 40)
}

/// The SGR parameters of a style, in order: bold `1`, dim `2`, italic `3`,
/// underline `4`, strikethrough `9`, then the foreground and background.
pub open spec fn sgr_params(style: Style) -> Seq<Seq<char>> {
    (if style.bold { seq!["1"@] } else { Seq::empty() }) + (if style.dim {
        seq!["2"@]
    } else {
        Seq::empty()
    }) + (if style.italic { seq!["3"@] } else { Seq::empty() }) + (if style.underline {
        seq!["4"@]
    } else {
        Seq::empty()
    }) + (if style.strikethrough { seq!["9"@] } else { Seq::empty() }) + (match style.fg {
        Some(c) => seq![color_code(c, 30)],
        None => Seq::empty(),
    }) + (match style.bg {
        Some(c) => seq![color_code(c, 40)],
        None => Seq::empty(),
    })
}

/// `parts` joined by `;`.
pub open spec fn join_params(parts: Seq<Seq<char>>) -> Seq<char>
    decreases parts.len(),
{
    if parts.len() == 0 {
        Seq::empty()
    } else if parts.len() == 1 {
        parts[0]
    } else {
        join_params(parts.drop_last()) + seq![';'] + parts.last()
    }
}

/// The escape sequence that switches the terminal to `style`.
pub open spec fn sgr_prefix(style: Style) -> Seq<char> {
    "\x1b["@ + join_params(sgr_params(style)) + "m"@
}

pub open spec fn reset_seq() -> Seq<char> {
    "\x1b[0m"@
}

proof fn lemma_join_push(parts: Seq<Seq<char>>, p: Seq<char>)
    ensures
        join_params(parts.push(p)) == join_params(parts) + (if parts.len() == 0 {
            Seq::empty()
        } else {
            seq![';']
        }) + p,
{
    assert(parts.push(p).drop_last() =~= parts);
    if parts.len() == 0 {
        assert(join_params(parts.push(p)) == p);
        assert(join_params(parts) == Seq::<char>::empty());
        assert(Seq::<char>::empty() + Seq::<char>::empty() + p =~= p);
    }
}

pub open spec fn views(v: Seq<String>) -> Seq<Seq<char>> {
    v.map_values(|s: String| s@)
}

fn push_param(v: &mut Vec<String>, p: &str)
    ensures
        views(final(v)@) == views(old(v)@).push(p@),
{
    v.push(p.to_string());
    assert(views(final(v)@) =~= views(old(v)@).push(p@));
}

/// The SGR parameters of `style`, in emission order.
#[verifier::rlimit(40)]
fn sgr_param_list(style: Style) -> (v: Vec<String>)
    ensures
        views(v@) == sgr_params(style),
{
    let mut v: Vec<String> = Vec::new();
    if style.bold {
        push_param(&mut v, "1");
    }
    if style.dim {
        push_param(&mut v, "2");
    }
    if style.italic {
        push_param(&mut v, "3");
    }
    if style.underline {
        push_param(&mut v, "4");
    }
    if style.strikethrough {
        push_param(&mut v, "9");
    }
    if let Some(fg) = style.fg {
        let code = fg_code(fg);
        push_param(&mut v, code.as_str());
    }
    if let Some(bg) = style.bg {
        let code = bg_code(bg);
        push_param(&mut v, code.as_str());
    }
    assert(views(v@) =~= sgr_params(style));
    v
}

/// The SGR escape that sets `style`.
pub fn style_prefix(style: Style) -> (s: String)
    ensures
        s@ == sgr_prefix(style),
{
    let params = sgr_param_list(style);
    let mut buf = String::new();
    push_str(&mut buf, "\x1b[");
    let mut i: usize = 0;
    while i < params.len()
        invariant
            i <= params@.len(),
            buf@ == "\x1b["@ + join_params(views(params@).subrange(0, i as int)),
        decreases params@.len() - i,
    {
        let ghost done = views(params@).subrange(0, i as int);
        if i > 0 {
            push_char(&mut buf, ';');
        }
        push_str(&mut buf, params[i].as_str());
        proof {
            lemma_join_push(done, params@[i as int]@);
            assert(done.push(params@[i as int]@) =~= views(params@).subrange(0, i as int + 1));
        }
        i = i + 1;
        assert(buf@ =~= "\x1b["@ + join_params(views(params@).subrange(0, i as int)));
    }
    assert(views(params@).subrange(0, params@.len() as int) =~= views(params@));
    push_char(&mut buf, 'm');
    proof {
        reveal_strlit("m");
    }
    assert(buf@ =~= sgr_prefix(style));
    buf
}

/// One span as written to the terminal.
pub open spec fn span_ansi(span: StyledSpan, colored: bool) -> Seq<char> {
    if colored && span.style != plain_style() {
        sgr_prefix(span.style) + span.text@ + reset_seq()
    } else {
        span.text@
    }
}

pub open spec fn spans_ansi(spans: Seq<StyledSpan>, colored: bool) -> Seq<char>
    decreases spans.len(),
{
    if spans.len() == 0 {
        Seq::empty()
    } else {
        spans_ansi(spans.drop_last(), colored) + span_ansi(spans.last(), colored)
    }
}

/// Every line as written to the terminal, each followed by a newline.
pub open spec fn lines_ansi(lines: Seq<StyledLine>, colored: bool) -> Seq<char>
    decreases lines.len(),
{
    if lines.len() == 0 {
        Seq::empty()
    } else {
        lines_ansi(lines.drop_last(), colored) + spans_ansi(lines.last().spans@, colored) + "\n"@
    }
}

/// Encode rendered lines for the terminal. When `colored` is false, styling
/// is stripped (suitable for non-TTY destinations).
pub fn encode_lines(lines: &[StyledLine], colored: bool) -> (s: String)
    ensures
        s@ == lines_ansi(lines@, colored),
{
    let mut out = String::new();
    let mut i: usize = 0;
    while i < lines.len()
        invariant
            i <= lines@.len(),
            out@ == lines_ansi(lines@.subrange(0, i as int), colored),
        decreases lines@.len() - i,
    {
        let line = &lines[i];
        let ghost start = out@;
        let mut j: usize = 0;
        while j < line.spans.len()
            invariant
                j <= line.spans@.len(),
                out@ == start + spans_ansi(line.spans@.subrange(0, j as int), colored),
            decreases line.spans@.len() - j,
        {
            let span = &line.spans[j];
            if colored && !span.style.is_default() {
                let prefix = style_prefix(span.style);
                push_str(&mut out, prefix.as_str());
                push_str(&mut out, span.text.as_str());
                push_str(&mut out, "\x1b[0m");
            } else {
                push_str(&mut out, span.text.as_str());
            }
            proof {
                let sub = line.spans@.subrange(0, j as int + 1);
                assert(sub.drop_last() =~= line.spans@.subrange(0, j as int));
            }
            j = j + 1;
            assert(out@ =~= start + spans_ansi(line.spans@.subrange(0, j as int), colored));
        }
        push_char(&mut out, '\n');
        proof {
            reveal_strlit("\n");
            let sub = lines@.subrange(0, i as int + 1);
            assert(sub.drop_last() =~= lines@.subrange(0, i as int));
            assert(line.spans@.subrange(0, line.spans@.len() as int) =~= line.spans@);
        }
        i = i + 1;
        assert(out@ =~= lines_ansi(lines@.subrange(0, i as int), colored));
    }
    assert(lines@.subrange(0, lines@.len() as int) =~= lines@);
    out
}

/// Append the rendered lines to `out`, encoded for the terminal. When
/// `colored` is false, styling is stripped.
pub fn write_lines(out: &mut String, lines: &[StyledLine], colored: bool)
    ensures
        final(out)@ == old(out)@ + lines_ansi(lines@, colored),
{
    let s = encode_lines(lines, colored);
    push_str(out, s.as_str());
}

} // verus!
