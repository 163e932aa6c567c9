//! Character and string helpers shared by the renderer and the browser.

use vstd::prelude::*;

verus! {

pub open spec fn is_ascii_upper(c: char) -> bool {
    'A' <= c && c <= 'Z'
}

pub open spec fn is_ascii_lower(c: char) -> bool {
    'a' <= c && c <= 'z'
}

pub open spec fn is_ascii_digit(c: char) -> bool {
    '0' <= c && c <= '9'
}

pub open spec fn is_ascii_alnum(c: char) -> bool {
    is_ascii_upper(c) || is_ascii_lower(c) || is_ascii_digit(c)
}

/// ASCII lowercase of one character; other characters are unchanged.
pub open spec fn lower_char(c: char) -> char {
    if is_ascii_upper(c) {
        ((c as u32) + 32) as char
    } else {
        c
    }
}

/// ASCII uppercase of one character; other characters are unchanged.
pub open spec fn upper_char(c: char) -> char {
    if is_ascii_lower(c) {
        ((c as u32) - 32) as char
    } else {
        c
    }
}

pub open spec fn lower_seq(s: Seq<char>) -> Seq<char> {
    s.map_values(|c: char| lower_char(c))
}

pub fn ascii_lower(c: char) -> (r: char)
    ensures
        r == lower_char(c),
{
    if 'A' <= c && c <= 'Z' {
        let b: u8 = c as u8;
        (b + 32) as char
    } else {
        c
    }
}

pub fn ascii_upper(c: char) -> (r: char)
    ensures
        r == upper_char(c),
{
    if 'a' <= c && c <= 'z' {
        let b: u8 = c as u8;
        (b - 32) as char
    } else {
        c
    }
}

/// What `char::is_alphanumeric` answers for `c` (Unicode `Alphabetic` or
/// `Numeric`).
pub uninterp spec fn unicode_alphanumeric(c: char) -> bool;

/// What `char::is_whitespace` answers for `c` (Unicode `White_Space`).
pub uninterp spec fn unicode_whitespace(c: char) -> bool;

/// What `str::to_lowercase` returns for `s` (full Unicode lowercase mapping).
pub uninterp spec fn unicode_lowercase(s: Seq<char>) -> Seq<char>;

/// `char::is_alphanumeric`: its result is named; among ASCII characters
/// exactly the letters and digits are alphanumeric.
#[verifier::external_body]
pub fn is_alphanumeric(c: char) -> (b: bool)
    ensures
        b == unicode_alphanumeric(c),
        (c as u32) < 0x80 ==> (b <==> is_ascii_alnum(c)),
{
    c.is_alphanumeric()
}

/// `char::is_whitespace`: its result is named; among ASCII characters
/// exactly space and U+0009 to U+000D are `White_Space`.
#[verifier::external_body]
pub fn is_whitespace(c: char) -> (b: bool)
    ensures
        b == unicode_whitespace(c),
        (c as u32) < 0x80 ==> (b <==> (c == ' ' || ('\t' <= c && c <= '\r'))),
{
    c.is_whitespace()
}

/// `str::to_lowercase`: its result is named, not stated.
#[verifier::external_body]
pub fn to_lowercase(s: &str) -> (r: String)
    ensures
        r@ == unicode_lowercase(s@),
{
    s.to_lowercase()
}

/// `String::push`: appends one character.
#[verifier::external_body]
pub fn push_char(s: &mut String, c: char)
    ensures
        final(s)@ == old(s)@.push(c),
{
    s.push(c)
}

/// `str::chars`, collected: the characters of `s` in order.
#[verifier::external_body]
pub fn str_chars(s: &str) -> (v: Vec<char>)
    ensures
        v@ == s@,
{
    s.chars().collect()
}

/// Append the characters of `s` to `out`.
pub fn push_str(out: &mut String, s: &str)
    ensures
        final(out)@ == old(out)@ + s@,
{
    out.append(s);
}

/// A string holding exactly the characters of `v`.
pub fn string_from_chars(v: &[char]) -> (s: String)
    ensures
        s@ == v@,
{
    let mut s = String::new();
    let mut i: usize = 0;
    while i < v.len()
        invariant
            i <= v@.len(),
            s@ == v@.subrange(0, i as int),
        decreases v@.len() - i,
    {
        push_char(&mut s, v[i]);
        i = i + 1;
        assert(s@ =~= v@.subrange(0, i as int));
    }
    assert(s@ =~= v@);
    s
}

/// A string of `n` copies of `c`.
pub open spec fn repeat_char(c: char, n: nat) -> Seq<char> {
    Seq::new(n, |_i: int| c)
}

pub fn repeat(c: char, n: usize) -> (s: String)
    ensures
        s@ == repeat_char(c, n as nat),
{
    let mut s = String::new();
    let mut i: usize = 0;
    while i < n
        invariant
            i <= n,
            s@ == repeat_char(c, i as nat),
        decreases n - i,
    {
        push_char(&mut s, c);
        i = i + 1;
        assert(s@ =~= repeat_char(c, i as nat));
    }
    s
}

/// `s` without its leading Unicode whitespace.
pub open spec fn trim_start_ws(s: Seq<char>) -> Seq<char>
    decreases s.len(),
{
    if s.len() > 0 && unicode_whitespace(s[0]) {
        trim_start_ws(s.drop_first())
    } else {
        s
    }
}

/// `s` without its trailing Unicode whitespace.
pub open spec fn trim_end_ws(s: Seq<char>) -> Seq<char>
    decreases s.len(),
{
    if s.len() > 0 && unicode_whitespace(s.last()) {
        trim_end_ws(s.drop_last())
    } else {
        s
    }
}

/// `str::trim`: `s` without leading and trailing Unicode whitespace.
pub open spec fn trim_ws(s: Seq<char>) -> Seq<char> {
    trim_end_ws(trim_start_ws(s))
}

/// Index of the first whitespace character of `s`, or its length.
pub open spec fn first_ws(s: Seq<char>) -> int
    decreases s.len(),
{
    if s.len() == 0 {
        0
    } else if unicode_whitespace(s[0]) {
        0
    } else {
        1 + first_ws(s.drop_first())
    }
}

/// The first whitespace-separated word of `s` (empty when there is none).
pub open spec fn first_word(s: Seq<char>) -> Seq<char> {
    let t = trim_start_ws(s);
    t.subrange(0, first_ws(t))
}

proof fn lemma_first_ws_bounds(s: Seq<char>)
    ensures
        0 <= first_ws(s) <= s.len(),
        forall|i: int| 0 <= i < first_ws(s) ==> !unicode_whitespace(s[i]),
        first_ws(s) < s.len() ==> unicode_whitespace(s[first_ws(s)]),
    decreases s.len(),
{
    if s.len() > 0 && !unicode_whitespace(s[0]) {
        lemma_first_ws_bounds(s.drop_first());
        assert forall|i: int| 0 <= i < first_ws(s) implies !unicode_whitespace(s[i]) by {
            if i > 0 {
                assert(s[i] == s.drop_first()[i - 1]);
            }
        }
    }
}

proof fn lemma_trim_start_suffix(s: Seq<char>)
    ensures
        trim_start_ws(s).len() <= s.len(),
        trim_start_ws(s) == s.subrange(s.len() - trim_start_ws(s).len(), s.len() as int),
    decreases s.len(),
{
    if s.len() > 0 && unicode_whitespace(s[0]) {
        lemma_trim_start_suffix(s.drop_first());
        assert(s.drop_first().subrange(
            s.drop_first().len() - trim_start_ws(s).len(),
            s.drop_first().len() as int,
        ) =~= s.subrange(s.len() - trim_start_ws(s).len(), s.len() as int));
    } else {
        assert(s.subrange(0, s.len() as int) =~= s);
    }
}

/// Index where the whitespace-trimmed start of `v` begins.
fn skip_ws(v: &Vec<char>) -> (i: usize)
    ensures
        i <= v@.len(),
        v@.subrange(i as int, v@.len() as int) == trim_start_ws(v@),
{
    let mut i: usize = 0;
    assert(v@.subrange(0, v@.len() as int) =~= v@);
    while i < v.len() && is_whitespace(v[i])
        invariant
            i <= v@.len(),
            trim_start_ws(v@.subrange(i as int, v@.len() as int)) == trim_start_ws(v@),
        decreases v@.len() - i,
    {
        proof {
            let t = v@.subrange(i as int, v@.len() as int);
            assert(t.drop_first() =~= v@.subrange(i + 1, v@.len() as int));
        }
        i = i + 1;
    }
    proof {
        assert(v@.subrange(0, v@.len() as int) =~= v@);
    }
    i
}

/// `str::split_whitespace().next()`, or the empty string.
pub fn first_token(s: &str) -> (r: String)
    ensures
        r@ == first_word(s@),
{
    let v = str_chars(s);
    assert(v@.subrange(0, v@.len() as int) =~= v@);
    let start = skip_ws(&v);
    let mut end = start;
    while end < v.len() && !is_whitespace(v[end])
        invariant
            start <= end <= v@.len(),
            forall|i: int| start <= i < end ==> !unicode_whitespace(v@[i]),
        decreases v@.len() - end,
    {
        end = end + 1;
    }
    proof {
        let t = trim_start_ws(v@);
        assert(t == v@.subrange(start as int, v@.len() as int));
        lemma_first_ws_bounds(t);
        if first_ws(t) < end - start {
            assert(t[first_ws(t)] == v@[start + first_ws(t)]);
        }
        if end - start < first_ws(t) {
            assert(t[end - start] == v@[end as int]);
        }
        assert(t.subrange(0, first_ws(t)) =~= v@.subrange(start as int, end as int));
    }
    string_from_chars(&v.as_slice()[start..end])
}

/// `str::trim`.
pub fn trim(s: &str) -> (r: String)
    ensures
        r@ == trim_ws(s@),
{
    let v = str_chars(s);
    let start = skip_ws(&v);
    let mut end = v.len();
    proof {
        assert(v@.subrange(start as int, end as int) == trim_start_ws(v@));
    }
    while end > start && is_whitespace(v[end - 1])
        invariant
            start <= end <= v@.len(),
            trim_end_ws(v@.subrange(start as int, end as int)) == trim_ws(v@),
        decreases end,
    {
        assert(v@.subrange(start as int, end as int).drop_last() =~= v@.subrange(start as int, end - 1));
        end = end - 1;
    }
    string_from_chars(&v.as_slice()[start..end])
}

/// Index of the first `'\n'` in `s`, or its length.
pub open spec fn first_newline(s: Seq<char>) -> int
    decreases s.len(),
{
    if s.len() == 0 {
        0
    } else if s[0] == '\n' {
        0
    } else {
        1 + first_newline(s.drop_first())
    }
}

pub proof fn lemma_first_newline_bounds(s: Seq<char>)
    ensures
        0 <= first_newline(s) <= s.len(),
        forall|i: int| 0 <= i < first_newline(s) ==> s[i] != '\n',
        first_newline(s) < s.len() ==> s[first_newline(s)] == '\n',
    decreases s.len(),
{
    if s.len() > 0 && s[0] != '\n' {
        lemma_first_newline_bounds(s.drop_first());
        assert forall|i: int| 0 <= i < first_newline(s) implies s[i] != '\n' by {
            if i > 0 {
                assert(s[i] == s.drop_first()[i - 1]);
            }
        }
    }
}

/// A line ended by `\n` loses a `\r` just before it.
pub open spec fn strip_cr(line: Seq<char>) -> Seq<char> {
    if line.len() > 0 && line.last() == '\r' {
        line.drop_last()
    } else {
        line
    }
}

/// `str::lines`: the lines of `s`, split at `\n` or `\r\n`; a final line
/// ending adds no empty line.
pub open spec fn lines_of(s: Seq<char>) -> Seq<Seq<char>>
    decreases s.len(),
{
    if s.len() == 0 {
        Seq::empty()
    } else {
        let i = first_newline(s);
        if i < 0 || i >= s.len() {
            seq![s]
        } else {
            seq![strip_cr(s.subrange(0, i))] + lines_of(s.subrange(i + 1, s.len() as int))
        }
    }
}

proof fn lemma_first_newline_exact(t: Seq<char>, k: int)
    requires
        0 <= k <= t.len(),
        forall|j: int| 0 <= j < k ==> t[j] != '\n',
        k < t.len() ==> t[k] == '\n',
    ensures
        first_newline(t) == k,
{
    lemma_first_newline_bounds(t);
    if first_newline(t) < k {
        assert(t[first_newline(t)] == '\n');
    }
    if first_newline(t) > k {
        assert(t[k] != '\n');
    }
}

pub open spec fn string_views(v: Seq<String>) -> Seq<Seq<char>> {
    v.map_values(|s: String| s@)
}

/// `str::lines`, collected.
pub fn split_lines(s: &str) -> (lines: Vec<String>)
    ensures
        string_views(lines@) == lines_of(s@),
{
    let v = str_chars(s);
    let n = v.len();
    let mut out: Vec<String> = Vec::new();
    let mut start: usize = 0;
    let mut i: usize = 0;
    assert(v@.subrange(0, n as int) =~= s@);
    while i < n
        invariant
            n == v@.len(),
            v@ == s@,
            start <= i <= n,
            forall|j: int| start <= j < i ==> v@[j] != '\n',
            lines_of(s@) == string_views(out@) + lines_of(v@.subrange(start as int, n as int)),
        decreases n - i,
    {
        if v[i] == '\n' {
            let mut end = i;
            if end > start && v[end - 1] == '\r' {
                end = end - 1;
            }
            let line = string_from_chars(&v.as_slice()[start..end]);
            proof {
                let t = v@.subrange(start as int, n as int);
                lemma_first_newline_exact(t, i - start);
                assert(strip_cr(t.subrange(0, i - start)) =~= v@.subrange(start as int, end as int));
                assert(t.subrange(i - start + 1, t.len() as int) =~= v@.subrange(i + 1, n as int));
                assert(t.len() > 0);
                assert(lines_of(t) == seq![line@] + lines_of(v@.subrange(i + 1, n as int)));
            }
            let ghost pre = out@;
            out.push(line);
            assert(string_views(out@) =~= string_views(pre) + seq![line@]);
            start = i + 1;
        }
        i = i + 1;
    }
    if start < n {
        let line = string_from_chars(&v.as_slice()[start..n]);
        proof {
            let t = v@.subrange(start as int, n as int);
            lemma_first_newline_exact(t, t.len() as int);
            assert(lines_of(t) == seq![t]);
        }
        let ghost pre = out@;
        out.push(line);
        assert(string_views(out@) =~= string_views(pre) + seq![line@]);
    } else {
        assert(v@.subrange(start as int, n as int) =~= Seq::<char>::empty());
        assert(string_views(out@) + Seq::<Seq<char>>::empty() =~= string_views(out@));
    }
    out
}

} // verus!
