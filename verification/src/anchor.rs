//! Document anchors — one per heading. Drive the TOC overlay and resolve
//! `#slug` link targets.

use vstd::prelude::*;

use crate::text::{
    ascii_lower, is_alphanumeric, is_ascii_alnum, is_ascii_digit, is_ascii_lower, is_ascii_upper, is_whitespace,
    lower_char, str_chars, string_from_chars, unicode_alphanumeric, unicode_whitespace, upper_char,
};

verus! {

#[derive(Debug, Clone, PartialEq, Eq)]
pub struct Anchor {
    pub level: u8,
    pub text: String,
    pub slug: String,
    /// Index into the rendered `Vec<StyledLine>` where the heading starts.
    pub line: usize,
}

/// An ASCII whitespace character as `char::is_whitespace` counts it: space
/// and U+0009 to U+000D.
pub open spec fn is_ascii_ws(c: char) -> bool {
    c == ' ' || ('\t' <= c && c <= '\r')
}

/// What one heading character contributes to its slug: ASCII letters and
/// digits lowercased, `-`, `_` and whitespace a dash, other alphanumeric
/// characters themselves, everything else nothing. An ASCII character is
/// whitespace or alphanumeric as ASCII says; beyond ASCII, as Unicode's
/// `White_Space`, `Alphabetic` and `Numeric` say.
#[verifier::opaque]
pub open spec fn slug_char(c: char) -> Option<char> {
    if is_ascii_alnum(c) {
        Some(lower_char(c))
    } else if c == '-' || c == '_' || is_ascii_ws(c) || ((c as u32) >= 0x80 && unicode_whitespace(c)) {
        Some('-')
    } else if (c as u32) >= 0x80 && unicode_alphanumeric(c) {
        Some(c)
    } else {
        None
    }
}

/// True when `out` holds no dash at its start and no two dashes in a row.
pub open spec fn dashes_squeezed(out: Seq<char>) -> bool {
    &&& (out.len() > 0 ==> out[0] != '-')
    &&& forall|i: int| 0 <= i < out.len() - 1 ==> !(#[trigger] out[i] == '-' && out[i + 1] == '-')
}

/// The contributions of `s`, with leading dashes dropped and every run of
/// dashes squeezed to one.
pub open spec fn squeezed(s: Seq<char>) -> Seq<char>
    decreases s.len(),
{
    if s.len() == 0 {
        Seq::empty()
    } else {
        let out = squeezed(s.drop_last());
        match slug_char(s.last()) {
            Some(ch) => if ch == '-' && (out.len() == 0 || out.last() == '-') {
                out
            } else {
                out.push(ch)
            },
            None => out,
        }
    }
}

/// `s` without its trailing dashes.
pub open spec fn trim_dashes(s: Seq<char>) -> Seq<char>
    decreases s.len(),
{
    if s.len() > 0 && s.last() == '-' {
        trim_dashes(s.drop_last())
    } else {
        s
    }
}

/// The GitHub-flavoured slug of a heading text.
pub open spec fn slug(s: Seq<char>) -> Seq<char> {
    trim_dashes(squeezed(s))
}

proof fn lemma_squeezed_wf(s: Seq<char>)
    ensures
        dashes_squeezed(squeezed(s)),
        forall|i: int| 0 <= i < squeezed(s).len() ==> !is_ascii_upper(#[trigger] squeezed(s)[i]),
    decreases s.len(),
{
    reveal(slug_char);
    if s.len() > 0 {
        lemma_squeezed_wf(s.drop_last());
        let out = squeezed(s.drop_last());
        assert forall|i: int| 0 <= i < out.len() + 1 && i < squeezed(s).len() implies
            !is_ascii_upper(#[trigger] squeezed(s)[i]) by {
            if i < out.len() {
                assert(squeezed(s)[i] == out[i]);
            }
        }
    }
}

proof fn lemma_trim_keeps(s: Seq<char>)
    requires
        dashes_squeezed(s),
        forall|i: int| 0 <= i < s.len() ==> !is_ascii_upper(#[trigger] s[i]),
    ensures
        dashes_squeezed(trim_dashes(s)),
        forall|i: int| 0 <= i < trim_dashes(s).len() ==> !is_ascii_upper(#[trigger] trim_dashes(s)[i]),
        trim_dashes(s).len() > 0 ==> trim_dashes(s).last() != '-',
        trim_dashes(s).len() <= s.len(),
        trim_dashes(s) == s.subrange(0, trim_dashes(s).len() as int),
    decreases s.len(),
{
    if s.len() > 0 && s.last() == '-' {
        let t = s.drop_last();
        assert forall|i: int| 0 <= i < t.len() - 1 implies !(#[trigger] t[i] == '-' && t[i + 1] == '-') by {
            assert(t[i] == s[i] && t[i + 1] == s[i + 1]);
        }
        assert forall|i: int| 0 <= i < t.len() implies !is_ascii_upper(#[trigger] t[i]) by {
            assert(t[i] == s[i]);
        }
        lemma_trim_keeps(t);
        assert(trim_dashes(s) == trim_dashes(t));
        assert(trim_dashes(s) =~= s.subrange(0, trim_dashes(s).len() as int));
    } else {
        assert(s =~= s.subrange(0, s.len() as int));
    }
}

/// A slug never starts or ends with a dash, never holds two dashes in a
/// row, and holds no uppercase ASCII letter.
pub proof fn lemma_slug_well_formed(s: Seq<char>)
    ensures
        slug(s).len() > 0 ==> slug(s)[0] != '-' && slug(s).last() != '-',
        forall|i: int| 0 <= i < slug(s).len() - 1 ==> !(#[trigger] slug(s)[i] == '-' && slug(s)[i + 1] == '-'),
        forall|i: int| 0 <= i < slug(s).len() ==> !is_ascii_upper(#[trigger] slug(s)[i]),
{
    lemma_squeezed_wf(s);
    lemma_trim_keeps(squeezed(s));
    let sq = squeezed(s);
    let t = slug(s);
    if t.len() > 0 {
        assert(t[0] == sq[0]);
    }
    assert forall|i: int| 0 <= i < t.len() - 1 implies !(#[trigger] t[i] == '-' && t[i + 1] == '-') by {
        assert(t[i] == sq[i] && t[i + 1] == sq[i + 1]);
    }
}

/// Every character that can stand in a slug contributes itself.
proof fn lemma_slug_chars_fixed(s: Seq<char>)
    ensures
        forall|i: int| 0 <= i < slug(s).len() ==> slug_char(#[trigger] slug(s)[i]) == Some(slug(s)[i]),
{
    lemma_squeezed_fixed(s);
    lemma_squeezed_wf(s);
    lemma_trim_keeps(squeezed(s));
    let sq = squeezed(s);
    let t = slug(s);
    assert forall|i: int| 0 <= i < t.len() implies slug_char(#[trigger] t[i]) == Some(t[i]) by {
        assert(t[i] == sq[i]);
    }
}

proof fn lemma_squeezed_fixed(s: Seq<char>)
    ensures
        forall|i: int| 0 <= i < squeezed(s).len() ==> slug_char(#[trigger] squeezed(s)[i]) == Some(squeezed(s)[i]),
    decreases s.len(),
{
    reveal(slug_char);
    if s.len() > 0 {
        lemma_squeezed_fixed(s.drop_last());
        let out = squeezed(s.drop_last());
        assert forall|i: int| 0 <= i < squeezed(s).len() implies slug_char(#[trigger] squeezed(s)[i]) == Some(
            squeezed(s)[i],
        ) by {
            if i < out.len() {
                assert(squeezed(s)[i] == out[i]);
            }
        }
    }
}

/// A sequence already squeezed, whose characters each contribute
/// themselves, is its own squeezing.
proof fn lemma_squeezed_of_squeezed(s: Seq<char>)
    requires
        dashes_squeezed(s),
        forall|i: int| 0 <= i < s.len() ==> slug_char(#[trigger] s[i]) == Some(s[i]),
    ensures
        squeezed(s) == s,
    decreases s.len(),
{
    reveal(slug_char);
    if s.len() > 0 {
        let t = s.drop_last();
        assert forall|i: int| 0 <= i < t.len() - 1 implies !(#[trigger] t[i] == '-' && t[i + 1] == '-') by {
            assert(t[i] == s[i] && t[i + 1] == s[i + 1]);
        }
        assert forall|i: int| 0 <= i < t.len() implies slug_char(#[trigger] t[i]) == Some(t[i]) by {
            assert(t[i] == s[i]);
        }
        lemma_squeezed_of_squeezed(t);
        assert(slug_char(s[s.len() - 1]) == Some(s.last()));
        if s.last() == '-' {
            if t.len() > 0 {
                assert(t.last() == s[s.len() - 2]);
                assert(!(s[s.len() - 2] == '-' && s[s.len() - 1] == '-'));
            }
        }
        assert(t.push(s.last()) =~= s);
    }
}

/// Slugging a slug changes nothing.
pub proof fn lemma_slug_idempotent(t: Seq<char>)
    ensures
        slug(slug(t)) == slug(t),
{
    let s = slug(t);
    lemma_slug_well_formed(t);
    lemma_slug_chars_fixed(t);
    lemma_squeezed_of_squeezed(s);
    if s.len() > 0 {
        assert(s.last() != '-');
    }
    assert(trim_dashes(s) == s);
}

/// What an ASCII letter contributes does not depend on its case.
proof fn lemma_slug_char_upper(c: char)
    ensures
        slug_char(upper_char(c)) == slug_char(c),
{
    reveal(slug_char);
    if is_ascii_lower(c) {
        assert(is_ascii_upper(upper_char(c)));
        assert(lower_char(upper_char(c)) == c);
    }
}

proof fn lemma_squeezed_upper(t: Seq<char>)
    ensures
        squeezed(t.map_values(|c: char| upper_char(c))) == squeezed(t),
    decreases t.len(),
{
    reveal(slug_char);
    if t.len() > 0 {
        let u = t.map_values(|c: char| upper_char(c));
        assert(u.drop_last() =~= t.drop_last().map_values(|c: char| upper_char(c)));
        lemma_squeezed_upper(t.drop_last());
        lemma_slug_char_upper(t.last());
        assert(u.last() == upper_char(t.last()));
    }
}

/// Uppercasing the ASCII letters of a heading does not change its slug.
pub proof fn lemma_slug_ascii_case_blind(t: Seq<char>)
    ensures
        slug(t.map_values(|c: char| upper_char(c))) == slug(t),
{
    lemma_squeezed_upper(t);
}

/// What a slug is made of: no more characters than the heading had, each
/// a lowercase ASCII letter or digit, a dash, or a non-ASCII alphanumeric
/// character.
pub proof fn lemma_slug_shape(s: Seq<char>)
    ensures
        slug(s).len() <= s.len(),
        forall|i: int|
            0 <= i < slug(s).len() ==> {
                let c = #[trigger] slug(s)[i];
                is_ascii_lower(c) || is_ascii_digit(c) || c == '-' || ((c as u32) >= 0x80 && unicode_alphanumeric(c))
            },
{
    reveal(slug_char);
    lemma_squeezed_len(s);
    lemma_squeezed_wf(s);
    lemma_trim_keeps(squeezed(s));
    lemma_slug_chars_fixed(s);
    let t = slug(s);
    assert forall|i: int| 0 <= i < t.len() implies {
        let c = #[trigger] t[i];
        is_ascii_lower(c) || is_ascii_digit(c) || c == '-' || ((c as u32) >= 0x80 && unicode_alphanumeric(c))
    } by {
        let c = t[i];
        assert(slug_char(c) == Some(c));
        assert(!is_ascii_upper(c));
        if is_ascii_ws(c) || c == '_' {
            assert(slug_char(c) == Some('-'));
        }
    }
}

proof fn lemma_squeezed_len(s: Seq<char>)
    ensures
        squeezed(s).len() <= s.len(),
    decreases s.len(),
{
    if s.len() > 0 {
        lemma_squeezed_len(s.drop_last());
    }
}

/// Generate a GitHub-flavoured slug. Lowercases ASCII, drops most
/// punctuation, replaces whitespace with `-`, and keeps non-ASCII alphanumeric
/// characters (so Japanese headings produce a usable anchor too).
pub fn slugify(text: &str) -> (r: String)
    ensures
        r@ == slug(text@),
{
    let chars = str_chars(text);
    let mut out: Vec<char> = Vec::new();
    let mut prev_dash = true;
    let mut i: usize = 0;
    while i < chars.len()
        invariant
            i <= chars@.len(),
            chars@ == text@,
            out@ == squeezed(chars@.subrange(0, i as int)),
            prev_dash == (out@.len() == 0 || out@.last() == '-'),
        decreases chars@.len() - i,
    {
        let c = chars[i];
        proof {
            let pre = chars@.subrange(0, i as int + 1);
            assert(pre.drop_last() =~= chars@.subrange(0, i as int));
            assert(pre.last() == c);
        }
        let mapped: Option<char> = if ('a' <= c && c <= 'z') || ('A' <= c && c <= 'Z') || ('0' <= c
            && c <= '9') {
            Some(ascii_lower(c))
        } else if c == '-' || c == '_' || is_whitespace(c) {
            Some('-')
        } else if is_alphanumeric(c) {
            Some(c)
        } else {
            None
        };
        assert(mapped == slug_char(c)) by {
            reveal(slug_char);
        }
        if let Some(ch) = mapped {
            if ch == '-' {
                if !prev_dash {
                    out.push('-');
                    prev_dash = true;
                }
            } else {
                out.push(ch);
                prev_dash = false;
            }
        }
        i = i + 1;
    }
    assert(chars@.subrange(0, chars@.len() as int) =~= chars@);
    let ghost sq = out@;
    proof {
        lemma_squeezed_wf(text@);
    }
    if out.len() > 0 && out[out.len() - 1] == '-' {
        out.pop();
        proof {
            // A squeezed sequence ends in at most one dash.
            if out@.len() > 0 {
                assert(sq[sq.len() - 2] == out@.last());
            }
            assert(sq.drop_last() =~= out@);
            assert(trim_dashes(sq) == trim_dashes(out@));
            assert(trim_dashes(out@) == out@);
        }
    } else {
        assert(trim_dashes(sq) == sq);
    }
    string_from_chars(out.as_slice())
}

} // verus!
