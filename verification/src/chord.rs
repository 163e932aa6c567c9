//! Keyboard chords: a key and its modifiers, and the parser for the chord
//! descriptions a user writes in the config file (`"ctrl+d"`, `"alt+left"`,
//! `"G"`, `"shift+tab"`).

use vstd::prelude::*;

use crate::preview::str_eq;
use crate::text::{ascii_lower, ascii_upper, is_ascii_digit, is_ascii_lower, lower_seq, push_str, str_chars, string_from_chars, string_views, upper_char};

verus! {

/// A key as the terminal reports it. Keys that no binding can name are
/// collapsed into `Other`.
#[derive(Debug, Clone, Copy, PartialEq, Eq, Hash, Structural)]
pub enum KeyCode {
    Backspace,
    Enter,
    Left,
    Right,
    Up,
    Down,
    Home,
    End,
    PageUp,
    PageDown,
    Tab,
    BackTab,
    Delete,
    Insert,
    F(u8),
    Char(char),
    Esc,
    Other,
}

/// The modifier keys held with a key.
#[derive(Debug, Clone, Copy, PartialEq, Eq, Hash, Structural)]
pub struct Mods {
    pub shift: bool,
    pub control: bool,
    pub alt: bool,
    pub super_key: bool,
    pub hyper: bool,
    pub meta: bool,
}

/// A key together with its modifiers.
pub type Chord = (KeyCode, Mods);

pub open spec fn no_mods() -> Mods {
    Mods { shift: false, control: false, alt: false, super_key: false, hyper: false, meta: false }
}

impl Mods {
    /// No modifier held.
    pub fn none() -> (m: Mods)
        ensures
            m == no_mods(),
    {
        Mods { shift: false, control: false, alt: false, super_key: false, hyper: false, meta: false }
    }

    /// Control alone.
    pub fn ctrl() -> (m: Mods)
        ensures
            m == (Mods { control: true, ..no_mods() }),
    {
        Mods { control: true, ..Mods::none() }
    }

    /// Alt alone.
    pub fn alt() -> (m: Mods)
        ensures
            m == (Mods { alt: true, ..no_mods() }),
    {
        Mods { alt: true, ..Mods::none() }
    }

    /// Both sets of modifiers held.
    pub fn union(self, other: Mods) -> (m: Mods)
        ensures
            m == (Mods {
                shift: self.shift || other.shift,
                control: self.control || other.control,
                alt: self.alt || other.alt,
                super_key: self.super_key || other.super_key,
                hyper: self.hyper || other.hyper,
                meta: self.meta || other.meta,
            }),
    {
        Mods {
            shift: self.shift || other.shift,
            control: self.control || other.control,
            alt: self.alt || other.alt,
            super_key: self.super_key || other.super_key,
            hyper: self.hyper || other.hyper,
            meta: self.meta || other.meta,
        }
    }

    /// These modifiers with `Shift` released.
    pub fn without_shift(self) -> (m: Mods)
        ensures
            m == (Mods { shift: false, ..self }),
    {
        Mods { shift: false, ..self }
    }
}

pub open spec fn normalized(c: Chord) -> Chord {
    (c.0, Mods { shift: false, ..c.1 })
}

/// Drop `Shift` before lookup. Shift is redundant for uppercase characters
/// (already in the `Char`) and for `BackTab` (inherently Shift+Tab), and
/// terminals report it inconsistently, so it is stripped everywhere.
pub fn normalize_chord(code: KeyCode, mods: Mods) -> (c: Chord)
    ensures
        c == normalized((code, mods)),
{
    (code, mods.without_shift())
}

/// Chord equality.
pub fn chord_eq(a: &Chord, b: &Chord) -> (r: bool)
    ensures
        r == (*a == *b),
{
    a.0 == b.0 && a.1 == b.1
}

/// The pieces of `s` between `+` separators, as `str::split('+')` gives
/// them: always at least one piece, empty pieces included.
pub open spec fn split_plus(s: Seq<char>) -> Seq<Seq<char>>
    decreases s.len(),
{
    if s.len() == 0 {
        seq![Seq::<char>::empty()]
    } else {
        let prev = split_plus(s.drop_last());
        if s.last() == '+' {
            prev.push(Seq::<char>::empty())
        } else {
            prev.update(prev.len() - 1, prev.last().push(s.last()))
        }
    }
}

pub proof fn lemma_split_plus_nonempty(s: Seq<char>)
    ensures
        split_plus(s).len() >= 1,
    decreases s.len(),
{
    if s.len() > 0 {
        lemma_split_plus_nonempty(s.drop_last());
    }
}

/// A modifier that a chord description can name.
#[derive(Debug, Clone, Copy, PartialEq, Eq, Structural)]
pub enum ModKey {
    Control,
    Alt,
    Shift,
}

/// The modifier a prefix names, compared case-insensitively.
pub open spec fn modifier_named(p: Seq<char>) -> Option<ModKey> {
    let l = lower_seq(p);
    if l == "ctrl"@ || l == "control"@ {
        Some(ModKey::Control)
    } else if l == "alt"@ || l == "meta"@ || l == "opt"@ || l == "option"@ {
        Some(ModKey::Alt)
    } else if l == "shift"@ {
        Some(ModKey::Shift)
    } else {
        None
    }
}

pub open spec fn with_mod(m: Mods, k: ModKey) -> Mods {
    match k {
        ModKey::Control => Mods { control: true, ..m },
        ModKey::Alt => Mods { alt: true, ..m },
        ModKey::Shift => Mods { shift: true, ..m },
    }
}

pub open spec fn unknown_modifier_msg(lower: Seq<char>) -> Seq<char> {
    "unknown modifier `"@ + lower + "`"@
}

/// The modifiers that the prefixes name, or the warning for the first one
/// that names none.
pub open spec fn mods_of(prefixes: Seq<Seq<char>>) -> Result<Mods, Seq<char>>
    decreases prefixes.len(),
{
    if prefixes.len() == 0 {
        Ok(no_mods())
    } else {
        match mods_of(prefixes.drop_last()) {
            Err(e) => Err(e),
            Ok(m) => match modifier_named(prefixes.last()) {
                Some(k) => Ok(with_mod(m, k)),
                None => Err(unknown_modifier_msg(lower_seq(prefixes.last()))),
            },
        }
    }
}

/// The named (non-character, non-function) key that a lowercase name means.
pub open spec fn named_key(l: Seq<char>) -> Option<KeyCode> {
    if l == "esc"@ || l == "escape"@ {
        Some(KeyCode::Esc)
    } else if l == "enter"@ || l == "return"@ || l == "ret"@ {
        Some(KeyCode::Enter)
    } else if l == "tab"@ {
        Some(KeyCode::Tab)
    } else if l == "backtab"@ {
        Some(KeyCode::BackTab)
    } else if l == "backspace"@ || l == "bs"@ {
        Some(KeyCode::Backspace)
    } else if l == "space"@ || l == "spc"@ {
        Some(KeyCode::Char(' '))
    } else if l == "left"@ {
        Some(KeyCode::Left)
    } else if l == "right"@ {
        Some(KeyCode::Right)
    } else if l == "up"@ {
        Some(KeyCode::Up)
    } else if l == "down"@ {
        Some(KeyCode::Down)
    } else if l == "home"@ {
        Some(KeyCode::Home)
    } else if l == "end"@ {
        Some(KeyCode::End)
    } else if l == "pageup"@ || l == "pgup"@ {
        Some(KeyCode::PageUp)
    } else if l == "pagedown"@ || l == "pgdn"@ {
        Some(KeyCode::PageDown)
    } else if l == "delete"@ || l == "del"@ {
        Some(KeyCode::Delete)
    } else if l == "insert"@ || l == "ins"@ {
        Some(KeyCode::Insert)
    } else {
        None
    }
}

/// The value of a string of decimal digits.
pub open spec fn decimal(d: Seq<char>) -> nat
    decreases d.len(),
{
    if d.len() == 0 {
        0
    } else {
        decimal(d.drop_last()) * 10 + ((d.last() as u32) - ('0' as u32)) as nat
    }
}

pub open spec fn all_digits(d: Seq<char>) -> bool {
    forall|i: int| 0 <= i < d.len() ==> is_ascii_digit(#[trigger] d[i])
}

/// The digits after the `f` of a function-key name: what `u8`'s parser
/// reads, an optional `+` sign and then the digits.
pub open spec fn f_digits(l: Seq<char>) -> Seq<char> {
    if l.len() >= 2 && l[1] == '+' {
        l.skip(2)
    } else {
        l.skip(1)
    }
}

/// `F1` to `F12`, named case-insensitively (`"f5"`, `"F12"`).
pub open spec fn function_key(l: Seq<char>) -> Option<u8> {
    let d = f_digits(l);
    if l.len() >= 2 && l[0] == 'f' && d.len() >= 1 && all_digits(d) && 1 <= decimal(d) <= 12 {
        Some(decimal(d) as u8)
    } else {
        None
    }
}

pub open spec fn unknown_key_msg(s: Seq<char>) -> Seq<char> {
    "unknown key `"@ + s + "`"@
}

/// The key a key name means: a named key or function key
/// (case-insensitive), else a single character (case-sensitive).
pub open spec fn key_code_of(s: Seq<char>) -> Result<KeyCode, Seq<char>> {
    let l = lower_seq(s);
    match named_key(l) {
        Some(k) => Ok(k),
        None => match function_key(l) {
            Some(n) => Ok(KeyCode::F(n)),
            None => if s.len() == 1 {
                Ok(KeyCode::Char(s[0]))
            } else {
                Err(unknown_key_msg(s))
            },
        },
    }
}

/// `shift+tab` is `BackTab`, `shift+<lowercase>` is the uppercase letter,
/// and whatever Shift is left is dropped.
pub open spec fn shift_adjusted(code: KeyCode, m: Mods) -> Chord {
    if m.shift && code == KeyCode::Tab {
        (KeyCode::BackTab, Mods { shift: false, ..m })
    } else if m.shift && code is Char && is_ascii_lower(code->Char_0) {
        (KeyCode::Char(upper_char(code->Char_0)), Mods { shift: false, ..m })
    } else {
        (code, Mods { shift: false, ..m })
    }
}

pub open spec fn invalid_chord_msg(s: Seq<char>) -> Seq<char> {
    "`"@ + s + "` is not a valid chord"@
}

pub open spec fn has_empty_piece(parts: Seq<Seq<char>>) -> bool {
    exists|i: int| 0 <= i < parts.len() && (#[trigger] parts[i]).len() == 0
}

/// What a chord description means, or why it means nothing.
pub open spec fn chord_of(s: Seq<char>) -> Result<Chord, Seq<char>> {
    let parts = split_plus(s);
    if has_empty_piece(parts) {
        Err(invalid_chord_msg(s))
    } else {
        match mods_of(parts.drop_last()) {
            Err(e) => Err(e),
            Ok(m) => match key_code_of(parts.last()) {
                Err(e) => Err(e),
                Ok(code) => Ok(shift_adjusted(code, m)),
            },
        }
    }
}

/// A parsed chord never carries Shift: what is stored matches what lookup
/// asks for after normalization.
pub proof fn lemma_parsed_chord_normalized(s: Seq<char>)
    ensures
        chord_of(s) matches Ok(c) ==> !c.1.shift && normalized(c) == c,
{
}

/// `s` split on `+`.
fn split_on_plus(s: &str) -> (parts: Vec<String>)
    ensures
        string_views(parts@) == split_plus(s@),
{
    let chars = str_chars(s);
    let mut parts: Vec<String> = Vec::new();
    let mut cur: Vec<char> = Vec::new();
    let mut i: usize = 0;
    while i < chars.len()
        invariant
            chars@ == s@,
            i <= chars@.len(),
            split_plus(s@.take(i as int)) == string_views(parts@).push(cur@),
        decreases chars@.len() - i,
    {
        let c = chars[i];
        let ghost old_parts = parts@;
        let ghost old_cur = cur@;
        assert(s@.take(i as int + 1).drop_last() =~= s@.take(i as int));
        assert(s@.take(i as int + 1).last() == c);
        if c == '+' {
            let piece = string_from_chars(cur.as_slice());
            parts.push(piece);
            cur = Vec::new();
            assert(string_views(parts@) =~= string_views(old_parts).push(old_cur));
            assert(split_plus(s@.take(i as int + 1)) =~= string_views(parts@).push(cur@));
        } else {
            cur.push(c);
            assert(split_plus(s@.take(i as int + 1)) =~= string_views(parts@).push(cur@));
        }
        i = i + 1;
    }
    assert(s@.take(chars@.len() as int) =~= s@);
    let ghost old_parts = parts@;
    let last = string_from_chars(cur.as_slice());
    parts.push(last);
    assert(string_views(parts@) =~= string_views(old_parts).push(last@));
    parts
}

/// `s` with ASCII letters lowercased.
fn lower_str(s: &str) -> (r: String)
    ensures
        r@ == lower_seq(s@),
{
    let chars = str_chars(s);
    let mut out: Vec<char> = Vec::new();
    let mut i: usize = 0;
    while i < chars.len()
        invariant
            chars@ == s@,
            i <= chars@.len(),
            out@ == lower_seq(s@.take(i as int)),
        decreases chars@.len() - i,
    {
        out.push(ascii_lower(chars[i]));
        i = i + 1;
        assert(out@ =~= lower_seq(s@.take(i as int)));
    }
    assert(s@.take(chars@.len() as int) =~= s@);
    string_from_chars(out.as_slice())
}

/// The modifier a prefix names, and the prefix lowercased.
fn modifier_of(p: &str) -> (r: (Option<ModKey>, String))
    ensures
        r.0 == modifier_named(p@),
        r.1@ == lower_seq(p@),
{
    let lower = lower_str(p);
    let l = lower.as_str();
    let k = if str_eq(l, "ctrl") || str_eq(l, "control") {
        Some(ModKey::Control)
    } else if str_eq(l, "alt") || str_eq(l, "meta") || str_eq(l, "opt") || str_eq(l, "option") {
        Some(ModKey::Alt)
    } else if str_eq(l, "shift") {
        Some(ModKey::Shift)
    } else {
        None
    };
    (k, lower)
}

fn add_mod(m: Mods, k: ModKey) -> (r: Mods)
    ensures
        r == with_mod(m, k),
{
    match k {
        ModKey::Control => Mods { control: true, ..m },
        ModKey::Alt => Mods { alt: true, ..m },
        ModKey::Shift => Mods { shift: true, ..m },
    }
}

/// The named key a lowercase name means.
fn named_key_of(l: &str) -> (r: Option<KeyCode>)
    ensures
        r == named_key(l@),
{
    if str_eq(l, "esc") || str_eq(l, "escape") {
        Some(KeyCode::Esc)
    } else if str_eq(l, "enter") || str_eq(l, "return") || str_eq(l, "ret") {
        Some(KeyCode::Enter)
    } else if str_eq(l, "tab") {
        Some(KeyCode::Tab)
    } else if str_eq(l, "backtab") {
        Some(KeyCode::BackTab)
    } else if str_eq(l, "backspace") || str_eq(l, "bs") {
        Some(KeyCode::Backspace)
    } else if str_eq(l, "space") || str_eq(l, "spc") {
        Some(KeyCode::Char(' '))
    } else if str_eq(l, "left") {
        Some(KeyCode::Left)
    } else if str_eq(l, "right") {
        Some(KeyCode::Right)
    } else if str_eq(l, "up") {
        Some(KeyCode::Up)
    } else if str_eq(l, "down") {
        Some(KeyCode::Down)
    } else if str_eq(l, "home") {
        Some(KeyCode::Home)
    } else if str_eq(l, "end") {
        Some(KeyCode::End)
    } else if str_eq(l, "pageup") || str_eq(l, "pgup") {
        Some(KeyCode::PageUp)
    } else if str_eq(l, "pagedown") || str_eq(l, "pgdn") {
        Some(KeyCode::PageDown)
    } else if str_eq(l, "delete") || str_eq(l, "del") {
        Some(KeyCode::Delete)
    } else if str_eq(l, "insert") || str_eq(l, "ins") {
        Some(KeyCode::Insert)
    } else {
        None
    }
}

/// The function-key number a lowercase name means.
fn function_key_of(l: &str) -> (r: Option<u8>)
    ensures
        r == function_key(l@),
{
    let v = str_chars(l);
    if v.len() < 2 || v[0] != 'f' {
        return None;
    }
    let start: usize = if v[1] == '+' { 2 } else { 1 };
    let ghost d = f_digits(l@);
    assert(d =~= v@.subrange(start as int, v@.len() as int));
    if start >= v.len() {
        return None;
    }
    let mut val: u32 = 0;
    let mut i: usize = start;
    while i < v.len()
        invariant
            v@ == l@,
            d == f_digits(l@),
            d == v@.subrange(start as int, v@.len() as int),
            start <= i <= v@.len(),
            all_digits(v@.subrange(start as int, i as int)),
            (val <= 12 && val == decimal(v@.subrange(start as int, i as int)))
                || (val == 13 && decimal(v@.subrange(start as int, i as int)) > 12),
        decreases v@.len() - i,
    {
        let c = v[i];
        if c < '0' || c > '9' {
            assert(d[i - start] == c);
            assert(!is_ascii_digit(d[i - start]));
            assert(!all_digits(d));
            return None;
        }
        let digit: u32 = (c as u32) - ('0' as u32);
        let ghost prev = v@.subrange(start as int, i as int);
        let ghost next = v@.subrange(start as int, i as int + 1);
        assert(next.drop_last() =~= prev);
        assert(next.last() == c);
        assert(decimal(next) == decimal(prev) * 10 + digit);
        if val > 12 {
            val = 13;
        } else {
            let t: u32 = val * 10 + digit;
            val = if t > 12 { 13 } else { t };
        }
        i = i + 1;
        assert(all_digits(next)) by {
            assert forall|j: int| 0 <= j < next.len() implies is_ascii_digit(#[trigger] next[j]) by {
                if j < prev.len() {
                    assert(next[j] == prev[j]);
                }
            }
        }
    }
    if 1 <= val && val <= 12 {
        Some(val as u8)
    } else {
        None
    }
}

fn unknown_key(s: &str) -> (r: String)
    ensures
        r@ == unknown_key_msg(s@),
{
    let mut r = String::new();
    push_str(&mut r, "unknown key `");
    push_str(&mut r, s);
    push_str(&mut r, "`");
    assert(r@ =~= unknown_key_msg(s@));
    r
}

/// The key a key name means: a named or function key (case-insensitive),
/// else a single character (case-sensitive).
pub fn parse_key_code(s: &str) -> (r: Result<KeyCode, String>)
    ensures
        match r {
            Ok(k) => key_code_of(s@) == Ok::<KeyCode, Seq<char>>(k),
            Err(e) => key_code_of(s@) == Err::<KeyCode, Seq<char>>(e@),
        },
{
    let lower = lower_str(s);
    if let Some(k) = named_key_of(lower.as_str()) {
        return Ok(k);
    }
    if let Some(n) = function_key_of(lower.as_str()) {
        return Ok(KeyCode::F(n));
    }
    let chars = str_chars(s);
    if chars.len() == 1 {
        return Ok(KeyCode::Char(chars[0]));
    }
    Err(unknown_key(s))
}

fn invalid_chord(s: &str) -> (r: String)
    ensures
        r@ == invalid_chord_msg(s@),
{
    let mut r = String::new();
    push_str(&mut r, "`");
    push_str(&mut r, s);
    push_str(&mut r, "` is not a valid chord");
    assert(r@ =~= invalid_chord_msg(s@));
    r
}

fn unknown_modifier(lower: &str) -> (r: String)
    ensures
        r@ == unknown_modifier_msg(lower@),
{
    let mut r = String::new();
    push_str(&mut r, "unknown modifier `");
    push_str(&mut r, lower);
    push_str(&mut r, "`");
    assert(r@ =~= unknown_modifier_msg(lower@));
    r
}

/// Parse a chord description like `"ctrl+d"`, `"alt+left"`, `"esc"`, `"G"`
/// or `"shift+tab"`. Modifiers combine (`"ctrl+alt+x"`) and are
/// case-insensitive; the key name is case-sensitive for single characters
/// and case-insensitive for named keys. The result is normalized, so what
/// is stored matches what lookup asks for.
pub fn parse_chord(s: &str) -> (r: Result<Chord, String>)
    ensures
        match r {
            Ok(c) => chord_of(s@) == Ok::<Chord, Seq<char>>(c),
            Err(e) => chord_of(s@) == Err::<Chord, Seq<char>>(e@),
        },
{
    let parts = split_on_plus(s);
    let ghost views = split_plus(s@);
    proof {
        lemma_split_plus_nonempty(s@);
    }
    assert(views.len() == parts@.len());
    let mut k: usize = 0;
    while k < parts.len()
        invariant
            string_views(parts@) == views,
            views == split_plus(s@),
            k <= parts@.len(),
            forall|j: int| 0 <= j < k ==> (#[trigger] views[j]).len() != 0,
        decreases parts@.len() - k,
    {
        assert(views[k as int] == parts@[k as int]@);
        if parts[k].as_str().unicode_len() == 0 {
            assert(has_empty_piece(views));
            return Err(invalid_chord(s));
        }
        k = k + 1;
    }
    assert(!has_empty_piece(views));
    let last: usize = parts.len() - 1;
    let mut mods = Mods::none();
    let mut i: usize = 0;
    while i < last
        invariant
            string_views(parts@) == views,
            views == split_plus(s@),
            last == parts@.len() - 1,
            !has_empty_piece(views),
            i <= last,
            mods_of(views.take(i as int)) == Ok::<Mods, Seq<char>>(mods),
        decreases last - i,
    {
        assert(views.take(i as int + 1).drop_last() =~= views.take(i as int));
        assert(views.take(i as int + 1).last() == parts@[i as int]@);
        let (kind, lower) = modifier_of(parts[i].as_str());
        match kind {
            Some(m) => {
                mods = add_mod(mods, m);
            },
            None => {
                assert(views.drop_last().take(i as int + 1) =~= views.take(i as int + 1));
                assert(mods_of(views.take(i as int + 1)) == Err::<Mods, Seq<char>>(
                    unknown_modifier_msg(lower@),
                ));
                proof {
                    lemma_mods_error_sticks(views.drop_last(), i as int + 1);
                }
                return Err(unknown_modifier(lower.as_str()));
            },
        }
        i = i + 1;
    }
    assert(views.take(last as int) =~= views.drop_last());
    assert(views.last() == parts@[last as int]@);
    let code = match parse_key_code(parts[last].as_str()) {
        Ok(c) => c,
        Err(e) => {
            return Err(e);
        },
    };
    let adjusted: Chord = if mods.shift && code == KeyCode::Tab {
        (KeyCode::BackTab, mods.without_shift())
    } else {
        match code {
            KeyCode::Char(c) => {
                if mods.shift && 'a' <= c && c <= 'z' {
                    (KeyCode::Char(ascii_upper(c)), mods.without_shift())
                } else {
                    (code, mods.without_shift())
                }
            },
            _ => (code, mods.without_shift()),
        }
    };
    Ok(adjusted)
}

/// Once a prefix names no modifier, every longer run of prefixes fails with
/// the same warning.
proof fn lemma_mods_error_sticks(prefixes: Seq<Seq<char>>, n: int)
    requires
        0 < n <= prefixes.len(),
        mods_of(prefixes.take(n)) is Err,
    ensures
        mods_of(prefixes) == mods_of(prefixes.take(n)),
    decreases prefixes.len() - n,
{
    if n < prefixes.len() {
        assert(prefixes.take(n + 1).drop_last() =~= prefixes.take(n));
        lemma_mods_error_sticks(prefixes, n + 1);
    } else {
        assert(prefixes.take(n) =~= prefixes);
    }
}

} // verus!
