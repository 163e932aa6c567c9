//! The mermaid preview channel: the Server-Sent-Events payload format and
//! the handle that decides which sources are worth pushing to browsers.
//! The HTTP server itself runs outside the library.

use vstd::prelude::*;

use crate::text::{push_char, push_str, str_chars};

verus! {

/// The JSON escape of one character: quote, backslash and the named
/// controls get their two-character escape, other controls below U+0020
/// a `\u00XX` escape with lowercase hex digits, everything else stays.
pub open spec fn escape_char(c: char) -> Seq<char> {
    if c == '"' {
        seq!['\\', '"']
    } else if c == '\\' {
        seq!['\\', '\\']
    } else if c == '\n' {
        seq!['\\', 'n']
    } else if c == '\r' {
        seq!['\\', 'r']
    } else if c == '\t' {
        seq!['\\', 't']
    } else if c == '\x08' {
        seq!['\\', 'b']
    } else if c == '\x0c' {
        seq!['\\', 'f']
    } else if (c as u32) < 0x20 {
        seq!['\\', 'u', '0', '0', hex_digit((c as u32) / 16), hex_digit((c as u32) % 16)]
    } else {
        seq![c]
    }
}

/// Lowercase hex digit of `n` (< 16).
pub open spec fn hex_digit(n: u32) -> char {
    if n < 10 {
        (('0' as u32) + n) as char
    } else {
        (('a' as u32) + n - 10) as char
    }
}

/// The escapes of the characters of `s`, concatenated.
pub open spec fn escaped(s: Seq<char>) -> Seq<char>
    decreases s.len(),
{
    if s.len() == 0 {
        Seq::empty()
    } else {
        escape_char(s[0]) + escaped(s.drop_first())
    }
}

/// `s` as a JSON string literal.
pub open spec fn json_literal(s: Seq<char>) -> Seq<char> {
    seq!['"'] + escaped(s) + seq!['"']
}

/// One Server-Sent-Events message of type `event` carrying `source`.
pub open spec fn sse_event(event: Seq<char>, source: Seq<char>) -> Seq<char> {
    "event: "@ + event + "\ndata: {\"source\":"@ + json_literal(source) + "}\n\n"@
}

proof fn lemma_escaped_push(s: Seq<char>, c: char)
    ensures
        escaped(s.push(c)) == escaped(s) + escape_char(c),
    decreases s.len(),
{
    if s.len() == 0 {
        assert(s.push(c).drop_first() =~= Seq::<char>::empty());
        assert(escaped(Seq::<char>::empty()) == Seq::<char>::empty());
        assert(escaped(s.push(c)) =~= escape_char(c));
    } else {
        lemma_escaped_push(s.drop_first(), c);
        assert(s.push(c).drop_first() =~= s.drop_first().push(c));
        assert(escaped(s.push(c)) =~= escaped(s) + escape_char(c));
    }
}

/// Value of a hex digit as JSON decoders read it.
pub open spec fn hex_value(c: char) -> int {
    if '0' <= c && c <= '9' {
        c as int - '0' as int
    } else if 'a' <= c && c <= 'f' {
        c as int - 'a' as int + 10
    } else {
        0
    }
}

/// The character a two-character escape `\e` stands for.
pub open spec fn simple_unescape(e: char) -> char {
    if e == 'n' {
        '\n'
    } else if e == 'r' {
        '\r'
    } else if e == 't' {
        '\t'
    } else if e == 'b' {
        '\x08'
    } else if e == 'f' {
        '\x0c'
    } else {
        e
    }
}

/// How a JSON reader decodes the body of a string literal.
pub open spec fn unescaped(t: Seq<char>) -> Seq<char>
    decreases t.len(),
{
    if t.len() == 0 {
        Seq::empty()
    } else if t[0] == '\\' && t.len() >= 2 {
        if t[1] == 'u' && t.len() >= 6 {
            seq![
                (hex_value(t[2]) * 4096 + hex_value(t[3]) * 256 + hex_value(t[4]) * 16
                    + hex_value(t[5])) as char,
            ] + unescaped(t.subrange(6, t.len() as int))
        } else {
            seq![simple_unescape(t[1])] + unescaped(t.subrange(2, t.len() as int))
        }
    } else {
        seq![t[0]] + unescaped(t.drop_first())
    }
}

proof fn lemma_unescape_one(c: char, r: Seq<char>)
    ensures
        unescaped(escape_char(c) + r) == seq![c] + unescaped(r),
{
    let t = escape_char(c) + r;
    let k = escape_char(c).len() as int;
    assert(t.subrange(k, t.len() as int) =~= r);
    assert(t.drop_first() =~= t.subrange(1, t.len() as int));
    if (c as u32) < 0x20 && c != '\n' && c != '\r' && c != '\t' && c != '\x08' && c != '\x0c' {
        let v = c as u32;
        assert(hex_value(hex_digit(v / 16)) == v / 16);
        assert(hex_value(hex_digit(v % 16)) == v % 16);
        assert(hex_value('0') == 0);
        assert((hex_value(t[2]) * 4096 + hex_value(t[3]) * 256 + hex_value(t[4]) * 16
            + hex_value(t[5])) == v as int);
    }
}

/// Decoding a JSON string body produced by the escaper gives back the
/// original text: the escaping loses nothing.
pub proof fn lemma_unescape_escaped(s: Seq<char>)
    ensures
        unescaped(escaped(s)) == s,
    decreases s.len(),
{
    if s.len() > 0 {
        lemma_unescape_escaped(s.drop_first());
        lemma_unescape_one(s[0], escaped(s.drop_first()));
        assert(seq![s[0]] + s.drop_first() =~= s);
    }
}

proof fn lemma_escape_char_printable(c: char)
    ensures
        forall|i: int| 0 <= i < escape_char(c).len() ==> (#[trigger] escape_char(c)[i] as u32) >= 0x20,
{
    if (c as u32) < 0x20 && c != '\n' && c != '\r' && c != '\t' && c != '\x08' && c != '\x0c' {
        let v = c as u32;
        assert((hex_digit(v / 16) as u32) >= 0x20);
        assert((hex_digit(v % 16) as u32) >= 0x20);
    }
}

proof fn lemma_escaped_printable(s: Seq<char>)
    ensures
        forall|i: int| 0 <= i < escaped(s).len() ==> (#[trigger] escaped(s)[i] as u32) >= 0x20,
    decreases s.len(),
{
    if s.len() > 0 {
        lemma_escaped_printable(s.drop_first());
        lemma_escape_char_printable(s[0]);
        let h = escape_char(s[0]);
        let t = escaped(s.drop_first());
        assert forall|i: int| 0 <= i < escaped(s).len() implies (#[trigger] escaped(s)[i] as u32) >= 0x20 by {
            if i < h.len() {
                assert(escaped(s)[i] == h[i]);
            } else {
                assert(escaped(s)[i] == t[i - h.len()]);
            }
        }
    }
}

/// What the JSON encoder promises: the literal is quoted, holds no raw
/// control character, decodes back to the text, and escapes only what
/// JSON requires — any character other than a quote, a backslash or a
/// control below U+0020 is copied as it is.
pub proof fn lemma_json_literal(s: Seq<char>)
    ensures
        json_literal(s).len() >= 2,
        json_literal(s)[0] == '"',
        json_literal(s).last() == '"',
        unescaped(json_literal(s).subrange(1, json_literal(s).len() - 1)) == s,
        forall|i: int| 0 <= i < json_literal(s).len() ==> (#[trigger] json_literal(s)[i] as u32) >= 0x20,
        forall|c: char| c != '"' && c != '\\' && (c as u32) >= 0x20 ==> #[trigger] escape_char(c) == seq![c],
{
    let r = json_literal(s);
    let e = escaped(s);
    assert(r.subrange(1, r.len() - 1) =~= e);
    lemma_unescape_escaped(s);
    lemma_escaped_printable(s);
    assert forall|i: int| 0 <= i < r.len() implies (#[trigger] r[i] as u32) >= 0x20 by {
        if 1 <= i < r.len() - 1 {
            assert(r[i] == e[i - 1]);
        }
    }
}

fn push_hex_digit(out: &mut String, n: u32)
    requires
        n < 16,
    ensures
        final(out)@ == old(out)@.push(hex_digit(n)),
{
    let b: u8 = n as u8;
    let c: char = if n < 10 { (48u8 + b) as char } else { (87u8 + b) as char };
    push_char(out, c);
}

/// Minimal JSON string encoder so the SSE payload needs no JSON library.
/// Only escapes what JSON strictly requires.
pub fn json_string(s: &str) -> (r: String)
    ensures
        r@ == json_literal(s@),
{
    let chars = str_chars(s);
    let mut out = String::new();
    push_char(&mut out, '"');
    let mut i: usize = 0;
    while i < chars.len()
        invariant
            i <= chars@.len(),
            chars@ == s@,
            out@ == seq!['"'] + escaped(chars@.subrange(0, i as int)),
        decreases chars@.len() - i,
    {
        let c = chars[i];
        let ghost before = out@;
        if c == '"' {
            push_char(&mut out, '\\');
            push_char(&mut out, '"');
        } else if c == '\\' {
            push_char(&mut out, '\\');
            push_char(&mut out, '\\');
        } else if c == '\n' {
            push_char(&mut out, '\\');
            push_char(&mut out, 'n');
        } else if c == '\r' {
            push_char(&mut out, '\\');
            push_char(&mut out, 'r');
        } else if c == '\t' {
            push_char(&mut out, '\\');
            push_char(&mut out, 't');
        } else if c == '\x08' {
            push_char(&mut out, '\\');
            push_char(&mut out, 'b');
        } else if c == '\x0c' {
            push_char(&mut out, '\\');
            push_char(&mut out, 'f');
        } else if (c as u32) < 0x20 {
            push_char(&mut out, '\\');
            push_char(&mut out, 'u');
            push_char(&mut out, '0');
            push_char(&mut out, '0');
            push_hex_digit(&mut out, (c as u32) / 16);
            push_hex_digit(&mut out, (c as u32) % 16);
        } else {
            push_char(&mut out, c);
        }
        proof {
            assert(out@ =~= before + escape_char(c));
            lemma_escaped_push(chars@.subrange(0, i as int), c);
            assert(chars@.subrange(0, i as int).push(c) =~= chars@.subrange(0, i as int + 1));
        }
        i = i + 1;
    }
    push_char(&mut out, '"');
    assert(chars@.subrange(0, chars@.len() as int) =~= chars@);
    assert(out@ =~= json_literal(s@));
    out
}

/// Encode one SSE message of type `event` whose JSON data carries `source`.
pub fn format_event(event: &str, source: &str) -> (r: String)
    ensures
        r@ == sse_event(event@, source@),
{
    let payload = json_string(source);
    let mut out = String::new();
    push_str(&mut out, "event: ");
    push_str(&mut out, event);
    push_str(&mut out, "\ndata: {\"source\":");
    push_str(&mut out, payload.as_str());
    push_str(&mut out, "}\n\n");
    assert(out@ =~= sse_event(event@, source@));
    out
}

/// What a push of `source` does to the handle whose last pushed source is
/// `last`: the new last source and the event to broadcast, if any. `None`
/// and a repeat of the last source broadcast nothing.
pub open spec fn push_outcome(last: Option<Seq<char>>, source: Option<Seq<char>>) -> (
    Option<Seq<char>>,
    Option<Seq<char>>,
) {
    match source {
        None => (last, None),
        Some(s) => if last == Some(s) {
            (last, None)
        } else {
            (Some(s), Some(sse_event("mermaid"@, s)))
        },
    }
}

/// The library side of the preview server: its URL and the last source
/// pushed, against which repeated pushes are dropped.
pub struct PreviewHandle {
    url: String,
    last_pushed: Option<String>,
}

impl PreviewHandle {
    pub closed spec fn url_view(&self) -> Seq<char> {
        self.url@
    }

    /// The last source pushed, if any.
    pub closed spec fn last_source(&self) -> Option<Seq<char>> {
        match self.last_pushed {
            Some(s) => Some(s@),
            None => None,
        }
    }

    pub fn new(url: String) -> (h: PreviewHandle)
        ensures
            h.url_view() == url@,
            h.last_source() == None::<Seq<char>>,
    {
        PreviewHandle { url, last_pushed: None }
    }

    pub fn url(&self) -> (u: &str)
        ensures
            u@ == self.url_view(),
    {
        self.url.as_str()
    }

    /// Decide what to push to all connected browsers for the given mermaid
    /// source. `None` (cursor not on a mermaid block) and a source identical
    /// to the last one pushed are no-ops; otherwise the SSE event to
    /// broadcast is returned.
    pub fn set_source(&mut self, source: Option<&str>) -> (event: Option<String>)
        ensures
            final(self).url_view() == old(self).url_view(),
            ({
                let src = match source {
                    Some(s) => Some(s@),
                    None => None,
                };
                let (last, ev) = push_outcome(old(self).last_source(), src);
                &&& final(self).last_source() == last
                &&& match event {
                    Some(e) => ev == Some(e@),
                    None => ev is None,
                }
            }),
    {
        match source {
            None => None,
            Some(s) => {
                let same = match &self.last_pushed {
                    Some(last) => str_eq(last.as_str(), s),
                    None => false,
                };
                if same {
                    None
                } else {
                    let event = format_event("mermaid", s);
                    self.last_pushed = Some(s.to_string());
                    Some(event)
                }
            },
        }
    }
}

/// Pushing the same source twice in a row broadcasts it once: the second
/// push leaves the handle as it was and sends nothing.
pub proof fn lemma_push_dedup(last: Option<Seq<char>>, s: Seq<char>)
    ensures
        push_outcome(push_outcome(last, Some(s)).0, Some(s)) == (push_outcome(last, Some(s)).0, None::<Seq<char>>),
        push_outcome(last, None) == (last, None::<Seq<char>>),
{
}

/// What the preview server answers a request with.
#[derive(Debug, Clone, Copy, PartialEq, Eq, Structural)]
pub enum Route {
    /// 405: only `GET` is served.
    MethodNotAllowed,
    /// The preview page.
    Index,
    /// The bundled mermaid script.
    Script,
    /// The server-sent event stream.
    Events,
    /// 404.
    NotFound,
}

pub open spec fn route_of(is_get: bool, url: Seq<char>) -> Route {
    if !is_get {
        Route::MethodNotAllowed
    } else if url == "/"@ || url == "/index.html"@ {
        Route::Index
    } else if url == "/mermaid.min.js"@ {
        Route::Script
    } else if url == "/events"@ {
        Route::Events
    } else {
        Route::NotFound
    }
}

/// Route a request by its method (`GET` or not) and its URL.
pub fn route(is_get: bool, url: &str) -> (r: Route)
    ensures
        r == route_of(is_get, url@),
{
    if !is_get {
        Route::MethodNotAllowed
    } else if str_eq(url, "/") || str_eq(url, "/index.html") {
        Route::Index
    } else if str_eq(url, "/mermaid.min.js") {
        Route::Script
    } else if str_eq(url, "/events") {
        Route::Events
    } else {
        Route::NotFound
    }
}

/// The byte side of an event-stream response: the event being sent and
/// how much of it has gone out. Events arrive whole; reads take them out
/// in pieces no larger than the reader's buffer.
pub struct SseReader {
    pending: Vec<u8>,
    pos: usize,
}

impl SseReader {
    /// The bytes of the current event still to send.
    pub closed spec fn remaining(&self) -> Seq<u8> {
        if self.pos <= self.pending@.len() {
            self.pending@.skip(self.pos as int)
        } else {
            Seq::empty()
        }
    }

    /// A reader with nothing pending.
    pub fn new() -> (r: SseReader)
        ensures
            r.remaining().len() == 0,
    {
        SseReader { pending: Vec::new(), pos: 0 }
    }

    /// Whether the current event has gone out, so the next one is needed.
    pub fn needs_event(&self) -> (b: bool)
        ensures
            b == (self.remaining().len() == 0),
    {
        self.pos >= self.pending.len()
    }

    /// Start sending the next event.
    pub fn load(&mut self, event: Vec<u8>)
        ensures
            final(self).remaining() == event@,
    {
        self.pending = event;
        self.pos = 0;
        assert(self.pending@.skip(0) =~= self.pending@);
    }

    /// Take up to `max` bytes of the current event.
    pub fn take(&mut self, max: usize) -> (out: Vec<u8>)
        ensures
            out@ == old(self).remaining().take(
                if max < old(self).remaining().len() { max as int } else { old(self).remaining().len() as int },
            ),
            final(self).remaining() == old(self).remaining().skip(out@.len() as int),
    {
        let mut out: Vec<u8> = Vec::new();
        if self.pos >= self.pending.len() {
            assert(old(self).remaining() =~= Seq::<u8>::empty() || self.pos == self.pending@.len());
            assert(old(self).remaining().take(0) =~= Seq::<u8>::empty());
            assert(old(self).remaining().skip(0) =~= old(self).remaining());
            return out;
        }
        let plen = self.pending.len();
        let avail = plen - self.pos;
        let n = if max < avail { max } else { avail };
        let mut k: usize = 0;
        while k < n
            invariant
                plen == self.pending@.len(),
                n <= avail,
                avail == self.pending@.len() - self.pos,
                self.pos < self.pending@.len(),
                self.pending == old(self).pending,
                self.pos == old(self).pos,
                k <= n,
                out@ == self.pending@.subrange(self.pos as int, self.pos + k),
            decreases n - k,
        {
            out.push(self.pending[self.pos + k]);
            k = k + 1;
            assert(out@ =~= self.pending@.subrange(self.pos as int, self.pos + k));
        }
        let ghost rem = old(self).remaining();
        assert(out@ =~= rem.take(n as int));
        self.pos = self.pos + n;
        assert(self.pending@.skip(self.pos as int) =~= rem.skip(n as int));
        out
    }
}

/// Character-wise string equality.
pub fn str_eq(a: &str, b: &str) -> (r: bool)
    ensures
        r == (a@ == b@),
{
    let x = str_chars(a);
    let y = str_chars(b);
    if x.len() != y.len() {
        return false;
    }
    let mut i: usize = 0;
    while i < x.len()
        invariant
            i <= x@.len(),
            x@.len() == y@.len(),
            x@ == a@,
            y@ == b@,
            forall|j: int| 0 <= j < i ==> x@[j] == y@[j],
        decreases x@.len() - i,
    {
        if x[i] != y[i] {
            return false;
        }
        i = i + 1;
    }
    assert(x@ =~= y@);
    true
}

} // verus!
