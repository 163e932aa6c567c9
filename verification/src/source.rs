//! What the browser can show: a file, a URL or a directory, and the path
//! helpers that resolve one from another.

use vstd::prelude::*;

use crate::preview::str_eq;
use crate::text::{lower_seq, push_str, str_chars};

verus! {

/// A loadable view target. Files are read from disk and can be watched;
/// URLs are fetched once per navigation; directories carry no buffer and
/// only drive the directory browser.
#[derive(Debug, Clone, PartialEq, Eq)]
pub enum Source {
    File(String),
    Url(String),
    Dir(String),
}

/// A source by value.
pub enum SourceView {
    File(Seq<char>),
    Url(Seq<char>),
    Dir(Seq<char>),
}

impl View for Source {
    type V = SourceView;

    open spec fn view(&self) -> SourceView {
        match self {
            Source::File(p) => SourceView::File(p@),
            Source::Url(u) => SourceView::Url(u@),
            Source::Dir(p) => SourceView::Dir(p@),
        }
    }
}

impl Source {
    /// A copy of the source.
    pub fn duplicate(&self) -> (r: Source)
        ensures
            r@ == self@,
    {
        match self {
            Source::File(p) => Source::File(p.clone()),
            Source::Url(u) => Source::Url(u.clone()),
            Source::Dir(p) => Source::Dir(p.clone()),
        }
    }
}

pub open spec fn source_display(s: Source) -> Seq<char> {
    match s {
        Source::File(p) => p@,
        Source::Url(u) => u@,
        Source::Dir(p) => p@ + "/"@,
    }
}

pub open spec fn starts_with(s: Seq<char>, prefix: Seq<char>) -> bool {
    prefix.len() <= s.len() && s.take(prefix.len() as int) == prefix
}

/// Treated as a URL: starts with `http://` or `https://`.
pub open spec fn url_like(s: Seq<char>) -> bool {
    starts_with(s, "http://"@) || starts_with(s, "https://"@)
}

/// `s` starts with `prefix`.
pub fn has_prefix(s: &str, prefix: &str) -> (r: bool)
    ensures
        r == starts_with(s@, prefix@),
{
    let a = str_chars(s);
    let b = str_chars(prefix);
    if b.len() > a.len() {
        return false;
    }
    let mut i: usize = 0;
    while i < b.len()
        invariant
            a@ == s@,
            b@ == prefix@,
            b@.len() <= a@.len(),
            i <= b@.len(),
            forall|j: int| 0 <= j < i ==> a@[j] == b@[j],
        decreases b@.len() - i,
    {
        if a[i] != b[i] {
            assert(s@.take(prefix@.len() as int)[i as int] != prefix@[i as int]);
            return false;
        }
        i = i + 1;
    }
    assert(s@.take(prefix@.len() as int) =~= prefix@);
    true
}

/// True for `http://` and `https://` addresses.
pub fn is_url(s: &str) -> (r: bool)
    ensures
        r == url_like(s@),
{
    has_prefix(s, "http://") || has_prefix(s, "https://")
}

impl Source {
    /// How the source is shown in the title: the path or URL, with a
    /// trailing `/` for directories.
    pub fn display(&self) -> (r: String)
        ensures
            r@ == source_display(*self),
    {
        match self {
            Source::File(p) => p.clone(),
            Source::Url(u) => u.clone(),
            Source::Dir(p) => {
                let mut r = p.clone();
                push_str(&mut r, "/");
                r
            },
        }
    }

    /// The path, for a file.
    pub fn as_file(&self) -> (r: Option<&str>)
        ensures
            match *self {
                Source::File(p) => r matches Some(q) && q@ == p@,
                _ => r is None,
            },
    {
        match self {
            Source::File(p) => Some(p.as_str()),
            Source::Url(_) | Source::Dir(_) => None,
        }
    }

    /// The path, for a directory.
    pub fn as_dir(&self) -> (r: Option<&str>)
        ensures
            match *self {
                Source::Dir(p) => r matches Some(q) && q@ == p@,
                _ => r is None,
            },
    {
        match self {
            Source::Dir(p) => Some(p.as_str()),
            Source::File(_) | Source::Url(_) => None,
        }
    }

    /// Read a command-line argument: `http(s)://` is a URL, anything else a
    /// filesystem path.
    pub fn from_arg(arg: &str) -> (r: Source)
        ensures
            r == (if url_like(arg@) {
                Source::Url(r->Url_0)
            } else {
                Source::File(r->File_0)
            }),
            match r {
                Source::Url(u) => u@ == arg@,
                Source::File(p) => p@ == arg@,
                Source::Dir(_) => false,
            },
    {
        if is_url(arg) {
            Source::Url(arg.to_string())
        } else {
            Source::File(arg.to_string())
        }
    }
}

/// `PathBuf::join` for a path that names no root of its own: `name` after
/// `dir` and a separator, unless `dir` is empty or already ends in one; a
/// rooted `name` replaces `dir`.
pub open spec fn joined(dir: Seq<char>, name: Seq<char>) -> Seq<char> {
    if name.len() > 0 && name[0] == '/' {
        name
    } else if dir.len() == 0 || dir.last() == '/' {
        dir + name
    } else {
        dir + "/"@ + name
    }
}

/// `dir` joined with `name`.
pub fn join_path(dir: &str, name: &str) -> (r: String)
    ensures
        r@ == joined(dir@, name@),
{
    let n = str_chars(name);
    if n.len() > 0 && n[0] == '/' {
        return name.to_string();
    }
    let d = str_chars(dir);
    let mut r = dir.to_string();
    if !(d.len() == 0 || d[d.len() - 1] == '/') {
        push_str(&mut r, "/");
    }
    push_str(&mut r, name);
    assert(r@ =~= joined(dir@, name@));
    r
}

/// The names a README may have, in the order they are preferred.
pub open spec fn readme_candidates() -> Seq<Seq<char>> {
    seq!["README.md"@, "README.markdown"@, "readme.md"@, "readme.markdown"@, "index.md"@]
}

pub open spec fn names_of(files: Seq<String>) -> Seq<Seq<char>> {
    files.map_values(|f: String| f@)
}

/// The first candidate, in preference order, among `present`.
pub open spec fn first_present(cands: Seq<Seq<char>>, present: Seq<Seq<char>>) -> Option<Seq<char>>
    decreases cands.len(),
{
    if cands.len() == 0 {
        None
    } else if present.contains(cands[0]) {
        Some(cands[0])
    } else {
        first_present(cands.drop_first(), present)
    }
}

fn contains_name(files: &Vec<String>, name: &str) -> (r: bool)
    ensures
        r == names_of(files@).contains(name@),
{
    let mut i: usize = 0;
    while i < files.len()
        invariant
            i <= files@.len(),
            forall|j: int| 0 <= j < i ==> files@[j]@ != name@,
        decreases files@.len() - i,
    {
        if str_eq(files[i].as_str(), name) {
            assert(names_of(files@)[i as int] == name@);
            return true;
        }
        i = i + 1;
    }
    assert forall|j: int| 0 <= j < names_of(files@).len() implies names_of(files@)[j] != name@ by {
        assert(names_of(files@)[j] == files@[j]@);
    }
    false
}

/// The top-level README of `dir`, given the names of the regular files in
/// it: the first hit in priority order, biased towards markdown extensions
/// and the `README` casing GitHub treats as canonical.
pub fn find_readme(dir: &str, files: &Vec<String>) -> (r: Option<String>)
    ensures
        match first_present(readme_candidates(), names_of(files@)) {
            Some(name) => r matches Some(p) && p@ == joined(dir@, name),
            None => r is None,
        },
{
    let ghost present = names_of(files@);
    proof {
        reveal_with_fuel(first_present, 6);
    }
    let ghost cands = readme_candidates();
    assert(cands.drop_first() =~= seq!["README.markdown"@, "readme.md"@, "readme.markdown"@, "index.md"@]);
    assert(cands.drop_first().drop_first() =~= seq!["readme.md"@, "readme.markdown"@, "index.md"@]);
    assert(cands.drop_first().drop_first().drop_first() =~= seq!["readme.markdown"@, "index.md"@]);
    assert(cands.drop_first().drop_first().drop_first().drop_first() =~= seq!["index.md"@]);
    assert(cands.drop_first().drop_first().drop_first().drop_first().drop_first() =~= Seq::<Seq<char>>::empty());
    if contains_name(files, "README.md") {
        return Some(join_path(dir, "README.md"));
    }
    if contains_name(files, "README.markdown") {
        return Some(join_path(dir, "README.markdown"));
    }
    if contains_name(files, "readme.md") {
        return Some(join_path(dir, "readme.md"));
    }
    if contains_name(files, "readme.markdown") {
        return Some(join_path(dir, "readme.markdown"));
    }
    if contains_name(files, "index.md") {
        return Some(join_path(dir, "index.md"));
    }
    None
}

/// What `Path::parent` returns for `p`.
pub uninterp spec fn parent_of(p: Seq<char>) -> Option<Seq<char>>;

/// What `Path::file_name` returns for `p`.
pub uninterp spec fn file_name_of(p: Seq<char>) -> Option<Seq<char>>;

/// What `Path::extension` returns for `p`.
pub uninterp spec fn extension_of(p: Seq<char>) -> Option<Seq<char>>;

/// `Path::parent`: the path without its final component; its result is
/// named, not stated.
#[verifier::external_body]
pub fn path_parent(p: &str) -> (r: Option<String>)
    ensures
        r matches Some(q) ==> parent_of(p@) == Some(q@),
        r is None ==> parent_of(p@) is None,
{
    std::path::Path::new(p).parent().map(|q| q.to_string_lossy().into_owned())
}

/// `Path::file_name`: the final component; its result is named, not stated.
#[verifier::external_body]
pub fn path_file_name(p: &str) -> (r: Option<String>)
    ensures
        r matches Some(q) ==> file_name_of(p@) == Some(q@),
        r is None ==> file_name_of(p@) is None,
{
    std::path::Path::new(p).file_name().map(|q| q.to_string_lossy().into_owned())
}

/// `Path::extension`: the final component's extension; its result is
/// named, not stated.
#[verifier::external_body]
pub fn path_extension(p: &str) -> (r: Option<String>)
    ensures
        r matches Some(q) ==> extension_of(p@) == Some(q@),
        r is None ==> extension_of(p@) is None,
{
    std::path::Path::new(p).extension().map(|q| q.to_string_lossy().into_owned())
}

/// What `Path`'s `==` says of two paths: whether their components agree.
pub uninterp spec fn same_path(a: Seq<char>, b: Seq<char>) -> bool;

/// `Path`'s `==`, which compares components (so `d/` and `d` are the same
/// path); its result is named, not stated, beyond that a path equals
/// itself.
#[verifier::external_body]
pub fn paths_equal(a: &str, b: &str) -> (r: bool)
    ensures
        r == same_path(a@, b@),
        a@ == b@ ==> r,
{
    std::path::Path::new(a) == std::path::Path::new(b)
}

/// The index of the last `c` in `s`, if any.
pub open spec fn last_index(s: Seq<char>, c: char) -> Option<int>
    decreases s.len(),
{
    if s.len() == 0 {
        None
    } else if s.last() == c {
        Some(s.len() - 1)
    } else {
        last_index(s.drop_last(), c)
    }
}

pub proof fn lemma_last_index_bounds(s: Seq<char>, c: char)
    ensures
        last_index(s, c) matches Some(i) ==> 0 <= i < s.len() && s[i] == c,
        last_index(s, c) matches Some(i) ==> forall|j: int| i < j < s.len() ==> s[j] != c,
        last_index(s, c) is None ==> forall|j: int| 0 <= j < s.len() ==> s[j] != c,
    decreases s.len(),
{
    if s.len() > 0 {
        lemma_last_index_bounds(s.drop_last(), c);
        assert forall|j: int| 0 <= j < s.len() - 1 implies s[j] == s.drop_last()[j] by {}
    }
}

fn find_last(v: &Vec<char>, c: char) -> (r: Option<usize>)
    ensures
        r matches Some(i) ==> last_index(v@, c) == Some(i as int),
        r is None ==> last_index(v@, c) is None,
{
    let mut i: usize = v.len();
    assert(v@.take(i as int) =~= v@);
    while i > 0
        invariant
            i <= v@.len(),
            last_index(v@, c) == last_index(v@.take(i as int), c),
        decreases i,
    {
        assert(v@.take(i as int).drop_last() =~= v@.take(i as int - 1));
        if v[i - 1] == c {
            return Some(i - 1);
        }
        i = i - 1;
    }
    None
}

pub open spec fn text_extension(e: Seq<char>) -> bool {
    e == "md"@ || e == "markdown"@ || e == "txt"@ || e == "text"@
}

/// A URL path names something plain enough to render in the browser: its
/// last segment has a markdown or text extension, or none at all (LICENSE,
/// README). A path ending in `/` (a listing) or with any other extension
/// is not.
pub open spec fn url_path_renderable(path: Seq<char>) -> bool {
    if path.len() == 0 || path.last() == '/' {
        false
    } else {
        let seg = match last_index(path, '/') {
            Some(i) => path.skip(i + 1),
            None => path,
        };
        let lower = lower_seq(seg);
        match last_index(lower, '.') {
            Some(i) => text_extension(lower.skip(i + 1)),
            None => true,
        }
    }
}

fn is_text_extension(e: &str) -> (r: bool)
    ensures
        r == text_extension(e@),
{
    str_eq(e, "md") || str_eq(e, "markdown") || str_eq(e, "txt") || str_eq(e, "text")
}

fn lower_chars(v: &Vec<char>, from: usize) -> (r: Vec<char>)
    requires
        from <= v@.len(),
    ensures
        r@ == lower_seq(v@.skip(from as int)),
{
    let mut r: Vec<char> = Vec::new();
    let mut i: usize = from;
    while i < v.len()
        invariant
            from <= i <= v@.len(),
            r@ == lower_seq(v@.subrange(from as int, i as int)),
        decreases v@.len() - i,
    {
        r.push(crate::text::ascii_lower(v[i]));
        i = i + 1;
        assert(r@ =~= lower_seq(v@.subrange(from as int, i as int)));
    }
    assert(v@.subrange(from as int, v@.len() as int) =~= v@.skip(from as int));
    r
}

/// The characters of `v` from `from` on.
fn tail_string(v: &Vec<char>, from: usize) -> (r: String)
    requires
        from <= v@.len(),
    ensures
        r@ == v@.skip(from as int),
{
    let mut r = String::new();
    let mut i: usize = from;
    while i < v.len()
        invariant
            from <= i <= v@.len(),
            r@ == v@.subrange(from as int, i as int),
        decreases v@.len() - i,
    {
        crate::text::push_char(&mut r, v[i]);
        i = i + 1;
        assert(r@ =~= v@.subrange(from as int, i as int));
    }
    assert(v@.subrange(from as int, v@.len() as int) =~= v@.skip(from as int));
    r
}

/// Whether a URL path names something plain enough to render in-app.
pub fn url_path_is_renderable(path: &str) -> (r: bool)
    ensures
        r == url_path_renderable(path@),
{
    let v = str_chars(path);
    if v.len() == 0 || v[v.len() - 1] == '/' {
        return false;
    }
    proof {
        lemma_last_index_bounds(v@, '/');
    }
    let start: usize = match find_last(&v, '/') {
        Some(i) => i + 1,
        None => 0,
    };
    let lower = lower_chars(&v, start);
    assert(v@.skip(0) =~= v@);
    match find_last(&lower, '.') {
        Some(i) => {
            proof {
                lemma_last_index_bounds(lower@, '.');
            }
            let ext = tail_string(&lower, i + 1);
            is_text_extension(ext.as_str())
        },
        None => true,
    }
}

} // verus!
