//! Following a link: what a link's target means relative to the document
//! it appears in.

use vstd::prelude::*;

use crate::source::{
    has_prefix, is_url, join_path, joined, parent_of, path_parent, starts_with, url_like,
    url_path_is_renderable, url_path_renderable, Source,
};
use crate::text::{push_char, str_chars};

verus! {

/// Where activating a link leads.
#[derive(Debug, Clone, PartialEq, Eq)]
pub enum LinkTarget {
    /// Hand off to the OS: non-markdown URLs, mailto/tel and the like.
    Url(String),
    /// `#slug` within the current document.
    SameAnchor(String),
    /// Local markdown file on disk.
    LocalFile(String),
    /// Local file with a heading anchor.
    LocalAnchor(String, String),
    /// Remote markdown file to fetch and render in-app.
    RemoteFile(String),
    /// Remote markdown file with a heading anchor.
    RemoteAnchor(String, String),
}

/// A link target by value.
pub enum TargetView {
    Url(Seq<char>),
    SameAnchor(Seq<char>),
    LocalFile(Seq<char>),
    LocalAnchor(Seq<char>, Seq<char>),
    RemoteFile(Seq<char>),
    RemoteAnchor(Seq<char>, Seq<char>),
}

impl View for LinkTarget {
    type V = TargetView;

    open spec fn view(&self) -> TargetView {
        match self {
            LinkTarget::Url(u) => TargetView::Url(u@),
            LinkTarget::SameAnchor(s) => TargetView::SameAnchor(s@),
            LinkTarget::LocalFile(p) => TargetView::LocalFile(p@),
            LinkTarget::LocalAnchor(p, s) => TargetView::LocalAnchor(p@, s@),
            LinkTarget::RemoteFile(u) => TargetView::RemoteFile(u@),
            LinkTarget::RemoteAnchor(u, s) => TargetView::RemoteAnchor(u@, s@),
        }
    }
}

/// What the URL parser made of an absolute or joined link.
#[derive(Debug, Clone, PartialEq, Eq)]
pub struct ResolvedUrl {
    /// The URL's path.
    pub path: String,
    /// The fragment after `#`, if any.
    pub fragment: Option<String>,
    /// The whole URL, serialized.
    pub full: String,
    /// The URL without its fragment, serialized.
    pub without_fragment: String,
}

/// A URL read back as plain values: its path, its fragment, its whole
/// serialization, and its serialization without the fragment.
pub type UrlParts = (Seq<char>, Option<Seq<char>>, Seq<char>, Seq<char>);

/// What the `url` crate makes of `link`: parsed on its own when `base` is
/// `None`, else joined onto `base` parsed first; `None` when parsing or
/// joining fails. A function of its arguments alone.
pub uninterp spec fn url_reading(link: Seq<char>, base: Option<Seq<char>>) -> Option<UrlParts>;

/// `ResolvedUrl` as plain values.
pub open spec fn parts_of(r: Option<ResolvedUrl>) -> Option<UrlParts> {
    match r {
        Some(u) => Some(
            (
                u.path@,
                match u.fragment {
                    Some(f) => Some(f@),
                    None => None,
                },
                u.full@,
                u.without_fragment@,
            ),
        ),
        None => None,
    }
}

/// Resolve `link` as a URL: parsed on its own, or joined onto `base`.
/// Calls `url::Url::parse`, `Url::join`, and reads the result back with
/// `Url::path`, `Url::fragment`, `Url::set_fragment` and its `Display`.
/// What the parser accepts and produces is named, not stated: the result is
/// `url_reading` of the arguments.
#[verifier::external_body]
fn resolve_url(link: &str, base: Option<&str>) -> (r: Option<ResolvedUrl>)
    ensures
        parts_of(r) == url_reading(
            link@,
            match base {
                Some(b) => Some(b@),
                None => None,
            },
        ),
{
    let parsed = match base {
        None => url::Url::parse(link),
        Some(b) => url::Url::parse(b).and_then(|b| b.join(link)),
    };
    let mut u = parsed.ok()?;
    let path = u.path().to_string();
    let fragment = u.fragment().map(str::to_string);
    let full = u.to_string();
    u.set_fragment(None);
    Some(ResolvedUrl { path, fragment, full, without_fragment: u.to_string() })
}

/// A resolved URL's target: rendered in-app when its path looks like
/// markdown or text (keeping the fragment as the anchor), otherwise handed
/// to the OS.
pub open spec fn resolved_target(u: UrlParts) -> TargetView {
    if !url_path_renderable(u.0) {
        TargetView::Url(u.2)
    } else {
        match u.1 {
            Some(slug) => TargetView::RemoteAnchor(u.3, slug),
            None => TargetView::RemoteFile(u.3),
        }
    }
}

/// The directory a relative local link is resolved against.
pub open spec fn local_base(current: Source) -> Seq<char> {
    match current {
        Source::File(p) => match parent_of(p@) {
            Some(d) => d,
            None => "."@,
        },
        Source::Dir(p) => p@,
        Source::Url(_) => "."@,
    }
}

/// The index of the first `c` in `s`, if any.
pub open spec fn first_index(s: Seq<char>, c: char) -> Option<int>
    decreases s.len(),
{
    if s.len() == 0 {
        None
    } else if s[0] == c {
        Some(0)
    } else {
        match first_index(s.drop_first(), c) {
            Some(i) => Some(i + 1),
            None => None,
        }
    }
}

/// Whether the URL parser is consulted for `link` in `current`.
pub open spec fn needs_resolution(link: Seq<char>, current: Source) -> bool {
    &&& !(link.len() > 0 && link[0] == '#')
    &&& !(starts_with(link, "mailto:"@) || starts_with(link, "tel:"@))
    &&& (url_like(link) || current is Url)
}

/// What the URL parser makes of `link` in `current`: `None` when it is not
/// consulted or does not parse the link.
pub open spec fn link_reading(link: Seq<char>, current: Source) -> Option<UrlParts> {
    if !needs_resolution(link, current) {
        None
    } else if url_like(link) {
        url_reading(link, None)
    } else {
        match current {
            Source::Url(base) => url_reading(link, Some(base@)),
            _ => None,
        }
    }
}

/// What a link means in `current`, given what the URL parser made of it
/// (`None` when it could not parse it, or was not consulted).
pub open spec fn link_target(link: Seq<char>, current: Source, resolved: Option<UrlParts>) -> TargetView {
    if link.len() > 0 && link[0] == '#' {
        TargetView::SameAnchor(link.drop_first())
    } else if starts_with(link, "mailto:"@) || starts_with(link, "tel:"@) {
        TargetView::Url(link)
    } else {
        match resolved {
            Some(u) => resolved_target(u),
            None => {
                let base = local_base(current);
                match first_index(link, '#') {
                    Some(i) => TargetView::LocalAnchor(joined(base, link.take(i)), link.skip(i + 1)),
                    None => TargetView::LocalFile(joined(base, link)),
                }
            },
        }
    }
}

proof fn lemma_first_index_bounds(s: Seq<char>, c: char)
    ensures
        first_index(s, c) matches Some(i) ==> 0 <= i < s.len() && s[i] == c,
        first_index(s, c) matches Some(i) ==> forall|j: int| 0 <= j < i ==> s[j] != c,
        first_index(s, c) is None ==> forall|j: int| 0 <= j < s.len() ==> s[j] != c,
    decreases s.len(),
{
    if s.len() > 0 {
        lemma_first_index_bounds(s.drop_first(), c);
        assert forall|j: int| 1 <= j < s.len() implies s[j] == s.drop_first()[j - 1] by {}
    }
}

proof fn lemma_first_index_found(s: Seq<char>, c: char, i: int)
    requires
        0 <= i < s.len(),
        s[i] == c,
        forall|j: int| 0 <= j < i ==> s[j] != c,
    ensures
        first_index(s, c) == Some(i),
    decreases i,
{
    if i > 0 {
        assert forall|j: int| 0 <= j < i - 1 implies s.drop_first()[j] != c by {
            assert(s.drop_first()[j] == s[j + 1]);
        }
        lemma_first_index_found(s.drop_first(), c, i - 1);
    }
}

proof fn lemma_first_index_none(s: Seq<char>, c: char)
    requires
        forall|j: int| 0 <= j < s.len() ==> s[j] != c,
    ensures
        first_index(s, c) is None,
    decreases s.len(),
{
    if s.len() > 0 {
        assert forall|j: int| 0 <= j < s.len() - 1 implies s.drop_first()[j] != c by {
            assert(s.drop_first()[j] == s[j + 1]);
        }
        lemma_first_index_none(s.drop_first(), c);
    }
}

fn chars_between(v: &Vec<char>, from: usize, to: usize) -> (s: String)
    requires
        from <= to <= v@.len(),
    ensures
        s@ == v@.subrange(from as int, to as int),
{
    let mut s = String::new();
    let mut i: usize = from;
    while i < to
        invariant
            from <= i <= to,
            to <= v@.len(),
            s@ == v@.subrange(from as int, i as int),
        decreases to - i,
    {
        push_char(&mut s, v[i]);
        i = i + 1;
        assert(s@ =~= v@.subrange(from as int, i as int));
    }
    s
}

/// The target of a link whose URL reading, if any, is `resolved`.
pub fn classify_with(link: &str, current: &Source, resolved: Option<ResolvedUrl>) -> (t: LinkTarget)
    ensures
        t@ == link_target(link@, *current, parts_of(resolved)),
{
    let v = str_chars(link);
    if v.len() > 0 && v[0] == '#' {
        let slug = chars_between(&v, 1, v.len());
        assert(link@.drop_first() =~= v@.subrange(1, v@.len() as int));
        return LinkTarget::SameAnchor(slug);
    }
    if has_prefix(link, "mailto:") || has_prefix(link, "tel:") {
        return LinkTarget::Url(link.to_string());
    }
    match resolved {
        Some(u) => {
            if !url_path_is_renderable(u.path.as_str()) {
                return LinkTarget::Url(u.full);
            }
            match u.fragment {
                Some(slug) => LinkTarget::RemoteAnchor(u.without_fragment, slug),
                None => LinkTarget::RemoteFile(u.without_fragment),
            }
        },
        None => {
            let base: String = match current {
                Source::File(p) => match path_parent(p.as_str()) {
                    Some(d) => d,
                    None => ".".to_string(),
                },
                Source::Dir(p) => p.clone(),
                Source::Url(_) => ".".to_string(),
            };
            assert(base@ == local_base(*current));
            let mut i: usize = 0;
            while i < v.len()
                invariant
                    v@ == link@,
                    base@ == local_base(*current),
                    resolved is None,
                    !(link@.len() > 0 && link@[0] == '#'),
                    !(starts_with(link@, "mailto:"@) || starts_with(link@, "tel:"@)),
                    i <= v@.len(),
                    forall|j: int| 0 <= j < i ==> v@[j] != '#',
                decreases v@.len() - i,
            {
                if v[i] == '#' {
                    proof {
                        lemma_first_index_found(link@, '#', i as int);
                    }
                    let path = chars_between(&v, 0, i);
                    let anchor = chars_between(&v, i + 1, v.len());
                    assert(link@.take(i as int) =~= v@.subrange(0, i as int));
                    assert(link@.skip(i as int + 1) =~= v@.subrange(i as int + 1, v@.len() as int));
                    return LinkTarget::LocalAnchor(join_path(base.as_str(), path.as_str()), anchor);
                }
                i = i + 1;
            }
            proof {
                lemma_first_index_none(link@, '#');
            }
            LinkTarget::LocalFile(join_path(base.as_str(), link))
        },
    }
}

/// Where activating `link`, found in the document loaded from `current`,
/// leads. Same-document anchors and mailto/tel links are decided here;
/// absolute URLs, and links inside a URL document, go through the URL
/// parser first; anything else is a path relative to the current file.
pub fn classify_link(link: &str, current: &Source) -> (t: LinkTarget)
    ensures
        t@ == link_target(link@, *current, link_reading(link@, *current)),
{
    let v = str_chars(link);
    let anchor_only = v.len() > 0 && v[0] == '#';
    let special = has_prefix(link, "mailto:") || has_prefix(link, "tel:");
    if anchor_only || special {
        return classify_with(link, current, None);
    }
    let resolved = if is_url(link) {
        resolve_url(link, None)
    } else {
        match current {
            Source::Url(base) => resolve_url(link, Some(base.as_str())),
            _ => None,
        }
    };
    classify_with(link, current, resolved)
}

} // verus!
