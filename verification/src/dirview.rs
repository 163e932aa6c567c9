//! The directory browser overlay: which entries it lists, in what order,
//! and the tree rows it draws for them.

use vstd::prelude::*;

use crate::source::{
    extension_of, file_name_of, path_extension, path_file_name, path_parent, parent_of, paths_equal, same_path,
};
use crate::preview::str_eq;
use crate::text::{ascii_lower, lower_seq, push_str, str_chars};

verus! {

#[derive(Debug, Clone, Copy, PartialEq, Eq, Structural)]
pub enum DirEntryKind {
    Parent,
    Dir,
    File,
}

/// One listed entry of a directory.
#[derive(Debug, Clone, PartialEq, Eq)]
pub struct DirEntry {
    pub name: String,
    pub kind: DirEntryKind,
    pub path: String,
}

/// One row of the overlay: what activating it does (`kind`, `path`) and the
/// text drawn for it (tree prefix, icon, name, current-marker).
#[derive(Debug, Clone, PartialEq, Eq)]
pub struct DirRow {
    pub kind: DirEntryKind,
    pub path: String,
    pub display: String,
}

/// A directory entry as the filesystem reports it.
#[derive(Debug, Clone, PartialEq, Eq)]
pub struct RawEntry {
    pub name: String,
    pub path: String,
    pub is_dir: bool,
    pub is_file: bool,
}

/// A local file the browser can open without showing garbage: a markdown
/// or text extension, or an extensionless `LICENSE` / `README` (any case).
/// Stricter than the URL rule, since the filesystem also holds
/// extensionless binaries.
pub open spec fn renderable_local(p: Seq<char>) -> bool {
    match extension_of(p) {
        Some(e) => {
            let l = lower_seq(e);
            l == "md"@ || l == "markdown"@ || l == "txt"@ || l == "text"@
        },
        None => match file_name_of(p) {
            Some(n) => lower_seq(n) == "license"@ || lower_seq(n) == "readme"@,
            None => false,
        },
    }
}

fn lower_string(s: &str) -> (r: String)
    ensures
        r@ == lower_seq(s@),
{
    let v = str_chars(s);
    let mut r = String::new();
    let mut i: usize = 0;
    while i < v.len()
        invariant
            v@ == s@,
            i <= v@.len(),
            r@ == lower_seq(s@.take(i as int)),
        decreases v@.len() - i,
    {
        crate::text::push_char(&mut r, ascii_lower(v[i]));
        i = i + 1;
        assert(r@ =~= lower_seq(s@.take(i as int)));
    }
    assert(s@.take(v@.len() as int) =~= s@);
    r
}

/// Whether the browser can open the local file `p`.
pub fn is_renderable_local_file(p: &str) -> (r: bool)
    ensures
        r == renderable_local(p@),
{
    match path_extension(p) {
        Some(e) => {
            let l = lower_string(e.as_str());
            str_eq(l.as_str(), "md") || str_eq(l.as_str(), "markdown") || str_eq(l.as_str(), "txt")
                || str_eq(l.as_str(), "text")
        },
        None => match path_file_name(p) {
            Some(n) => {
                let l = lower_string(n.as_str());
                str_eq(l.as_str(), "license") || str_eq(l.as_str(), "readme")
            },
            None => false,
        },
    }
}

/// An entry by value: name, kind, path.
pub type EntryView = (Seq<char>, DirEntryKind, Seq<char>);

pub open spec fn entry_view(e: DirEntry) -> EntryView {
    (e.name@, e.kind, e.path@)
}

pub open spec fn entry_views(s: Seq<DirEntry>) -> Seq<EntryView> {
    s.map_values(|e: DirEntry| entry_view(e))
}

pub open spec fn entry_label(e: EntryView) -> Seq<char> {
    match e.1 {
        DirEntryKind::Dir => e.0 + "/"@,
        _ => e.0,
    }
}

/// Display name for an entry: directories get a trailing `/` so folder
/// rows stand apart from files.
pub fn entry_name(e: &DirEntry) -> (r: String)
    ensures
        r@ == entry_label(entry_view(*e)),
{
    match e.kind {
        DirEntryKind::Dir => {
            let mut r = e.name.clone();
            push_str(&mut r, "/");
            r
        },
        DirEntryKind::File | DirEntryKind::Parent => e.name.clone(),
    }
}

pub open spec fn entry_icon(e: EntryView) -> Seq<char> {
    match e.1 {
        DirEntryKind::File => match extension_of(e.2) {
            Some(x) => if lower_seq(x) == "md"@ || lower_seq(x) == "markdown"@ {
                "📝"@
            } else {
                "📄"@
            },
            None => "📄"@,
        },
        _ => "📁"@,
    }
}

/// The leading glyph of an entry's row: a folder for directories, a memo
/// for markdown files, a page for other files.
pub fn dir_entry_icon(e: &DirEntry) -> (r: &'static str)
    ensures
        r@ == entry_icon(entry_view(*e)),
{
    match e.kind {
        DirEntryKind::Parent | DirEntryKind::Dir => "📁",
        DirEntryKind::File => match path_extension(e.path.as_str()) {
            Some(x) => {
                let l = lower_string(x.as_str());
                if str_eq(l.as_str(), "md") || str_eq(l.as_str(), "markdown") {
                    "📝"
                } else {
                    "📄"
                }
            },
            None => "📄",
        },
    }
}

/// `a` sorts strictly before `b`, character by character.
pub open spec fn name_lt(a: Seq<char>, b: Seq<char>) -> bool
    decreases a.len(),
{
    if b.len() == 0 {
        false
    } else if a.len() == 0 {
        true
    } else if a[0] != b[0] {
        a[0] < b[0]
    } else {
        name_lt(a.drop_first(), b.drop_first())
    }
}

pub open spec fn is_readme(name: Seq<char>) -> bool {
    name.len() >= 6 && lower_seq(name.take(6)) == "readme"@
}

/// The order of the overlay: directories by name; files with `README*`
/// first, then by name.
pub open spec fn entry_lt(a: EntryView, b: EntryView) -> bool {
    if a.1 == DirEntryKind::File && b.1 == DirEntryKind::File && is_readme(a.0) != is_readme(b.0) {
        is_readme(a.0)
    } else {
        name_lt(a.0, b.0)
    }
}

/// `x` placed into `s` after every entry that does not sort after it.
pub open spec fn insert_entry(s: Seq<EntryView>, x: EntryView) -> Seq<EntryView>
    decreases s.len(),
{
    if s.len() == 0 {
        seq![x]
    } else if !entry_lt(x, s.last()) {
        s.push(x)
    } else {
        insert_entry(s.drop_last(), x).push(s.last())
    }
}

/// `s` stably sorted by `entry_lt`.
pub open spec fn sorted_entries(s: Seq<EntryView>) -> Seq<EntryView>
    decreases s.len(),
{
    if s.len() == 0 {
        Seq::empty()
    } else {
        insert_entry(sorted_entries(s.drop_last()), s.last())
    }
}

/// Whether a raw listing item is listed as `kind`: hidden names are
/// skipped, directories kept, regular files kept when renderable.
pub open spec fn listed(r: RawEntry, kind: DirEntryKind) -> bool {
    &&& !(r.name@.len() > 0 && r.name@[0] == '.')
    &&& match kind {
        DirEntryKind::Dir => r.is_dir,
        _ => !r.is_dir && r.is_file && renderable_local(r.path@),
    }
}

/// The raw items listed as `kind`, in listing order.
pub open spec fn listed_of(raw: Seq<RawEntry>, kind: DirEntryKind) -> Seq<EntryView>
    decreases raw.len(),
{
    if raw.len() == 0 {
        Seq::empty()
    } else {
        let prev = listed_of(raw.drop_last(), kind);
        let r = raw.last();
        if listed(r, kind) {
            prev.push((r.name@, kind, r.path@))
        } else {
            prev
        }
    }
}

/// The entries the overlay lists for a directory: subdirectories, then
/// renderable files, each group in overlay order.
pub open spec fn renderable_listing(raw: Seq<RawEntry>) -> Seq<EntryView> {
    sorted_entries(listed_of(raw, DirEntryKind::Dir)) + sorted_entries(listed_of(raw, DirEntryKind::File))
}

fn name_less(a: &str, b: &str) -> (r: bool)
    ensures
        r == name_lt(a@, b@),
{
    let x = str_chars(a);
    let y = str_chars(b);
    let mut i: usize = 0;
    assert(a@.skip(0) =~= a@);
    assert(b@.skip(0) =~= b@);
    while i < x.len() && i < y.len() && x[i] == y[i]
        invariant
            x@ == a@,
            y@ == b@,
            i <= x@.len(),
            i <= y@.len(),
            name_lt(a@, b@) == name_lt(a@.skip(i as int), b@.skip(i as int)),
        decreases x@.len() - i,
    {
        assert(a@.skip(i as int).drop_first() =~= a@.skip(i as int + 1));
        assert(b@.skip(i as int).drop_first() =~= b@.skip(i as int + 1));
        i = i + 1;
    }
    if i == y.len() {
        false
    } else if i == x.len() {
        true
    } else {
        x[i] < y[i]
    }
}

fn readme_name(name: &str) -> (r: bool)
    ensures
        r == is_readme(name@),
{
    let v = str_chars(name);
    if v.len() < 6 {
        return false;
    }
    let mut l = String::new();
    let mut i: usize = 0;
    while i < 6
        invariant
            v@ == name@,
            v@.len() >= 6,
            i <= 6,
            l@ == lower_seq(name@.take(i as int)),
        decreases 6 - i,
    {
        crate::text::push_char(&mut l, ascii_lower(v[i]));
        i = i + 1;
        assert(l@ =~= lower_seq(name@.take(i as int)));
    }
    str_eq(l.as_str(), "readme")
}

fn entry_less(a: &DirEntry, b: &DirEntry) -> (r: bool)
    ensures
        r == entry_lt(entry_view(*a), entry_view(*b)),
{
    if a.kind == DirEntryKind::File && b.kind == DirEntryKind::File {
        let ra = readme_name(a.name.as_str());
        let rb = readme_name(b.name.as_str());
        if ra != rb {
            return ra;
        }
    }
    name_less(a.name.as_str(), b.name.as_str())
}

fn insert_sorted_entry(r: &mut Vec<DirEntry>, x: DirEntry)
    ensures
        entry_views(final(r)@) == insert_entry(entry_views(old(r)@), entry_view(x)),
{
    let ghost s = entry_views(r@);
    let ghost xv = entry_view(x);
    let mut j: usize = r.len();
    assert(s.take(j as int) =~= s);
    assert(s.skip(j as int) =~= Seq::<EntryView>::empty());
    assert(insert_entry(s, xv) =~= insert_entry(s.take(j as int), xv) + s.skip(j as int));
    while j > 0 && entry_less(&x, &r[j - 1])
        invariant
            entry_views(r@) == s,
            xv == entry_view(x),
            j <= s.len(),
            insert_entry(s, xv) == insert_entry(s.take(j as int), xv) + s.skip(j as int),
        decreases j,
    {
        let ghost t = s.take(j as int);
        assert(t.drop_last() =~= s.take(j as int - 1));
        assert(t.last() == s[j as int - 1]);
        assert(s[j as int - 1] == entry_view(r@[j as int - 1]));
        assert(insert_entry(t, xv) == insert_entry(s.take(j as int - 1), xv).push(s[j as int - 1]));
        assert(seq![s[j as int - 1]] + s.skip(j as int) =~= s.skip(j as int - 1));
        assert(insert_entry(s.take(j as int - 1), xv).push(s[j as int - 1]) + s.skip(j as int)
            =~= insert_entry(s.take(j as int - 1), xv) + s.skip(j as int - 1));
        j = j - 1;
    }
    proof {
        if j > 0 {
            assert(s[j as int - 1] == entry_view(r@[j as int - 1]));
            assert(s.take(j as int).last() == s[j as int - 1]);
        }
    }
    assert(insert_entry(s.take(j as int), xv) == s.take(j as int).push(xv));
    let ghost before = r@;
    r.insert(j, x);
    assert(r@ =~= before.take(j as int).push(x) + before.skip(j as int));
    assert(entry_views(r@) =~= s.take(j as int).push(xv) + s.skip(j as int));
}

/// The entries that a directory listing shows in the overlay, in overlay
/// order: hidden names skipped; subdirectories by name; then renderable
/// files, `README*` first, then by name.
pub fn renderable_entries(raw: &Vec<RawEntry>) -> (r: Vec<DirEntry>)
    ensures
        entry_views(r@) == renderable_listing(raw@),
{
    let mut dirs: Vec<DirEntry> = Vec::new();
    let mut files: Vec<DirEntry> = Vec::new();
    let mut i: usize = 0;
    while i < raw.len()
        invariant
            i <= raw@.len(),
            entry_views(dirs@) == sorted_entries(listed_of(raw@.take(i as int), DirEntryKind::Dir)),
            entry_views(files@) == sorted_entries(listed_of(raw@.take(i as int), DirEntryKind::File)),
        decreases raw@.len() - i,
    {
        let e = &raw[i];
        assert(raw@.take(i as int + 1).drop_last() =~= raw@.take(i as int));
        assert(raw@.take(i as int + 1).last() == *e);
        let hidden = {
            let v = str_chars(e.name.as_str());
            v.len() > 0 && v[0] == '.'
        };
        if !hidden {
            if e.is_dir {
                let ghost prev = listed_of(raw@.take(i as int), DirEntryKind::Dir);
                assert(listed_of(raw@.take(i as int + 1), DirEntryKind::Dir) == prev.push((e.name@, DirEntryKind::Dir, e.path@)));
                assert(listed_of(raw@.take(i as int + 1), DirEntryKind::Dir).drop_last() =~= prev);
                insert_sorted_entry(&mut dirs, DirEntry { name: e.name.clone(), kind: DirEntryKind::Dir, path: e.path.clone() });
            } else if e.is_file && is_renderable_local_file(e.path.as_str()) {
                let ghost prev = listed_of(raw@.take(i as int), DirEntryKind::File);
                assert(listed_of(raw@.take(i as int + 1), DirEntryKind::File).drop_last() =~= prev);
                insert_sorted_entry(&mut files, DirEntry { name: e.name.clone(), kind: DirEntryKind::File, path: e.path.clone() });
            }
        }
        i = i + 1;
    }
    assert(raw@.take(raw@.len() as int) =~= raw@);
    let ghost dv = entry_views(dirs@);
    let ghost fv = entry_views(files@);
    let mut out = dirs;
    let mut k: usize = 0;
    while k < files.len()
        invariant
            k <= files@.len(),
            fv == entry_views(files@),
            entry_views(out@) == dv + fv.take(k as int),
        decreases files@.len() - k,
    {
        let f = DirEntry { name: files[k].name.clone(), kind: files[k].kind, path: files[k].path.clone() };
        let ghost pre = out@;
        assert(entry_view(f) == fv[k as int]);
        out.push(f);
        assert(entry_views(out@) =~= entry_views(pre).push(entry_view(f)));
        assert(fv.take(k as int + 1) =~= fv.take(k as int).push(fv[k as int]));
        assert(entry_views(out@) =~= dv + fv.take(k as int + 1));
        k = k + 1;
    }
    assert(fv.take(files@.len() as int) =~= fv);
    out
}

/// A row by value: kind, path, display text.
pub type RowView = (DirEntryKind, Seq<char>, Seq<char>);

pub open spec fn row_views(rows: Seq<DirRow>) -> Seq<RowView> {
    rows.map_values(|r: DirRow| (r.kind, r.path@, r.display@))
}

pub open spec fn branch(is_last: bool) -> Seq<char> {
    if is_last {
        "└── "@
    } else {
        "├── "@
    }
}

/// The row for entry `e`: `prefix`, its icon, a space, its name, `marker`.
pub open spec fn entry_row(prefix: Seq<char>, e: EntryView, marker: Seq<char>) -> RowView {
    (e.1, e.2, prefix + entry_icon(e) + " "@ + entry_label(e) + marker)
}

/// Rows for the first `k` of `entries`, each under `column`, as leaves of
/// one tree level.
pub open spec fn leaf_rows(entries: Seq<EntryView>, column: Seq<char>, k: int) -> Seq<RowView>
    decreases k,
{
    if k <= 0 || k > entries.len() {
        Seq::empty()
    } else {
        leaf_rows(entries, column, k - 1).push(
            entry_row(column + branch(k - 1 == entries.len() - 1), entries[k - 1], ""@),
        )
    }
}

/// Rows for the first `k` siblings of the focused directory `cur`; the
/// sibling that is `cur` is marked and, when its listing could be read, has
/// that listing expanded under it.
pub open spec fn sibling_rows(sibs: Seq<EntryView>, cur: Seq<char>, children: Option<Seq<EntryView>>, k: int) -> Seq<RowView>
    decreases k,
{
    if k <= 0 || k > sibs.len() {
        Seq::empty()
    } else {
        let e = sibs[k - 1];
        let is_last = k - 1 == sibs.len() - 1;
        let is_current = same_path(e.2, cur);
        let row = entry_row(branch(is_last), e, if is_current { "  ◀"@ } else { ""@ });
        let below = match children {
            Some(cs) => if is_current {
                leaf_rows(cs, if is_last { "    "@ } else { "│   "@ }, cs.len() as int)
            } else {
                Seq::empty()
            },
            None => Seq::empty(),
        };
        sibling_rows(sibs, cur, children, k - 1).push(row) + below
    }
}

/// The label of the tree root: the parent's name with a `/`, or the whole
/// parent path when it has no name.
pub open spec fn parent_label(p: Seq<char>) -> Seq<char> {
    match file_name_of(p) {
        Some(n) => n + "/"@,
        None => p,
    }
}

/// The rows of the overlay for the focused directory `cur`: `..`, the
/// parent as the tree root, the parent's entries, and `cur`'s entries
/// inline under its own row. With no parent, `cur` itself is the root.
pub open spec fn dir_view(cur: Seq<char>, siblings: Seq<EntryView>, children: Option<Seq<EntryView>>) -> Seq<RowView> {
    match parent_of(cur) {
        Some(p) => seq![
            (DirEntryKind::Parent, p, "📁 ../"@),
            (DirEntryKind::Dir, p, "📁 "@ + parent_label(p)),
        ] + sibling_rows(siblings, cur, children, siblings.len() as int),
        None => seq![(DirEntryKind::Dir, cur, "📁 "@ + cur + "  ◀"@)] + match children {
            Some(cs) => leaf_rows(cs, ""@, cs.len() as int),
            None => Seq::empty(),
        },
    }
}

fn push_row(rows: &mut Vec<DirRow>, kind: DirEntryKind, path: &str, display: String)
    ensures
        row_views(final(rows)@) == row_views(old(rows)@).push((kind, path@, display@)),
{
    let ghost pre = rows@;
    rows.push(DirRow { kind, path: path.to_string(), display });
    assert(row_views(rows@) =~= row_views(pre).push((kind, path@, display@)));
}

fn entry_display(prefix: &str, e: &DirEntry, marker: &str) -> (r: String)
    ensures
        r@ == entry_row(prefix@, entry_view(*e), marker@).2,
{
    let mut d = String::new();
    push_str(&mut d, prefix);
    push_str(&mut d, dir_entry_icon(e));
    push_str(&mut d, " ");
    let name = entry_name(e);
    push_str(&mut d, name.as_str());
    push_str(&mut d, marker);
    assert(d@ =~= entry_row(prefix@, entry_view(*e), marker@).2);
    d
}

fn push_leaf_rows(rows: &mut Vec<DirRow>, entries: &Vec<DirEntry>, column: &str)
    ensures
        row_views(final(rows)@) == row_views(old(rows)@) + leaf_rows(entry_views(entries@), column@, entries@.len() as int),
{
    let ghost start = row_views(rows@);
    let ghost ev = entry_views(entries@);
    let n = entries.len();
    let mut j: usize = 0;
    while j < n
        invariant
            n == entries@.len(),
            ev == entry_views(entries@),
            j <= n,
            row_views(rows@) == start + leaf_rows(ev, column@, j as int),
        decreases n - j,
    {
        let leaf = if j == n - 1 { "└── " } else { "├── " };
        let mut prefix = column.to_string();
        push_str(&mut prefix, leaf);
        assert(prefix@ == column@ + branch(j as int == ev.len() - 1));
        let e = &entries[j];
        assert(ev[j as int] == entry_view(*e));
        let d = entry_display(prefix.as_str(), e, "");
        push_row(rows, e.kind, e.path.as_str(), d);
        j = j + 1;
        assert(start + leaf_rows(ev, column@, j as int) =~= (start + leaf_rows(ev, column@, j as int - 1)).push(
            entry_row(column@ + branch(j as int - 1 == ev.len() - 1), ev[j as int - 1], ""@),
        ));
    }
}

/// The rows the directory overlay shows for the focused directory `cur`,
/// given the listings of its parent and of `cur` itself. The parent's
/// listing must be readable; `cur`'s need not be (its rows are then left
/// out).
pub fn build_dir_view(cur: &str, siblings: Result<Vec<RawEntry>, String>, children: Result<Vec<RawEntry>, String>) -> (r: Result<Vec<DirRow>, String>)
    ensures
        match parent_of(cur@) {
            Some(_) => match siblings {
                Err(e) => r matches Err(f) && f@ == e@,
                Ok(raw) => r matches Ok(rows) && row_views(rows@) == dir_view(
                    cur@,
                    renderable_listing(raw@),
                    match children {
                        Ok(c) => Some(renderable_listing(c@)),
                        Err(_) => None,
                    },
                ),
            },
            None => r matches Ok(rows) && row_views(rows@) == dir_view(
                cur@,
                Seq::empty(),
                match children {
                    Ok(c) => Some(renderable_listing(c@)),
                    Err(_) => None,
                },
            ),
        },
{
    let kids: Option<Vec<DirEntry>> = match &children {
        Ok(c) => Some(renderable_entries(c)),
        Err(_) => None,
    };
    let ghost kv: Option<Seq<EntryView>> = match children {
        Ok(c) => Some(renderable_listing(c@)),
        Err(_) => None,
    };
    let mut rows: Vec<DirRow> = Vec::new();
    match path_parent(cur) {
        Some(parent) => {
            let sibs = match siblings {
                Ok(raw) => renderable_entries(&raw),
                Err(e) => {
                    return Err(e);
                },
            };
            let ghost sv = entry_views(sibs@);
            push_row(&mut rows, DirEntryKind::Parent, parent.as_str(), "📁 ../".to_string());
            let label = match path_file_name(parent.as_str()) {
                Some(n) => {
                    let mut l = n;
                    push_str(&mut l, "/");
                    l
                },
                None => parent.clone(),
            };
            let mut header = "📁 ".to_string();
            push_str(&mut header, label.as_str());
            push_row(&mut rows, DirEntryKind::Dir, parent.as_str(), header);
            let ghost head = row_views(rows@);
            assert(head =~= seq![
                (DirEntryKind::Parent, parent@, "📁 ../"@),
                (DirEntryKind::Dir, parent@, "📁 "@ + parent_label(parent@)),
            ]);
            let n = sibs.len();
            let mut i: usize = 0;
            while i < n
                invariant
                    n == sibs@.len(),
                    sv == entry_views(sibs@),
                    i <= n,
                    kv == (match children {
                        Ok(c) => Some(renderable_listing(c@)),
                        Err(_) => None::<Seq<EntryView>>,
                    }),
                    kids matches Some(k) ==> kv == Some(entry_views(k@)),
                    kids is None ==> kv is None,
                    row_views(rows@) == head + sibling_rows(sv, cur@, kv, i as int),
                decreases n - i,
            {
                let e = &sibs[i];
                assert(sv[i as int] == entry_view(*e));
                let is_last = i == n - 1;
                let is_current = paths_equal(e.path.as_str(), cur);
                let leaf = if is_last { "└── " } else { "├── " };
                let marker = if is_current { "  ◀" } else { "" };
                let d = entry_display(leaf, e, marker);
                push_row(&mut rows, e.kind, e.path.as_str(), d);
                let ghost mid = row_views(rows@);
                if is_current {
                    match &kids {
                        Some(k) => {
                            let col = if is_last { "    " } else { "│   " };
                            push_leaf_rows(&mut rows, k, col);
                        },
                        None => {},
                    }
                }
                i = i + 1;
                assert(row_views(rows@) =~= head + sibling_rows(sv, cur@, kv, i as int));
            }
            Ok(rows)
        },
        None => {
            let mut d = "📁 ".to_string();
            push_str(&mut d, cur);
            push_str(&mut d, "  ◀");
            push_row(&mut rows, DirEntryKind::Dir, cur, d);
            let ghost head = row_views(rows@);
            assert(head =~= seq![(DirEntryKind::Dir, cur@, "📁 "@ + cur@ + "  ◀"@)]);
            match &kids {
                Some(k) => {
                    push_leaf_rows(&mut rows, k, "");
                },
                None => {
                    assert(row_views(rows@) =~= head + Seq::<RowView>::empty());
                },
            }
            Ok(rows)
        },
    }
}

} // verus!
