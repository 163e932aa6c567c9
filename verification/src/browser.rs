//! The interactive browser's state and every decision it makes: cursor and
//! scroll geometry, modes and overlays, search, links, history, yank and
//! the directory browser. Input arrives as keys; whatever needs the outside
//! world (reading a document, listing a directory, the clipboard, handing a
//! URL to the OS) leaves as an [`Effect`], and its outcome comes back
//! through one of the `finish_*` methods.

use vstd::prelude::*;

use crate::anchor::Anchor;
use crate::ast::MdNode;
use crate::block::document_rendered;
use crate::markdown::{parsed_steps, traversal};
use crate::theme::{is_dark_theme, Theme};
use crate::dirview::{row_views, DirEntryKind, DirRow, RowView};
use crate::keymap::{Action, Keymap, LoadedKeymaps};
use crate::render::{out_view, BlockRange, Link, MermaidBlock, RenderOutput};
use crate::search::MatchPos;
use crate::source::Source;
use crate::style::{plain_style, spans_view, Color, Style, StyledLine, StyledSpan};
use crate::text::{repeat, repeat_char};
use crate::width::{spans_width, spans_width_of};
use crate::ansi::{decimal, push_decimal};
use crate::chord::{KeyCode, Mods};
use crate::keymap::lookup;
use crate::chord::{normalized, no_mods};
use crate::links::{classify_link, link_reading, link_target, LinkTarget, TargetView};
use crate::preview::str_eq;
use crate::render::parse_and_render;
use crate::search::{find_matches, line_text, plain_text};
use crate::source::{file_name_of, path_file_name, path_parent, paths_equal, same_path, SourceView};
use crate::text::push_str;
use crate::yank::{build_yank_path, yank_path, YankSelection};

verus! {

/// Which part of the browser has the keyboard.
#[derive(Debug, Clone, Copy, PartialEq, Eq, Structural)]
pub enum Mode {
    Normal,
    Toc,
    Help,
    Search,
    Yank,
    Dir,
}

/// An entry of the back/forward history.
#[derive(Debug, Clone)]
pub struct Location {
    pub source: Source,
    /// Logical line the cursor was on when leaving this entry.
    pub cursor: usize,
    /// Screen-row scroll offset (after wrapping), so the visible region is
    /// restored exactly.
    pub scroll: usize,
}

/// Rows a line of `line_w` cells takes in a body `body_w` cells wide: at
/// least one, and an empty line takes one.
pub open spec fn rows_for(line_w: usize, body_w: usize) -> usize {
    let bw: int = if body_w == 0 { 1 } else { body_w as int };
    if line_w == 0 {
        1
    } else {
        let r = (line_w as int + bw - 1) / bw;
        if r < 1 {
            1
        } else {
            r as usize
        }
    }
}

/// Screen rows a line of `line_w` cells wraps to in a body `body_w` wide.
pub fn wrapped_rows_for_width(line_w: usize, body_w: usize) -> (r: usize)
    ensures
        r == rows_for(line_w, body_w),
        r >= 1,
{
    let bw: usize = if body_w == 0 { 1 } else { body_w };
    if line_w == 0 {
        1
    } else {
        let q = line_w / bw;
        if line_w % bw != 0 {
            assert(bw >= 2);
            assert(q < usize::MAX) by (nonlinear_arith)
                requires
                    bw >= 2,
                    q == line_w / bw,
                    line_w <= usize::MAX,
            ;
        }
        let r = if line_w % bw == 0 { q } else { q + 1 };
        proof {
            lemma_div_ceil(line_w as int, bw as int);
        }
        if r < 1 {
            1
        } else {
            r
        }
    }
}

proof fn lemma_div_ceil(a: int, b: int)
    requires
        a >= 0,
        b >= 1,
    ensures
        (a + b - 1) / b == if a % b == 0 { a / b } else { a / b + 1 },
{
    let q = a / b;
    let r = a % b;
    assert(a == b * q + r && 0 <= r < b) by (nonlinear_arith)
        requires
            b >= 1,
            q == a / b,
            r == a % b,
    ;
    if r == 0 {
        assert((a + b - 1) / b == q) by (nonlinear_arith)
            requires
                a == b * q,
                b >= 1,
        ;
    } else {
        assert((a + b - 1) / b == q + 1) by (nonlinear_arith)
            requires
                a == b * q + r,
                1 <= r < b,
        ;
    }
}

/// Decimal digits of `n`.
pub open spec fn num_digits(n: nat) -> nat
    decreases n,
{
    if n < 10 {
        1
    } else {
        1 + num_digits(n / 10)
    }
}

pub open spec fn sat_add(a: usize, b: usize) -> usize {
    if a + b <= usize::MAX {
        (a + b) as usize
    } else {
        usize::MAX
    }
}

pub open spec fn sat_sub(a: usize, b: usize) -> usize {
    if a >= b {
        (a - b) as usize
    } else {
        0
    }
}

/// Screen rows taken by the first `n` of `lines`, each widened by `gutter`
/// cells and wrapped to `body_w`.
pub open spec fn rows_of(lines: Seq<StyledLine>, n: int, gutter: usize, body_w: usize) -> usize
    decreases n,
{
    if n <= 0 || n > lines.len() {
        0
    } else {
        sat_add(
            rows_of(lines, n - 1, gutter, body_w),
            rows_for(sat_add(spans_width_of(lines[n - 1].spans@), gutter), body_w),
        )
    }
}

/// The browser.
pub struct App {
    pub lines: Vec<StyledLine>,
    pub anchors: Vec<Anchor>,
    pub links: Vec<Link>,
    pub blocks: Vec<BlockRange>,
    /// The document's mermaid blocks, for the preview server.
    pub mermaid_blocks: Vec<MermaidBlock>,
    pub title: String,
    pub source: Source,
    /// Scroll offset in screen rows (after wrapping).
    pub scroll: usize,
    /// Cursor position as a logical line index into `lines`.
    pub cursor_line: usize,
    /// Whether the line-number gutter is drawn.
    pub show_line_numbers: bool,
    pub body_height: u16,
    pub body_width: u16,
    pub mode: Mode,
    pub toc_selection: usize,
    pub focused_link: Option<usize>,
    /// One-shot message for the status bar, cleared by the next input.
    pub status_message: Option<String>,
    /// Location stack; `history_cursor` points at the displayed entry and
    /// anything after it is forward history.
    pub history: Vec<Location>,
    pub history_cursor: usize,
    /// Active search query (empty: none).
    pub search_query: String,
    /// The search prompt's edit buffer while it is open.
    pub search_input: Option<String>,
    /// Every hit of `search_query`, in document order.
    pub search_matches: Vec<MatchPos>,
    /// The current hit.
    pub search_cursor: Option<usize>,
    /// The yank selection while yank mode is on.
    pub yank: Option<YankSelection>,
    /// A count typed before a motion (`42` waiting for `G`).
    pub pending_count: Option<u32>,
    /// The markdown source of the document, kept so toggles can re-parse
    /// without reading it again.
    pub raw_input: String,
    /// Whether `:shortcode:` is expanded to its emoji.
    pub shortcodes: bool,
    /// The focused directory of the directory overlay, while it is open.
    pub dir_path: Option<String>,
    pub dir_rows: Vec<DirRow>,
    pub dir_selection: usize,
    pub keymap_normal: Keymap,
    pub keymap_yank: Keymap,
    pub keymap_toc: Keymap,
    pub keymap_help: Keymap,
    pub keymap_dir: Keymap,
}

impl App {
    /// The index of the last line (0 for an empty document).
    pub open spec fn last_index(self) -> usize {
        sat_sub(self.lines@.len() as usize, 1)
    }

    /// Width of the line-number gutter with its trailing space, 0 when
    /// hidden.
    pub open spec fn gutter(self) -> usize {
        if !self.show_line_numbers {
            0
        } else {
            let max: nat = if self.lines@.len() == 0 { 1 } else { self.lines@.len() };
            (num_digits(max) + 1) as usize
        }
    }

    /// The screen row at which logical line `until` begins.
    pub open spec fn row_of(self, until: int) -> usize {
        let n = if until < self.lines@.len() { until } else { self.lines@.len() as int };
        rows_of(self.lines@, n, self.gutter(), self.body_width as usize)
    }

    /// The largest useful scroll offset.
    pub open spec fn max_scroll(self) -> usize {
        sat_sub(self.row_of(self.lines@.len() as int), self.body_height as usize)
    }

    /// What the browser always keeps true.
    pub open spec fn wf(self) -> bool {
        &&& self.history@.len() >= 1
        &&& self.history_cursor < self.history@.len()
        &&& self.cursor_line <= self.last_index()
        &&& (self.yank matches Some(y) ==> y.level < y.path@.len())
        &&& (self.search_cursor matches Some(i) ==> i < self.search_matches@.len())
        &&& (self.focused_link matches Some(i) ==> i < self.links@.len())
    }

    pub fn last_line_index(&self) -> (r: usize)
        ensures
            r == self.last_index(),
    {
        let n = self.lines.len();
        if n >= 1 {
            n - 1
        } else {
            0
        }
    }

    pub fn gutter_width(&self) -> (r: usize)
        ensures
            r == self.gutter(),
    {
        if !self.show_line_numbers {
            return 0;
        }
        let max: usize = if self.lines.len() == 0 { 1 } else { self.lines.len() };
        let d = digits(max);
        d + 1
    }

    /// The screen row at which logical line `until` begins.
    pub fn screen_row_of(&self, until: usize) -> (r: usize)
        ensures
            r == self.row_of(until as int),
    {
        let bw = self.body_width as usize;
        let gutter = self.gutter_width();
        let end = if until < self.lines.len() { until } else { self.lines.len() };
        let mut rows: usize = 0;
        let mut i: usize = 0;
        while i < end
            invariant
                end <= self.lines@.len(),
                i <= end,
                gutter == self.gutter(),
                bw == self.body_width as usize,
                rows == rows_of(self.lines@, i as int, gutter, bw),
            decreases end - i,
        {
            let w = spans_width(self.lines[i].spans.as_slice());
            let lw = if w <= usize::MAX - gutter { w + gutter } else { usize::MAX };
            let r = wrapped_rows_for_width(lw, bw);
            rows = if rows <= usize::MAX - r { rows + r } else { usize::MAX };
            i = i + 1;
        }
        rows
    }

    pub fn total_screen_rows(&self) -> (r: usize)
        ensures
            r == self.row_of(self.lines@.len() as int),
    {
        self.screen_row_of(self.lines.len())
    }

    pub fn max_scroll_rows(&self) -> (r: usize)
        ensures
            r == self.max_scroll(),
    {
        let total = self.total_screen_rows();
        let h = self.body_height as usize;
        if total >= h {
            total - h
        } else {
            0
        }
    }
}

pub open spec fn min_usize(a: usize, b: usize) -> usize {
    if a < b {
        a
    } else {
        b
    }
}

impl App {
    /// The scroll offset after bringing rows `[row_start, row_end)` into
    /// view: unchanged when they already fit, otherwise the least movement
    /// that shows them, never past the bottom. With no body yet, unchanged.
    pub open spec fn scroll_showing(self, row_start: usize, row_end: usize) -> usize {
        let h = self.body_height as usize;
        if h == 0 {
            self.scroll
        } else {
            let s = if row_start < self.scroll {
                row_start
            } else if row_end > self.scroll + h {
                sat_sub(row_end, h)
            } else {
                self.scroll
            };
            min_usize(s, self.max_scroll())
        }
    }

    /// The scroll offset that shows logical line `line`.
    pub open spec fn scroll_for_line(self, line: usize) -> usize {
        self.scroll_showing(self.row_of(line as int), self.row_of(line as int + 1))
    }

    /// Only the cursor and scroll changed.
    pub open spec fn moved(self, old: App) -> bool {
        self == (App { scroll: self.scroll, cursor_line: self.cursor_line, ..old })
    }

    fn scroll_to_rows(&mut self, row_start: usize, row_end: usize)
        ensures
            final(self).scroll == old(self).scroll_showing(row_start, row_end),
            final(self).cursor_line == old(self).cursor_line,
            final(self).moved(*old(self)),
    {
        let h = self.body_height as usize;
        if h == 0 {
            return;
        }
        let s = if row_start < self.scroll {
            row_start
        } else if row_end >= h && row_end - h > self.scroll {
            row_end - h
        } else {
            self.scroll
        };
        let m = self.max_scroll_rows();
        self.scroll = if s < m { s } else { m };
    }

    /// Adjust `scroll` so the cursor line is visible.
    pub fn scroll_to_cursor(&mut self)
        requires
            old(self).cursor_line <= old(self).last_index(),
        ensures
            final(self).scroll == old(self).scroll_for_line(old(self).cursor_line),
            final(self).cursor_line == old(self).cursor_line,
            final(self).moved(*old(self)),
    {
        let n = self.lines.len();
        let rs = self.screen_row_of(self.cursor_line);
        let re = self.screen_row_of(self.cursor_line + 1);
        self.scroll_to_rows(rs, re);
    }

    /// Put the cursor on `line` (clamped to the document) and scroll it
    /// into view.
    pub fn cursor_to(&mut self, line: usize)
        requires
            old(self).wf(),
        ensures
            final(self).wf(),
            final(self).cursor_line == min_usize(line, old(self).last_index()),
            final(self).scroll == old(self).scroll_for_line(final(self).cursor_line),
            final(self).moved(*old(self)),
    {
        let last = self.last_line_index();
        self.cursor_line = if line < last { line } else { last };
        self.scroll_to_cursor();
    }

    /// Move the cursor by `delta` lines, stopping at either end.
    pub fn cursor_by(&mut self, delta: isize)
        requires
            old(self).wf(),
        ensures
            final(self).wf(),
            final(self).cursor_line == (if old(self).cursor_line + delta < 0 {
                0
            } else if old(self).cursor_line + delta > old(self).last_index() {
                old(self).last_index() as int
            } else {
                old(self).cursor_line + delta
            }),
            final(self).scroll == old(self).scroll_for_line(final(self).cursor_line),
            final(self).moved(*old(self)),
    {
        let last = self.last_line_index();
        let next: i128 = (self.cursor_line as i128) + (delta as i128);
        let target: usize = if next < 0 {
            0
        } else if next > last as i128 {
            last
        } else {
            next as usize
        };
        self.cursor_line = target;
        self.scroll_to_cursor();
    }

    /// Half a screen of lines (at least one row's worth of body).
    pub fn half_page(&self) -> (r: isize)
        ensures
            r == (if self.body_height < 1 { 1 } else { self.body_height as int }) / 2,
    {
        let h: isize = if self.body_height < 1 { 1 } else { self.body_height as isize };
        h / 2
    }

    /// A screen of lines.
    pub fn page(&self) -> (r: isize)
        ensures
            r == (if self.body_height < 1 { 1 } else { self.body_height as int }),
    {
        if self.body_height < 1 {
            1
        } else {
            self.body_height as isize
        }
    }

    /// Jump to the next heading below the cursor; no-op when there is none.
    pub fn cursor_to_next_section(&mut self)
        requires
            old(self).wf(),
        ensures
            final(self).wf(),
            final(self).moved(*old(self)),
            (forall|k: int| 0 <= k < old(self).anchors@.len() ==> (#[trigger] old(self).anchors@[k]).line <= old(self).cursor_line)
                ==> *final(self) == *old(self),
            forall|k: int| #![trigger old(self).anchors@[k]]
                0 <= k < old(self).anchors@.len() && old(self).anchors@[k].line > old(self).cursor_line
                && (forall|m: int| 0 <= m < k ==> (#[trigger] old(self).anchors@[m]).line <= old(self).cursor_line)
                ==> final(self).cursor_line == min_usize(old(self).anchors@[k].line, old(self).last_index())
                    && final(self).scroll == old(self).scroll_for_line(final(self).cursor_line),
    {
        let mut k: usize = 0;
        while k < self.anchors.len()
            invariant
                *self == *old(self),
                self.wf(),
                k <= self.anchors@.len(),
                forall|m: int| 0 <= m < k ==> (#[trigger] self.anchors@[m]).line <= self.cursor_line,
            decreases self.anchors@.len() - k,
        {
            if self.anchors[k].line > self.cursor_line {
                let line = self.anchors[k].line;
                self.cursor_to(line);
                return;
            }
            k = k + 1;
        }
    }

    /// Jump to the nearest heading above the cursor; no-op when there is
    /// none.
    pub fn cursor_to_prev_section(&mut self)
        requires
            old(self).wf(),
        ensures
            final(self).wf(),
            final(self).moved(*old(self)),
            (forall|k: int| 0 <= k < old(self).anchors@.len() ==> (#[trigger] old(self).anchors@[k]).line >= old(self).cursor_line)
                ==> *final(self) == *old(self),
            forall|k: int| #![trigger old(self).anchors@[k]]
                0 <= k < old(self).anchors@.len() && old(self).anchors@[k].line < old(self).cursor_line
                && (forall|m: int| k < m < old(self).anchors@.len() ==> (#[trigger] old(self).anchors@[m]).line >= old(self).cursor_line)
                ==> final(self).cursor_line == min_usize(old(self).anchors@[k].line, old(self).last_index())
                    && final(self).scroll == old(self).scroll_for_line(final(self).cursor_line),
    {
        let mut k: usize = self.anchors.len();
        while k > 0
            invariant
                *self == *old(self),
                self.wf(),
                k <= self.anchors@.len(),
                forall|m: int| k <= m < self.anchors@.len() ==> (#[trigger] self.anchors@[m]).line >= self.cursor_line,
            decreases k,
        {
            if self.anchors[k - 1].line < self.cursor_line {
                let line = self.anchors[k - 1].line;
                self.cursor_to(line);
                return;
            }
            k = k - 1;
        }
    }

    /// Show or hide the line-number gutter, keeping the cursor in view.
    pub fn toggle_line_numbers(&mut self)
        requires
            old(self).wf(),
        ensures
            final(self).wf(),
            final(self).show_line_numbers == !old(self).show_line_numbers,
            final(self).cursor_line == old(self).cursor_line,
            final(self).scroll == (App { show_line_numbers: !old(self).show_line_numbers, ..*old(self) }).scroll_for_line(old(self).cursor_line),
            *final(self) == (App {
                show_line_numbers: !old(self).show_line_numbers,
                scroll: final(self).scroll,
                ..*old(self)
            }),
    {
        self.show_line_numbers = !self.show_line_numbers;
        self.scroll_to_cursor();
    }

    /// Record the size of the body area, pulling the scroll back when it
    /// is past the bottom.
    pub fn set_viewport(&mut self, height: u16, width: u16)
        requires
            old(self).wf(),
        ensures
            final(self).wf(),
            final(self).body_height == height,
            final(self).body_width == width,
            final(self).scroll == min_usize(old(self).scroll, (App { body_height: height, body_width: width, ..*old(self) }).max_scroll()),
            final(self).cursor_line == old(self).cursor_line,
            *final(self) == (App { body_height: height, body_width: width, scroll: final(self).scroll, ..*old(self) }),
    {
        self.body_height = height;
        self.body_width = width;
        let m = self.max_scroll_rows();
        if self.scroll > m {
            self.scroll = m;
        }
    }

    /// Open the table of contents on the heading whose section holds the
    /// cursor: the last heading at or above it. No headings, no overlay.
    pub fn open_toc(&mut self)
        requires
            old(self).wf(),
        ensures
            final(self).wf(),
            old(self).anchors@.len() == 0 ==> *final(self) == *old(self),
            old(self).anchors@.len() > 0 ==> final(self).mode == Mode::Toc,
            old(self).anchors@.len() > 0 ==> final(self).toc_selection < old(self).anchors@.len(),
            old(self).anchors@.len() > 0 ==> (
                (final(self).toc_selection > 0 || old(self).anchors@[0].line <= old(self).cursor_line)
                    ==> old(self).anchors@[final(self).toc_selection as int].line <= old(self).cursor_line),
            old(self).anchors@.len() > 0 ==> forall|m: int| final(self).toc_selection < m < old(self).anchors@.len()
                ==> (#[trigger] old(self).anchors@[m]).line > old(self).cursor_line,
            old(self).anchors@.len() > 0 ==> *final(self) == (App {
                mode: Mode::Toc,
                toc_selection: final(self).toc_selection,
                ..*old(self)
            }),
    {
        if self.anchors.len() == 0 {
            return;
        }
        self.mode = Mode::Toc;
        let mut k: usize = self.anchors.len();
        while k > 0
            invariant
                *self == (App { mode: Mode::Toc, ..*old(self) }),
                self.wf(),
                k <= self.anchors@.len(),
                forall|m: int| k <= m < self.anchors@.len() ==> (#[trigger] self.anchors@[m]).line > self.cursor_line,
            decreases k,
        {
            if self.anchors[k - 1].line <= self.cursor_line {
                self.toc_selection = k - 1;
                return;
            }
            k = k - 1;
        }
        self.toc_selection = 0;
    }
}

/// `a`, `b` and `c` joined.
pub fn concat3(a: &str, b: &str, c: &str) -> (r: String)
    ensures
        r@ == a@ + b@ + c@,
{
    let mut r = a.to_string();
    push_str(&mut r, b);
    push_str(&mut r, c);
    r
}

/// Why a document is to be read.
#[derive(Debug, Clone, Copy, PartialEq, Eq, Structural)]
pub enum LoadPurpose {
    /// A new location: forward history is dropped and it is pushed.
    Navigate,
    /// A move to history entry `target`.
    Travel(usize),
}

/// A document to read, and what to do once it is read.
#[derive(Debug, Clone)]
pub struct LoadRequest {
    pub source: Source,
    /// Heading to jump to once loaded.
    pub anchor: Option<String>,
    pub purpose: LoadPurpose,
}

/// What the browser needs the outside world to do next.
#[derive(Debug, Clone)]
pub enum Effect {
    /// Nothing to do.
    Idle,
    /// Leave the browser.
    Quit,
    /// Hand a URL to the OS; report back with `finish_open`.
    OpenExternal(String),
    /// Read a document; report back with `finish_load`.
    Load(LoadRequest),
    /// Put text on the clipboard; report back with `finish_copy`.
    Copy { text: String, lines: usize },
    /// List directory `dir` (canonicalized) for the overlay, selecting the
    /// row for `focus`; report back with `finish_dir`.
    ListDir { dir: String, focus: String },
}

/// The status line that reports config warnings: where, the first
/// warning, and how many more there are.
pub open spec fn config_warning_status(path: Seq<char>, first: Seq<char>, extra: int) -> Seq<char> {
    if extra == 0 {
        path + ": "@ + first
    } else {
        path + ": "@ + first + " (+"@ + decimal(extra as nat) + " more)"@
    }
}

/// The view saved into the history and nothing else changed but the
/// status line, as a navigation leaves things until the load comes back.
pub open spec fn navigated(before: App, after: App) -> bool {
    &&& location_saved(before, after)
    &&& after == (App { history: after.history, status_message: after.status_message, ..before })
}

/// What following a link to `target` does: a URL goes to the OS; an anchor
/// in this document is jumped to (or reported missing); a file or remote
/// document is loaded, with its anchor.
pub open spec fn link_followed(before: App, after: App, e: Effect, target: TargetView) -> bool {
    match target {
        TargetView::Url(u) => (e matches Effect::OpenExternal(x) && x@ == u) && after == before,
        TargetView::SameAnchor(slug) => {
            &&& e is Idle
            &&& anchor_line_of(before.anchors@, slug) is None ==> (after.status_message matches Some(m) && m@
                == "anchor #"@ + slug + " not found"@)
            &&& anchor_line_of(before.anchors@, slug) matches Some(line) ==> after.cursor_line == min_usize(
                line,
                before.last_index(),
            ) && after.history_cursor == before.history_cursor + 1
        },
        TargetView::LocalFile(p) => e matches Effect::Load(r) && r.source@ == SourceView::File(p)
            && r.purpose == LoadPurpose::Navigate && r.anchor is None
            && navigated(before, after),
        TargetView::LocalAnchor(p, slug) => e matches Effect::Load(r) && r.source@ == SourceView::File(p)
            && r.purpose == LoadPurpose::Navigate && (r.anchor matches Some(a) && a@ == slug)
            && navigated(before, after),
        TargetView::RemoteFile(u) => e matches Effect::Load(r) && r.source@ == SourceView::Url(u)
            && r.purpose == LoadPurpose::Navigate && r.anchor is None
            && navigated(before, after),
        TargetView::RemoteAnchor(u, slug) => e matches Effect::Load(r) && r.source@ == SourceView::Url(u)
            && r.purpose == LoadPurpose::Navigate && (r.anchor matches Some(a) && a@ == slug)
            && navigated(before, after),
    }
}

impl App {
    /// A browser showing `doc`, rendered from `raw_input` read from
    /// `source`, with the built-in keymaps.
    pub fn new(doc: RenderOutput, title: String, source: Source, raw_input: String, shortcodes: bool) -> (app: App)
        ensures
            app.wf(),
            app.lines == doc.lines,
            app.anchors == doc.anchors,
            app.links == doc.links,
            app.blocks == doc.blocks,
            app.title == title,
            app.source == source,
            app.scroll == 0,
            app.cursor_line == 0,
            app.show_line_numbers,
            app.mode == Mode::Normal,
            app.history@.len() == 1,
            app.history_cursor == 0,
            app.history@[0].cursor == 0 && app.history@[0].scroll == 0,
            app.status_message is None,
            app.raw_input == raw_input,
            app.shortcodes == shortcodes,
            app.mermaid_blocks == doc.mermaid_blocks,
            app.body_height == 0 && app.body_width == 0,
            app.toc_selection == 0,
            app.focused_link is None,
            app.history@[0].source@ == source@,
            app.search_query@.len() == 0 && app.search_input is None,
            app.search_matches@.len() == 0 && app.search_cursor is None,
            app.yank is None && app.pending_count is None,
            app.dir_path is None && app.dir_rows@.len() == 0 && app.dir_selection == 0,
            app.keymap_normal.bindings() == crate::keymap::normal_defaults(),
            app.keymap_yank.bindings() == crate::keymap::yank_defaults(),
            app.keymap_toc.bindings() == crate::keymap::toc_defaults(),
            app.keymap_help.bindings() == crate::keymap::help_defaults(),
            app.keymap_dir.bindings() == crate::keymap::dir_defaults(),
    {
        let initial = Location { source: source.duplicate(), cursor: 0, scroll: 0 };
        let mut history: Vec<Location> = Vec::new();
        history.push(initial);
        App {
            lines: doc.lines,
            anchors: doc.anchors,
            links: doc.links,
            blocks: doc.blocks,
            mermaid_blocks: doc.mermaid_blocks,
            title,
            source,
            scroll: 0,
            cursor_line: 0,
            show_line_numbers: true,
            body_height: 0,
            body_width: 0,
            mode: Mode::Normal,
            toc_selection: 0,
            focused_link: None,
            status_message: None,
            history,
            history_cursor: 0,
            search_query: String::new(),
            search_input: None,
            search_matches: Vec::new(),
            search_cursor: None,
            yank: None,
            pending_count: None,
            raw_input,
            shortcodes,
            dir_path: None,
            dir_rows: Vec::new(),
            dir_selection: 0,
            keymap_normal: crate::keymap::default_normal(),
            keymap_yank: crate::keymap::default_yank(),
            keymap_toc: crate::keymap::default_toc(),
            keymap_help: crate::keymap::default_help(),
            keymap_dir: crate::keymap::default_dir(),
        }
    }

    /// Use the merged keymaps. Config warnings go to the status bar: the
    /// first one, prefixed with the config path, and how many more follow.
    pub fn install_keymaps(&mut self, loaded: LoadedKeymaps)
        requires
            old(self).wf(),
        ensures
            final(self).wf(),
            loaded.warnings@.len() == 0 ==> final(self).status_message == old(self).status_message,
            loaded.warnings@.len() > 0 ==> (final(self).status_message matches Some(m) && m@ == config_warning_status(
                match loaded.config_path {
                    Some(p) => p@,
                    None => "config"@,
                },
                loaded.warnings@[0]@,
                loaded.warnings@.len() - 1,
            )),
    {
        let n = loaded.warnings.len();
        if n > 0 {
            let mut m = match &loaded.config_path {
                Some(p) => p.clone(),
                None => "config".to_string(),
            };
            push_str(&mut m, ": ");
            push_str(&mut m, loaded.warnings[0].as_str());
            if n > 1 {
                push_str(&mut m, " (+");
                push_decimal(&mut m, n - 1);
                push_str(&mut m, " more)");
            }
            self.status_message = Some(m);
        }
        self.keymap_normal = loaded.normal;
        self.keymap_yank = loaded.yank;
        self.keymap_toc = loaded.toc;
        self.keymap_help = loaded.help;
        self.keymap_dir = loaded.dir;
    }
}

/// One step from `c` in direction `dir` around a ring of `n` places.
pub open spec fn wrap_index(a: int, n: int) -> int {
    if a < 0 {
        n - 1
    } else if a >= n {
        a - n
    } else {
        a
    }
}

/// One step from `c` (`c < n`) in direction `dir` (-1, 0 or 1) around a
/// ring of `n` places.
fn wrap_step(c: usize, dir: isize, n: usize) -> (r: usize)
    requires
        c < n,
        -1 <= dir <= 1,
    ensures
        r == wrap_index(c + dir, n as int),
        r < n,
{
    if dir < 0 {
        if c == 0 {
            n - 1
        } else {
            c - 1
        }
    } else if dir > 0 {
        if c + 1 >= n {
            c + 1 - n
        } else {
            c + 1
        }
    } else {
        c
    }
}

fn no_match_msg(query: &str) -> (r: String)
    ensures
        r@ == "/"@ + query@ + ": no match"@,
{
    concat3("/", query, ": no match")
}

/// The search for `query` run: it becomes the query, every match is
/// found, and the cursor moves to the first match at or below the top of
/// the view (the very first when none is); no match is reported for a
/// query that is not empty.
pub open spec fn search_committed(before: App, after: App, query: Seq<char>) -> bool {
    &&& after.search_query@ == query
    &&& after.search_matches@ == crate::search::search_matches(before.lines@, query)
    &&& after.search_matches@.len() == 0 ==> after.search_cursor is None
    &&& after.search_matches@.len() == 0 && query.len() > 0 ==> (after.status_message matches Some(m) && m@ == "/"@
        + query + ": no match"@)
    &&& after.search_matches@.len() > 0 ==> after.search_cursor is Some
    &&& after.search_matches@.len() > 0 ==> before.is_first_match_from(
        after.search_matches@,
        after.search_cursor->0 as int,
        before.scroll as int,
    )
    &&& after.search_matches@.len() > 0 ==> after.cursor_line == min_usize(
        after.search_matches@[after.search_cursor->0 as int].line,
        before.last_index(),
    )
    &&& after.search_matches@.len() > 0 ==> after.scroll == before.scroll_for_line(after.cursor_line)
    &&& after.search_matches@.len() == 0 ==> after.cursor_line == before.cursor_line && after.scroll == before.scroll
    &&& after == (App {
        search_query: after.search_query,
        search_matches: after.search_matches,
        search_cursor: after.search_cursor,
        status_message: after.status_message,
        cursor_line: after.cursor_line,
        scroll: after.scroll,
        ..before
    })
}

/// Where the view scrolls to show the yank selection: to the selection's
/// top when it starts above the view; when it ends below the view, so that
/// its end is at the bottom, or its top at the top when it is taller than
/// the view; never past the largest scroll. Nothing moves without a
/// selection or without a view.
pub open spec fn yank_scroll(a: App) -> usize {
    match a.yank {
        None => a.scroll,
        Some(y) => {
            let (start, end) = y.path@[y.level as int];
            let h = a.body_height as usize;
            if h == 0 {
                a.scroll
            } else {
                let rs = a.row_of(start as int);
                let re = if end < usize::MAX { a.row_of(end + 1) } else { a.row_of(a.lines@.len() as int) };
                let s = if rs < a.scroll {
                    rs
                } else if re >= h && re - h > a.scroll {
                    if (if re >= rs { re - rs } else { 0 }) >= h {
                        rs
                    } else {
                        (re - h) as usize
                    }
                } else {
                    a.scroll
                };
                min_usize(s, a.max_scroll())
            }
        },
    }
}

impl App {
    /// `k` is the first of `found` whose line starts at or below screen row
    /// `top`, or 0 when none does.
    pub open spec fn is_first_match_from(self, found: Seq<MatchPos>, k: int, top: int) -> bool {
        ||| (0 <= k < found.len() && self.row_of(found[k].line as int) >= top && forall|j: int|
            0 <= j < k ==> #[trigger] self.row_of(found[j].line as int) < top)
        ||| (k == 0 && forall|j: int| 0 <= j < found.len() ==> #[trigger] self.row_of(found[j].line as int) < top)
    }

    /// Put the cursor on match `idx` and scroll it into view.
    pub fn scroll_to_match(&mut self, idx: usize)
        requires
            old(self).wf(),
            idx < old(self).search_matches@.len(),
        ensures
            final(self).wf(),
            final(self).cursor_line == min_usize(old(self).search_matches@[idx as int].line, old(self).last_index()),
            final(self).scroll == old(self).scroll_for_line(final(self).cursor_line),
            final(self).moved(*old(self)),
    {
        let line = self.search_matches[idx].line;
        self.cursor_to(line);
    }

    /// Run the search for `query`: record it, find every match and move to
    /// the first one at or below the top of the view (the very first when
    /// none is). An empty query clears the search; no match says so.
    pub fn commit_search(&mut self, query: String)
        requires
            old(self).wf(),
        ensures
            final(self).wf(),
            search_committed(*old(self), *final(self), query@),
    {
        let ghost orig = *self;
        let matches = find_matches(&self.lines, query.as_str());
        self.search_matches = matches;
        self.search_cursor = None;
        if self.search_matches.len() == 0 {
            if query.as_str().unicode_len() > 0 {
                self.status_message = Some(no_match_msg(query.as_str()));
            }
            self.search_query = query;
            return;
        }
        self.search_query = query;
        let mut start: usize = 0;
        let mut k: usize = 0;
        let n = self.search_matches.len();
        let ghost pre = *self;
        while k < n
            invariant_except_break
                start == 0,
            invariant
                n == self.search_matches@.len(),
                n > 0,
                *self == pre,
                self.wf(),
                k <= n,
                forall|j: int| 0 <= j < k ==> #[trigger] self.row_of(self.search_matches@[j].line as int) < self.scroll,
            ensures
                start < n,
                *self == pre,
                self.wf(),
                self.is_first_match_from(self.search_matches@, start as int, self.scroll as int),
            decreases n - k,
        {
            let row = self.screen_row_of(self.search_matches[k].line);
            if row >= self.scroll {
                start = k;
                break;
            }
            k = k + 1;
        }
        assert forall|x: int| #![trigger orig.row_of(x)] pre.row_of(x) == orig.row_of(x) by {}
        self.search_cursor = Some(start);
        self.scroll_to_match(start);
    }

    /// Move to the next (`dir` 1) or previous (`dir` -1) match, wrapping
    /// around.
    pub fn search_step(&mut self, dir: isize)
        requires
            old(self).wf(),
            -1 <= dir <= 1,
        ensures
            final(self).wf(),
            old(self).search_matches@.len() == 0 && old(self).search_query@.len() > 0 ==> (final(self).status_message matches Some(m)
                && m@ == "/"@ + old(self).search_query@ + ": no match"@),
            old(self).search_matches@.len() > 0 ==> final(self).search_cursor == Some(wrap_index(
                (match old(self).search_cursor { Some(c) => c as int, None => 0 }) + dir,
                old(self).search_matches@.len() as int,
            ) as usize),
            final(self).search_matches == old(self).search_matches,
            final(self).lines == old(self).lines,
            final(self).mode == old(self).mode,
            old(self).search_matches@.len() == 0 ==> *final(self) == (App {
                status_message: final(self).status_message,
                ..*old(self)
            }),
            old(self).search_matches@.len() > 0 ==> (final(self).cursor_line == min_usize(
                old(self).search_matches@[final(self).search_cursor->0 as int].line,
                old(self).last_index(),
            ) && final(self).scroll == old(self).scroll_for_line(final(self).cursor_line) && *final(self) == (App {
                search_cursor: final(self).search_cursor,
                cursor_line: final(self).cursor_line,
                scroll: final(self).scroll,
                ..*old(self)
            })),
    {
        let n = self.search_matches.len();
        if n == 0 {
            if self.search_query.as_str().unicode_len() > 0 {
                self.status_message = Some(no_match_msg(self.search_query.as_str()));
            }
            return;
        }
        let c: usize = match self.search_cursor {
            Some(c) => c,
            None => 0,
        };
        let next = wrap_step(c, dir, n);
        self.search_cursor = Some(next);
        self.scroll_to_match(next);
    }
}

impl App {
    /// The screen row on which link `k` starts.
    pub open spec fn link_row(self, k: int) -> int {
        self.row_of(self.links@[k].line as int) as int
    }

    /// `k` is the first link that starts at or below screen row `top`, or 0
    /// when none does.
    pub open spec fn is_first_link_from(self, k: int, top: int) -> bool {
        ||| (0 <= k < self.links@.len() && self.link_row(k) >= top && forall|j: int|
            0 <= j < k ==> #[trigger] self.link_row(j) < top)
        ||| (k == 0 && forall|j: int| 0 <= j < self.links@.len() ==> #[trigger] self.link_row(j) < top)
    }

    /// `k` is the last link that starts above screen row `end`, or the last
    /// link when none does.
    pub open spec fn is_last_link_before(self, k: int, end: int) -> bool {
        ||| (0 <= k < self.links@.len() && self.link_row(k) < end && forall|j: int|
            k < j < self.links@.len() ==> #[trigger] self.link_row(j) >= end)
        ||| (k == self.links@.len() - 1 && forall|j: int|
            0 <= j < self.links@.len() ==> #[trigger] self.link_row(j) >= end)
    }

    /// Focus link `i`'s line and scroll it into view.
    fn scroll_to_focused(&mut self)
        requires
            old(self).wf(),
        ensures
            final(self).wf(),
            final(self).moved(*old(self)),
            old(self).focused_link matches Some(i) ==> final(self).cursor_line == min_usize(
                old(self).links@[i as int].line,
                old(self).last_index(),
            ),
            old(self).focused_link is Some ==> final(self).scroll == old(self).scroll_for_line(final(self).cursor_line),
    {
        match self.focused_link {
            Some(i) => {
                let line = self.links[i].line;
                self.cursor_to(line);
            },
            None => {},
        }
    }

    /// Move the link focus forward (`dir` 1) or back (`dir` -1), wrapping
    /// around. With no link focused, forward picks the first link at or
    /// below the top of the view and back the last one above its bottom.
    pub fn focus_next_link(&mut self, dir: isize)
        requires
            old(self).wf(),
            dir == 1 || dir == -1,
        ensures
            final(self).wf(),
            old(self).links@.len() == 0 ==> *final(self) == *old(self),
            old(self).links@.len() > 0 ==> final(self).focused_link is Some,
            old(self).links@.len() > 0 && old(self).focused_link is Some ==> final(self).focused_link == Some(wrap_index(
                old(self).focused_link->0 + dir,
                old(self).links@.len() as int,
            ) as usize),
            old(self).links@.len() > 0 && old(self).focused_link is None && dir > 0 ==> old(self).is_first_link_from(
                final(self).focused_link->0 as int,
                old(self).scroll as int,
            ),
            old(self).links@.len() > 0 && old(self).focused_link is None && dir < 0 ==> old(self).is_last_link_before(
                final(self).focused_link->0 as int,
                sat_add(old(self).scroll, old(self).body_height as usize) as int,
            ),
            old(self).links@.len() > 0 ==> final(self).cursor_line == min_usize(
                old(self).links@[final(self).focused_link->0 as int].line,
                old(self).last_index(),
            ),
            old(self).links@.len() > 0 ==> final(self).scroll == old(self).scroll_for_line(final(self).cursor_line),
            final(self).links == old(self).links,
            final(self).lines == old(self).lines,
            final(self).mode == old(self).mode,
            *final(self) == (App {
                focused_link: final(self).focused_link,
                cursor_line: final(self).cursor_line,
                scroll: final(self).scroll,
                ..*old(self)
            }),
    {
        let n = self.links.len();
        if n == 0 {
            return;
        }
        let next: usize = match self.focused_link {
            Some(i) => wrap_step(i, dir, n),
            None => {
                if dir > 0 {
                    let mut found: usize = 0;
                    let mut k: usize = 0;
                    while k < n
                        invariant_except_break
                            found == 0,
                        invariant
                            n == self.links@.len(),
                            k <= n,
                            n > 0,
                            forall|j: int| 0 <= j < k ==> #[trigger] self.link_row(j) < self.scroll,
                        ensures
                            found < n,
                            self.is_first_link_from(found as int, self.scroll as int),
                        decreases n - k,
                    {
                        if self.screen_row_of(self.links[k].line) >= self.scroll {
                            found = k;
                            break;
                        }
                        k = k + 1;
                    }
                    found
                } else {
                    let h = self.body_height as usize;
                    let end = if self.scroll <= usize::MAX - h { self.scroll + h } else { usize::MAX };
                    let mut found: usize = n - 1;
                    let mut k: usize = n;
                    while k > 0
                        invariant_except_break
                            found == n - 1,
                        invariant
                            n == self.links@.len(),
                            k <= n,
                            n > 0,
                            end == sat_add(self.scroll, self.body_height as usize),
                            forall|j: int| k <= j < n ==> #[trigger] self.link_row(j) >= end,
                        ensures
                            found < n,
                            self.is_last_link_before(found as int, end as int),
                        decreases k,
                    {
                        if self.screen_row_of(self.links[k - 1].line) < end {
                            found = k - 1;
                            break;
                        }
                        k = k - 1;
                    }
                    found
                }
            },
        };
        self.focused_link = Some(next);
        self.scroll_to_focused();
    }

    /// Record the current view on the displayed history entry.
    fn save_location(&mut self)
        requires
            old(self).wf(),
        ensures
            final(self).wf(),
            final(self).history@.len() == old(self).history@.len(),
            final(self).history_cursor == old(self).history_cursor,
            final(self).history@[old(self).history_cursor as int].cursor == old(self).cursor_line,
            final(self).history@[old(self).history_cursor as int].scroll == old(self).scroll,
            final(self).history@[old(self).history_cursor as int].source@ == old(self).history@[old(self).history_cursor as int].source@,
            forall|k: int| 0 <= k < old(self).history@.len() && k != old(self).history_cursor ==> #[trigger] final(self).history@[k] == old(self).history@[k],
            *final(self) == (App { history: final(self).history, ..*old(self) }),
    {
        let hc = self.history_cursor;
        let src = self.history[hc].source.duplicate();
        let loc = Location { source: src, cursor: self.cursor_line, scroll: self.scroll };
        self.history.set(hc, loc);
    }
}

/// The line of the first heading whose slug is `slug`.
pub open spec fn anchor_line_of(anchors: Seq<Anchor>, slug: Seq<char>) -> Option<usize>
    decreases anchors.len(),
{
    if anchors.len() == 0 {
        None
    } else if anchors[0].slug@ == slug {
        Some(anchors[0].line)
    } else {
        anchor_line_of(anchors.drop_first(), slug)
    }
}

fn anchor_not_found(slug: &str) -> (r: String)
    ensures
        r@ == "anchor #"@ + slug@ + " not found"@,
{
    concat3("anchor #", slug, " not found")
}

/// The view `before` shows saved into its history entry: that entry keeps
/// its source and records the cursor and scroll; every other entry, and
/// the history cursor, stay as they were.
pub open spec fn location_saved(before: App, after: App) -> bool {
    &&& after.history@.len() == before.history@.len()
    &&& after.history_cursor == before.history_cursor
    &&& after.history@[before.history_cursor as int].cursor == before.cursor_line
    &&& after.history@[before.history_cursor as int].scroll == before.scroll
    &&& after.history@[before.history_cursor as int].source@ == before.history@[before.history_cursor as int].source@
    &&& forall|k: int|
        0 <= k < before.history@.len() && k != before.history_cursor ==> #[trigger] after.history@[k]
            == before.history@[k]
}

/// A finished navigation in the history: forward entries past the current
/// one are dropped, the entries up to and including the current one are
/// kept, and a new entry for `source`, recording the view now shown, is
/// pushed and becomes current.
pub open spec fn navigation_recorded(before: App, after: App, source: SourceView) -> bool {
    &&& after.history@.len() == before.history_cursor + 2
    &&& after.history_cursor == before.history_cursor + 1
    &&& after.history@[after.history_cursor as int].source@ == source
    &&& after.history@[after.history_cursor as int].cursor == after.cursor_line
    &&& after.history@[after.history_cursor as int].scroll == after.scroll
    &&& forall|k: int| 0 <= k <= before.history_cursor ==> #[trigger] after.history@[k] == before.history@[k]
}

/// Navigating from `start` (which saves the view being left, giving `asked`)
/// and then finishing the load (giving `done`) leaves the history as the
/// entries before the current one, then the current one with the view that
/// was left, then the new document with the view now shown; forward
/// history is gone.
pub proof fn lemma_navigation_history(start: App, asked: App, done: App, source: SourceView)
    requires
        start.wf(),
        location_saved(start, asked),
        navigation_recorded(asked, done, source),
    ensures
        done.history_cursor == start.history_cursor + 1,
        done.history@.len() == start.history_cursor + 2,
        forall|j: int| 0 <= j < start.history_cursor ==> #[trigger] done.history@[j] == start.history@[j],
        done.history@[start.history_cursor as int].source@ == start.history@[start.history_cursor as int].source@,
        done.history@[start.history_cursor as int].cursor == start.cursor_line,
        done.history@[start.history_cursor as int].scroll == start.scroll,
        done.history@[done.history_cursor as int].source@ == source,
        done.history@[done.history_cursor as int].cursor == done.cursor_line,
        done.history@[done.history_cursor as int].scroll == done.scroll,
{
    let k = start.history_cursor as int;
    assert(done.history@[k] == asked.history@[k]);
    assert forall|j: int| 0 <= j < k implies #[trigger] done.history@[j] == start.history@[j] by {
        assert(done.history@[j] == asked.history@[j]);
        assert(asked.history@[j] == start.history@[j]);
    }
}

impl App {
    /// The line of the first heading with slug `slug`.
    pub fn anchor_line(&self, slug: &str) -> (r: Option<usize>)
        ensures
            r == anchor_line_of(self.anchors@, slug@),
    {
        let mut k: usize = 0;
        assert(self.anchors@.skip(0) =~= self.anchors@);
        while k < self.anchors.len()
            invariant
                k <= self.anchors@.len(),
                anchor_line_of(self.anchors@, slug@) == anchor_line_of(self.anchors@.skip(k as int), slug@),
            decreases self.anchors@.len() - k,
        {
            assert(self.anchors@.skip(k as int).drop_first() =~= self.anchors@.skip(k as int + 1));
            if str_eq(self.anchors[k].slug.as_str(), slug) {
                return Some(self.anchors[k].line);
            }
            k = k + 1;
        }
        None
    }

    /// Jump to `target_line` of the current document as a new history
    /// entry: the view left behind is recorded on the current entry,
    /// forward history is dropped and the new view is pushed. The heading
    /// is aligned to the top of the view.
    pub fn jump_and_push(&mut self, target_line: usize)
        requires
            old(self).wf(),
        ensures
            final(self).wf(),
            final(self).cursor_line == min_usize(target_line, old(self).last_index()),
            final(self).scroll == min_usize(old(self).row_of(final(self).cursor_line as int), old(self).max_scroll()),
            final(self).history@.len() == old(self).history_cursor + 2,
            final(self).history_cursor == old(self).history_cursor + 1,
            final(self).history@[old(self).history_cursor as int].cursor == old(self).cursor_line,
            final(self).history@[old(self).history_cursor as int].scroll == old(self).scroll,
            forall|k: int| 0 <= k < old(self).history_cursor ==> #[trigger] final(self).history@[k] == old(self).history@[k],
            final(self).history@[final(self).history_cursor as int].source@ == old(self).source@,
            final(self).history@[final(self).history_cursor as int].cursor == final(self).cursor_line,
            final(self).history@[final(self).history_cursor as int].scroll == final(self).scroll,
            final(self).lines == old(self).lines,
            final(self).source == old(self).source,
            final(self).mode == old(self).mode,
    {
        self.save_location();
        let last = self.last_line_index();
        let target = if target_line < last { target_line } else { last };
        self.cursor_line = target;
        let row = self.screen_row_of(target);
        let m = self.max_scroll_rows();
        self.scroll = if row < m { row } else { m };
        let hc = self.history_cursor;
        let hn = self.history.len();
        self.history.truncate(hc + 1);
        let src = self.source.duplicate();
        self.history.push(Location { source: src, cursor: self.cursor_line, scroll: self.scroll });
        self.history_cursor = self.history.len() - 1;
    }

    /// Follow a `#slug` link: jump to that heading as a new history entry,
    /// or say it does not exist.
    pub fn navigate_within(&mut self, slug: &str)
        requires
            old(self).wf(),
        ensures
            final(self).wf(),
            anchor_line_of(old(self).anchors@, slug@) is None ==> (final(self).status_message matches Some(m)
                && m@ == "anchor #"@ + slug@ + " not found"@),
            anchor_line_of(old(self).anchors@, slug@) matches Some(line) ==> final(self).cursor_line == min_usize(line, old(self).last_index())
                && final(self).history_cursor == old(self).history_cursor + 1,
    {
        match self.anchor_line(slug) {
            Some(line) => self.jump_and_push(line),
            None => {
                self.status_message = Some(anchor_not_found(slug));
            },
        }
    }

    /// Put the cursor on the heading with slug `slug` without touching the
    /// history, or say it does not exist.
    fn jump_to_anchor(&mut self, slug: &str)
        requires
            old(self).wf(),
        ensures
            final(self).wf(),
            *final(self) == (App {
                cursor_line: final(self).cursor_line,
                scroll: final(self).scroll,
                status_message: final(self).status_message,
                ..*old(self)
            }),
            anchor_line_of(old(self).anchors@, slug@) matches Some(line) ==> final(self).cursor_line == min_usize(line, old(self).last_index())
                && final(self).scroll == min_usize(old(self).row_of(final(self).cursor_line as int), old(self).max_scroll()),
            anchor_line_of(old(self).anchors@, slug@) is None ==> final(self).cursor_line == old(self).cursor_line
                && final(self).scroll == old(self).scroll && (final(self).status_message matches Some(m) && m@ == "anchor #"@
                + slug@ + " not found"@),
    {
        match self.anchor_line(slug) {
            Some(line) => {
                let last = self.last_line_index();
                let target = if line < last { line } else { last };
                self.cursor_line = target;
                let row = self.screen_row_of(target);
                let m = self.max_scroll_rows();
                self.scroll = if row < m { row } else { m };
            },
            None => {
                self.status_message = Some(anchor_not_found(slug));
            },
        }
    }

    /// Ask for `source` to be read; a URL says it is being fetched.
    fn begin_load(&mut self, source: Source, anchor: Option<String>, purpose: LoadPurpose) -> (e: Effect)
        requires
            old(self).wf(),
        ensures
            final(self).wf(),
            e matches Effect::Load(r) && r.source@ == source@ && r.purpose == purpose && r.anchor == anchor,
            *final(self) == (App { status_message: final(self).status_message, ..*old(self) }),
    {
        match &source {
            Source::Url(u) => {
                self.status_message = Some(concat3("fetching ", u.as_str(), "…"));
            },
            _ => {},
        }
        Effect::Load(LoadRequest { source, anchor, purpose })
    }

    /// Open `source` (jumping to heading `anchor` if given) as a new
    /// history entry. The view being left is recorded first.
    pub fn navigate(&mut self, source: Source, anchor: Option<String>) -> (e: Effect)
        requires
            old(self).wf(),
        ensures
            final(self).wf(),
            e matches Effect::Load(r) && r.source@ == source@ && r.purpose == LoadPurpose::Navigate && r.anchor == anchor,
            *final(self) == (App { history: final(self).history, status_message: final(self).status_message, ..*old(self) }),
            final(self).history@.len() == old(self).history@.len(),
            final(self).history@[old(self).history_cursor as int].cursor == old(self).cursor_line,
            final(self).history@[old(self).history_cursor as int].scroll == old(self).scroll,
            final(self).history_cursor == old(self).history_cursor,
            location_saved(*old(self), *final(self)),
    {
        self.save_location();
        self.begin_load(source, anchor, LoadPurpose::Navigate)
    }

    /// Go to the previous history entry, or say there is none.
    pub fn go_back(&mut self) -> (e: Effect)
        requires
            old(self).wf(),
        ensures
            final(self).wf(),
            old(self).history_cursor == 0 ==> (e is Idle && (final(self).status_message matches Some(m)
                && m@ == "no further history (back)"@)),
            old(self).history_cursor > 0 ==> (e matches Effect::Load(r)
                && r.purpose == LoadPurpose::Travel((old(self).history_cursor - 1) as usize)
                && r.source@ == old(self).history@[old(self).history_cursor - 1].source@
                && r.anchor is None),
            final(self).history == old(self).history,
            final(self).history_cursor == old(self).history_cursor,
            *final(self) == (App { status_message: final(self).status_message, ..*old(self) }),
    {
        if self.history_cursor == 0 {
            self.status_message = Some("no further history (back)".to_string());
            return Effect::Idle;
        }
        let target = self.history_cursor - 1;
        let src = self.history[target].source.duplicate();
        self.begin_load(src, None, LoadPurpose::Travel(target))
    }

    /// Go to the next history entry, or say there is none.
    pub fn go_forward(&mut self) -> (e: Effect)
        requires
            old(self).wf(),
        ensures
            final(self).wf(),
            old(self).history_cursor + 1 >= old(self).history@.len() ==> (e is Idle && (final(self).status_message matches Some(m)
                && m@ == "no further history (forward)"@)),
            old(self).history_cursor + 1 < old(self).history@.len() ==> (e matches Effect::Load(r)
                && r.purpose == LoadPurpose::Travel((old(self).history_cursor + 1) as usize)
                && r.source@ == old(self).history@[old(self).history_cursor + 1].source@
                && r.anchor is None),
            final(self).history == old(self).history,
            final(self).history_cursor == old(self).history_cursor,
            *final(self) == (App { status_message: final(self).status_message, ..*old(self) }),
    {
        let n = self.history.len();
        if self.history_cursor + 1 >= n {
            self.status_message = Some("no further history (forward)".to_string());
            return Effect::Idle;
        }
        let target = self.history_cursor + 1;
        let src = self.history[target].source.duplicate();
        self.begin_load(src, None, LoadPurpose::Travel(target))
    }
}

/// What `a` holds of its document, as a render output.
pub open spec fn shown(a: App) -> RenderOutput {
    RenderOutput {
        lines: a.lines,
        anchors: a.anchors,
        links: a.links,
        blocks: a.blocks,
        mermaid_blocks: a.mermaid_blocks,
    }
}

/// `a` shows `input`: its lines, anchors, links, block ranges and mermaid
/// blocks are the dark-theme rendering of the tree comrak parses `input`
/// into.
pub open spec fn shows_input(a: App, input: Seq<char>, shortcodes: bool) -> bool {
    exists|root: MdNode, t: Theme|
        traversal(root) == parsed_steps(input, shortcodes) && is_dark_theme(t) && out_view(shown(a))
            == #[trigger] document_rendered(root, t)
}

/// A newly loaded document shown: title from the source, no focused link,
/// no search matches, the contents selection on the first heading, the
/// status line cleared; a directory source asks for its listing.
pub open spec fn document_shown(before: App, after: App, source: SourceView, e: Effect) -> bool {
    &&& after.title@ == match source {
        SourceView::File(p) => p,
        SourceView::Url(u) => u,
        SourceView::Dir(p) => p + "/"@,
    }
    &&& after.toc_selection == 0
    &&& after.focused_link is None
    &&& after.search_matches@.len() == 0
    &&& after.search_cursor is None
    &&& after.mode == (if before.yank is Some { Mode::Normal } else { before.mode })
    &&& after.status_message is None
    &&& match source {
        SourceView::Dir(d) => e matches Effect::ListDir { dir, focus } && dir@ == d && focus@ == d,
        _ => e is Idle,
    }
}

/// A newly loaded document shown from the top, or from the heading
/// `anchor` names when it has one.
pub open spec fn document_opened(before: App, after: App, source: SourceView, anchor: Option<String>, e: Effect) -> bool {
    &&& document_shown(before, after, source, e)
    &&& match anchor {
        Some(slug) => match anchor_line_of(after.anchors@, slug@) {
            Some(line) => after.cursor_line == min_usize(line, after.last_index()) && after.scroll == min_usize(
                after.row_of(after.cursor_line as int),
                after.max_scroll(),
            ),
            None => after.cursor_line == 0 && after.scroll == 0,
        },
        None => after.cursor_line == 0 && after.scroll == 0,
    }
}

impl App {
    /// Leave yank mode, if it is on.
    pub fn cancel_yank(&mut self)
        requires
            old(self).wf(),
        ensures
            final(self).wf(),
            final(self).yank is None,
            old(self).yank is Some ==> final(self).mode == Mode::Normal,
            old(self).yank is None ==> final(self).mode == old(self).mode,
            *final(self) == (App { yank: None, mode: final(self).mode, ..*old(self) }),
    {
        if self.yank.is_some() {
            self.yank = None;
            self.mode = Mode::Normal;
        }
    }

    /// Replace the document with the rendering of `input`, keeping the
    /// view, the focus and the search where they can stay.
    fn set_document(&mut self, doc: RenderOutput)
        requires
            old(self).wf(),
        ensures
            final(self).lines == doc.lines,
            final(self).anchors == doc.anchors,
            final(self).links == doc.links,
            final(self).blocks == doc.blocks,
            final(self).mermaid_blocks == doc.mermaid_blocks,
            final(self).focused_link is None,
            final(self).search_cursor is None,
            final(self).search_matches@.len() == 0,
            final(self).yank is None,
            final(self).cursor_line == 0,
            final(self).history == old(self).history,
            final(self).history_cursor == old(self).history_cursor,
            final(self).wf(),
            final(self).source == old(self).source,
            final(self).search_query == old(self).search_query,
            old(self).yank is Some ==> final(self).mode == Mode::Normal,
            old(self).yank is None ==> final(self).mode == old(self).mode,
            final(self).show_line_numbers == old(self).show_line_numbers,
            final(self).body_height == old(self).body_height,
            final(self).body_width == old(self).body_width,
            final(self).shortcodes == old(self).shortcodes,
            final(self).raw_input == old(self).raw_input,
    {
        self.lines = doc.lines;
        self.anchors = doc.anchors;
        self.links = doc.links;
        self.blocks = doc.blocks;
        self.mermaid_blocks = doc.mermaid_blocks;
        self.cursor_line = 0;
        self.focused_link = None;
        self.search_matches = Vec::new();
        self.search_cursor = None;
        if self.yank.is_some() {
            self.yank = None;
            self.mode = Mode::Normal;
        }
    }

    /// Re-read the search query against a new document.
    fn rerun_search(&mut self)
        requires
            old(self).wf(),
        ensures
            final(self).wf(),
            old(self).search_query@.len() == 0 ==> *final(self) == *old(self),
            old(self).search_query@.len() > 0 ==> search_committed(*old(self), *final(self), old(self).search_query@),
            *final(self) == (App {
                search_query: final(self).search_query,
                search_matches: final(self).search_matches,
                search_cursor: final(self).search_cursor,
                status_message: final(self).status_message,
                cursor_line: final(self).cursor_line,
                scroll: final(self).scroll,
                ..*old(self)
            }),
    {
        if self.search_query.as_str().unicode_len() > 0 {
            let q = self.search_query.clone();
            self.commit_search(q);
        }
    }

    /// Show the document read from `source`: the view starts at the top
    /// (or at heading `anchor`), and focus, selection and search start
    /// over. A directory source opens the directory browser.
    fn apply_document(&mut self, source: Source, input: String, anchor: Option<String>) -> (e: Effect)
        requires
            old(self).wf(),
        ensures
            final(self).wf(),
            final(self).source@ == source@,
            final(self).raw_input@ == input@,
            final(self).history == old(self).history,
            final(self).history_cursor == old(self).history_cursor,
            final(self).search_query@.len() == 0,
            final(self).yank is None,
            document_opened(*old(self), *final(self), source@, anchor, e),
            shows_input(*final(self), input@, old(self).shortcodes),
    {
        let doc = parse_and_render(input.as_str(), self.shortcodes);
        self.set_document(doc);
        self.raw_input = input;
        self.title = source.display();
        self.source = source;
        self.scroll = 0;
        self.toc_selection = 0;
        self.search_query = String::new();
        match &anchor {
            Some(slug) => self.jump_to_anchor(slug.as_str()),
            None => {},
        }
        self.status_message = None;
        match &self.source {
            Source::Dir(_) => self.open_dir(),
            _ => Effect::Idle,
        }
    }

    /// The outcome of reading the document asked for by `req`. On success
    /// it is shown and the history updated: a navigation drops forward
    /// history and pushes the new location; a history move records the
    /// view left behind, moves the history cursor and restores the view
    /// saved with the target. On failure nothing changes but the status.
    pub fn finish_load(&mut self, req: LoadRequest, result: Result<String, String>) -> (e: Effect)
        requires
            old(self).wf(),
            req.purpose matches LoadPurpose::Travel(t) ==> t < old(self).history@.len() && t != old(self).history_cursor,
        ensures
            final(self).wf(),
            result is Err ==> final(self).history == old(self).history && final(self).source == old(self).source
                && final(self).lines == old(self).lines && final(self).cursor_line == old(self).cursor_line,
            result is Err ==> *final(self) == (App { status_message: final(self).status_message, ..*old(self) }),
            result is Err ==> e is Idle && (final(self).status_message matches Some(m) && m@ == "open "@
                + crate::source::source_display(req.source) + ": "@ + result->Err_0@),
            result is Ok ==> final(self).source@ == req.source@,
            result is Ok ==> final(self).raw_input@ == result->Ok_0@ && document_shown(*old(self), *final(self), req.source@, e)
                && shows_input(*final(self), result->Ok_0@, old(self).shortcodes),
            (result is Ok && req.purpose == LoadPurpose::Navigate) ==> document_opened(
                *old(self),
                *final(self),
                req.source@,
                req.anchor,
                e,
            ),
            (result is Ok && req.purpose == LoadPurpose::Navigate) ==> navigation_recorded(*old(self), *final(self), req.source@),
            (result is Ok && req.purpose is Travel) ==> (final(self).history_cursor == req.purpose->Travel_0
                && final(self).history@.len() == old(self).history@.len()
                && final(self).history@[old(self).history_cursor as int].cursor == old(self).cursor_line
                && final(self).history@[old(self).history_cursor as int].scroll == old(self).scroll
                && final(self).history@[old(self).history_cursor as int].source@ == old(self).history@[old(self).history_cursor as int].source@
                && (forall|k: int| 0 <= k < old(self).history@.len() && k != old(self).history_cursor
                    ==> #[trigger] final(self).history@[k] == old(self).history@[k])
                && final(self).cursor_line == min_usize(old(self).history@[req.purpose->Travel_0 as int].cursor, final(self).last_index())
                && final(self).scroll == min_usize(old(self).history@[req.purpose->Travel_0 as int].scroll, final(self).max_scroll())),
    {
        match result {
            Err(err) => {
                let mut m = "open ".to_string();
                let d = req.source.display();
                push_str(&mut m, d.as_str());
                push_str(&mut m, ": ");
                push_str(&mut m, err.as_str());
                self.status_message = Some(m);
                Effect::Idle
            },
            Ok(input) => {
                let leaving_scroll = self.scroll;
                let leaving_cursor = self.cursor_line;
                let ghost before = *self;
                let src = req.source.duplicate();
                let effect = self.apply_document(src, input, req.anchor);
                match req.purpose {
                    LoadPurpose::Navigate => {
                        let hc = self.history_cursor;
                        let hn = self.history.len();
                        self.history.truncate(hc + 1);
                        let s2 = req.source.duplicate();
                        self.history.push(Location { source: s2, cursor: self.cursor_line, scroll: self.scroll });
                        self.history_cursor = self.history.len() - 1;
                    },
                    LoadPurpose::Travel(target) => {
                        let hc = self.history_cursor;
                        let src_here = self.history[hc].source.duplicate();
                        self.history.set(hc, Location { source: src_here, cursor: leaving_cursor, scroll: leaving_scroll });
                        let saved_cursor = self.history[target].cursor;
                        let saved_scroll = self.history[target].scroll;
                        self.history_cursor = target;
                        let last = self.last_line_index();
                        self.cursor_line = if saved_cursor < last { saved_cursor } else { last };
                        let m = self.max_scroll_rows();
                        self.scroll = if saved_scroll < m { saved_scroll } else { m };
                    },
                }
                effect
            },
        }
    }

    /// Report the outcome of handing `url` to the OS.
    pub fn finish_open(&mut self, url: &str, result: Result<(), String>)
        requires
            old(self).wf(),
        ensures
            final(self).wf(),
            (result is Ok) ==> (final(self).status_message matches Some(m) && m@ == "opened: "@ + url@),
            result is Err ==> (final(self).status_message matches Some(m) && m@ == "open failed: "@ + result->Err_0@),
            *final(self) == (App { status_message: final(self).status_message, ..*old(self) }),
    {
        match result {
            Ok(()) => {
                let mut m = "opened: ".to_string();
                push_str(&mut m, url);
                self.status_message = Some(m);
            },
            Err(e) => {
                let mut m = "open failed: ".to_string();
                push_str(&mut m, e.as_str());
                self.status_message = Some(m);
            },
        }
    }

    /// Follow the focused link.
    pub fn activate_focused_link(&mut self) -> (e: Effect)
        requires
            old(self).wf(),
        ensures
            final(self).wf(),
            old(self).focused_link is None ==> (e is Idle && (final(self).status_message matches Some(m)
                && m@ == "no link focused — press Tab to select one"@)),
            old(self).focused_link matches Some(i) ==> link_followed(
                *old(self),
                *final(self),
                e,
                link_target(
                    old(self).links@[i as int].url@,
                    old(self).source,
                    link_reading(old(self).links@[i as int].url@, old(self).source),
                ),
            ),
    {
        match self.focused_link {
            None => {
                self.status_message = Some("no link focused — press Tab to select one".to_string());
                Effect::Idle
            },
            Some(i) => {
                let target = classify_link(self.links[i].url.as_str(), &self.source);
                match target {
                    LinkTarget::Url(u) => Effect::OpenExternal(u),
                    LinkTarget::SameAnchor(slug) => {
                        self.navigate_within(slug.as_str());
                        Effect::Idle
                    },
                    LinkTarget::LocalFile(p) => self.navigate(Source::File(p), None),
                    LinkTarget::LocalAnchor(p, slug) => self.navigate(Source::File(p), Some(slug)),
                    LinkTarget::RemoteFile(u) => self.navigate(Source::Url(u), None),
                    LinkTarget::RemoteAnchor(u, slug) => self.navigate(Source::Url(u), Some(slug)),
                }
            },
        }
    }
}

/// The first row whose path is `p`.
pub open spec fn row_with_path(rows: Seq<RowView>, p: Seq<char>) -> Option<int>
    decreases rows.len(),
{
    if rows.len() == 0 {
        None
    } else if same_path(rows[0].1, p) {
        Some(0)
    } else {
        match row_with_path(rows.drop_first(), p) {
            Some(i) => Some(i + 1),
            None => None,
        }
    }
}

/// The first row whose path's final component is `name`.
pub open spec fn row_named(rows: Seq<RowView>, name: Seq<char>) -> Option<int>
    decreases rows.len(),
{
    if rows.len() == 0 {
        None
    } else if file_name_of(rows[0].1) == Some(name) {
        Some(0)
    } else {
        match row_named(rows.drop_first(), name) {
            Some(i) => Some(i + 1),
            None => None,
        }
    }
}

/// The row selected when the overlay opens on `focus`: the row for that
/// path, else the first row with the same file name, else the first row.
pub open spec fn focus_row(rows: Seq<RowView>, focus: Seq<char>) -> int {
    match row_with_path(rows, focus) {
        Some(i) => i,
        None => match file_name_of(focus) {
            Some(n) => match row_named(rows, n) {
                Some(i) => i,
                None => 0,
            },
            None => 0,
        },
    }
}

/// Lines `start` to `end` (inclusive) as text, joined with newlines.
pub open spec fn lines_text(lines: Seq<StyledLine>, start: int, end: int) -> Seq<char>
    decreases end - start,
{
    if end < start {
        Seq::empty()
    } else if end == start {
        plain_text(lines[start].spans@)
    } else {
        lines_text(lines, start, end - 1) + "\n"@ + plain_text(lines[end].spans@)
    }
}

impl App {
    /// Open the directory browser on the current file's directory (or on
    /// the current directory). A URL has none; neither has a path with no
    /// parent.
    pub fn open_dir(&mut self) -> (e: Effect)
        requires
            old(self).wf(),
        ensures
            final(self).wf(),
            *final(self) == (App { status_message: final(self).status_message, ..*old(self) }),
            old(self).source is Dir ==> *final(self) == *old(self),
            match old(self).source {
                Source::Dir(d) => e matches Effect::ListDir { dir, focus } && dir@ == d@ && focus@ == d@,
                Source::Url(_) => e is Idle && (final(self).status_message matches Some(m)
                    && m@ == "directory browser unavailable for URL sources"@),
                Source::File(f) => match crate::source::parent_of(f@) {
                    None => e is Idle && (final(self).status_message matches Some(m) && m@ == "no parent directory"@),
                    Some(p) => e matches Effect::ListDir { dir, focus } && focus@ == f@
                        && dir@ == (if p.len() == 0 { "."@ } else { p }),
                },
            },
    {
        match &self.source {
            Source::Dir(d) => Effect::ListDir { dir: d.clone(), focus: d.clone() },
            Source::File(f) => match path_parent(f.as_str()) {
                None => {
                    self.status_message = Some("no parent directory".to_string());
                    Effect::Idle
                },
                Some(p) => {
                    let dir = if p.as_str().unicode_len() == 0 { ".".to_string() } else { p };
                    Effect::ListDir { dir, focus: f.clone() }
                },
            },
            Source::Url(_) => {
                self.status_message = Some("directory browser unavailable for URL sources".to_string());
                Effect::Idle
            },
        }
    }

    fn find_row_path(&self, rows: &Vec<DirRow>, p: &str) -> (r: Option<usize>)
        ensures
            match row_with_path(row_views(rows@), p@) {
                Some(i) => r matches Some(j) && j as int == i,
                None => r is None,
            },
    {
        let ghost rv = row_views(rows@);
        let mut k: usize = 0;
        assert(rv.skip(0) =~= rv);
        while k < rows.len()
            invariant
                rv == row_views(rows@),
                k <= rows@.len(),
                row_with_path(rv, p@) == (match row_with_path(rv.skip(k as int), p@) {
                    Some(i) => Some(i + k),
                    None => None,
                }),
            decreases rows@.len() - k,
        {
            assert(rv.skip(k as int).drop_first() =~= rv.skip(k as int + 1));
            assert(rv.skip(k as int)[0] == rv[k as int]);
            if paths_equal(rows[k].path.as_str(), p) {
                return Some(k);
            }
            k = k + 1;
        }
        None
    }

    fn find_row_named(&self, rows: &Vec<DirRow>, name: &str) -> (r: Option<usize>)
        ensures
            match row_named(row_views(rows@), name@) {
                Some(i) => r matches Some(j) && j as int == i,
                None => r is None,
            },
    {
        let ghost rv = row_views(rows@);
        let mut k: usize = 0;
        assert(rv.skip(0) =~= rv);
        while k < rows.len()
            invariant
                rv == row_views(rows@),
                k <= rows@.len(),
                row_named(rv, name@) == (match row_named(rv.skip(k as int), name@) {
                    Some(i) => Some(i + k),
                    None => None,
                }),
            decreases rows@.len() - k,
        {
            assert(rv.skip(k as int).drop_first() =~= rv.skip(k as int + 1));
            assert(rv.skip(k as int)[0] == rv[k as int]);
            let same = match path_file_name(rows[k].path.as_str()) {
                Some(n) => str_eq(n.as_str(), name),
                None => false,
            };
            if same {
                return Some(k);
            }
            k = k + 1;
        }
        None
    }

    /// The outcome of listing directory `dir` for the overlay: open it with
    /// the row for `focus` selected, or say why it could not be listed.
    pub fn finish_dir(&mut self, dir: String, rows: Result<Vec<DirRow>, String>, focus: &str)
        requires
            old(self).wf(),
        ensures
            final(self).wf(),
            match rows {
                Ok(r) => final(self).mode == Mode::Dir
                    && final(self).dir_path == Some(dir)
                    && row_views(final(self).dir_rows@) == row_views(r@)
                    && final(self).dir_selection == focus_row(row_views(r@), focus@)
                    && *final(self) == (App {
                        mode: final(self).mode,
                        dir_path: final(self).dir_path,
                        dir_rows: final(self).dir_rows,
                        dir_selection: final(self).dir_selection,
                        ..*old(self)
                    }),
                Err(e) => (final(self).status_message matches Some(m) && m@ == "dir "@ + dir@ + ": "@ + e@)
                    && *final(self) == (App { status_message: final(self).status_message, ..*old(self) }),
            },
    {
        match rows {
            Ok(rows) => {
                let sel = match self.find_row_path(&rows, focus) {
                    Some(i) => i,
                    None => match path_file_name(focus) {
                        Some(n) => match self.find_row_named(&rows, n.as_str()) {
                            Some(i) => i,
                            None => 0,
                        },
                        None => 0,
                    },
                };
                self.dir_path = Some(dir);
                self.dir_rows = rows;
                self.dir_selection = sel;
                self.mode = Mode::Dir;
            },
            Err(e) => {
                let mut m = concat3("dir ", dir.as_str(), ": ");
                push_str(&mut m, e.as_str());
                self.status_message = Some(m);
            },
        }
    }

    /// Close the directory overlay.
    pub fn close_dir(&mut self)
        requires
            old(self).wf(),
        ensures
            final(self).wf(),
            final(self).dir_path is None,
            final(self).dir_rows@.len() == 0,
            final(self).dir_selection == 0,
            final(self).mode == Mode::Normal,
            *final(self) == (App {
                dir_path: None,
                dir_rows: final(self).dir_rows,
                dir_selection: 0,
                mode: Mode::Normal,
                ..*old(self)
            }),
    {
        self.dir_path = None;
        self.dir_rows = Vec::new();
        self.dir_selection = 0;
        self.mode = Mode::Normal;
    }

    /// Activate the selected row: a file is opened as a new location, a
    /// directory (or `..`, or the tree root) becomes the focused directory.
    pub fn activate_dir_entry(&mut self) -> (e: Effect)
        requires
            old(self).wf(),
        ensures
            final(self).wf(),
            old(self).dir_selection >= old(self).dir_rows@.len() ==> e is Idle && *final(self) == *old(self),
            old(self).dir_selection < old(self).dir_rows@.len() ==> {
                let row = old(self).dir_rows@[old(self).dir_selection as int];
                if row.kind == DirEntryKind::File {
                    &&& final(self).mode == Mode::Normal
                    &&& e matches Effect::Load(r) && r.source@ == SourceView::File(row.path@) && r.purpose
                        == LoadPurpose::Navigate && r.anchor is None
                    &&& final(self).dir_path is None && final(self).dir_rows@.len() == 0 && final(self).dir_selection == 0
                    &&& location_saved(*old(self), *final(self))
                    &&& *final(self) == (App {
                        dir_path: None,
                        dir_rows: final(self).dir_rows,
                        dir_selection: 0,
                        mode: Mode::Normal,
                        history: final(self).history,
                        status_message: final(self).status_message,
                        ..*old(self)
                    })
                } else {
                    &&& e matches Effect::ListDir { dir, focus } && dir@ == row.path@ && focus@ == row.path@
                    &&& *final(self) == *old(self)
                }
            },
    {
        if self.dir_selection >= self.dir_rows.len() {
            return Effect::Idle;
        }
        let kind = self.dir_rows[self.dir_selection].kind;
        let path = self.dir_rows[self.dir_selection].path.clone();
        match kind {
            DirEntryKind::File => {
                self.close_dir();
                self.navigate(Source::File(path), None)
            },
            DirEntryKind::Dir | DirEntryKind::Parent => {
                let focus = path.clone();
                Effect::ListDir { dir: path, focus }
            },
        }
    }

    /// Re-root the overlay on the focused directory's parent; nothing at
    /// the filesystem root.
    pub fn dir_go_up(&mut self) -> (e: Effect)
        requires
            old(self).wf(),
        ensures
            final(self).wf(),
            *final(self) == *old(self),
            match old(self).dir_path {
                Some(d) => match crate::source::parent_of(d@) {
                    Some(p) => e matches Effect::ListDir { dir, focus } && dir@ == p && focus@ == p,
                    None => e is Idle,
                },
                None => e is Idle,
            },
    {
        match &self.dir_path {
            Some(d) => match path_parent(d.as_str()) {
                Some(p) => {
                    let focus = p.clone();
                    Effect::ListDir { dir: p, focus }
                },
                None => Effect::Idle,
            },
            None => Effect::Idle,
        }
    }

    /// The text of lines `start` to `end` (clamped to the document), one
    /// per line.
    pub fn selection_text(&self, start: usize, end: usize) -> (r: String)
        ensures
            self.lines@.len() > 0 ==> r@ == lines_text(self.lines@, start as int, min_usize(end, self.last_index()) as int),
            self.lines@.len() == 0 ==> r@.len() == 0,
    {
        let last = self.last_line_index();
        let end = if end < last { end } else { last };
        let mut out = String::new();
        if start > end || self.lines.len() == 0 {
            return out;
        }
        let n = self.lines.len();
        let mut idx: usize = start;
        while idx <= end
            invariant
                n == self.lines@.len(),
                start <= end < self.lines@.len(),
                start <= idx <= end + 1,
                out@ == lines_text(self.lines@, start as int, idx - 1),
            decreases end + 1 - idx,
        {
            if idx > start {
                crate::text::push_char(&mut out, '\n');
            }
            let t = line_text(&self.lines[idx]);
            push_str(&mut out, t.as_str());
            proof {
                reveal_strlit("\n");
            }
            idx = idx + 1;
            assert(out@ =~= lines_text(self.lines@, start as int, idx - 1));
        }
        out
    }

    /// Scroll so the yank selection shows, its top first when it is taller
    /// than the view.
    fn scroll_to_yank_selection(&mut self)
        requires
            old(self).wf(),
        ensures
            final(self).wf(),
            final(self).moved(*old(self)),
            final(self).cursor_line == old(self).cursor_line,
            final(self).scroll == yank_scroll(*old(self)),
    {
        let (start, end) = match &self.yank {
            Some(y) => y.current(),
            None => {
                return;
            },
        };
        let h = self.body_height as usize;
        if h == 0 {
            return;
        }
        let rs = self.screen_row_of(start);
        let re = if end < usize::MAX { self.screen_row_of(end + 1) } else { self.total_screen_rows() };
        if rs < self.scroll {
            self.scroll = rs;
        } else if re >= h && re - h > self.scroll {
            let span = if re >= rs { re - rs } else { 0 };
            self.scroll = if span >= h { rs } else { re - h };
        }
        let m = self.max_scroll_rows();
        if self.scroll > m {
            self.scroll = m;
        }
    }

    /// Start yank mode on the cursor line; nothing for an empty document.
    pub fn enter_yank(&mut self)
        requires
            old(self).wf(),
        ensures
            final(self).wf(),
            old(self).lines@.len() == 0 ==> *final(self) == *old(self),
            old(self).lines@.len() > 0 ==> (final(self).mode == Mode::Yank && (final(self).yank matches Some(y)
                && y.level == 0 && y.path@ == yank_path(
                    old(self).cursor_line,
                    old(self).last_index(),
                    old(self).blocks@,
                    old(self).anchors@,
                ))),
            old(self).lines@.len() > 0 ==> (final(self).scroll == yank_scroll(
                App { yank: final(self).yank, mode: Mode::Yank, ..*old(self) },
            ) && *final(self) == (App {
                yank: final(self).yank,
                mode: Mode::Yank,
                scroll: final(self).scroll,
                ..*old(self)
            })),
    {
        if self.lines.len() == 0 {
            return;
        }
        let last = self.last_line_index();
        let path = build_yank_path(self.cursor_line, last, &self.blocks, &self.anchors);
        proof {
            crate::yank::lemma_yank_path_nonempty(self.cursor_line, last, self.blocks@, self.anchors@);
        }
        self.yank = Some(YankSelection { path, level: 0 });
        self.mode = Mode::Yank;
        self.scroll_to_yank_selection();
    }

    /// Select the next larger range, if any.
    pub fn yank_expand(&mut self)
        requires
            old(self).wf(),
        ensures
            final(self).wf(),
            match old(self).yank {
                Some(y) => final(self).yank matches Some(z) && z.path == y.path
                    && z.level == (if y.level + 1 < y.path@.len() { y.level + 1 } else { y.level as int }),
                None => *final(self) == *old(self),
            },
            (old(self).yank matches Some(y) && !(y.level + 1 < y.path@.len())) ==> *final(self) == *old(self),
            (old(self).yank matches Some(y) && y.level + 1 < y.path@.len()) ==> (final(self).scroll == yank_scroll(
                App { yank: final(self).yank, ..*old(self) },
            ) && *final(self) == (App { yank: final(self).yank, scroll: final(self).scroll, ..*old(self) })),
    {
        match &mut self.yank {
            Some(y) => {
                let n = y.path.len();
                if y.level < n - 1 {
                    y.level = y.level + 1;
                } else {
                    return;
                }
            },
            None => {
                return;
            },
        }
        self.scroll_to_yank_selection();
    }

    /// Select the next smaller range, if any.
    pub fn yank_shrink(&mut self)
        requires
            old(self).wf(),
        ensures
            final(self).wf(),
            match old(self).yank {
                Some(y) => final(self).yank matches Some(z) && z.path == y.path
                    && z.level == (if y.level > 0 { y.level - 1 } else { y.level as int }),
                None => *final(self) == *old(self),
            },
            (old(self).yank matches Some(y) && !(y.level > 0)) ==> *final(self) == *old(self),
            (old(self).yank matches Some(y) && y.level > 0) ==> (final(self).scroll == yank_scroll(
                App { yank: final(self).yank, ..*old(self) },
            ) && *final(self) == (App { yank: final(self).yank, scroll: final(self).scroll, ..*old(self) })),
    {
        match &mut self.yank {
            Some(y) => {
                if y.level > 0 {
                    y.level = y.level - 1;
                } else {
                    return;
                }
            },
            None => {
                return;
            },
        }
        self.scroll_to_yank_selection();
    }

    /// Copy the selected lines and leave yank mode.
    pub fn yank_copy(&mut self) -> (e: Effect)
        requires
            old(self).wf(),
        ensures
            final(self).wf(),
            match old(self).yank {
                None => e is Idle && *final(self) == *old(self),
                Some(y) => {
                    let (start, end) = y.path@[y.level as int];
                    &&& e matches Effect::Copy { text, lines } && (old(self).lines@.len() > 0 ==> text@ == lines_text(
                        old(self).lines@,
                        start as int,
                        min_usize(end, old(self).last_index()) as int,
                    )) && lines == (if end >= start && end - start < usize::MAX { end - start + 1 } else { 0 })
                    &&& final(self).yank is None
                    &&& final(self).mode == Mode::Normal
                    &&& *final(self) == (App { yank: None, mode: Mode::Normal, ..*old(self) })
                },
            },
    {
        let (start, end) = match &self.yank {
            Some(y) => y.current(),
            None => {
                return Effect::Idle;
            },
        };
        let text = self.selection_text(start, end);
        let lines: usize = if end >= start && end - start < usize::MAX { end - start + 1 } else { 0 };
        self.yank = None;
        self.mode = Mode::Normal;
        Effect::Copy { text, lines }
    }

    /// Report the outcome of copying `lines` lines to the clipboard.
    pub fn finish_copy(&mut self, lines: usize, result: Result<(), String>)
        requires
            old(self).wf(),
        ensures
            final(self).wf(),
            (result is Ok) ==> (final(self).status_message matches Some(m) && m@ == "yanked "@ + decimal(lines as nat) + " lines"@),
            result is Err ==> (final(self).status_message matches Some(m) && m@ == "yank failed: "@ + result->Err_0@),
            *final(self) == (App { status_message: final(self).status_message, ..*old(self) }),
    {
        match result {
            Ok(()) => {
                let mut m = "yanked ".to_string();
                push_decimal(&mut m, lines);
                push_str(&mut m, " lines");
                self.status_message = Some(m);
            },
            Err(e) => {
                let mut m = "yank failed: ".to_string();
                push_str(&mut m, e.as_str());
                self.status_message = Some(m);
            },
        }
    }
}

/// The count after typing digit `d` behind `pending`.
pub open spec fn count_after(pending: Option<u32>, d: int) -> u32 {
    let p: int = match pending {
        Some(n) => n as int,
        None => 0,
    };
    let m: int = if p * 10 > u32::MAX { u32::MAX as int } else { p * 10 };
    if m + d > u32::MAX {
        u32::MAX
    } else {
        (m + d) as u32
    }
}

pub open spec fn is_digit_key(code: KeyCode, mods: Mods, pending: Option<u32>) -> bool {
    &&& mods == no_mods()
    &&& code is Char
    &&& '0' <= code->Char_0 <= '9'
    &&& (code->Char_0 != '0' || pending is Some)
}

/// The cursor after moving `delta` lines from where it is, stopping at
/// either end.
pub open spec fn cursor_after(a: App, delta: int) -> int {
    if a.cursor_line + delta < 0 {
        0
    } else if a.cursor_line + delta > a.last_index() {
        a.last_index() as int
    } else {
        a.cursor_line + delta
    }
}

/// Half a page, as the half-page motions count it.
pub open spec fn half_page_of(a: App) -> int {
    (if a.body_height < 1 { 1 } else { a.body_height as int }) / 2
}

/// A whole page, as the page motions count it.
pub open spec fn page_of(a: App) -> int {
    if a.body_height < 1 { 1 } else { a.body_height as int }
}

/// The cursor moved by `delta` lines and scrolled into view.
pub open spec fn moved_by(before: App, after: App, delta: int) -> bool {
    &&& after.cursor_line == cursor_after(before, delta)
    &&& after.scroll == before.scroll_for_line(after.cursor_line)
    &&& after.moved(before)
}

/// The table of contents opened on the last heading at or above the
/// cursor (the first when there is none); nothing happens without
/// headings.
pub open spec fn toc_opened(before: App, after: App) -> bool {
    &&& before.anchors@.len() == 0 ==> after == before
    &&& before.anchors@.len() > 0 ==> after.mode == Mode::Toc && after.toc_selection < before.anchors@.len()
    &&& before.anchors@.len() > 0 ==> ((after.toc_selection > 0 || before.anchors@[0].line <= before.cursor_line)
        ==> before.anchors@[after.toc_selection as int].line <= before.cursor_line)
    &&& before.anchors@.len() > 0 ==> forall|m: int|
        after.toc_selection < m < before.anchors@.len() ==> (#[trigger] before.anchors@[m]).line > before.cursor_line
    &&& before.anchors@.len() > 0 ==> after == (App { mode: Mode::Toc, toc_selection: after.toc_selection, ..before })
}

/// The directory browser asked for: the current directory, or the
/// current file's directory with the file selected; a message otherwise.
pub open spec fn dir_requested(before: App, after: App, e: Effect) -> bool {
    &&& after == (App { status_message: after.status_message, ..before })
    &&& match before.source {
        Source::Dir(d) => e matches Effect::ListDir { dir, focus } && dir@ == d@ && focus@ == d@,
        Source::Url(_) => e is Idle && (after.status_message matches Some(m) && m@
            == "directory browser unavailable for URL sources"@),
        Source::File(f) => match crate::source::parent_of(f@) {
            None => e is Idle && (after.status_message matches Some(m) && m@ == "no parent directory"@),
            Some(p) => e matches Effect::ListDir { dir, focus } && focus@ == f@ && dir@ == (if p.len() == 0 {
                "."@
            } else {
                p
            }),
        },
    }
}

/// The search moved to the next (`dir` 1) or previous (`dir` -1) match,
/// wrapping around; without matches a query is reported as not found.
pub open spec fn search_stepped(before: App, after: App, dir: int) -> bool {
    &&& before.search_matches@.len() == 0 && before.search_query@.len() > 0 ==> (after.status_message matches Some(m)
        && m@ == "/"@ + before.search_query@ + ": no match"@)
    &&& before.search_matches@.len() > 0 ==> after.search_cursor == Some(
        wrap_index(
            (match before.search_cursor {
                Some(c) => c as int,
                None => 0,
            }) + dir,
            before.search_matches@.len() as int,
        ) as usize,
    )
    &&& after.search_matches == before.search_matches
    &&& after.lines == before.lines
    &&& after.mode == before.mode
    &&& before.search_matches@.len() == 0 ==> after == (App { status_message: after.status_message, ..before })
    &&& before.search_matches@.len() > 0 ==> (after.cursor_line == min_usize(
        before.search_matches@[after.search_cursor->0 as int].line,
        before.last_index(),
    ) && after.scroll == before.scroll_for_line(after.cursor_line) && after == (App {
        search_cursor: after.search_cursor,
        cursor_line: after.cursor_line,
        scroll: after.scroll,
        ..before
    }))
}

/// The link focus moved forward (`dir` 1) or back (`dir` -1), wrapping
/// around; with no link focused, to the first link at or below the top of
/// the view or the last one above its bottom.
pub open spec fn link_focus_moved(before: App, after: App, dir: int) -> bool {
    &&& before.links@.len() == 0 ==> after == before
    &&& before.links@.len() > 0 ==> after.focused_link is Some
    &&& before.links@.len() > 0 && before.focused_link is Some ==> after.focused_link == Some(
        wrap_index(before.focused_link->0 + dir, before.links@.len() as int) as usize,
    )
    &&& before.links@.len() > 0 && before.focused_link is None && dir > 0 ==> before.is_first_link_from(
        after.focused_link->0 as int,
        before.scroll as int,
    )
    &&& before.links@.len() > 0 && before.focused_link is None && dir < 0 ==> before.is_last_link_before(
        after.focused_link->0 as int,
        sat_add(before.scroll, before.body_height as usize) as int,
    )
    &&& before.links@.len() > 0 ==> after.cursor_line == min_usize(
        before.links@[after.focused_link->0 as int].line,
        before.last_index(),
    )
    &&& after.links == before.links
    &&& after.lines == before.lines
    &&& after.mode == before.mode
    &&& before.links@.len() > 0 ==> after.scroll == before.scroll_for_line(after.cursor_line)
    &&& after == (App {
        focused_link: after.focused_link,
        cursor_line: after.cursor_line,
        scroll: after.scroll,
        ..before
    })
}

/// The focused link followed, or a message when none is focused.
pub open spec fn link_activated(before: App, after: App, e: Effect) -> bool {
    &&& before.focused_link is None ==> (e is Idle && (after.status_message matches Some(m) && m@
        == "no link focused — press Tab to select one"@))
    &&& before.focused_link matches Some(i) ==> link_followed(
        before,
        after,
        e,
        link_target(before.links@[i as int].url@, before.source, link_reading(before.links@[i as int].url@, before.source)),
    )
}

/// The history entry `k` asked for, when there is one; a message naming
/// the direction otherwise.
pub open spec fn history_requested(before: App, after: App, e: Effect, back: bool) -> bool {
    let available = if back { before.history_cursor > 0 } else { before.history_cursor + 1 < before.history@.len() };
    let k = if back { before.history_cursor - 1 } else { before.history_cursor + 1 };
    &&& !available ==> (e is Idle && (after.status_message matches Some(m) && m@ == (if back {
        "no further history (back)"@
    } else {
        "no further history (forward)"@
    })))
    &&& available ==> (e matches Effect::Load(r) && r.purpose == LoadPurpose::Travel(k as usize) && r.source@
        == before.history@[k].source@ && r.anchor is None)
    &&& after.history == before.history
    &&& after.history_cursor == before.history_cursor
    &&& after == (App { status_message: after.status_message, ..before })
}

/// The cursor moved to the next heading below it, if any.
pub open spec fn moved_to_next_section(before: App, after: App) -> bool {
    &&& after.moved(before)
    &&& (forall|k: int| 0 <= k < before.anchors@.len() ==> (#[trigger] before.anchors@[k]).line <= before.cursor_line)
        ==> after == before
    &&& forall|k: int|
        #![trigger before.anchors@[k]]
        0 <= k < before.anchors@.len() && before.anchors@[k].line > before.cursor_line && (forall|m: int|
            0 <= m < k ==> (#[trigger] before.anchors@[m]).line <= before.cursor_line) ==> after.cursor_line
            == min_usize(before.anchors@[k].line, before.last_index()) && after.scroll == before.scroll_for_line(
            after.cursor_line,
        )
}

/// The cursor moved to the nearest heading above it, if any.
pub open spec fn moved_to_prev_section(before: App, after: App) -> bool {
    &&& after.moved(before)
    &&& (forall|k: int| 0 <= k < before.anchors@.len() ==> (#[trigger] before.anchors@[k]).line >= before.cursor_line)
        ==> after == before
    &&& forall|k: int|
        #![trigger before.anchors@[k]]
        0 <= k < before.anchors@.len() && before.anchors@[k].line < before.cursor_line && (forall|m: int|
            k < m < before.anchors@.len() ==> (#[trigger] before.anchors@[m]).line >= before.cursor_line)
            ==> after.cursor_line == min_usize(before.anchors@[k].line, before.last_index()) && after.scroll
            == before.scroll_for_line(after.cursor_line)
}

/// The yank selection started on the innermost range around the cursor.
pub open spec fn yank_entered(before: App, after: App) -> bool {
    &&& before.lines@.len() == 0 ==> after == before
    &&& before.lines@.len() > 0 ==> (after.mode == Mode::Yank && (after.yank matches Some(y) && y.level == 0 && y.path@
        == yank_path(before.cursor_line, before.last_index(), before.blocks@, before.anchors@)))
    &&& before.lines@.len() > 0 ==> (after.scroll == yank_scroll(App { yank: after.yank, mode: Mode::Yank, ..before })
        && after == (App { yank: after.yank, mode: Mode::Yank, scroll: after.scroll, ..before }))
}

/// The yank selection widened (`wider`) or narrowed by one step, within
/// its ladder.
pub open spec fn yank_stepped(before: App, after: App, wider: bool) -> bool {
    match before.yank {
        Some(y) => {
            let moves = if wider { y.level + 1 < y.path@.len() } else { y.level > 0 };
            &&& after.yank matches Some(z) && z.path == y.path && z.level == (if wider {
                if y.level + 1 < y.path@.len() { y.level + 1 } else { y.level as int }
            } else {
                if y.level > 0 { y.level - 1 } else { y.level as int }
            })
            &&& !moves ==> after == before
            &&& moves ==> after.scroll == yank_scroll(App { yank: after.yank, ..before }) && after == (App {
                yank: after.yank,
                scroll: after.scroll,
                ..before
            })
        },
        None => after == before,
    }
}

/// The selected lines handed to the clipboard, and the yank mode left.
pub open spec fn yank_copied(before: App, after: App, e: Effect) -> bool {
    match before.yank {
        None => e is Idle && after == before,
        Some(y) => {
            let (start, end) = y.path@[y.level as int];
            &&& e matches Effect::Copy { text, lines } && (before.lines@.len() > 0 ==> text@ == lines_text(
                before.lines@,
                start as int,
                min_usize(end, before.last_index()) as int,
            )) && lines == (if end >= start && end - start < usize::MAX { end - start + 1 } else { 0 })
            &&& after.yank is None
            &&& after.mode == Mode::Normal
            &&& after == (App { yank: None, mode: Mode::Normal, ..before })
        },
    }
}

/// The selected directory row opened: a file is loaded, a directory
/// listed.
pub open spec fn dir_entry_activated(before: App, after: App, e: Effect) -> bool {
    &&& before.dir_selection >= before.dir_rows@.len() ==> e is Idle && after == before
    &&& before.dir_selection < before.dir_rows@.len() ==> {
        let row = before.dir_rows@[before.dir_selection as int];
        if row.kind == DirEntryKind::File {
            &&& after.mode == Mode::Normal
            &&& e matches Effect::Load(r) && r.source@ == SourceView::File(row.path@) && r.purpose
                == LoadPurpose::Navigate && r.anchor is None
            &&& after.dir_path is None && after.dir_rows@.len() == 0 && after.dir_selection == 0
            &&& location_saved(before, after)
            &&& after == (App {
                dir_path: None,
                dir_rows: after.dir_rows,
                dir_selection: 0,
                mode: Mode::Normal,
                history: after.history,
                status_message: after.status_message,
                ..before
            })
        } else {
            &&& e matches Effect::ListDir { dir, focus } && dir@ == row.path@ && focus@ == row.path@
            &&& after == before
        }
    }
}

/// The parent of the listed directory asked for, if it has one.
pub open spec fn dir_parent_requested(before: App, after: App, e: Effect) -> bool {
    &&& after == before
    &&& match before.dir_path {
        Some(d) => match crate::source::parent_of(d@) {
            Some(p) => e matches Effect::ListDir { dir, focus } && dir@ == p && focus@ == p,
            None => e is Idle,
        },
        None => e is Idle,
    }
}

/// What carrying out `action` does: `before` becomes `after`, and `e` is
/// what is left for the caller to do.
pub open spec fn acted(before: App, after: App, action: Action, e: Effect) -> bool {
    match action {
        Action::Quit => e is Quit && after == before,
        Action::OpenToc => e is Idle && toc_opened(before, after),
        Action::OpenHelp => e is Idle && after == (App { mode: Mode::Help, ..before }),
        Action::OpenDir => dir_requested(before, after, e),
        Action::ToggleLineNumbers => e is Idle && after.show_line_numbers == !before.show_line_numbers
            && after.cursor_line == before.cursor_line && after.scroll == (App {
            show_line_numbers: !before.show_line_numbers,
            ..before
        }).scroll_for_line(before.cursor_line),
        Action::ToggleShortcodes => e is Idle && after.shortcodes == !before.shortcodes && after.raw_input
            == before.raw_input && (after.status_message matches Some(m) && m@ == (if after.shortcodes {
            "emoji shortcodes: on"@
        } else {
            "emoji shortcodes: off"@
        })) && after.history == before.history && after.history_cursor == before.history_cursor && after.source
            == before.source && shows_input(after, after.raw_input@, after.shortcodes),
        Action::StartSearch => e is Idle && (after.search_input matches Some(q) && q@.len() == 0) && after == (App {
            mode: Mode::Search,
            search_input: after.search_input,
            ..before
        }),
        Action::SearchNext => e is Idle && search_stepped(before, after, 1),
        Action::SearchPrev => e is Idle && search_stepped(before, after, -1),
        Action::LinkNext => e is Idle && link_focus_moved(before, after, 1),
        Action::LinkPrev => e is Idle && link_focus_moved(before, after, -1),
        Action::ActivateLink => link_activated(before, after, e),
        Action::HistoryBack => history_requested(before, after, e, true),
        Action::HistoryForward => history_requested(before, after, e, false),
        Action::CursorDown => e is Idle && moved_by(before, after, 1),
        Action::CursorUp => e is Idle && moved_by(before, after, -1),
        Action::CursorHalfPageDown => e is Idle && moved_by(before, after, half_page_of(before)),
        Action::CursorHalfPageUp => e is Idle && moved_by(before, after, -half_page_of(before)),
        Action::CursorPageDown => e is Idle && moved_by(before, after, page_of(before)),
        Action::CursorPageUp => e is Idle && moved_by(before, after, -page_of(before)),
        Action::CursorTop => e is Idle && after.cursor_line == 0 && after.scroll == before.scroll_for_line(0)
            && after.moved(before),
        Action::CursorBottom => e is Idle && after.cursor_line == before.last_index() && after.scroll
            == before.scroll_for_line(after.cursor_line) && after.moved(before),
        Action::SectionNext => e is Idle && moved_to_next_section(before, after),
        Action::SectionPrev => e is Idle && moved_to_prev_section(before, after),
        Action::EnterYank => e is Idle && yank_entered(before, after),
        Action::YankCancel => e is Idle && after.yank is None && (before.yank is Some ==> after.mode == Mode::Normal)
            && (before.yank is None ==> after.mode == before.mode) && after == (App {
            yank: None,
            mode: after.mode,
            ..before
        }),
        Action::YankExpand => e is Idle && yank_stepped(before, after, true),
        Action::YankShrink => e is Idle && yank_stepped(before, after, false),
        Action::YankCopy => yank_copied(before, after, e),
        Action::TocClose => e is Idle && after == (App { mode: Mode::Normal, ..before }),
        Action::TocSelectNext => e is Idle && after == (App {
            toc_selection: if before.toc_selection + 1 < before.anchors@.len() {
                (before.toc_selection + 1) as usize
            } else {
                before.toc_selection
            },
            ..before
        }),
        Action::TocSelectPrev => e is Idle && after == (App {
            toc_selection: if before.toc_selection > 0 { (before.toc_selection - 1) as usize } else { before.toc_selection },
            ..before
        }),
        Action::TocSelectTop => e is Idle && after == (App { toc_selection: 0, ..before }),
        Action::TocSelectBottom => e is Idle && after == (App {
            toc_selection: sat_sub(before.anchors@.len() as usize, 1),
            ..before
        }),
        Action::TocConfirm => e is Idle && (before.toc_selection < before.anchors@.len() ==> (after.mode == Mode::Normal
            && after.cursor_line == min_usize(before.anchors@[before.toc_selection as int].line, before.last_index())
            && after.history_cursor == before.history_cursor + 1)) && (before.toc_selection >= before.anchors@.len()
            ==> after == before),
        Action::HelpClose => e is Idle && after == (App { mode: Mode::Normal, ..before }),
        Action::DirClose => e is Idle && after.dir_path is None && after.dir_rows@.len() == 0 && after.dir_selection == 0
            && after.mode == Mode::Normal && after == (App {
            dir_path: None,
            dir_rows: after.dir_rows,
            dir_selection: 0,
            mode: Mode::Normal,
            ..before
        }),
        Action::DirSelectNext => e is Idle && after == (App {
            dir_selection: if before.dir_selection < sat_sub(before.dir_rows@.len() as usize, 1) {
                (before.dir_selection + 1) as usize
            } else {
                before.dir_selection
            },
            ..before
        }),
        Action::DirSelectPrev => e is Idle && after == (App {
            dir_selection: if before.dir_selection > 0 { (before.dir_selection - 1) as usize } else { before.dir_selection },
            ..before
        }),
        Action::DirSelectTop => e is Idle && after == (App { dir_selection: 0, ..before }),
        Action::DirSelectBottom => e is Idle && after == (App {
            dir_selection: sat_sub(before.dir_rows@.len() as usize, 1),
            ..before
        }),
        Action::DirActivate => dir_entry_activated(before, after, e),
        Action::DirGoUp => dir_parent_requested(before, after, e),
    }
}

impl App {
    /// Toggle emoji shortcode expansion and re-render the kept source: the
    /// cursor stays (clamped), the search is re-run, and the status says
    /// which way it went.
    pub fn toggle_shortcodes(&mut self)
        requires
            old(self).wf(),
        ensures
            final(self).wf(),
            final(self).shortcodes == !old(self).shortcodes,
            final(self).raw_input == old(self).raw_input,
            final(self).status_message matches Some(m) && m@ == (if final(self).shortcodes {
                "emoji shortcodes: on"@
            } else {
                "emoji shortcodes: off"@
            }),
            final(self).history == old(self).history,
            final(self).history_cursor == old(self).history_cursor,
            final(self).source == old(self).source,
            shows_input(*final(self), final(self).raw_input@, final(self).shortcodes),
    {
        let cursor = self.cursor_line;
        self.shortcodes = !self.shortcodes;
        let doc = parse_and_render(self.raw_input.as_str(), self.shortcodes);
        self.set_document(doc);
        self.rerun_search();
        let last = self.last_line_index();
        self.cursor_line = if cursor < last { cursor } else { last };
        self.scroll_to_cursor();
        self.status_message = Some(
            if self.shortcodes {
                "emoji shortcodes: on".to_string()
            } else {
                "emoji shortcodes: off".to_string()
            },
        );
    }

    /// The outcome of re-reading the current file after it changed on disk:
    /// the new rendering replaces the old, keeping cursor and scroll
    /// (clamped) and re-running the search. Only files are watched.
    pub fn finish_reload(&mut self, result: Result<String, String>)
        requires
            old(self).wf(),
        ensures
            final(self).wf(),
            !(old(self).source is File) ==> *final(self) == *old(self),
            old(self).source is File && result is Err ==> (final(self).status_message matches Some(m)
                && m@ == "reload "@ + old(self).source->File_0@ + ": "@ + result->Err_0@),
            old(self).source is File && result is Ok ==> shows_input(*final(self), result->Ok_0@, final(self).shortcodes),
            old(self).source is File && result is Ok ==> (final(self).raw_input@ == result->Ok_0@
                && (final(self).status_message matches Some(m) && m@ == "reloaded"@)
                && final(self).cursor_line == min_usize(old(self).cursor_line, final(self).last_index())
                && final(self).scroll == min_usize(old(self).scroll, final(self).max_scroll())),
            final(self).history == old(self).history,
            final(self).history_cursor == old(self).history_cursor,
    {
        let path = match &self.source {
            Source::File(p) => p.clone(),
            _ => {
                return;
            },
        };
        let saved_scroll = self.scroll;
        let saved_cursor = self.cursor_line;
        match result {
            Ok(input) => {
                let doc = parse_and_render(input.as_str(), self.shortcodes);
                self.set_document(doc);
                self.raw_input = input;
                self.rerun_search();
                let last = self.last_line_index();
                self.cursor_line = if saved_cursor < last { saved_cursor } else { last };
                let m = self.max_scroll_rows();
                self.scroll = if saved_scroll < m { saved_scroll } else { m };
                self.status_message = Some("reloaded".to_string());
            },
            Err(e) => {
                let mut m = concat3("reload ", path.as_str(), ": ");
                push_str(&mut m, e.as_str());
                self.status_message = Some(m);
            },
        }
    }

    /// Carry out `action`. The keymap-driven handlers all come here; this
    /// is the one place an action becomes an effect.
    pub fn dispatch(&mut self, action: Action) -> (e: Effect)
        requires
            old(self).wf(),
        ensures
            final(self).wf(),
            acted(*old(self), *final(self), action, e),
    {
        match action {
            Action::Quit => {
                return Effect::Quit;
            },
            Action::OpenToc => self.open_toc(),
            Action::OpenHelp => {
                self.mode = Mode::Help;
            },
            Action::OpenDir => {
                return self.open_dir();
            },
            Action::ToggleLineNumbers => self.toggle_line_numbers(),
            Action::ToggleShortcodes => self.toggle_shortcodes(),
            Action::StartSearch => {
                self.mode = Mode::Search;
                self.search_input = Some(String::new());
            },
            Action::SearchNext => self.search_step(1),
            Action::SearchPrev => self.search_step(-1),
            Action::LinkNext => self.focus_next_link(1),
            Action::LinkPrev => self.focus_next_link(-1),
            Action::ActivateLink => {
                return self.activate_focused_link();
            },
            Action::HistoryBack => {
                return self.go_back();
            },
            Action::HistoryForward => {
                return self.go_forward();
            },
            Action::CursorDown => self.cursor_by(1),
            Action::CursorUp => self.cursor_by(-1),
            Action::CursorHalfPageDown => {
                let d = self.half_page();
                self.cursor_by(d);
            },
            Action::CursorHalfPageUp => {
                let d = self.half_page();
                self.cursor_by(-d);
            },
            Action::CursorPageDown => {
                let d = self.page();
                self.cursor_by(d);
            },
            Action::CursorPageUp => {
                let d = self.page();
                self.cursor_by(-d);
            },
            Action::CursorTop => self.cursor_to(0),
            Action::CursorBottom => {
                let last = self.last_line_index();
                self.cursor_to(last);
            },
            Action::SectionNext => self.cursor_to_next_section(),
            Action::SectionPrev => self.cursor_to_prev_section(),
            Action::EnterYank => self.enter_yank(),
            Action::YankCancel => self.cancel_yank(),
            Action::YankExpand => self.yank_expand(),
            Action::YankShrink => self.yank_shrink(),
            Action::YankCopy => {
                return self.yank_copy();
            },
            Action::TocClose => {
                self.mode = Mode::Normal;
            },
            Action::TocSelectNext => {
                let n = self.anchors.len();
                if n > 0 && self.toc_selection < n - 1 {
                    self.toc_selection = self.toc_selection + 1;
                }
            },
            Action::TocSelectPrev => {
                if self.toc_selection > 0 {
                    self.toc_selection = self.toc_selection - 1;
                }
            },
            Action::TocSelectTop => {
                self.toc_selection = 0;
            },
            Action::TocSelectBottom => {
                let n = self.anchors.len();
                self.toc_selection = if n >= 1 { n - 1 } else { 0 };
            },
            Action::TocConfirm => {
                if self.toc_selection < self.anchors.len() {
                    let line = self.anchors[self.toc_selection].line;
                    self.jump_and_push(line);
                    self.mode = Mode::Normal;
                }
            },
            Action::HelpClose => {
                self.mode = Mode::Normal;
            },
            Action::DirClose => self.close_dir(),
            Action::DirSelectNext => {
                let n = self.dir_rows.len();
                let last = if n >= 1 { n - 1 } else { 0 };
                if self.dir_selection < last {
                    self.dir_selection = self.dir_selection + 1;
                }
            },
            Action::DirSelectPrev => {
                if self.dir_selection > 0 {
                    self.dir_selection = self.dir_selection - 1;
                }
            },
            Action::DirSelectTop => {
                self.dir_selection = 0;
            },
            Action::DirSelectBottom => {
                let n = self.dir_rows.len();
                self.dir_selection = if n >= 1 { n - 1 } else { 0 };
            },
            Action::DirActivate => {
                return self.activate_dir_entry();
            },
            Action::DirGoUp => {
                return self.dir_go_up();
            },
        }
        Effect::Idle
    }
}

/// What a key does in normal mode. Any key clears the status message.
/// Digits build a count (`0` only extends one already started); `Esc`
/// with a count pending drops the count; a count before `G` or `End` jumps
/// to that line; any other key carries out the action the normal keymap
/// binds it to, if any, with the count dropped.
pub open spec fn normal_key_handled(before: App, after: App, code: KeyCode, mods: Mods, e: Effect) -> bool {
    let digit = is_digit_key(code, mods, before.pending_count);
    let counted_jump = before.pending_count is Some && (code == KeyCode::Esc || code == KeyCode::Char('G')
        || code == KeyCode::End);
    let bound = before.keymap_normal.get(normalized((code, mods)));
    &&& digit ==> (e is Idle && after == (App {
        pending_count: Some(count_after(before.pending_count, (code->Char_0 as int) - ('0' as int))),
        status_message: None,
        ..before
    }))
    &&& (!digit && code == KeyCode::Esc && before.pending_count is Some) ==> (e is Idle && after == (App {
        pending_count: None,
        status_message: None,
        ..before
    }))
    &&& (!digit && code != KeyCode::Esc && before.pending_count is Some && (code == KeyCode::Char('G') || code
        == KeyCode::End)) ==> (e is Idle && after.cursor_line == min_usize(
        (if before.pending_count->0 < 1 { 0 } else { before.pending_count->0 - 1 }) as usize,
        before.last_index(),
    ) && after.scroll == before.scroll_for_line(after.cursor_line) && after == (App {
        cursor_line: after.cursor_line,
        scroll: after.scroll,
        pending_count: None,
        status_message: None,
        ..before
    }))
    &&& (!digit && !counted_jump && bound is None) ==> (e is Idle && after == (App {
        pending_count: None,
        status_message: None,
        ..before
    }))
    &&& (!digit && !counted_jump && bound is Some) ==> acted(
        App { pending_count: None, status_message: None, ..before },
        after,
        bound->0,
        e,
    )
}

/// What a key does while the search prompt is open: `Esc` cancels,
/// `Enter` runs the search typed so far, `Backspace` deletes the last
/// character, a character is typed; other keys do nothing.
pub open spec fn search_key_handled(before: App, after: App, code: KeyCode) -> bool {
    let entered = match before.search_input {
        Some(q) => q@,
        None => Seq::<char>::empty(),
    };
    &&& code == KeyCode::Esc ==> after == (App { search_input: None, mode: Mode::Normal, ..before })
    &&& code == KeyCode::Enter ==> after.search_input is None && after.mode == Mode::Normal && after.search_query@
        == entered && after.search_matches@ == crate::search::search_matches(before.lines@, entered)
    &&& code == KeyCode::Backspace ==> after == (App { search_input: after.search_input, ..before }) && match before.search_input {
        None => after.search_input is None,
        Some(p) => after.search_input matches Some(q) && q@ == (if p@.len() > 0 { p@.drop_last() } else { p@ }),
    }
    &&& code is Char ==> after == (App { search_input: after.search_input, ..before }) && match before.search_input {
        None => after.search_input is None,
        Some(p) => after.search_input matches Some(q) && q@ == p@.push(code->Char_0),
    }
    &&& !(code == KeyCode::Esc || code == KeyCode::Enter || code == KeyCode::Backspace || code is Char) ==> after == before
}

impl App {
    /// A key in normal mode. Any key clears the status message. Digits
    /// build a count (`0` only extends one already started); `Esc` with a
    /// count pending drops the count instead of quitting; a count before
    /// `G` or `End` jumps to that line; anything else goes through the
    /// normal keymap.
    pub fn handle_key_normal(&mut self, code: KeyCode, mods: Mods) -> (e: Effect)
        requires
            old(self).wf(),
        ensures
            final(self).wf(),
            normal_key_handled(*old(self), *final(self), code, mods, e),
    {
        self.status_message = None;
        let none = Mods::none();
        match code {
            KeyCode::Char(c) => {
                if mods == none && '0' <= c && c <= '9' && (c != '0' || self.pending_count.is_some()) {
                    let digit: u32 = (c as u32) - ('0' as u32);
                    let p: u32 = match self.pending_count {
                        Some(n) => n,
                        None => 0,
                    };
                    let m: u32 = if p > u32::MAX / 10 { u32::MAX } else { p * 10 };
                    let next: u32 = if m > u32::MAX - digit { u32::MAX } else { m + digit };
                    self.pending_count = Some(next);
                    return Effect::Idle;
                }
            },
            _ => {},
        }
        if code == KeyCode::Esc && self.pending_count.is_some() {
            self.pending_count = None;
            return Effect::Idle;
        }
        let count = self.pending_count;
        self.pending_count = None;
        match count {
            Some(n) => {
                if code == KeyCode::Char('G') || code == KeyCode::End {
                    let target: usize = if n < 1 { 0 } else { (n - 1) as usize };
                    self.cursor_to(target);
                    return Effect::Idle;
                }
            },
            None => {},
        }
        match lookup(&self.keymap_normal, code, mods) {
            Some(action) => self.dispatch(action),
            None => Effect::Idle,
        }
    }

    /// A key while the search prompt is open: `Esc` cancels, `Enter` runs
    /// the search, `Backspace` deletes, a character is typed.
    pub fn handle_key_search(&mut self, code: KeyCode)
        requires
            old(self).wf(),
        ensures
            final(self).wf(),
            search_key_handled(*old(self), *final(self), code),
    {
        match code {
            KeyCode::Esc => {
                self.search_input = None;
                self.mode = Mode::Normal;
            },
            KeyCode::Enter => {
                let q = match self.search_input.take() {
                    Some(q) => q,
                    None => String::new(),
                };
                self.mode = Mode::Normal;
                self.commit_search(q);
            },
            KeyCode::Backspace => {
                match self.search_input.take() {
                    Some(q) => {
                        let v = crate::text::str_chars(q.as_str());
                        if v.len() > 0 {
                            let mut shorter = String::new();
                            let mut i: usize = 0;
                            while i < v.len() - 1
                                invariant
                                    v@ == q@,
                                    v@.len() > 0,
                                    i <= v@.len() - 1,
                                    shorter@ == q@.take(i as int),
                                decreases v@.len() - 1 - i,
                            {
                                crate::text::push_char(&mut shorter, v[i]);
                                i = i + 1;
                                assert(shorter@ =~= q@.take(i as int));
                            }
                            assert(q@.take(q@.len() - 1) =~= q@.drop_last());
                            self.search_input = Some(shorter);
                        } else {
                            self.search_input = Some(q);
                        }
                    },
                    None => {},
                }
            },
            KeyCode::Char(c) => {
                match self.search_input.take() {
                    Some(q) => {
                        let mut q = q;
                        crate::text::push_char(&mut q, c);
                        self.search_input = Some(q);
                    },
                    None => {},
                }
            },
            _ => {},
        }
    }

    /// Handle one key press in whatever mode the browser is in.
    pub fn handle_key(&mut self, code: KeyCode, mods: Mods) -> (e: Effect)
        requires
            old(self).wf(),
        ensures
            final(self).wf(),
            old(self).mode != Mode::Normal ==> !(e is Quit),
            (old(self).mode == Mode::Toc && old(self).anchors@.len() == 0) ==> *final(self) == (App {
                mode: Mode::Normal,
                ..*old(self)
            }) && e is Idle,
            (old(self).mode == Mode::Toc && old(self).anchors@.len() > 0) ==> keyed_by(
                *old(self),
                *final(self),
                old(self).keymap_toc.get(normalized((code, mods))),
                e,
            ),
            old(self).mode == Mode::Help ==> keyed_by(
                *old(self),
                *final(self),
                old(self).keymap_help.get(normalized((code, mods))),
                e,
            ),
            old(self).mode == Mode::Yank ==> keyed_by(
                App { status_message: None, ..*old(self) },
                *final(self),
                old(self).keymap_yank.get(normalized((code, mods))),
                e,
            ),
            old(self).mode == Mode::Dir ==> keyed_by(
                App { status_message: None, ..*old(self) },
                *final(self),
                old(self).keymap_dir.get(normalized((code, mods))),
                e,
            ),
            old(self).mode == Mode::Normal ==> normal_key_handled(*old(self), *final(self), code, mods, e),
            old(self).mode == Mode::Search ==> e is Idle && search_key_handled(*old(self), *final(self), code),
    {
        match self.mode {
            Mode::Normal => self.handle_key_normal(code, mods),
            Mode::Toc => {
                if self.anchors.len() == 0 {
                    self.mode = Mode::Normal;
                    return Effect::Idle;
                }
                self.keyed(lookup(&self.keymap_toc, code, mods))
            },
            Mode::Help => self.keyed(lookup(&self.keymap_help, code, mods)),
            Mode::Search => {
                self.handle_key_search(code);
                Effect::Idle
            },
            Mode::Yank => {
                self.status_message = None;
                self.keyed(lookup(&self.keymap_yank, code, mods))
            },
            Mode::Dir => {
                self.status_message = None;
                self.keyed(lookup(&self.keymap_dir, code, mods))
            },
        }
    }

    /// Dispatch a looked-up action from an overlay or yank mode, where
    /// quitting is not offered.
    fn keyed(&mut self, action: Option<Action>) -> (e: Effect)
        requires
            old(self).wf(),
        ensures
            final(self).wf(),
            !(e is Quit),
            keyed_by(*old(self), *final(self), action, e),
    {
        match action {
            Some(a) => {
                let e = self.dispatch(a);
                match e {
                    Effect::Quit => Effect::Idle,
                    other => other,
                }
            },
            None => Effect::Idle,
        }
    }
}

/// What an overlay key bound to `action` does: nothing when it is unbound;
/// otherwise the action, with quitting not offered.
pub open spec fn keyed_by(before: App, after: App, action: Option<Action>, e: Effect) -> bool {
    match action {
        None => e is Idle && after == before,
        Some(a) => exists|e0: Effect| #[trigger] acted(before, after, a, e0) && (if e0 is Quit {
            e is Idle
        } else {
            e == e0
        }),
    }
}

/// The key hints the status bar shows in each mode.
pub open spec fn mode_hint(m: Mode) -> Seq<char> {
    match m {
        Mode::Normal => "?:help  /:find  o:toc  d:dir  Tab:link  Enter:open  y:yank  q:quit"@,
        Mode::Toc => "Enter:jump  Esc/q/o:close  j/k:select"@,
        Mode::Help => "Esc/q/?:close"@,
        Mode::Search => "Enter:confirm  Esc:cancel"@,
        Mode::Yank => "y:expand  Y:shrink  Enter:copy  Esc:cancel"@,
        Mode::Dir => "Enter/l/→:open  h/←:up  j/k:select  Esc/q/d:close"@,
    }
}

fn hint(m: Mode) -> (s: &'static str)
    ensures
        s@ == mode_hint(m),
{
    match m {
        Mode::Normal => "?:help  /:find  o:toc  d:dir  Tab:link  Enter:open  y:yank  q:quit",
        Mode::Toc => "Enter:jump  Esc/q/o:close  j/k:select",
        Mode::Help => "Esc/q/?:close",
        Mode::Search => "Enter:confirm  Esc:cancel",
        Mode::Yank => "y:expand  Y:shrink  Enter:copy  Esc:cancel",
        Mode::Dir => "Enter/l/→:open  h/←:up  j/k:select  Esc/q/d:close",
    }
}

/// Lines in an inclusive range, as a count.
pub open spec fn range_lines(start: usize, end: usize) -> nat {
    if end >= start && end - start < usize::MAX {
        (end - start + 1) as nat
    } else {
        0
    }
}

impl App {
    /// The status bar: the search prompt while typing; in yank mode the
    /// selection's rung and size; otherwise a pending message, the search
    /// summary, a pending count, or the title and cursor position; each
    /// followed by the mode's key hints.
    pub open spec fn status_line(self) -> Seq<char> {
        let h = mode_hint(self.mode);
        match self.search_input {
            Some(input) => " /"@ + input@ + "_  "@ + h + " "@,
            None => if self.mode == Mode::Yank && self.yank is Some && self.yank->0.level < self.yank->0.path@.len() {
                let y = self.yank->0;
                let (start, end) = y.path@[y.level as int];
                let n = range_lines(start, end);
                " yank  ["@ + decimal((y.level + 1) as nat) + "/"@ + decimal(y.path@.len()) + "]  "@ + decimal(n)
                    + " line"@ + (if n == 1 { ""@ } else { "s"@ }) + "  "@ + h + " "@
            } else {
                match self.status_message {
                    Some(msg) => " "@ + msg@ + " "@,
                    None => if self.search_query@.len() > 0 {
                        if self.search_matches@.len() == 0 {
                            " /"@ + self.search_query@ + "  (no match)  "@ + h + " "@
                        } else {
                            let cur: nat = match self.search_cursor {
                                Some(c) => (c + 1) as nat,
                                None => 0,
                            };
                            " /"@ + self.search_query@ + "  ["@ + decimal(cur) + "/"@ + decimal(self.search_matches@.len())
                                + "]  n/N:next/prev  "@ + h + " "@
                        }
                    } else {
                        match self.pending_count {
                            Some(n) => " "@ + self.title@ + "  [count: "@ + decimal(n as nat) + "_]  G:jump  Esc:cancel  "@ + h + " "@,
                            None => " "@ + self.title@ + "  ["@ + decimal((self.cursor_line + 1) as nat) + "/"@
                                + decimal(self.lines@.len()) + "]  "@ + h + " "@,
                        }
                    },
                }
            },
        }
    }

    /// The text of the status bar.
    pub fn status_text(&self) -> (r: String)
        requires
            self.wf(),
        ensures
            r@ == self.status_line(),
    {
        let h = hint(self.mode);
        let mut r = String::new();
        match &self.search_input {
            Some(input) => {
                push_str(&mut r, " /");
                push_str(&mut r, input.as_str());
                push_str(&mut r, "_  ");
                push_str(&mut r, h);
                push_str(&mut r, " ");
                assert(r@ =~= self.status_line());
                return r;
            },
            None => {},
        }
        if self.mode == Mode::Yank {
            match &self.yank {
                Some(y) => {
                    let (start, end) = y.current();
                    let n: usize = if end >= start && end - start < usize::MAX { end - start + 1 } else { 0 };
                    let plen = y.path.len();
                    push_str(&mut r, " yank  [");
                    push_decimal(&mut r, y.level + 1);
                    push_str(&mut r, "/");
                    push_decimal(&mut r, plen);
                    push_str(&mut r, "]  ");
                    push_decimal(&mut r, n);
                    push_str(&mut r, " line");
                    push_str(&mut r, if n == 1 { "" } else { "s" });
                    push_str(&mut r, "  ");
                    push_str(&mut r, h);
                    push_str(&mut r, " ");
                    assert(r@ =~= self.status_line());
                    return r;
                },
                None => {},
            }
        }
        match &self.status_message {
            Some(msg) => {
                push_str(&mut r, " ");
                push_str(&mut r, msg.as_str());
                push_str(&mut r, " ");
                assert(r@ =~= self.status_line());
                return r;
            },
            None => {},
        }
        if self.search_query.as_str().unicode_len() > 0 {
            let count = self.search_matches.len();
            push_str(&mut r, " /");
            push_str(&mut r, self.search_query.as_str());
            if count == 0 {
                push_str(&mut r, "  (no match)  ");
            } else {
                let cur: usize = match self.search_cursor {
                    Some(c) => c + 1,
                    None => 0,
                };
                push_str(&mut r, "  [");
                push_decimal(&mut r, cur);
                push_str(&mut r, "/");
                push_decimal(&mut r, count);
                push_str(&mut r, "]  n/N:next/prev  ");
            }
            push_str(&mut r, h);
            push_str(&mut r, " ");
            assert(r@ =~= self.status_line());
            return r;
        }
        push_str(&mut r, " ");
        push_str(&mut r, self.title.as_str());
        match self.pending_count {
            Some(n) => {
                push_str(&mut r, "  [count: ");
                push_decimal(&mut r, n as usize);
                push_str(&mut r, "_]  G:jump  Esc:cancel  ");
            },
            None => {
                let nl = self.lines.len();
                push_str(&mut r, "  [");
                push_decimal(&mut r, self.cursor_line + 1);
                push_str(&mut r, "/");
                push_decimal(&mut r, nl);
                push_str(&mut r, "]  ");
            },
        }
        push_str(&mut r, h);
        push_str(&mut r, " ");
        assert(r@ =~= self.status_line());
        r
    }
}

/// The keybinding table of the help overlay: keys and what they do.
pub open spec fn help_table() -> Seq<(Seq<char>, Seq<char>)> {
    seq![
        ("q / Esc / Ctrl-C"@, "終了"@),
        ("?"@, "このヘルプを開閉"@),
        ("o"@, "目次オーバーレイ"@),
        ("d"@, "ディレクトリブラウザ (h/← で親 / l/→ で開く)"@),
        ("#"@, "行番号の表示 ON/OFF"@),
        ("e"@, "絵文字 shortcode (`:rocket:`) の展開 ON/OFF"@),
        ("/"@, "検索を開始 (Enter で確定 / Esc で取り消し)"@),
        ("n / N"@, "次 / 前のマッチへ"@),
        ("Tab / Shift-Tab"@, "リンクをフォーカス移動"@),
        ("Enter"@, "フォーカス中のリンクを開く"@),
        ("[ / ]"@, "履歴 Back / Forward"@),
        ("Backspace"@, "履歴 Back (別名)"@),
        ("Alt-← / Alt-→"@, "履歴 Back / Forward (端末対応依存)"@),
        ("j / ↓"@, "カーソルを 1 行下へ"@),
        ("k / ↑"@, "カーソルを 1 行上へ"@),
        ("Ctrl-d / Ctrl-u"@, "半画面カーソル移動"@),
        ("Ctrl-f / PgDn"@, "1 画面カーソル移動 (下)"@),
        ("Ctrl-b / PgUp"@, "1 画面カーソル移動 (上)"@),
        ("g / Home"@, "カーソルを先頭へ"@),
        ("G / End"@, "カーソルを末尾へ"@),
        ("<数字> G"@, "指定行へジャンプ (例: 42G で 42 行目)"@),
        ("} / {"@, "次 / 前のセクション (見出し) へ"@),
        ("y"@, "Yank 開始 / 選択を拡張"@),
        ("Y (Shift-y)"@, "Yank の選択を縮小"@),
        ("Enter (Yank 中)"@, "選択範囲をクリップボードへコピー"@),
        ("Esc (Yank 中)"@, "Yank をキャンセル"@),
    ]
}

/// The keybinding table of the help overlay.
pub fn help_rows() -> (v: Vec<(&'static str, &'static str)>)
    ensures
        v@.len() == help_table().len(),
        forall|i: int| 0 <= i < v@.len() ==> (#[trigger] v@[i]).0@ == help_table()[i].0 && v@[i].1@ == help_table()[i].1,
{
    let mut v: Vec<(&'static str, &'static str)> = Vec::new();
    v.push(("q / Esc / Ctrl-C", "終了"));
    v.push(("?", "このヘルプを開閉"));
    v.push(("o", "目次オーバーレイ"));
    v.push(("d", "ディレクトリブラウザ (h/← で親 / l/→ で開く)"));
    v.push(("#", "行番号の表示 ON/OFF"));
    v.push(("e", "絵文字 shortcode (`:rocket:`) の展開 ON/OFF"));
    v.push(("/", "検索を開始 (Enter で確定 / Esc で取り消し)"));
    v.push(("n / N", "次 / 前のマッチへ"));
    v.push(("Tab / Shift-Tab", "リンクをフォーカス移動"));
    v.push(("Enter", "フォーカス中のリンクを開く"));
    v.push(("[ / ]", "履歴 Back / Forward"));
    v.push(("Backspace", "履歴 Back (別名)"));
    v.push(("Alt-← / Alt-→", "履歴 Back / Forward (端末対応依存)"));
    v.push(("j / ↓", "カーソルを 1 行下へ"));
    v.push(("k / ↑", "カーソルを 1 行上へ"));
    v.push(("Ctrl-d / Ctrl-u", "半画面カーソル移動"));
    v.push(("Ctrl-f / PgDn", "1 画面カーソル移動 (下)"));
    v.push(("Ctrl-b / PgUp", "1 画面カーソル移動 (上)"));
    v.push(("g / Home", "カーソルを先頭へ"));
    v.push(("G / End", "カーソルを末尾へ"));
    v.push(("<数字> G", "指定行へジャンプ (例: 42G で 42 行目)"));
    v.push(("} / {", "次 / 前のセクション (見出し) へ"));
    v.push(("y", "Yank 開始 / 選択を拡張"));
    v.push(("Y (Shift-y)", "Yank の選択を縮小"));
    v.push(("Enter (Yank 中)", "選択範囲をクリップボードへコピー"));
    v.push(("Esc (Yank 中)", "Yank をキャンセル"));
    v
}

/// The widest key of the table, in characters.
pub open spec fn widest(t: Seq<(Seq<char>, Seq<char>)>) -> nat
    decreases t.len(),
{
    if t.len() == 0 {
        0
    } else {
        let w = widest(t.drop_last());
        if t.last().0.len() > w {
            t.last().0.len()
        } else {
            w
        }
    }
}

pub open spec fn key_style() -> Style {
    Style { fg: Some(Color::BrightYellow), bold: true, ..plain_style() }
}

/// The help overlay's lines: each key, padded to the widest, in yellow
/// bold, then three spaces and its description.
pub open spec fn help_line(t: Seq<(Seq<char>, Seq<char>)>, i: int) -> Seq<(Seq<char>, Style)> {
    let k = t[i].0;
    seq![
        (k + repeat_char(' ', (widest(t) - k.len()) as nat), key_style()),
        ("   "@, plain_style()),
        (t[i].1, plain_style()),
    ]
}

/// The lines the help overlay shows.
pub fn help_lines() -> (r: Vec<StyledLine>)
    ensures
        r@.len() == help_table().len(),
        forall|i: int| 0 <= i < r@.len() ==> spans_view((#[trigger] r@[i]).spans@) == help_line(help_table(), i),
{
    let rows = help_rows();
    let ghost t = help_table();
    let mut w: usize = 0;
    let mut i: usize = 0;
    while i < rows.len()
        invariant
            rows@.len() == t.len(),
            forall|k: int| 0 <= k < rows@.len() ==> (#[trigger] rows@[k]).0@ == t[k].0 && rows@[k].1@ == t[k].1,
            i <= rows@.len(),
            w as nat == widest(t.take(i as int)),
        decreases rows@.len() - i,
    {
        assert(t.take(i as int + 1).drop_last() =~= t.take(i as int));
        assert(t.take(i as int + 1).last() == t[i as int]);
        let n = rows[i].0.unicode_len();
        if n > w {
            w = n;
        }
        i = i + 1;
    }
    assert(t.take(t.len() as int) =~= t);
    let mut r: Vec<StyledLine> = Vec::new();
    let mut j: usize = 0;
    while j < rows.len()
        invariant
            rows@.len() == t.len(),
            forall|k: int| 0 <= k < rows@.len() ==> (#[trigger] rows@[k]).0@ == t[k].0 && rows@[k].1@ == t[k].1,
            w as nat == widest(t),
            j <= rows@.len(),
            r@.len() == j,
            forall|k: int| 0 <= k < j ==> spans_view((#[trigger] r@[k]).spans@) == help_line(t, k),
        decreases rows@.len() - j,
    {
        let (k, d) = rows[j];
        proof {
            lemma_widest_bound(t, j as int);
        }
        let n = k.unicode_len();
        let mut key = k.to_string();
        let pad = repeat(' ', w - n);
        push_str(&mut key, pad.as_str());
        let mut line = StyledLine::new();
        line.push_span(StyledSpan { text: key, style: Style::new().fg(Color::BrightYellow).bold() });
        line.push_span(StyledSpan::plain("   "));
        line.push_span(StyledSpan::plain(d));
        assert(spans_view(line.spans@) =~= help_line(t, j as int));
        r.push(line);
        j = j + 1;
    }
    r
}

proof fn lemma_widest_bound(t: Seq<(Seq<char>, Seq<char>)>, i: int)
    requires
        0 <= i < t.len(),
    ensures
        t[i].0.len() <= widest(t),
    decreases t.len(),
{
    if i < t.len() - 1 {
        lemma_widest_bound(t.drop_last(), i);
    }
}

/// The table-of-contents overlay's entries: each heading's tree prefix,
/// then its text.
pub fn toc_items(anchors: &Vec<Anchor>) -> (r: Vec<String>)
    ensures
        r@.len() == anchors@.len(),
        forall|i: int| 0 <= i < r@.len() ==> (#[trigger] r@[i])@ == crate::toc::toc_prefix(anchors@, i) + anchors@[i].text@,
{
    let prefixes = crate::toc::toc_tree_prefixes(anchors);
    let mut r: Vec<String> = Vec::new();
    let mut i: usize = 0;
    while i < anchors.len()
        invariant
            prefixes@.len() == anchors@.len(),
            forall|k: int| 0 <= k < prefixes@.len() ==> (#[trigger] prefixes@[k])@ == crate::toc::toc_prefix(anchors@, k),
            i <= anchors@.len(),
            r@.len() == i,
            forall|k: int| 0 <= k < i ==> (#[trigger] r@[k])@ == crate::toc::toc_prefix(anchors@, k) + anchors@[k].text@,
        decreases anchors@.len() - i,
    {
        let mut item = prefixes[i].clone();
        push_str(&mut item, anchors[i].text.as_str());
        r.push(item);
        i = i + 1;
    }
    r
}

impl App {
    /// The title of the directory overlay: the focused directory, or a
    /// generic word before one is known.
    pub fn dir_title(&self) -> (r: String)
        ensures
            r@ == match self.dir_path {
                Some(p) => " "@ + p@ + " "@,
                None => " Directory "@,
            },
    {
        match &self.dir_path {
            Some(p) => concat3(" ", p.as_str(), " "),
            None => " Directory ".to_string(),
        }
    }
}

impl App {
    /// The source of the first mermaid block that holds the cursor line.
    pub fn mermaid_at_cursor(&self) -> (r: Option<&str>)
        ensures
            r matches Some(src) ==> exists|k: int| 0 <= k < self.mermaid_blocks@.len()
                && (#[trigger] self.mermaid_blocks@[k]).start <= self.cursor_line <= self.mermaid_blocks@[k].end
                && self.mermaid_blocks@[k].source@ == src@
                && forall|m: int| 0 <= m < k ==> !((#[trigger] self.mermaid_blocks@[m]).start <= self.cursor_line <= self.mermaid_blocks@[m].end),
            r is None ==> forall|k: int| 0 <= k < self.mermaid_blocks@.len()
                ==> !((#[trigger] self.mermaid_blocks@[k]).start <= self.cursor_line <= self.mermaid_blocks@[k].end),
    {
        let mut k: usize = 0;
        while k < self.mermaid_blocks.len()
            invariant
                k <= self.mermaid_blocks@.len(),
                forall|m: int| 0 <= m < k ==> !((#[trigger] self.mermaid_blocks@[m]).start <= self.cursor_line <= self.mermaid_blocks@[m].end),
            decreases self.mermaid_blocks@.len() - k,
        {
            let b = &self.mermaid_blocks[k];
            if b.start <= self.cursor_line && self.cursor_line <= b.end {
                return Some(b.source.as_str());
            }
            k = k + 1;
        }
        None
    }
}

pub open spec fn pow10(k: nat) -> nat
    decreases k,
{
    if k == 0 {
        1
    } else {
        10 * pow10((k - 1) as nat)
    }
}

proof fn lemma_digits_le(x: nat, k: nat)
    requires
        k >= 1,
        x < pow10(k),
    ensures
        num_digits(x) <= k,
    decreases k,
{
    if x >= 10 {
        assert(pow10(1) == 10) by {
            reveal_with_fuel(pow10, 2);
        }
        if k == 1 {
            assert(false);
        }
        let p = pow10((k - 1) as nat);
        assert(x / 10 < p) by (nonlinear_arith)
            requires
                x < 10 * p,
        ;
        lemma_digits_le(x / 10, (k - 1) as nat);
    }
}

proof fn lemma_usize_digits(x: usize)
    ensures
        num_digits(x as nat) <= 20,
{
    assert(pow10(20) == 100000000000000000000nat) by {
        reveal_with_fuel(pow10, 21);
    }
    lemma_digits_le(x as nat, 20);
}

/// Decimal digits of `n`.
fn digits(n: usize) -> (d: usize)
    ensures
        d == num_digits(n as nat),
        d <= 20,
{
    proof {
        lemma_usize_digits(n);
    }
    let mut d: usize = 1;
    let mut m: usize = n;
    while m >= 10
        invariant
            1 <= d,
            num_digits(n as nat) == d - 1 + num_digits(m as nat),
            num_digits(n as nat) <= 20,
        decreases m,
    {
        m = m / 10;
        d = d + 1;
    }
    d
}

} // verus!
