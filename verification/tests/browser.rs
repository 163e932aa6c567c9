use markdown_browser::anchor::Anchor;
use markdown_browser::browser::{help_lines, toc_items, wrapped_rows_for_width, App, Effect, LoadPurpose, Mode};
use markdown_browser::chord::{KeyCode, Mods};
use markdown_browser::dirview::{build_dir_view, entry_name, DirEntry, DirEntryKind, RawEntry};
use markdown_browser::keymap::Action;
use markdown_browser::links::{classify_link, LinkTarget};
use markdown_browser::render::{parse_and_render, BlockKind, BlockRange};
use markdown_browser::search::{apply_match_highlight, find_matches, MatchPos};
use markdown_browser::source::Source;
use markdown_browser::style::{Style, StyledLine, StyledSpan};
use markdown_browser::toc::{is_last_at_depth, toc_tree_prefixes};
use markdown_browser::wrap::wrap_line;
use markdown_browser::yank::{build_yank_path, push_strict_superset, YankSelection};

fn anchor(level: u8, line: usize) -> Anchor {
    Anchor { level, text: format!("h{line}"), slug: format!("h{line}"), line }
}

fn texts(line: &StyledLine) -> Vec<String> {
    line.spans.iter().map(|s| s.text.clone()).collect()
}

const DOC: &str = "# One\n\nalpha text\n\n## Two\n\nbeta more text\n\n## Three\n\ngamma\n";

fn app() -> App {
    let doc = parse_and_render(DOC, true);
    let mut a = App::new(doc, "doc.md".to_string(), Source::File("dir/doc.md".to_string()), DOC.to_string(), true);
    a.set_viewport(5, 40);
    a
}

#[test]
fn strict_superset_only() {
    let mut p = Vec::new();
    push_strict_superset(&mut p, (3, 3));
    push_strict_superset(&mut p, (3, 3));
    push_strict_superset(&mut p, (2, 5));
    push_strict_superset(&mut p, (4, 9));
    push_strict_superset(&mut p, (2, 5));
    push_strict_superset(&mut p, (0, 5));
    assert_eq!(p, vec![(3, 3), (2, 5), (0, 5)]);
}

#[test]
fn yank_ladder_climbs_blocks_then_sections() {
    let blocks = vec![
        BlockRange { start: 4, end: 6, kind: BlockKind::Leaf },
        BlockRange { start: 5, end: 5, kind: BlockKind::Leaf },
        BlockRange { start: 3, end: 8, kind: BlockKind::Container },
        BlockRange { start: 2, end: 10, kind: BlockKind::Container },
        BlockRange { start: 10, end: 12, kind: BlockKind::Leaf },
    ];
    let anchors = vec![anchor(1, 0), anchor(2, 3), anchor(2, 9)];
    let path = build_yank_path(5, 20, &blocks, &anchors);
    assert_eq!(path, vec![(5, 5), (4, 6), (3, 8), (2, 10), (0, 20)]);
    let sel = YankSelection { path, level: 2 };
    assert_eq!(sel.current(), (3, 8));
    // The cursor is clamped to the document.
    assert_eq!(build_yank_path(50, 7, &vec![], &vec![]), vec![(7, 7), (0, 7)]);
}

#[test]
fn toc_prefixes_draw_a_tree() {
    let anchors = vec![anchor(1, 0), anchor(2, 1), anchor(2, 2), anchor(1, 3)];
    assert_eq!(
        toc_tree_prefixes(&anchors),
        vec!["├── ".to_string(), "│   ├── ".to_string(), "│   └── ".to_string(), "└── ".to_string()]
    );
    assert!(!is_last_at_depth(&anchors, 0, 1));
    assert!(is_last_at_depth(&anchors, 2, 2));
    assert!(is_last_at_depth(&anchors, 3, 1));
    let items = toc_items(&anchors);
    assert_eq!(items[1], "│   ├── h1");
}

#[test]
fn rows_for_widths() {
    assert_eq!(wrapped_rows_for_width(0, 10), 1);
    assert_eq!(wrapped_rows_for_width(10, 10), 1);
    assert_eq!(wrapped_rows_for_width(11, 10), 2);
    assert_eq!(wrapped_rows_for_width(5, 0), 5);
}

fn raw(name: &str, path: &str, dir: bool) -> RawEntry {
    RawEntry { name: name.to_string(), path: path.to_string(), is_dir: dir, is_file: !dir }
}

#[test]
fn dir_view_shows_parent_siblings_and_children() {
    let siblings = vec![
        raw("notes.md", "/p/notes.md", false),
        raw("cur", "/p/cur", true),
        raw(".hidden", "/p/.hidden", true),
        raw("README.md", "/p/README.md", false),
        raw("img.png", "/p/img.png", false),
    ];
    let children = vec![raw("a.md", "/p/cur/a.md", false), raw("sub", "/p/cur/sub", true)];
    let rows = build_dir_view("/p/cur", Ok(siblings), Ok(children)).unwrap();
    let shown: Vec<&str> = rows.iter().map(|r| r.display.as_str()).collect();
    assert_eq!(
        shown,
        vec![
            "📁 ../",
            "📁 p/",
            "├── 📁 cur/  ◀",
            "│   ├── 📁 sub/",
            "│   └── 📝 a.md",
            "├── 📝 README.md",
            "└── 📝 notes.md",
        ]
    );
    assert_eq!(rows[0].kind, DirEntryKind::Parent);
    assert_eq!(rows[0].path, "/p");
    assert_eq!(rows[3].path, "/p/cur/sub");
    assert!(build_dir_view("/p/cur", Err("denied".to_string()), Ok(vec![])).is_err());
    let root = build_dir_view("/", Err("unused".to_string()), Err("denied".to_string())).unwrap();
    assert_eq!(root.len(), 1);
    assert_eq!(root[0].display, "📁 /  ◀");
}

#[test]
fn entry_names_mark_directories() {
    let d = DirEntry { name: "src".to_string(), kind: DirEntryKind::Dir, path: "x/src".to_string() };
    assert_eq!(entry_name(&d), "src/");
    let f = DirEntry { name: "a.md".to_string(), kind: DirEntryKind::File, path: "x/a.md".to_string() };
    assert_eq!(entry_name(&f), "a.md");
}

#[test]
fn links_are_classified() {
    let here = Source::File("docs/a.md".to_string());
    assert_eq!(classify_link("#intro", &here), LinkTarget::SameAnchor("intro".to_string()));
    assert_eq!(classify_link("mailto:x@y.z", &here), LinkTarget::Url("mailto:x@y.z".to_string()));
    assert_eq!(classify_link("other.md", &here), LinkTarget::LocalFile("docs/other.md".to_string()));
    assert_eq!(
        classify_link("other.md#sec", &here),
        LinkTarget::LocalAnchor("docs/other.md".to_string(), "sec".to_string())
    );
    assert_eq!(
        classify_link("https://example.com/x.md#top", &here),
        LinkTarget::RemoteAnchor("https://example.com/x.md".to_string(), "top".to_string())
    );
    assert_eq!(
        classify_link("https://example.com/page.html", &here),
        LinkTarget::Url("https://example.com/page.html".to_string())
    );
    let remote = Source::Url("https://h.example/docs/a.md".to_string());
    assert_eq!(
        classify_link("b.md", &remote),
        LinkTarget::RemoteFile("https://h.example/docs/b.md".to_string())
    );
    assert_eq!(classify_link("b.md", &Source::File("a.md".to_string())), LinkTarget::LocalFile("b.md".to_string()));
    assert_eq!(classify_link("b.md", &Source::Dir("d".to_string())), LinkTarget::LocalFile("d/b.md".to_string()));
}

#[test]
fn search_finds_case_insensitive_non_overlapping_hits() {
    let line = StyledLine {
        spans: vec![
            StyledSpan { text: "AbAb".to_string(), style: Style::new() },
            StyledSpan { text: "ab".to_string(), style: Style::new() },
        ],
    };
    let lines = vec![StyledLine { spans: vec![] }, line];
    let m = find_matches(&lines, "ab");
    assert_eq!(
        m,
        vec![
            MatchPos { line: 1, char_start: 0, char_end: 2 },
            MatchPos { line: 1, char_start: 2, char_end: 4 },
            MatchPos { line: 1, char_start: 4, char_end: 6 },
        ]
    );
    assert_eq!(find_matches(&lines, "aa").len(), 0);
    assert_eq!(find_matches(&lines, "").len(), 0);
    let over = vec![StyledLine { spans: vec![StyledSpan { text: "aaaa".to_string(), style: Style::new() }] }];
    assert_eq!(find_matches(&over, "aa").len(), 2);
}

#[test]
fn highlight_splits_spans_and_keeps_text() {
    let mut line = StyledLine {
        spans: vec![
            StyledSpan { text: "hello".to_string(), style: Style::new() },
            StyledSpan { text: "world".to_string(), style: Style::new().bold() },
        ],
    };
    apply_match_highlight(&mut line, 3, 7, Style::new().reversed());
    assert_eq!(texts(&line), vec!["hel", "lo", "wo", "rld"]);
    assert_eq!(line.spans[1].style, Style::new().reversed());
    assert_eq!(line.spans[2].style, Style::new().bold().reversed());
    assert_eq!(line.spans[3].style, Style::new().bold());
    let before = line.clone();
    apply_match_highlight(&mut line, 4, 4, Style::new().reversed());
    assert_eq!(line, before);
}

#[test]
fn wrapping_cuts_at_the_body_width() {
    let line = StyledLine {
        spans: vec![
            StyledSpan { text: "abc".to_string(), style: Style::new() },
            StyledSpan { text: "def".to_string(), style: Style::new().bold() },
        ],
    };
    let rows = wrap_line(&line, 4);
    assert_eq!(rows.len(), 2);
    assert_eq!(texts(&rows[0]), vec!["abc", "d"]);
    assert_eq!(texts(&rows[1]), vec!["ef"]);
    assert_eq!(rows[1].spans[0].style, Style::new().bold());
    let empty = wrap_line(&StyledLine { spans: vec![] }, 10);
    assert_eq!(empty.len(), 1);
    assert!(empty[0].spans.is_empty());
}

#[test]
fn cursor_moves_and_counts() {
    let mut a = app();
    let last = a.lines.len() - 1;
    assert_eq!(a.cursor_line, 0);
    a.dispatch(Action::CursorBottom);
    assert_eq!(a.cursor_line, last);
    a.dispatch(Action::CursorTop);
    assert_eq!(a.cursor_line, 0);
    a.dispatch(Action::CursorDown);
    assert_eq!(a.cursor_line, 1);
    a.dispatch(Action::CursorUp);
    a.dispatch(Action::CursorUp);
    assert_eq!(a.cursor_line, 0);
    // A count before G jumps to that line.
    assert!(matches!(a.handle_key(KeyCode::Char('3'), Mods::none()), Effect::Idle));
    assert_eq!(a.pending_count, Some(3));
    a.handle_key(KeyCode::Char('G'), Mods::none());
    assert_eq!(a.cursor_line, 2);
    assert_eq!(a.pending_count, None);
    // Esc with a count pending drops the count instead of quitting.
    a.handle_key(KeyCode::Char('4'), Mods::none());
    assert!(matches!(a.handle_key(KeyCode::Esc, Mods::none()), Effect::Idle));
    assert_eq!(a.pending_count, None);
    // A lone 0 starts no count.
    a.handle_key(KeyCode::Char('0'), Mods::none());
    assert_eq!(a.pending_count, None);
    assert!(matches!(a.handle_key(KeyCode::Char('q'), Mods::none()), Effect::Quit));
}

#[test]
fn sections_and_toc() {
    let mut a = app();
    let lines: Vec<usize> = a.anchors.iter().map(|x| x.line).collect();
    assert_eq!(lines.len(), 3);
    a.dispatch(Action::SectionNext);
    assert_eq!(a.cursor_line, lines[1]);
    a.dispatch(Action::SectionNext);
    assert_eq!(a.cursor_line, lines[2]);
    a.dispatch(Action::SectionPrev);
    assert_eq!(a.cursor_line, lines[1]);
    a.dispatch(Action::OpenToc);
    assert_eq!(a.mode, Mode::Toc);
    assert_eq!(a.toc_selection, 1);
    a.dispatch(Action::TocSelectNext);
    a.dispatch(Action::TocSelectNext);
    assert_eq!(a.toc_selection, 2);
    a.dispatch(Action::TocConfirm);
    assert_eq!(a.mode, Mode::Normal);
    assert_eq!(a.cursor_line, lines[2]);
    assert_eq!(a.history.len(), 2);
    assert_eq!(a.history_cursor, 1);
}

#[test]
fn search_then_step() {
    let mut a = app();
    a.commit_search("TEXT".to_string());
    assert_eq!(a.search_matches.len(), 2);
    assert_eq!(a.search_cursor, Some(0));
    a.search_step(1);
    assert_eq!(a.search_cursor, Some(1));
    a.search_step(1);
    assert_eq!(a.search_cursor, Some(0));
    a.search_step(-1);
    assert_eq!(a.search_cursor, Some(1));
    assert!(a.status_text().contains("[2/2]"));
    a.commit_search("zzz".to_string());
    assert_eq!(a.status_message.as_deref(), Some("/zzz: no match"));
}

#[test]
fn search_prompt_edits() {
    let mut a = app();
    a.dispatch(Action::StartSearch);
    assert_eq!(a.mode, Mode::Search);
    for c in ['g', 'a', 'x'] {
        a.handle_key(KeyCode::Char(c), Mods::none());
    }
    a.handle_key(KeyCode::Backspace, Mods::none());
    assert_eq!(a.search_input.as_deref(), Some("ga"));
    assert!(a.status_text().starts_with(" /ga_  "));
    a.handle_key(KeyCode::Enter, Mods::none());
    assert_eq!(a.mode, Mode::Normal);
    assert_eq!(a.search_query, "ga");
    assert_eq!(a.search_matches.len(), 1);
}

#[test]
fn history_navigation_through_effects() {
    let mut a = app();
    a.dispatch(Action::CursorDown);
    let req = match a.navigate(Source::File("dir/other.md".to_string()), None) {
        Effect::Load(r) => r,
        _ => panic!("expected a load"),
    };
    assert_eq!(req.purpose, LoadPurpose::Navigate);
    a.finish_load(req, Ok("# Other\n\nbody\n".to_string()));
    assert_eq!(a.history.len(), 2);
    assert_eq!(a.history_cursor, 1);
    assert_eq!(a.title, "dir/other.md");
    assert_eq!(a.history[0].cursor, 1);
    let back = match a.go_back() {
        Effect::Load(r) => r,
        _ => panic!("expected a load"),
    };
    assert_eq!(back.purpose, LoadPurpose::Travel(0));
    a.finish_load(back, Ok(DOC.to_string()));
    assert_eq!(a.history_cursor, 0);
    assert_eq!(a.cursor_line, 1);
    assert!(matches!(a.go_back(), Effect::Idle));
    assert_eq!(a.status_message.as_deref(), Some("no further history (back)"));
    let fwd = a.go_forward();
    let r = match fwd {
        Effect::Load(r) => r,
        _ => panic!("expected a load"),
    };
    a.finish_load(r, Err("gone".to_string()));
    assert_eq!(a.history_cursor, 0);
    assert_eq!(a.status_message.as_deref(), Some("open dir/other.md: gone"));
}

#[test]
fn yank_mode_round_trip() {
    let mut a = app();
    a.dispatch(Action::EnterYank);
    assert_eq!(a.mode, Mode::Yank);
    let y = a.yank.clone().unwrap();
    assert_eq!(y.path[0], (0, 0));
    assert_eq!(*y.path.last().unwrap(), (0, a.lines.len() - 1));
    a.dispatch(Action::YankExpand);
    assert_eq!(a.yank.as_ref().unwrap().level, 1);
    a.dispatch(Action::YankShrink);
    a.dispatch(Action::YankShrink);
    assert_eq!(a.yank.as_ref().unwrap().level, 0);
    match a.dispatch(Action::YankCopy) {
        Effect::Copy { text, lines } => {
            assert_eq!(lines, 1);
            assert_eq!(text, a.lines[0].spans.iter().map(|s| s.text.as_str()).collect::<String>());
        }
        _ => panic!("expected a copy"),
    }
    assert_eq!(a.mode, Mode::Normal);
    a.finish_copy(1, Ok(()));
    assert_eq!(a.status_message.as_deref(), Some("yanked 1 lines"));
}

#[test]
fn status_line_default_and_count() {
    let mut a = app();
    let n = a.lines.len();
    assert_eq!(
        a.status_text(),
        format!(" doc.md  [1/{n}]  ?:help  /:find  o:toc  d:dir  Tab:link  Enter:open  y:yank  q:quit ")
    );
    a.handle_key(KeyCode::Char('4'), Mods::none());
    a.handle_key(KeyCode::Char('2'), Mods::none());
    assert!(a.status_text().starts_with(" doc.md  [count: 42_]  G:jump  Esc:cancel  "));
}

#[test]
fn display_adds_gutter_and_cursor_padding() {
    let a = app();
    let shown = a.display_lines();
    assert_eq!(shown.len(), a.lines.len());
    let first = texts(&shown[0]);
    let width = format!("{}", a.lines.len()).len();
    assert_eq!(first[0], format!("{:>width$} ", 1, width = width));
    let total: usize = shown[0].spans.iter().map(|s| s.text.chars().count()).sum();
    assert_eq!(total, 40);
}

#[test]
fn directory_overlay_lifecycle() {
    let mut a = app();
    let (dir, focus) = match a.dispatch(Action::OpenDir) {
        Effect::ListDir { dir, focus } => (dir, focus),
        _ => panic!("expected a listing"),
    };
    assert_eq!(dir, "dir");
    assert_eq!(focus, "dir/doc.md");
    let rows = build_dir_view(
        "/abs/dir",
        Ok(vec![raw("dir", "/abs/dir", true)]),
        Ok(vec![raw("doc.md", "/abs/dir/doc.md", false), raw("z.md", "/abs/dir/z.md", false)]),
    );
    a.finish_dir("/abs/dir".to_string(), rows, &focus);
    assert_eq!(a.mode, Mode::Dir);
    assert_eq!(a.dir_selection, 3);
    a.dispatch(Action::DirSelectNext);
    assert_eq!(a.dir_selection, 4);
    match a.dispatch(Action::DirActivate) {
        Effect::Load(r) => assert!(matches!(r.source, Source::File(ref p) if p == "/abs/dir/z.md")),
        _ => panic!("expected a load"),
    }
    assert_eq!(a.mode, Mode::Normal);
    assert_eq!(a.dir_title(), " Directory ");
}

#[test]
fn help_lines_align_keys() {
    let lines = help_lines();
    assert_eq!(lines.len(), 26);
    let w = lines[0].spans[0].text.chars().count();
    assert!(lines.iter().all(|l| l.spans[0].text.chars().count() == w));
    assert_eq!(lines[1].spans[1].text, "   ");
}

#[test]
fn new_browser_starts_clean() {
    let a = app();
    assert_eq!(a.mode, Mode::Normal);
    assert_eq!(a.toc_selection, 0);
    assert!(a.focused_link.is_none());
    assert!(a.search_matches.is_empty());
    assert!(a.yank.is_none());
    assert_eq!(a.history.len(), 1);
    assert_eq!(a.history[0].source, Source::File("dir/doc.md".to_string()));
}

#[test]
fn help_overlay_ignores_unbound_keys() {
    let mut a = app();
    a.dispatch(Action::OpenHelp);
    assert_eq!(a.mode, Mode::Help);
    let cursor = a.cursor_line;
    assert!(matches!(a.handle_key(KeyCode::Char('z'), Mods::none()), Effect::Idle));
    assert_eq!(a.mode, Mode::Help);
    assert_eq!(a.cursor_line, cursor);
    assert!(matches!(a.handle_key(KeyCode::Esc, Mods::none()), Effect::Idle));
    assert_eq!(a.mode, Mode::Normal);
}

#[test]
fn load_with_anchor_lands_on_its_heading() {
    let mut a = app();
    let req = match a.navigate(Source::File("dir/other.md".to_string()), Some("two".to_string())) {
        Effect::Load(r) => r,
        _ => panic!("expected a load"),
    };
    let e = a.finish_load(req, Ok("# Other\n\nbody\n\n## Two\n\ntext\n".to_string()));
    assert!(matches!(e, Effect::Idle));
    assert_eq!(a.cursor_line, 4);
    assert_eq!(a.title, "dir/other.md");
    assert!(a.status_message.is_none());
}

#[test]
fn load_with_missing_anchor_starts_at_the_top() {
    let mut a = app();
    let req = match a.navigate(Source::File("dir/other.md".to_string()), Some("nowhere".to_string())) {
        Effect::Load(r) => r,
        _ => panic!("expected a load"),
    };
    a.finish_load(req, Ok("# Other\n\nbody\n\n## Two\n\ntext\n".to_string()));
    assert_eq!(a.cursor_line, 0);
    assert_eq!(a.scroll, 0);
}

#[test]
fn following_a_same_document_link_jumps_to_the_heading() {
    let input = "# Top\n\nsee [below](#end)\n\nfiller\n\n## End\n\ndone\n";
    let doc = parse_and_render(input, false);
    let mut a = App::new(doc, "t.md".to_string(), Source::File("t.md".to_string()), input.to_string(), false);
    a.set_viewport(5, 40);
    a.dispatch(Action::LinkNext);
    assert_eq!(a.focused_link, Some(0));
    assert!(matches!(a.dispatch(Action::ActivateLink), Effect::Idle));
    assert_eq!(a.cursor_line, 6);
    assert_eq!(a.history_cursor, 1);
}

#[test]
fn backspace_on_an_empty_prompt_keeps_it_empty() {
    let mut a = app();
    a.dispatch(Action::StartSearch);
    a.handle_key(KeyCode::Backspace, Mods::none());
    assert_eq!(a.search_input.as_deref(), Some(""));
    assert_eq!(a.mode, Mode::Search);
}

#[test]
fn navigation_records_both_views_and_drops_forward_history() {
    let mut a = app();
    a.cursor_line = 4;
    a.scroll = 1;
    let req = match a.navigate(Source::File("dir/other.md".to_string()), None) {
        Effect::Load(r) => r,
        _ => panic!("expected a load"),
    };
    a.finish_load(req, Ok("# Other\n\nbody\n".to_string()));
    assert_eq!(a.history.len(), 2);
    assert_eq!(a.history_cursor, 1);
    assert_eq!(a.history[0].source, Source::File("dir/doc.md".to_string()));
    assert_eq!((a.history[0].cursor, a.history[0].scroll), (4, 1));
    assert_eq!(a.history[1].source, Source::File("dir/other.md".to_string()));
    assert_eq!((a.history[1].cursor, a.history[1].scroll), (a.cursor_line, a.scroll));
    // Going back and navigating elsewhere drops the entry ahead.
    let back = match a.go_back() {
        Effect::Load(r) => r,
        _ => panic!("expected a load"),
    };
    a.finish_load(back, Ok(DOC.to_string()));
    assert_eq!(a.history_cursor, 0);
    assert_eq!(a.cursor_line, 4);
    let req = match a.navigate(Source::File("dir/third.md".to_string()), None) {
        Effect::Load(r) => r,
        _ => panic!("expected a load"),
    };
    a.finish_load(req, Ok("# Third\n".to_string()));
    assert_eq!(a.history.len(), 2);
    assert_eq!(a.history[1].source, Source::File("dir/third.md".to_string()));
}

#[test]
fn failed_history_move_changes_nothing_but_the_status() {
    let mut a = app();
    let req = match a.navigate(Source::File("dir/other.md".to_string()), None) {
        Effect::Load(r) => r,
        _ => panic!("expected a load"),
    };
    a.finish_load(req, Ok("# Other\n\nbody\n\nmore\n".to_string()));
    a.cursor_line = 2;
    let back = match a.go_back() {
        Effect::Load(r) => r,
        _ => panic!("expected a load"),
    };
    let e = a.finish_load(back, Err("gone".to_string()));
    assert!(matches!(e, Effect::Idle));
    assert_eq!(a.history_cursor, 1);
    assert_eq!(a.history.len(), 2);
    assert_eq!(a.cursor_line, 2);
    assert_eq!(a.title, "dir/other.md");
    assert_eq!(a.status_message.as_deref(), Some("open dir/doc.md: gone"));
}

#[test]
fn dir_view_marks_the_current_directory_given_with_a_trailing_slash() {
    let siblings = vec![raw("cur", "/p/cur", true), raw("z.md", "/p/z.md", false)];
    let rows = build_dir_view("/p/cur/", Ok(siblings), Ok(vec![raw("a.md", "/p/cur/a.md", false)])).unwrap();
    let shown: Vec<&str> = rows.iter().map(|r| r.display.as_str()).collect();
    assert_eq!(shown, vec!["📁 ../", "📁 p/", "├── 📁 cur/  ◀", "│   └── 📝 a.md", "└── 📝 z.md"]);
}
