use markdown_browser::ansi::{bg_code, fg_code, style_prefix, write_lines};
use markdown_browser::cli::{input_source, run, Cli, ColorChoice, Command, InputSource, PreviewConfig, RunPlan};
use markdown_browser::dirview::is_renderable_local_file;
use markdown_browser::source::{find_readme, is_url, join_path, url_path_is_renderable, Source};
use markdown_browser::style::{Color, Style, StyledLine, StyledSpan};

#[test]
fn color_choice_resolution() {
    assert_eq!(ColorChoice::resolve(true, false), ColorChoice::Always);
    assert_eq!(ColorChoice::resolve(true, true), ColorChoice::Always);
    assert_eq!(ColorChoice::resolve(false, true), ColorChoice::Never);
    assert_eq!(ColorChoice::resolve(false, false), ColorChoice::Auto);
    assert!(ColorChoice::Auto.use_color(true));
    assert!(!ColorChoice::Auto.use_color(false));
    assert!(ColorChoice::Always.use_color(false));
    assert!(!ColorChoice::Never.use_color(true));
}

#[test]
fn run_plans_render_and_browse() {
    let cli = Cli {
        command: Some(Command::Render { file: Some("a.md".to_string()), color: false, no_color: true }),
        file: None,
        no_emoji: true,
        no_mermaid: false,
        mermaid_port: None,
    };
    match run(cli) {
        RunPlan::Render { file, color, emoji } => {
            assert_eq!(file.as_deref(), Some("a.md"));
            assert_eq!(color, ColorChoice::Never);
            assert!(!emoji);
        }
        _ => panic!("expected render"),
    }
    let cli = Cli { command: None, file: Some("doc".to_string()), no_emoji: false, no_mermaid: true, mermaid_port: Some(8080) };
    match run(cli) {
        RunPlan::Browse { file, emoji, preview } => {
            assert_eq!(file.as_deref(), Some("doc"));
            assert!(emoji);
            assert_eq!(preview, PreviewConfig { enabled: false, port: Some(8080) });
        }
        _ => panic!("expected browse"),
    }
}

#[test]
fn input_source_choice() {
    assert_eq!(input_source(None), InputSource::Stdin);
    assert_eq!(input_source(Some("-")), InputSource::Stdin);
    assert_eq!(input_source(Some("https://x/y.md")), InputSource::Url("https://x/y.md".to_string()));
    assert_eq!(input_source(Some("notes.md")), InputSource::File("notes.md".to_string()));
}

#[test]
fn sources_display_and_parse() {
    assert_eq!(Source::Dir("docs".to_string()).display(), "docs/");
    assert_eq!(Source::File("a.md".to_string()).display(), "a.md");
    assert_eq!(Source::Url("http://h/x".to_string()).display(), "http://h/x");
    assert_eq!(Source::from_arg("http://h/x"), Source::Url("http://h/x".to_string()));
    assert_eq!(Source::from_arg("httpx://h"), Source::File("httpx://h".to_string()));
    assert_eq!(Source::File("a".to_string()).as_file(), Some("a"));
    assert_eq!(Source::Dir("a".to_string()).as_file(), None);
    assert_eq!(Source::Dir("d".to_string()).as_dir(), Some("d"));
    assert!(is_url("https://a"));
    assert!(!is_url("ftp://a"));
    assert!(!is_url("http:/a"));
}

#[test]
fn readme_priority() {
    let files = vec!["index.md".to_string(), "readme.md".to_string(), "README.markdown".to_string()];
    assert_eq!(find_readme("proj", &files), Some("proj/README.markdown".to_string()));
    let files = vec!["index.md".to_string()];
    assert_eq!(find_readme("proj/", &files), Some("proj/index.md".to_string()));
    assert_eq!(find_readme("proj", &vec!["notes.md".to_string()]), None);
}

#[test]
fn path_joining() {
    assert_eq!(join_path("a", "b.md"), "a/b.md");
    assert_eq!(join_path("a/", "b.md"), "a/b.md");
    assert_eq!(join_path("", "b.md"), "b.md");
    assert_eq!(join_path("a", "/abs.md"), "/abs.md");
}

#[test]
fn url_paths_that_render() {
    assert!(url_path_is_renderable("/docs/guide.md"));
    assert!(url_path_is_renderable("/docs/GUIDE.MARKDOWN"));
    assert!(url_path_is_renderable("/LICENSE"));
    assert!(url_path_is_renderable("/notes.txt"));
    assert!(!url_path_is_renderable("/docs/"));
    assert!(!url_path_is_renderable(""));
    assert!(!url_path_is_renderable("/index.html"));
    assert!(!url_path_is_renderable("/a.md/b.png"));
}

#[test]
fn local_files_that_render() {
    assert!(is_renderable_local_file("docs/a.md"));
    assert!(is_renderable_local_file("docs/A.TXT"));
    assert!(is_renderable_local_file("LICENSE"));
    assert!(is_renderable_local_file("dir/Readme"));
    assert!(!is_renderable_local_file("bin/tool"));
    assert!(!is_renderable_local_file("pic.png"));
}

#[test]
fn sgr_codes() {
    assert_eq!(fg_code(Color::BrightCyan), "96");
    assert_eq!(bg_code(Color::BrightBlack), "100");
    assert_eq!(fg_code(Color::Rgb(1, 2, 3)), "38;2;1;2;3");
    assert_eq!(bg_code(Color::Rgb(72, 72, 92)), "48;2;72;72;92");
    assert_eq!(style_prefix(Style::new().bold().fg(Color::BrightCyan)), "\x1b[1;96m");
    assert_eq!(style_prefix(Style::new().italic().dim().bg(Color::Red)), "\x1b[2;3;41m");
    assert_eq!(style_prefix(Style::new()), "\x1b[m");
}

#[test]
fn write_lines_colors_or_strips() {
    let line = StyledLine {
        spans: vec![
            StyledSpan { text: "a".to_string(), style: Style::new().bold() },
            StyledSpan { text: "b".to_string(), style: Style::new() },
        ],
    };
    let mut out = String::from(">");
    write_lines(&mut out, &[line.clone()], true);
    assert_eq!(out, ">\x1b[1ma\x1b[0mb\n");
    let mut plain = String::new();
    write_lines(&mut plain, &[line.clone(), line], false);
    assert_eq!(plain, "ab\nab\n");
}
