use markdown_browser::chord::{normalize_chord, parse_chord, parse_key_code, KeyCode, Mods};
use markdown_browser::keymap::{
    default_dir, default_help, default_normal, default_toc, default_yank, load, lookup, Action, ConfigRead,
    Keymap, LoadedKeymaps,
};

fn none() -> Mods {
    Mods::none()
}

#[test]
fn parse_simple_keys() {
    assert_eq!(parse_chord("j").unwrap(), (KeyCode::Char('j'), none()));
    assert_eq!(parse_chord("G").unwrap(), (KeyCode::Char('G'), none()));
    assert_eq!(parse_chord("?").unwrap(), (KeyCode::Char('?'), none()));
}

#[test]
fn parse_modifiers() {
    assert_eq!(parse_chord("ctrl+d").unwrap(), (KeyCode::Char('d'), Mods::ctrl()));
    assert_eq!(parse_chord("alt+left").unwrap(), (KeyCode::Left, Mods::alt()));
    assert_eq!(
        parse_chord("Ctrl+Alt+x").unwrap(),
        (KeyCode::Char('x'), Mods::ctrl().union(Mods::alt()))
    );
}

#[test]
fn parse_named_keys() {
    assert_eq!(parse_chord("esc").unwrap(), (KeyCode::Esc, none()));
    assert_eq!(parse_chord("enter").unwrap(), (KeyCode::Enter, none()));
    assert_eq!(parse_chord("tab").unwrap(), (KeyCode::Tab, none()));
    assert_eq!(parse_chord("backtab").unwrap(), (KeyCode::BackTab, none()));
    assert_eq!(parse_chord("space").unwrap(), (KeyCode::Char(' '), none()));
    assert_eq!(parse_chord("f5").unwrap(), (KeyCode::F(5), none()));
}

#[test]
fn shift_normalization() {
    // shift+tab → BackTab
    assert_eq!(parse_chord("shift+tab").unwrap(), (KeyCode::BackTab, none()));
    // shift+g → G
    assert_eq!(parse_chord("shift+g").unwrap(), (KeyCode::Char('G'), none()));
    // shift dropped from named keys.
    assert_eq!(parse_chord("shift+left").unwrap(), (KeyCode::Left, none()));
}

#[test]
fn rejects_garbage() {
    assert!(parse_chord("").is_err());
    assert!(parse_chord("ctrl+").is_err());
    assert!(parse_chord("unknown+x").is_err());
    assert!(parse_chord("f99").is_err());
}

#[test]
fn action_names_round_trip_through_defaults() {
    for map in [default_normal(), default_yank(), default_toc(), default_help(), default_dir()] {
        for action in map.actions() {
            let name = action.name();
            assert_eq!(
                Action::from_name(name),
                Some(action),
                "action {action:?} → {name:?} did not round-trip"
            );
        }
    }
}

#[test]
fn chord_errors_say_why() {
    assert_eq!(parse_chord("").unwrap_err(), "`` is not a valid chord");
    assert_eq!(parse_chord("ctrl+").unwrap_err(), "`ctrl+` is not a valid chord");
    assert_eq!(parse_chord("Hyper+x").unwrap_err(), "unknown modifier `hyper`");
    assert_eq!(parse_chord("f99").unwrap_err(), "unknown key `f99`");
    assert_eq!(parse_chord("ctrl+nope").unwrap_err(), "unknown key `nope`");
}

#[test]
fn function_keys_and_aliases() {
    assert_eq!(parse_key_code("F12").unwrap(), KeyCode::F(12));
    assert_eq!(parse_key_code("f+3").unwrap(), KeyCode::F(3));
    assert_eq!(parse_key_code("f05").unwrap(), KeyCode::F(5));
    assert!(parse_key_code("f0").is_err());
    assert!(parse_key_code("f13").is_err());
    assert_eq!(parse_key_code("f").unwrap(), KeyCode::Char('f'));
    assert_eq!(parse_key_code("PgDn").unwrap(), KeyCode::PageDown);
    assert_eq!(parse_key_code("ret").unwrap(), KeyCode::Enter);
    assert_eq!(parse_key_code("Del").unwrap(), KeyCode::Delete);
    assert_eq!(parse_key_code("ins").unwrap(), KeyCode::Insert);
    assert_eq!(parse_key_code("é").unwrap(), KeyCode::Char('é'));
    assert_eq!(parse_chord("opt+meta+option+q").unwrap(), (KeyCode::Char('q'), Mods::alt()));
    assert_eq!(parse_chord("shift+G").unwrap(), (KeyCode::Char('G'), none()));
}

#[test]
fn lookup_ignores_shift() {
    let m = default_normal();
    let shift = Mods { shift: true, ..Mods::none() };
    assert_eq!(lookup(&m, KeyCode::Char('G'), shift), Some(Action::CursorBottom));
    assert_eq!(lookup(&m, KeyCode::BackTab, shift), Some(Action::LinkPrev));
    assert_eq!(lookup(&m, KeyCode::Char('c'), Mods::ctrl()), Some(Action::Quit));
    assert_eq!(lookup(&m, KeyCode::Char('z'), none()), None);
    assert_eq!(normalize_chord(KeyCode::Up, shift), (KeyCode::Up, none()));
}

#[test]
fn later_binding_wins() {
    let mut m = Keymap::new();
    m.insert((KeyCode::Char('x'), none()), Action::Quit);
    m.insert((KeyCode::Char('x'), none()), Action::OpenHelp);
    assert_eq!(m.get_binding(&(KeyCode::Char('x'), none())), Some(Action::OpenHelp));
    assert_eq!(m.actions(), vec![Action::OpenHelp]);
}

#[test]
fn defaults_bind_the_documented_keys() {
    let y = default_yank();
    assert_eq!(lookup(&y, KeyCode::Char('Y'), none()), Some(Action::YankShrink));
    assert_eq!(lookup(&default_help(), KeyCode::Char('?'), none()), Some(Action::HelpClose));
    assert_eq!(lookup(&default_toc(), KeyCode::Enter, none()), Some(Action::TocConfirm));
    assert_eq!(lookup(&default_dir(), KeyCode::Char('h'), none()), Some(Action::DirGoUp));
    assert_eq!(lookup(&default_normal(), KeyCode::Left, Mods::alt()), Some(Action::HistoryBack));
}

fn table(mode: &str, rows: &[(&str, &str)]) -> (String, Vec<(String, String)>) {
    (mode.to_string(), rows.iter().map(|(k, a)| (k.to_string(), a.to_string())).collect())
}

#[test]
fn config_overrides_and_warns() {
    let tables = vec![
        table("normal", &[("ctrl+q", "quit"), ("x", "no_such"), ("bogus+y", "quit")]),
        table("weird", &[("a", "quit")]),
        table("toc", &[("l", "toc_confirm")]),
    ];
    let loaded: LoadedKeymaps = load(Some("/cfg/config.toml".to_string()), ConfigRead::Tables(tables));
    assert_eq!(loaded.config_path.as_deref(), Some("/cfg/config.toml"));
    assert_eq!(lookup(&loaded.normal, KeyCode::Char('q'), Mods::ctrl()), Some(Action::Quit));
    assert_eq!(lookup(&loaded.toc, KeyCode::Char('l'), none()), Some(Action::TocConfirm));
    assert_eq!(
        loaded.warnings,
        vec![
            "[normal] `x`: unknown action `no_such`".to_string(),
            "[normal] `bogus+y`: unknown modifier `bogus`".to_string(),
            "unknown mode `weird`".to_string(),
        ]
    );
}

#[test]
fn unreadable_or_malformed_config_keeps_defaults() {
    let l = load(Some("p".to_string()), ConfigRead::Unreadable("denied".to_string()));
    assert_eq!(l.warnings, vec!["read config: denied".to_string()]);
    assert_eq!(lookup(&l.normal, KeyCode::Char('q'), none()), Some(Action::Quit));
    let l = load(Some("p".to_string()), ConfigRead::Malformed("bad toml".to_string()));
    assert_eq!(l.warnings, vec!["parse config: bad toml".to_string()]);
    let l = load(None, ConfigRead::Missing);
    assert!(l.warnings.is_empty());
    assert!(l.config_path.is_none());
}
