//! Keyboard bindings for the browser. Per-mode keymaps map chords to
//! [`Action`]s; the browser's dispatcher is the only place that turns an
//! `Action` into an effect. Defaults are built in code; a user config file
//! can override or extend them.

use vstd::prelude::*;

use crate::chord::{
    chord_eq, chord_of, no_mods, normalize_chord, normalized, parse_chord, Chord, KeyCode, Mods,
};
use crate::preview::str_eq;
use crate::text::{push_str, string_views};

verus! {

/// One unit of user intent. Adding a keybinding is (1) extend this enum,
/// (2) wire one arm in the dispatcher, (3) bind it in a default map.
#[derive(Debug, Clone, Copy, PartialEq, Eq, Hash, Structural)]
pub enum Action {
    Quit,

    // Normal-mode movement and document interaction.
    OpenToc,
    OpenHelp,
    OpenDir,
    ToggleLineNumbers,
    ToggleShortcodes,
    StartSearch,
    SearchNext,
    SearchPrev,
    LinkNext,
    LinkPrev,
    ActivateLink,
    HistoryBack,
    HistoryForward,
    CursorDown,
    CursorUp,
    CursorHalfPageDown,
    CursorHalfPageUp,
    CursorPageDown,
    CursorPageUp,
    CursorTop,
    CursorBottom,
    SectionNext,
    SectionPrev,
    EnterYank,

    // Yank mode.
    YankCancel,
    YankExpand,
    YankShrink,
    YankCopy,

    // TOC overlay.
    TocClose,
    TocSelectNext,
    TocSelectPrev,
    TocSelectTop,
    TocSelectBottom,
    TocConfirm,

    // Help overlay.
    HelpClose,

    // Directory browser overlay.
    DirClose,
    DirSelectNext,
    DirSelectPrev,
    DirSelectTop,
    DirSelectBottom,
    DirActivate,
    DirGoUp,
}

/// The config-file (snake_case) name of an action.
pub open spec fn action_name(a: Action) -> Seq<char> {
    match a {
        Action::Quit => "quit"@,
        Action::OpenToc => "open_toc"@,
        Action::OpenHelp => "open_help"@,
        Action::OpenDir => "open_dir"@,
        Action::ToggleLineNumbers => "toggle_line_numbers"@,
        Action::ToggleShortcodes => "toggle_shortcodes"@,
        Action::StartSearch => "start_search"@,
        Action::SearchNext => "search_next"@,
        Action::SearchPrev => "search_prev"@,
        Action::LinkNext => "link_next"@,
        Action::LinkPrev => "link_prev"@,
        Action::ActivateLink => "activate_link"@,
        Action::HistoryBack => "history_back"@,
        Action::HistoryForward => "history_forward"@,
        Action::CursorDown => "cursor_down"@,
        Action::CursorUp => "cursor_up"@,
        Action::CursorHalfPageDown => "cursor_half_page_down"@,
        Action::CursorHalfPageUp => "cursor_half_page_up"@,
        Action::CursorPageDown => "cursor_page_down"@,
        Action::CursorPageUp => "cursor_page_up"@,
        Action::CursorTop => "cursor_top"@,
        Action::CursorBottom => "cursor_bottom"@,
        Action::SectionNext => "section_next"@,
        Action::SectionPrev => "section_prev"@,
        Action::EnterYank => "enter_yank"@,
        Action::YankCancel => "yank_cancel"@,
        Action::YankExpand => "yank_expand"@,
        Action::YankShrink => "yank_shrink"@,
        Action::YankCopy => "yank_copy"@,
        Action::TocClose => "toc_close"@,
        Action::TocSelectNext => "toc_select_next"@,
        Action::TocSelectPrev => "toc_select_prev"@,
        Action::TocSelectTop => "toc_select_top"@,
        Action::TocSelectBottom => "toc_select_bottom"@,
        Action::TocConfirm => "toc_confirm"@,
        Action::HelpClose => "help_close"@,
        Action::DirClose => "dir_close"@,
        Action::DirSelectNext => "dir_select_next"@,
        Action::DirSelectPrev => "dir_select_prev"@,
        Action::DirSelectTop => "dir_select_top"@,
        Action::DirSelectBottom => "dir_select_bottom"@,
        Action::DirActivate => "dir_activate"@,
        Action::DirGoUp => "dir_go_up"@,
    }
}

/// The action that `name` names, if any.
pub open spec fn action_named(name: Seq<char>) -> Option<Action> {
    if name == "quit"@ {
        Some(Action::Quit)
    } else if name == "open_toc"@ {
        Some(Action::OpenToc)
    } else if name == "open_help"@ {
        Some(Action::OpenHelp)
    } else if name == "open_dir"@ {
        Some(Action::OpenDir)
    } else if name == "toggle_line_numbers"@ {
        Some(Action::ToggleLineNumbers)
    } else if name == "toggle_shortcodes"@ {
        Some(Action::ToggleShortcodes)
    } else if name == "start_search"@ {
        Some(Action::StartSearch)
    } else if name == "search_next"@ {
        Some(Action::SearchNext)
    } else if name == "search_prev"@ {
        Some(Action::SearchPrev)
    } else if name == "link_next"@ {
        Some(Action::LinkNext)
    } else if name == "link_prev"@ {
        Some(Action::LinkPrev)
    } else if name == "activate_link"@ {
        Some(Action::ActivateLink)
    } else if name == "history_back"@ {
        Some(Action::HistoryBack)
    } else if name == "history_forward"@ {
        Some(Action::HistoryForward)
    } else if name == "cursor_down"@ {
        Some(Action::CursorDown)
    } else if name == "cursor_up"@ {
        Some(Action::CursorUp)
    } else if name == "cursor_half_page_down"@ {
        Some(Action::CursorHalfPageDown)
    } else if name == "cursor_half_page_up"@ {
        Some(Action::CursorHalfPageUp)
    } else if name == "cursor_page_down"@ {
        Some(Action::CursorPageDown)
    } else if name == "cursor_page_up"@ {
        Some(Action::CursorPageUp)
    } else if name == "cursor_top"@ {
        Some(Action::CursorTop)
    } else if name == "cursor_bottom"@ {
        Some(Action::CursorBottom)
    } else if name == "section_next"@ {
        Some(Action::SectionNext)
    } else if name == "section_prev"@ {
        Some(Action::SectionPrev)
    } else if name == "enter_yank"@ {
        Some(Action::EnterYank)
    } else if name == "yank_cancel"@ {
        Some(Action::YankCancel)
    } else if name == "yank_expand"@ {
        Some(Action::YankExpand)
    } else if name == "yank_shrink"@ {
        Some(Action::YankShrink)
    } else if name == "yank_copy"@ {
        Some(Action::YankCopy)
    } else if name == "toc_close"@ {
        Some(Action::TocClose)
    } else if name == "toc_select_next"@ {
        Some(Action::TocSelectNext)
    } else if name == "toc_select_prev"@ {
        Some(Action::TocSelectPrev)
    } else if name == "toc_select_top"@ {
        Some(Action::TocSelectTop)
    } else if name == "toc_select_bottom"@ {
        Some(Action::TocSelectBottom)
    } else if name == "toc_confirm"@ {
        Some(Action::TocConfirm)
    } else if name == "help_close"@ {
        Some(Action::HelpClose)
    } else if name == "dir_close"@ {
        Some(Action::DirClose)
    } else if name == "dir_select_next"@ {
        Some(Action::DirSelectNext)
    } else if name == "dir_select_prev"@ {
        Some(Action::DirSelectPrev)
    } else if name == "dir_select_top"@ {
        Some(Action::DirSelectTop)
    } else if name == "dir_select_bottom"@ {
        Some(Action::DirSelectBottom)
    } else if name == "dir_activate"@ {
        Some(Action::DirActivate)
    } else if name == "dir_go_up"@ {
        Some(Action::DirGoUp)
    } else {
        None
    }
}

impl Action {
    /// The config-file name of this action.
    pub fn name(self) -> (s: &'static str)
        ensures
            s@ == action_name(self),
    {
        match self {
            Action::Quit => "quit",
            Action::OpenToc => "open_toc",
            Action::OpenHelp => "open_help",
            Action::OpenDir => "open_dir",
            Action::ToggleLineNumbers => "toggle_line_numbers",
            Action::ToggleShortcodes => "toggle_shortcodes",
            Action::StartSearch => "start_search",
            Action::SearchNext => "search_next",
            Action::SearchPrev => "search_prev",
            Action::LinkNext => "link_next",
            Action::LinkPrev => "link_prev",
            Action::ActivateLink => "activate_link",
            Action::HistoryBack => "history_back",
            Action::HistoryForward => "history_forward",
            Action::CursorDown => "cursor_down",
            Action::CursorUp => "cursor_up",
            Action::CursorHalfPageDown => "cursor_half_page_down",
            Action::CursorHalfPageUp => "cursor_half_page_up",
            Action::CursorPageDown => "cursor_page_down",
            Action::CursorPageUp => "cursor_page_up",
            Action::CursorTop => "cursor_top",
            Action::CursorBottom => "cursor_bottom",
            Action::SectionNext => "section_next",
            Action::SectionPrev => "section_prev",
            Action::EnterYank => "enter_yank",
            Action::YankCancel => "yank_cancel",
            Action::YankExpand => "yank_expand",
            Action::YankShrink => "yank_shrink",
            Action::YankCopy => "yank_copy",
            Action::TocClose => "toc_close",
            Action::TocSelectNext => "toc_select_next",
            Action::TocSelectPrev => "toc_select_prev",
            Action::TocSelectTop => "toc_select_top",
            Action::TocSelectBottom => "toc_select_bottom",
            Action::TocConfirm => "toc_confirm",
            Action::HelpClose => "help_close",
            Action::DirClose => "dir_close",
            Action::DirSelectNext => "dir_select_next",
            Action::DirSelectPrev => "dir_select_prev",
            Action::DirSelectTop => "dir_select_top",
            Action::DirSelectBottom => "dir_select_bottom",
            Action::DirActivate => "dir_activate",
            Action::DirGoUp => "dir_go_up",
        }
    }

    /// Resolve a config-file action name (snake_case) to a variant.
    pub fn from_name(name: &str) -> (r: Option<Action>)
        ensures
            r == action_named(name@),
    {
        if str_eq(name, "quit") {
            return Some(Action::Quit);
        }
        if str_eq(name, "open_toc") {
            return Some(Action::OpenToc);
        }
        if str_eq(name, "open_help") {
            return Some(Action::OpenHelp);
        }
        if str_eq(name, "open_dir") {
            return Some(Action::OpenDir);
        }
        if str_eq(name, "toggle_line_numbers") {
            return Some(Action::ToggleLineNumbers);
        }
        if str_eq(name, "toggle_shortcodes") {
            return Some(Action::ToggleShortcodes);
        }
        if str_eq(name, "start_search") {
            return Some(Action::StartSearch);
        }
        if str_eq(name, "search_next") {
            return Some(Action::SearchNext);
        }
        if str_eq(name, "search_prev") {
            return Some(Action::SearchPrev);
        }
        if str_eq(name, "link_next") {
            return Some(Action::LinkNext);
        }
        if str_eq(name, "link_prev") {
            return Some(Action::LinkPrev);
        }
        if str_eq(name, "activate_link") {
            return Some(Action::ActivateLink);
        }
        if str_eq(name, "history_back") {
            return Some(Action::HistoryBack);
        }
        if str_eq(name, "history_forward") {
            return Some(Action::HistoryForward);
        }
        if str_eq(name, "cursor_down") {
            return Some(Action::CursorDown);
        }
        if str_eq(name, "cursor_up") {
            return Some(Action::CursorUp);
        }
        if str_eq(name, "cursor_half_page_down") {
            return Some(Action::CursorHalfPageDown);
        }
        if str_eq(name, "cursor_half_page_up") {
            return Some(Action::CursorHalfPageUp);
        }
        if str_eq(name, "cursor_page_down") {
            return Some(Action::CursorPageDown);
        }
        if str_eq(name, "cursor_page_up") {
            return Some(Action::CursorPageUp);
        }
        if str_eq(name, "cursor_top") {
            return Some(Action::CursorTop);
        }
        if str_eq(name, "cursor_bottom") {
            return Some(Action::CursorBottom);
        }
        if str_eq(name, "section_next") {
            return Some(Action::SectionNext);
        }
        if str_eq(name, "section_prev") {
            return Some(Action::SectionPrev);
        }
        if str_eq(name, "enter_yank") {
            return Some(Action::EnterYank);
        }
        if str_eq(name, "yank_cancel") {
            return Some(Action::YankCancel);
        }
        if str_eq(name, "yank_expand") {
            return Some(Action::YankExpand);
        }
        if str_eq(name, "yank_shrink") {
            return Some(Action::YankShrink);
        }
        if str_eq(name, "yank_copy") {
            return Some(Action::YankCopy);
        }
        if str_eq(name, "toc_close") {
            return Some(Action::TocClose);
        }
        if str_eq(name, "toc_select_next") {
            return Some(Action::TocSelectNext);
        }
        if str_eq(name, "toc_select_prev") {
            return Some(Action::TocSelectPrev);
        }
        if str_eq(name, "toc_select_top") {
            return Some(Action::TocSelectTop);
        }
        if str_eq(name, "toc_select_bottom") {
            return Some(Action::TocSelectBottom);
        }
        if str_eq(name, "toc_confirm") {
            return Some(Action::TocConfirm);
        }
        if str_eq(name, "help_close") {
            return Some(Action::HelpClose);
        }
        if str_eq(name, "dir_close") {
            return Some(Action::DirClose);
        }
        if str_eq(name, "dir_select_next") {
            return Some(Action::DirSelectNext);
        }
        if str_eq(name, "dir_select_prev") {
            return Some(Action::DirSelectPrev);
        }
        if str_eq(name, "dir_select_top") {
            return Some(Action::DirSelectTop);
        }
        if str_eq(name, "dir_select_bottom") {
            return Some(Action::DirSelectBottom);
        }
        if str_eq(name, "dir_activate") {
            return Some(Action::DirActivate);
        }
        if str_eq(name, "dir_go_up") {
            return Some(Action::DirGoUp);
        }
        None
    }
}

/// Lengths and a few characters of every action name: enough to tell any
/// two names apart.
proof fn lemma_name_facts()
    ensures
        "quit"@.len() == 4 && "quit"@[0] == 'q' && "quit"@[2] == 'i' && "quit"@[3] == 't',
        "open_toc"@.len() == 8 && "open_toc"@[0] == 'o' && "open_toc"@[6] == 'o' && "open_toc"@[7] == 'c',
        "open_help"@.len() == 9 && "open_help"@[0] == 'o' && "open_help"@[7] == 'l' && "open_help"@[8] == 'p',
        "open_dir"@.len() == 8 && "open_dir"@[0] == 'o' && "open_dir"@[6] == 'i' && "open_dir"@[7] == 'r',
        "toggle_line_numbers"@.len() == 19 && "toggle_line_numbers"@[0] == 't' && "toggle_line_numbers"@[17] == 'r' && "toggle_line_numbers"@[18] == 's',
        "toggle_shortcodes"@.len() == 17 && "toggle_shortcodes"@[0] == 't' && "toggle_shortcodes"@[15] == 'e' && "toggle_shortcodes"@[16] == 's',
        "start_search"@.len() == 12 && "start_search"@[0] == 's' && "start_search"@[10] == 'c' && "start_search"@[11] == 'h',
        "search_next"@.len() == 11 && "search_next"@[0] == 's' && "search_next"@[9] == 'x' && "search_next"@[10] == 't',
        "search_prev"@.len() == 11 && "search_prev"@[0] == 's' && "search_prev"@[9] == 'e' && "search_prev"@[10] == 'v',
        "link_next"@.len() == 9 && "link_next"@[0] == 'l' && "link_next"@[7] == 'x' && "link_next"@[8] == 't',
        "link_prev"@.len() == 9 && "link_prev"@[0] == 'l' && "link_prev"@[7] == 'e' && "link_prev"@[8] == 'v',
        "activate_link"@.len() == 13 && "activate_link"@[0] == 'a' && "activate_link"@[11] == 'n' && "activate_link"@[12] == 'k',
        "history_back"@.len() == 12 && "history_back"@[0] == 'h' && "history_back"@[10] == 'c' && "history_back"@[11] == 'k',
        "history_forward"@.len() == 15 && "history_forward"@[0] == 'h' && "history_forward"@[13] == 'r' && "history_forward"@[14] == 'd',
        "cursor_down"@.len() == 11 && "cursor_down"@[0] == 'c' && "cursor_down"@[9] == 'w' && "cursor_down"@[10] == 'n',
        "cursor_up"@.len() == 9 && "cursor_up"@[0] == 'c' && "cursor_up"@[7] == 'u' && "cursor_up"@[8] == 'p',
        "cursor_half_page_down"@.len() == 21 && "cursor_half_page_down"@[0] == 'c' && "cursor_half_page_down"@[19] == 'w' && "cursor_half_page_down"@[20] == 'n',
        "cursor_half_page_up"@.len() == 19 && "cursor_half_page_up"@[0] == 'c' && "cursor_half_page_up"@[17] == 'u' && "cursor_half_page_up"@[18] == 'p',
        "cursor_page_down"@.len() == 16 && "cursor_page_down"@[0] == 'c' && "cursor_page_down"@[14] == 'w' && "cursor_page_down"@[15] == 'n',
        "cursor_page_up"@.len() == 14 && "cursor_page_up"@[0] == 'c' && "cursor_page_up"@[12] == 'u' && "cursor_page_up"@[13] == 'p',
        "cursor_top"@.len() == 10 && "cursor_top"@[0] == 'c' && "cursor_top"@[8] == 'o' && "cursor_top"@[9] == 'p',
        "cursor_bottom"@.len() == 13 && "cursor_bottom"@[0] == 'c' && "cursor_bottom"@[11] == 'o' && "cursor_bottom"@[12] == 'm',
        "section_next"@.len() == 12 && "section_next"@[0] == 's' && "section_next"@[10] == 'x' && "section_next"@[11] == 't',
        "section_prev"@.len() == 12 && "section_prev"@[0] == 's' && "section_prev"@[10] == 'e' && "section_prev"@[11] == 'v',
        "enter_yank"@.len() == 10 && "enter_yank"@[0] == 'e' && "enter_yank"@[8] == 'n' && "enter_yank"@[9] == 'k',
        "yank_cancel"@.len() == 11 && "yank_cancel"@[0] == 'y' && "yank_cancel"@[9] == 'e' && "yank_cancel"@[10] == 'l',
        "yank_expand"@.len() == 11 && "yank_expand"@[0] == 'y' && "yank_expand"@[9] == 'n' && "yank_expand"@[10] == 'd',
        "yank_shrink"@.len() == 11 && "yank_shrink"@[0] == 'y' && "yank_shrink"@[9] == 'n' && "yank_shrink"@[10] == 'k',
        "yank_copy"@.len() == 9 && "yank_copy"@[0] == 'y' && "yank_copy"@[7] == 'p' && "yank_copy"@[8] == 'y',
        "toc_close"@.len() == 9 && "toc_close"@[0] == 't' && "toc_close"@[7] == 's' && "toc_close"@[8] == 'e',
        "toc_select_next"@.len() == 15 && "toc_select_next"@[0] == 't' && "toc_select_next"@[13] == 'x' && "toc_select_next"@[14] == 't',
        "toc_select_prev"@.len() == 15 && "toc_select_prev"@[0] == 't' && "toc_select_prev"@[13] == 'e' && "toc_select_prev"@[14] == 'v',
        "toc_select_top"@.len() == 14 && "toc_select_top"@[0] == 't' && "toc_select_top"@[12] == 'o' && "toc_select_top"@[13] == 'p',
        "toc_select_bottom"@.len() == 17 && "toc_select_bottom"@[0] == 't' && "toc_select_bottom"@[15] == 'o' && "toc_select_bottom"@[16] == 'm',
        "toc_confirm"@.len() == 11 && "toc_confirm"@[0] == 't' && "toc_confirm"@[9] == 'r' && "toc_confirm"@[10] == 'm',
        "help_close"@.len() == 10 && "help_close"@[0] == 'h' && "help_close"@[8] == 's' && "help_close"@[9] == 'e',
        "dir_close"@.len() == 9 && "dir_close"@[0] == 'd' && "dir_close"@[7] == 's' && "dir_close"@[8] == 'e',
        "dir_select_next"@.len() == 15 && "dir_select_next"@[0] == 'd' && "dir_select_next"@[13] == 'x' && "dir_select_next"@[14] == 't',
        "dir_select_prev"@.len() == 15 && "dir_select_prev"@[0] == 'd' && "dir_select_prev"@[13] == 'e' && "dir_select_prev"@[14] == 'v',
        "dir_select_top"@.len() == 14 && "dir_select_top"@[0] == 'd' && "dir_select_top"@[12] == 'o' && "dir_select_top"@[13] == 'p',
        "dir_select_bottom"@.len() == 17 && "dir_select_bottom"@[0] == 'd' && "dir_select_bottom"@[15] == 'o' && "dir_select_bottom"@[16] == 'm',
        "dir_activate"@.len() == 12 && "dir_activate"@[0] == 'd' && "dir_activate"@[10] == 't' && "dir_activate"@[11] == 'e',
        "dir_go_up"@.len() == 9 && "dir_go_up"@[0] == 'd' && "dir_go_up"@[7] == 'u' && "dir_go_up"@[8] == 'p',
{
    reveal_strlit("quit");
    reveal_strlit("open_toc");
    reveal_strlit("open_help");
    reveal_strlit("open_dir");
    reveal_strlit("toggle_line_numbers");
    reveal_strlit("toggle_shortcodes");
    reveal_strlit("start_search");
    reveal_strlit("search_next");
    reveal_strlit("search_prev");
    reveal_strlit("link_next");
    reveal_strlit("link_prev");
    reveal_strlit("activate_link");
    reveal_strlit("history_back");
    reveal_strlit("history_forward");
    reveal_strlit("cursor_down");
    reveal_strlit("cursor_up");
    reveal_strlit("cursor_half_page_down");
    reveal_strlit("cursor_half_page_up");
    reveal_strlit("cursor_page_down");
    reveal_strlit("cursor_page_up");
    reveal_strlit("cursor_top");
    reveal_strlit("cursor_bottom");
    reveal_strlit("section_next");
    reveal_strlit("section_prev");
    reveal_strlit("enter_yank");
    reveal_strlit("yank_cancel");
    reveal_strlit("yank_expand");
    reveal_strlit("yank_shrink");
    reveal_strlit("yank_copy");
    reveal_strlit("toc_close");
    reveal_strlit("toc_select_next");
    reveal_strlit("toc_select_prev");
    reveal_strlit("toc_select_top");
    reveal_strlit("toc_select_bottom");
    reveal_strlit("toc_confirm");
    reveal_strlit("help_close");
    reveal_strlit("dir_close");
    reveal_strlit("dir_select_next");
    reveal_strlit("dir_select_prev");
    reveal_strlit("dir_select_top");
    reveal_strlit("dir_select_bottom");
    reveal_strlit("dir_activate");
    reveal_strlit("dir_go_up");
}

/// Every action's name resolves back to that action, so a user can rebind
/// anything by name.
pub proof fn lemma_name_round_trip(a: Action)
    ensures
        action_named(action_name(a)) == Some(a),
{
    lemma_name_facts();
}

/// Whatever a name resolves to carries that name.
pub proof fn lemma_named_has_name(name: Seq<char>)
    ensures
        action_named(name) matches Some(a) ==> action_name(a) == name,
{
}

/// The binding that a log of bindings holds for `c`: the last one made.
pub open spec fn binding_in(log: Seq<(Chord, Action)>, c: Chord) -> Option<Action>
    decreases log.len(),
{
    if log.len() == 0 {
        None
    } else if log.last().0 == c {
        Some(log.last().1)
    } else {
        binding_in(log.drop_last(), c)
    }
}

/// Chords bound to actions for one mode of the browser. A later binding of
/// a chord replaces an earlier one.
pub struct Keymap {
    log: Vec<(Chord, Action)>,
}

impl Keymap {
    /// The bindings in the order they were made.
    pub closed spec fn bindings(self) -> Seq<(Chord, Action)> {
        self.log@
    }

    /// The action `c` is bound to.
    pub open spec fn get(self, c: Chord) -> Option<Action> {
        binding_in(self.bindings(), c)
    }

    /// A keymap with no bindings.
    pub fn new() -> (m: Keymap)
        ensures
            m.bindings() == Seq::<(Chord, Action)>::empty(),
    {
        Keymap { log: Vec::new() }
    }

    /// Bind `c` to `a`, replacing any earlier binding of `c`.
    pub fn insert(&mut self, c: Chord, a: Action)
        ensures
            final(self).bindings() == old(self).bindings().push((c, a)),
    {
        self.log.push((c, a));
    }

    /// Some chord is bound to `a`.
    pub open spec fn reaches(self, a: Action) -> bool {
        exists|c: Chord| self.get(c) == Some(a)
    }

    /// The action bound to `c`, if any.
    pub fn get_binding(&self, c: &Chord) -> (r: Option<Action>)
        ensures
            r == self.get(*c),
    {
        let mut i: usize = self.log.len();
        assert(self.log@.take(i as int) =~= self.log@);
        while i > 0
            invariant
                i <= self.log@.len(),
                binding_in(self.log@, *c) == binding_in(self.log@.take(i as int), *c),
            decreases i,
        {
            let ghost pre = self.log@.take(i as int);
            assert(pre.drop_last() =~= self.log@.take(i as int - 1));
            if chord_eq(&self.log[i - 1].0, c) {
                return Some(self.log[i - 1].1);
            }
            i = i - 1;
        }
        None
    }

    /// The actions this keymap can reach: one per bound chord.
    pub fn actions(&self) -> (r: Vec<Action>)
        ensures
            forall|k: int| 0 <= k < r@.len() ==> self.reaches(#[trigger] r@[k]),
            forall|c: Chord| #[trigger] self.get(c) is Some ==> r@.contains(self.get(c)->0),
            r@.len() <= self.bindings().len(),
    {
        let mut r: Vec<Action> = Vec::new();
        let n = self.log.len();
        let mut i: usize = 0;
        while i < n
            invariant
                n == self.log@.len(),
                i <= n,
                r@.len() <= i,
                forall|k: int| 0 <= k < r@.len() ==> self.reaches(#[trigger] r@[k]),
                forall|j: int| 0 <= j < i && is_last_logged(self.log@, j) ==> r@.contains(#[trigger] self.get(self.log@[j].0)->0),
            decreases n - i,
        {
            let c = self.log[i].0;
            let mut later = false;
            let mut k: usize = i + 1;
            while k < n
                invariant
                    n == self.log@.len(),
                    i < k <= n,
                    c == self.log@[i as int].0,
                    !later ==> forall|m: int| i < m < k ==> self.log@[m].0 != c,
                    later ==> !is_last_logged(self.log@, i as int),
                decreases n - k,
            {
                if chord_eq(&self.log[k].0, &c) {
                    later = true;
                }
                k = k + 1;
            }
            let ghost old_r = r@;
            if !later {
                let a = self.log[i].1;
                proof {
                    lemma_last_logged_binding(self.log@, i as int);
                }
                r.push(a);
                assert(self.get(c) == Some(r@[r@.len() - 1]));
                assert forall|k: int| 0 <= k < r@.len() implies self.reaches(#[trigger] r@[k]) by {
                    if k < old_r.len() {
                        assert(r@[k] == old_r[k]);
                    } else {
                        assert(self.get(c) == Some(r@[k]));
                    }
                }
            }
            assert forall|j: int| 0 <= j < i + 1 && is_last_logged(self.log@, j) implies r@.contains(#[trigger] self.get(self.log@[j].0)->0) by {
                lemma_last_logged_binding(self.log@, j);
                let a = self.get(self.log@[j].0)->0;
                if j < i {
                    assert(old_r.contains(a));
                    let idx = choose|idx: int| 0 <= idx < old_r.len() && old_r[idx] == a;
                    assert(r@[idx] == a);
                } else {
                    assert(r@[r@.len() - 1] == a);
                }
            }
            i = i + 1;
        }
        assert forall|c: Chord| #[trigger] self.get(c) is Some implies r@.contains(self.get(c)->0) by {
            let j = lemma_found_chord_logged(self.log@, c);
            assert(self.log@[j].0 == c);
            assert(is_last_logged(self.log@, j));
        }
        r
    }
}

/// No later binding is made for the chord of binding `j`.
pub open spec fn is_last_logged(log: Seq<(Chord, Action)>, j: int) -> bool {
    forall|m: int| j < m < log.len() ==> log[m].0 != log[j].0
}

/// The last binding of a chord is the one it resolves to.
proof fn lemma_last_logged_binding(log: Seq<(Chord, Action)>, j: int)
    requires
        0 <= j < log.len(),
        is_last_logged(log, j),
    ensures
        binding_in(log, log[j].0) == Some(log[j].1),
    decreases log.len(),
{
    if j < log.len() - 1 {
        assert(log.last().0 != log[j].0);
        assert forall|m: int| j < m < log.drop_last().len() implies log.drop_last()[m].0 != log.drop_last()[j].0 by {
            assert(log.drop_last()[m] == log[m]);
        }
        lemma_last_logged_binding(log.drop_last(), j);
    }
}

/// Every logged chord has a binding.
proof fn lemma_bound_chord_found(log: Seq<(Chord, Action)>, j: int)
    requires
        0 <= j < log.len(),
    ensures
        binding_in(log, log[j].0) is Some,
    decreases log.len(),
{
    if j < log.len() - 1 && log.last().0 != log[j].0 {
        lemma_bound_chord_found(log.drop_last(), j);
    }
}

/// A chord with a binding was logged.
proof fn lemma_found_chord_logged(log: Seq<(Chord, Action)>, c: Chord) -> (j: int)
    requires
        binding_in(log, c) is Some,
    ensures
        0 <= j < log.len(),
        log[j].0 == c,
        forall|m: int| j < m < log.len() ==> log[m].0 != c,
    decreases log.len(),
{
    if log.last().0 == c {
        log.len() - 1
    } else {
        let j = lemma_found_chord_logged(log.drop_last(), c);
        assert forall|m: int| j < m < log.len() implies log[m].0 != c by {
            if m < log.len() - 1 {
                assert(log[m] == log.drop_last()[m]);
            }
        }
        j
    }
}

/// After binding `c` to `a`, `c` resolves to `a` and every other chord
/// resolves as before.
pub proof fn lemma_insert_binds(log: Seq<(Chord, Action)>, c: Chord, a: Action, other: Chord)
    ensures
        binding_in(log.push((c, a)), c) == Some(a),
        other != c ==> binding_in(log.push((c, a)), other) == binding_in(log, other),
{
    assert(log.push((c, a)).drop_last() =~= log);
}

/// The action bound to the chord `(code, mods)`, Shift ignored.
pub fn lookup(map: &Keymap, code: KeyCode, mods: Mods) -> (r: Option<Action>)
    ensures
        r == map.get(normalized((code, mods))),
{
    let c = normalize_chord(code, mods);
    map.get_binding(&c)
}

pub open spec fn char_chord(c: char) -> Chord {
    (KeyCode::Char(c), no_mods())
}

pub open spec fn ctrl_chord(c: char) -> Chord {
    (KeyCode::Char(c), Mods { control: true, ..no_mods() })
}

pub open spec fn key_chord(k: KeyCode) -> Chord {
    (k, no_mods())
}

pub open spec fn alt_chord(k: KeyCode) -> Chord {
    (k, Mods { alt: true, ..no_mods() })
}

fn ch(c: char) -> (r: Chord)
    ensures
        r == char_chord(c),
{
    (KeyCode::Char(c), Mods::none())
}

fn ctrl(c: char) -> (r: Chord)
    ensures
        r == ctrl_chord(c),
{
    (KeyCode::Char(c), Mods::ctrl())
}

fn key(k: KeyCode) -> (r: Chord)
    ensures
        r == key_chord(k),
{
    (k, Mods::none())
}

fn alt(k: KeyCode) -> (r: Chord)
    ensures
        r == alt_chord(k),
{
    (k, Mods::alt())
}

/// The default bindings of normal mode: moving through and acting on the document, in the order they are made.
pub open spec fn normal_defaults() -> Seq<(Chord, Action)> {
    seq![
        (char_chord('q'), Action::Quit),
        (key_chord(KeyCode::Esc), Action::Quit),
        (ctrl_chord('c'), Action::Quit),
        (char_chord('o'), Action::OpenToc),
        (char_chord('?'), Action::OpenHelp),
        (char_chord('d'), Action::OpenDir),
        (char_chord('#'), Action::ToggleLineNumbers),
        (char_chord('e'), Action::ToggleShortcodes),
        (char_chord('/'), Action::StartSearch),
        (char_chord('n'), Action::SearchNext),
        (char_chord('N'), Action::SearchPrev),
        (key_chord(KeyCode::Tab), Action::LinkNext),
        (key_chord(KeyCode::BackTab), Action::LinkPrev),
        (key_chord(KeyCode::Enter), Action::ActivateLink),
        (key_chord(KeyCode::Backspace), Action::HistoryBack),
        (char_chord('['), Action::HistoryBack),
        (alt_chord(KeyCode::Left), Action::HistoryBack),
        (char_chord(']'), Action::HistoryForward),
        (alt_chord(KeyCode::Right), Action::HistoryForward),
        (char_chord('j'), Action::CursorDown),
        (key_chord(KeyCode::Down), Action::CursorDown),
        (char_chord('k'), Action::CursorUp),
        (key_chord(KeyCode::Up), Action::CursorUp),
        (ctrl_chord('d'), Action::CursorHalfPageDown),
        (ctrl_chord('u'), Action::CursorHalfPageUp),
        (ctrl_chord('f'), Action::CursorPageDown),
        (key_chord(KeyCode::PageDown), Action::CursorPageDown),
        (ctrl_chord('b'), Action::CursorPageUp),
        (key_chord(KeyCode::PageUp), Action::CursorPageUp),
        (char_chord('g'), Action::CursorTop),
        (key_chord(KeyCode::Home), Action::CursorTop),
        (char_chord('G'), Action::CursorBottom),
        (key_chord(KeyCode::End), Action::CursorBottom),
        (char_chord('}'), Action::SectionNext),
        (char_chord('{'), Action::SectionPrev),
        (char_chord('y'), Action::EnterYank),
    ]
}

/// What each key does in normal mode by default: `j`/Down move the cursor
/// down and `k`/Up up, the paging and jump keys move as their names say,
/// `q`/Esc/Ctrl-C quit, and so on through the whole default table.
#[verifier::spinoff_prover]
#[verifier::rlimit(100)]
pub proof fn lemma_normal_default_bindings()
    ensures
        binding_in(normal_defaults(), char_chord('q')) == Some(Action::Quit),
        binding_in(normal_defaults(), key_chord(KeyCode::Esc)) == Some(Action::Quit),
        binding_in(normal_defaults(), ctrl_chord('c')) == Some(Action::Quit),
        binding_in(normal_defaults(), char_chord('o')) == Some(Action::OpenToc),
        binding_in(normal_defaults(), char_chord('?')) == Some(Action::OpenHelp),
        binding_in(normal_defaults(), char_chord('d')) == Some(Action::OpenDir),
        binding_in(normal_defaults(), char_chord('#')) == Some(Action::ToggleLineNumbers),
        binding_in(normal_defaults(), char_chord('e')) == Some(Action::ToggleShortcodes),
        binding_in(normal_defaults(), char_chord('/')) == Some(Action::StartSearch),
        binding_in(normal_defaults(), char_chord('n')) == Some(Action::SearchNext),
        binding_in(normal_defaults(), char_chord('N')) == Some(Action::SearchPrev),
        binding_in(normal_defaults(), key_chord(KeyCode::Tab)) == Some(Action::LinkNext),
        binding_in(normal_defaults(), key_chord(KeyCode::BackTab)) == Some(Action::LinkPrev),
        binding_in(normal_defaults(), key_chord(KeyCode::Enter)) == Some(Action::ActivateLink),
        binding_in(normal_defaults(), key_chord(KeyCode::Backspace)) == Some(Action::HistoryBack),
        binding_in(normal_defaults(), char_chord('[')) == Some(Action::HistoryBack),
        binding_in(normal_defaults(), alt_chord(KeyCode::Left)) == Some(Action::HistoryBack),
        binding_in(normal_defaults(), char_chord(']')) == Some(Action::HistoryForward),
        binding_in(normal_defaults(), alt_chord(KeyCode::Right)) == Some(Action::HistoryForward),
        binding_in(normal_defaults(), char_chord('j')) == Some(Action::CursorDown),
        binding_in(normal_defaults(), key_chord(KeyCode::Down)) == Some(Action::CursorDown),
        binding_in(normal_defaults(), char_chord('k')) == Some(Action::CursorUp),
        binding_in(normal_defaults(), key_chord(KeyCode::Up)) == Some(Action::CursorUp),
        binding_in(normal_defaults(), ctrl_chord('d')) == Some(Action::CursorHalfPageDown),
        binding_in(normal_defaults(), ctrl_chord('u')) == Some(Action::CursorHalfPageUp),
        binding_in(normal_defaults(), ctrl_chord('f')) == Some(Action::CursorPageDown),
        binding_in(normal_defaults(), key_chord(KeyCode::PageDown)) == Some(Action::CursorPageDown),
        binding_in(normal_defaults(), ctrl_chord('b')) == Some(Action::CursorPageUp),
        binding_in(normal_defaults(), key_chord(KeyCode::PageUp)) == Some(Action::CursorPageUp),
        binding_in(normal_defaults(), char_chord('g')) == Some(Action::CursorTop),
        binding_in(normal_defaults(), key_chord(KeyCode::Home)) == Some(Action::CursorTop),
        binding_in(normal_defaults(), char_chord('G')) == Some(Action::CursorBottom),
        binding_in(normal_defaults(), key_chord(KeyCode::End)) == Some(Action::CursorBottom),
        binding_in(normal_defaults(), char_chord('}')) == Some(Action::SectionNext),
        binding_in(normal_defaults(), char_chord('{')) == Some(Action::SectionPrev),
        binding_in(normal_defaults(), char_chord('y')) == Some(Action::EnterYank),
{
    assert(binding_in(normal_defaults(), char_chord('q')) == Some(Action::Quit)) by {
        reveal_with_fuel(binding_in, 37);
    }
    assert(binding_in(normal_defaults(), key_chord(KeyCode::Esc)) == Some(Action::Quit)) by {
        reveal_with_fuel(binding_in, 37);
    }
    assert(binding_in(normal_defaults(), ctrl_chord('c')) == Some(Action::Quit)) by {
        reveal_with_fuel(binding_in, 37);
    }
    assert(binding_in(normal_defaults(), char_chord('o')) == Some(Action::OpenToc)) by {
        reveal_with_fuel(binding_in, 37);
    }
    assert(binding_in(normal_defaults(), char_chord('?')) == Some(Action::OpenHelp)) by {
        reveal_with_fuel(binding_in, 37);
    }
    assert(binding_in(normal_defaults(), char_chord('d')) == Some(Action::OpenDir)) by {
        reveal_with_fuel(binding_in, 37);
    }
    assert(binding_in(normal_defaults(), char_chord('#')) == Some(Action::ToggleLineNumbers)) by {
        reveal_with_fuel(binding_in, 37);
    }
    assert(binding_in(normal_defaults(), char_chord('e')) == Some(Action::ToggleShortcodes)) by {
        reveal_with_fuel(binding_in, 37);
    }
    assert(binding_in(normal_defaults(), char_chord('/')) == Some(Action::StartSearch)) by {
        reveal_with_fuel(binding_in, 37);
    }
    assert(binding_in(normal_defaults(), char_chord('n')) == Some(Action::SearchNext)) by {
        reveal_with_fuel(binding_in, 37);
    }
    assert(binding_in(normal_defaults(), char_chord('N')) == Some(Action::SearchPrev)) by {
        reveal_with_fuel(binding_in, 37);
    }
    assert(binding_in(normal_defaults(), key_chord(KeyCode::Tab)) == Some(Action::LinkNext)) by {
        reveal_with_fuel(binding_in, 37);
    }
    assert(binding_in(normal_defaults(), key_chord(KeyCode::BackTab)) == Some(Action::LinkPrev)) by {
        reveal_with_fuel(binding_in, 37);
    }
    assert(binding_in(normal_defaults(), key_chord(KeyCode::Enter)) == Some(Action::ActivateLink)) by {
        reveal_with_fuel(binding_in, 37);
    }
    assert(binding_in(normal_defaults(), key_chord(KeyCode::Backspace)) == Some(Action::HistoryBack)) by {
        reveal_with_fuel(binding_in, 37);
    }
    assert(binding_in(normal_defaults(), char_chord('[')) == Some(Action::HistoryBack)) by {
        reveal_with_fuel(binding_in, 37);
    }
    assert(binding_in(normal_defaults(), alt_chord(KeyCode::Left)) == Some(Action::HistoryBack)) by {
        reveal_with_fuel(binding_in, 37);
    }
    assert(binding_in(normal_defaults(), char_chord(']')) == Some(Action::HistoryForward)) by {
        reveal_with_fuel(binding_in, 37);
    }
    assert(binding_in(normal_defaults(), alt_chord(KeyCode::Right)) == Some(Action::HistoryForward)) by {
        reveal_with_fuel(binding_in, 37);
    }
    assert(binding_in(normal_defaults(), char_chord('j')) == Some(Action::CursorDown)) by {
        reveal_with_fuel(binding_in, 37);
    }
    assert(binding_in(normal_defaults(), key_chord(KeyCode::Down)) == Some(Action::CursorDown)) by {
        reveal_with_fuel(binding_in, 37);
    }
    assert(binding_in(normal_defaults(), char_chord('k')) == Some(Action::CursorUp)) by {
        reveal_with_fuel(binding_in, 37);
    }
    assert(binding_in(normal_defaults(), key_chord(KeyCode::Up)) == Some(Action::CursorUp)) by {
        reveal_with_fuel(binding_in, 37);
    }
    assert(binding_in(normal_defaults(), ctrl_chord('d')) == Some(Action::CursorHalfPageDown)) by {
        reveal_with_fuel(binding_in, 37);
    }
    assert(binding_in(normal_defaults(), ctrl_chord('u')) == Some(Action::CursorHalfPageUp)) by {
        reveal_with_fuel(binding_in, 37);
    }
    assert(binding_in(normal_defaults(), ctrl_chord('f')) == Some(Action::CursorPageDown)) by {
        reveal_with_fuel(binding_in, 37);
    }
    assert(binding_in(normal_defaults(), key_chord(KeyCode::PageDown)) == Some(Action::CursorPageDown)) by {
        reveal_with_fuel(binding_in, 37);
    }
    assert(binding_in(normal_defaults(), ctrl_chord('b')) == Some(Action::CursorPageUp)) by {
        reveal_with_fuel(binding_in, 37);
    }
    assert(binding_in(normal_defaults(), key_chord(KeyCode::PageUp)) == Some(Action::CursorPageUp)) by {
        reveal_with_fuel(binding_in, 37);
    }
    assert(binding_in(normal_defaults(), char_chord('g')) == Some(Action::CursorTop)) by {
        reveal_with_fuel(binding_in, 37);
    }
    assert(binding_in(normal_defaults(), key_chord(KeyCode::Home)) == Some(Action::CursorTop)) by {
        reveal_with_fuel(binding_in, 37);
    }
    assert(binding_in(normal_defaults(), char_chord('G')) == Some(Action::CursorBottom)) by {
        reveal_with_fuel(binding_in, 37);
    }
    assert(binding_in(normal_defaults(), key_chord(KeyCode::End)) == Some(Action::CursorBottom)) by {
        reveal_with_fuel(binding_in, 37);
    }
    assert(binding_in(normal_defaults(), char_chord('}')) == Some(Action::SectionNext)) by {
        reveal_with_fuel(binding_in, 37);
    }
    assert(binding_in(normal_defaults(), char_chord('{')) == Some(Action::SectionPrev)) by {
        reveal_with_fuel(binding_in, 37);
    }
    assert(binding_in(normal_defaults(), char_chord('y')) == Some(Action::EnterYank)) by {
        reveal_with_fuel(binding_in, 37);
    }
}

/// The built-in keymap of normal mode: moving through and acting on the document.
pub fn default_normal() -> (m: Keymap)
    ensures
        m.bindings() == normal_defaults(),
        m.get(char_chord('j')) == Some(Action::CursorDown),
        m.get(key_chord(KeyCode::Down)) == Some(Action::CursorDown),
        m.get(char_chord('k')) == Some(Action::CursorUp),
        m.get(key_chord(KeyCode::Up)) == Some(Action::CursorUp),
        m.get(char_chord('g')) == Some(Action::CursorTop),
        m.get(char_chord('G')) == Some(Action::CursorBottom),
        m.get(char_chord('q')) == Some(Action::Quit),
{
    let mut m = Keymap::new();
    proof {
        lemma_normal_default_bindings();
    }
    m.insert(ch('q'), Action::Quit);
    m.insert(key(KeyCode::Esc), Action::Quit);
    m.insert(ctrl('c'), Action::Quit);
    m.insert(ch('o'), Action::OpenToc);
    m.insert(ch('?'), Action::OpenHelp);
    m.insert(ch('d'), Action::OpenDir);
    m.insert(ch('#'), Action::ToggleLineNumbers);
    m.insert(ch('e'), Action::ToggleShortcodes);
    m.insert(ch('/'), Action::StartSearch);
    m.insert(ch('n'), Action::SearchNext);
    m.insert(ch('N'), Action::SearchPrev);
    m.insert(key(KeyCode::Tab), Action::LinkNext);
    m.insert(key(KeyCode::BackTab), Action::LinkPrev);
    m.insert(key(KeyCode::Enter), Action::ActivateLink);
    m.insert(key(KeyCode::Backspace), Action::HistoryBack);
    m.insert(ch('['), Action::HistoryBack);
    m.insert(alt(KeyCode::Left), Action::HistoryBack);
    m.insert(ch(']'), Action::HistoryForward);
    m.insert(alt(KeyCode::Right), Action::HistoryForward);
    m.insert(ch('j'), Action::CursorDown);
    m.insert(key(KeyCode::Down), Action::CursorDown);
    m.insert(ch('k'), Action::CursorUp);
    m.insert(key(KeyCode::Up), Action::CursorUp);
    m.insert(ctrl('d'), Action::CursorHalfPageDown);
    m.insert(ctrl('u'), Action::CursorHalfPageUp);
    m.insert(ctrl('f'), Action::CursorPageDown);
    m.insert(key(KeyCode::PageDown), Action::CursorPageDown);
    m.insert(ctrl('b'), Action::CursorPageUp);
    m.insert(key(KeyCode::PageUp), Action::CursorPageUp);
    m.insert(ch('g'), Action::CursorTop);
    m.insert(key(KeyCode::Home), Action::CursorTop);
    m.insert(ch('G'), Action::CursorBottom);
    m.insert(key(KeyCode::End), Action::CursorBottom);
    m.insert(ch('}'), Action::SectionNext);
    m.insert(ch('{'), Action::SectionPrev);
    m.insert(ch('y'), Action::EnterYank);
    assert(m.bindings() =~= normal_defaults());
    m
}

/// The default bindings of yank mode: growing, shrinking and copying the selection, in the order they are made.
pub open spec fn yank_defaults() -> Seq<(Chord, Action)> {
    seq![
        (key_chord(KeyCode::Esc), Action::YankCancel),
        (char_chord('q'), Action::YankCancel),
        (char_chord('y'), Action::YankExpand),
        (char_chord('Y'), Action::YankShrink),
        (key_chord(KeyCode::Enter), Action::YankCopy),
    ]
}

/// What each key does by default in yank mode, through the whole default
/// table.
pub proof fn lemma_yank_default_bindings()
    ensures
        binding_in(yank_defaults(), key_chord(KeyCode::Esc)) == Some(Action::YankCancel),
        binding_in(yank_defaults(), char_chord('q')) == Some(Action::YankCancel),
        binding_in(yank_defaults(), char_chord('y')) == Some(Action::YankExpand),
        binding_in(yank_defaults(), char_chord('Y')) == Some(Action::YankShrink),
        binding_in(yank_defaults(), key_chord(KeyCode::Enter)) == Some(Action::YankCopy),
{
    assert(binding_in(yank_defaults(), key_chord(KeyCode::Esc)) == Some(Action::YankCancel)) by {
        reveal_with_fuel(binding_in, 6);
    }
    assert(binding_in(yank_defaults(), char_chord('q')) == Some(Action::YankCancel)) by {
        reveal_with_fuel(binding_in, 6);
    }
    assert(binding_in(yank_defaults(), char_chord('y')) == Some(Action::YankExpand)) by {
        reveal_with_fuel(binding_in, 6);
    }
    assert(binding_in(yank_defaults(), char_chord('Y')) == Some(Action::YankShrink)) by {
        reveal_with_fuel(binding_in, 6);
    }
    assert(binding_in(yank_defaults(), key_chord(KeyCode::Enter)) == Some(Action::YankCopy)) by {
        reveal_with_fuel(binding_in, 6);
    }
}

/// The built-in keymap of yank mode: growing, shrinking and copying the selection.
pub fn default_yank() -> (m: Keymap)
    ensures
        m.bindings() == yank_defaults(),
{
    let mut m = Keymap::new();
    m.insert(key(KeyCode::Esc), Action::YankCancel);
    m.insert(ch('q'), Action::YankCancel);
    m.insert(ch('y'), Action::YankExpand);
    m.insert(ch('Y'), Action::YankShrink);
    m.insert(key(KeyCode::Enter), Action::YankCopy);
    assert(m.bindings() =~= yank_defaults());
    m
}

/// The default bindings of the table-of-contents overlay, in the order they are made.
pub open spec fn toc_defaults() -> Seq<(Chord, Action)> {
    seq![
        (key_chord(KeyCode::Esc), Action::TocClose),
        (char_chord('q'), Action::TocClose),
        (char_chord('o'), Action::TocClose),
        (char_chord('j'), Action::TocSelectNext),
        (key_chord(KeyCode::Down), Action::TocSelectNext),
        (char_chord('k'), Action::TocSelectPrev),
        (key_chord(KeyCode::Up), Action::TocSelectPrev),
        (char_chord('g'), Action::TocSelectTop),
        (key_chord(KeyCode::Home), Action::TocSelectTop),
        (char_chord('G'), Action::TocSelectBottom),
        (key_chord(KeyCode::End), Action::TocSelectBottom),
        (key_chord(KeyCode::Enter), Action::TocConfirm),
    ]
}

/// What each key does by default in toc mode, through the whole default
/// table.
pub proof fn lemma_toc_default_bindings()
    ensures
        binding_in(toc_defaults(), key_chord(KeyCode::Esc)) == Some(Action::TocClose),
        binding_in(toc_defaults(), char_chord('q')) == Some(Action::TocClose),
        binding_in(toc_defaults(), char_chord('o')) == Some(Action::TocClose),
        binding_in(toc_defaults(), char_chord('j')) == Some(Action::TocSelectNext),
        binding_in(toc_defaults(), key_chord(KeyCode::Down)) == Some(Action::TocSelectNext),
        binding_in(toc_defaults(), char_chord('k')) == Some(Action::TocSelectPrev),
        binding_in(toc_defaults(), key_chord(KeyCode::Up)) == Some(Action::TocSelectPrev),
        binding_in(toc_defaults(), char_chord('g')) == Some(Action::TocSelectTop),
        binding_in(toc_defaults(), key_chord(KeyCode::Home)) == Some(Action::TocSelectTop),
        binding_in(toc_defaults(), char_chord('G')) == Some(Action::TocSelectBottom),
        binding_in(toc_defaults(), key_chord(KeyCode::End)) == Some(Action::TocSelectBottom),
        binding_in(toc_defaults(), key_chord(KeyCode::Enter)) == Some(Action::TocConfirm),
{
    assert(binding_in(toc_defaults(), key_chord(KeyCode::Esc)) == Some(Action::TocClose)) by {
        reveal_with_fuel(binding_in, 13);
    }
    assert(binding_in(toc_defaults(), char_chord('q')) == Some(Action::TocClose)) by {
        reveal_with_fuel(binding_in, 13);
    }
    assert(binding_in(toc_defaults(), char_chord('o')) == Some(Action::TocClose)) by {
        reveal_with_fuel(binding_in, 13);
    }
    assert(binding_in(toc_defaults(), char_chord('j')) == Some(Action::TocSelectNext)) by {
        reveal_with_fuel(binding_in, 13);
    }
    assert(binding_in(toc_defaults(), key_chord(KeyCode::Down)) == Some(Action::TocSelectNext)) by {
        reveal_with_fuel(binding_in, 13);
    }
    assert(binding_in(toc_defaults(), char_chord('k')) == Some(Action::TocSelectPrev)) by {
        reveal_with_fuel(binding_in, 13);
    }
    assert(binding_in(toc_defaults(), key_chord(KeyCode::Up)) == Some(Action::TocSelectPrev)) by {
        reveal_with_fuel(binding_in, 13);
    }
    assert(binding_in(toc_defaults(), char_chord('g')) == Some(Action::TocSelectTop)) by {
        reveal_with_fuel(binding_in, 13);
    }
    assert(binding_in(toc_defaults(), key_chord(KeyCode::Home)) == Some(Action::TocSelectTop)) by {
        reveal_with_fuel(binding_in, 13);
    }
    assert(binding_in(toc_defaults(), char_chord('G')) == Some(Action::TocSelectBottom)) by {
        reveal_with_fuel(binding_in, 13);
    }
    assert(binding_in(toc_defaults(), key_chord(KeyCode::End)) == Some(Action::TocSelectBottom)) by {
        reveal_with_fuel(binding_in, 13);
    }
    assert(binding_in(toc_defaults(), key_chord(KeyCode::Enter)) == Some(Action::TocConfirm)) by {
        reveal_with_fuel(binding_in, 13);
    }
}

/// The built-in keymap of the table-of-contents overlay.
pub fn default_toc() -> (m: Keymap)
    ensures
        m.bindings() == toc_defaults(),
{
    let mut m = Keymap::new();
    m.insert(key(KeyCode::Esc), Action::TocClose);
    m.insert(ch('q'), Action::TocClose);
    m.insert(ch('o'), Action::TocClose);
    m.insert(ch('j'), Action::TocSelectNext);
    m.insert(key(KeyCode::Down), Action::TocSelectNext);
    m.insert(ch('k'), Action::TocSelectPrev);
    m.insert(key(KeyCode::Up), Action::TocSelectPrev);
    m.insert(ch('g'), Action::TocSelectTop);
    m.insert(key(KeyCode::Home), Action::TocSelectTop);
    m.insert(ch('G'), Action::TocSelectBottom);
    m.insert(key(KeyCode::End), Action::TocSelectBottom);
    m.insert(key(KeyCode::Enter), Action::TocConfirm);
    assert(m.bindings() =~= toc_defaults());
    m
}

/// The default bindings of the help overlay, in the order they are made.
pub open spec fn help_defaults() -> Seq<(Chord, Action)> {
    seq![
        (key_chord(KeyCode::Esc), Action::HelpClose),
        (char_chord('q'), Action::HelpClose),
        (char_chord('?'), Action::HelpClose),
    ]
}

/// What each key does by default in help mode, through the whole default
/// table.
pub proof fn lemma_help_default_bindings()
    ensures
        binding_in(help_defaults(), key_chord(KeyCode::Esc)) == Some(Action::HelpClose),
        binding_in(help_defaults(), char_chord('q')) == Some(Action::HelpClose),
        binding_in(help_defaults(), char_chord('?')) == Some(Action::HelpClose),
{
    assert(binding_in(help_defaults(), key_chord(KeyCode::Esc)) == Some(Action::HelpClose)) by {
        reveal_with_fuel(binding_in, 4);
    }
    assert(binding_in(help_defaults(), char_chord('q')) == Some(Action::HelpClose)) by {
        reveal_with_fuel(binding_in, 4);
    }
    assert(binding_in(help_defaults(), char_chord('?')) == Some(Action::HelpClose)) by {
        reveal_with_fuel(binding_in, 4);
    }
}

/// The built-in keymap of the help overlay.
pub fn default_help() -> (m: Keymap)
    ensures
        m.bindings() == help_defaults(),
{
    let mut m = Keymap::new();
    m.insert(key(KeyCode::Esc), Action::HelpClose);
    m.insert(ch('q'), Action::HelpClose);
    m.insert(ch('?'), Action::HelpClose);
    assert(m.bindings() =~= help_defaults());
    m
}

/// The default bindings of the directory browser overlay, in the order they are made.
pub open spec fn dir_defaults() -> Seq<(Chord, Action)> {
    seq![
        (key_chord(KeyCode::Esc), Action::DirClose),
        (char_chord('q'), Action::DirClose),
        (char_chord('d'), Action::DirClose),
        (char_chord('j'), Action::DirSelectNext),
        (key_chord(KeyCode::Down), Action::DirSelectNext),
        (char_chord('k'), Action::DirSelectPrev),
        (key_chord(KeyCode::Up), Action::DirSelectPrev),
        (char_chord('g'), Action::DirSelectTop),
        (key_chord(KeyCode::Home), Action::DirSelectTop),
        (char_chord('G'), Action::DirSelectBottom),
        (key_chord(KeyCode::End), Action::DirSelectBottom),
        (key_chord(KeyCode::Enter), Action::DirActivate),
        (key_chord(KeyCode::Right), Action::DirActivate),
        (char_chord('l'), Action::DirActivate),
        (key_chord(KeyCode::Left), Action::DirGoUp),
        (char_chord('h'), Action::DirGoUp),
    ]
}

/// What each key does by default in dir mode, through the whole default
/// table.
pub proof fn lemma_dir_default_bindings()
    ensures
        binding_in(dir_defaults(), key_chord(KeyCode::Esc)) == Some(Action::DirClose),
        binding_in(dir_defaults(), char_chord('q')) == Some(Action::DirClose),
        binding_in(dir_defaults(), char_chord('d')) == Some(Action::DirClose),
        binding_in(dir_defaults(), char_chord('j')) == Some(Action::DirSelectNext),
        binding_in(dir_defaults(), key_chord(KeyCode::Down)) == Some(Action::DirSelectNext),
        binding_in(dir_defaults(), char_chord('k')) == Some(Action::DirSelectPrev),
        binding_in(dir_defaults(), key_chord(KeyCode::Up)) == Some(Action::DirSelectPrev),
        binding_in(dir_defaults(), char_chord('g')) == Some(Action::DirSelectTop),
        binding_in(dir_defaults(), key_chord(KeyCode::Home)) == Some(Action::DirSelectTop),
        binding_in(dir_defaults(), char_chord('G')) == Some(Action::DirSelectBottom),
        binding_in(dir_defaults(), key_chord(KeyCode::End)) == Some(Action::DirSelectBottom),
        binding_in(dir_defaults(), key_chord(KeyCode::Enter)) == Some(Action::DirActivate),
        binding_in(dir_defaults(), key_chord(KeyCode::Right)) == Some(Action::DirActivate),
        binding_in(dir_defaults(), char_chord('l')) == Some(Action::DirActivate),
        binding_in(dir_defaults(), key_chord(KeyCode::Left)) == Some(Action::DirGoUp),
        binding_in(dir_defaults(), char_chord('h')) == Some(Action::DirGoUp),
{
    assert(binding_in(dir_defaults(), key_chord(KeyCode::Esc)) == Some(Action::DirClose)) by {
        reveal_with_fuel(binding_in, 17);
    }
    assert(binding_in(dir_defaults(), char_chord('q')) == Some(Action::DirClose)) by {
        reveal_with_fuel(binding_in, 17);
    }
    assert(binding_in(dir_defaults(), char_chord('d')) == Some(Action::DirClose)) by {
        reveal_with_fuel(binding_in, 17);
    }
    assert(binding_in(dir_defaults(), char_chord('j')) == Some(Action::DirSelectNext)) by {
        reveal_with_fuel(binding_in, 17);
    }
    assert(binding_in(dir_defaults(), key_chord(KeyCode::Down)) == Some(Action::DirSelectNext)) by {
        reveal_with_fuel(binding_in, 17);
    }
    assert(binding_in(dir_defaults(), char_chord('k')) == Some(Action::DirSelectPrev)) by {
        reveal_with_fuel(binding_in, 17);
    }
    assert(binding_in(dir_defaults(), key_chord(KeyCode::Up)) == Some(Action::DirSelectPrev)) by {
        reveal_with_fuel(binding_in, 17);
    }
    assert(binding_in(dir_defaults(), char_chord('g')) == Some(Action::DirSelectTop)) by {
        reveal_with_fuel(binding_in, 17);
    }
    assert(binding_in(dir_defaults(), key_chord(KeyCode::Home)) == Some(Action::DirSelectTop)) by {
        reveal_with_fuel(binding_in, 17);
    }
    assert(binding_in(dir_defaults(), char_chord('G')) == Some(Action::DirSelectBottom)) by {
        reveal_with_fuel(binding_in, 17);
    }
    assert(binding_in(dir_defaults(), key_chord(KeyCode::End)) == Some(Action::DirSelectBottom)) by {
        reveal_with_fuel(binding_in, 17);
    }
    assert(binding_in(dir_defaults(), key_chord(KeyCode::Enter)) == Some(Action::DirActivate)) by {
        reveal_with_fuel(binding_in, 17);
    }
    assert(binding_in(dir_defaults(), key_chord(KeyCode::Right)) == Some(Action::DirActivate)) by {
        reveal_with_fuel(binding_in, 17);
    }
    assert(binding_in(dir_defaults(), char_chord('l')) == Some(Action::DirActivate)) by {
        reveal_with_fuel(binding_in, 17);
    }
    assert(binding_in(dir_defaults(), key_chord(KeyCode::Left)) == Some(Action::DirGoUp)) by {
        reveal_with_fuel(binding_in, 17);
    }
    assert(binding_in(dir_defaults(), char_chord('h')) == Some(Action::DirGoUp)) by {
        reveal_with_fuel(binding_in, 17);
    }
}

/// The built-in keymap of the directory browser overlay.
pub fn default_dir() -> (m: Keymap)
    ensures
        m.bindings() == dir_defaults(),
{
    let mut m = Keymap::new();
    m.insert(key(KeyCode::Esc), Action::DirClose);
    m.insert(ch('q'), Action::DirClose);
    m.insert(ch('d'), Action::DirClose);
    m.insert(ch('j'), Action::DirSelectNext);
    m.insert(key(KeyCode::Down), Action::DirSelectNext);
    m.insert(ch('k'), Action::DirSelectPrev);
    m.insert(key(KeyCode::Up), Action::DirSelectPrev);
    m.insert(ch('g'), Action::DirSelectTop);
    m.insert(key(KeyCode::Home), Action::DirSelectTop);
    m.insert(ch('G'), Action::DirSelectBottom);
    m.insert(key(KeyCode::End), Action::DirSelectBottom);
    m.insert(key(KeyCode::Enter), Action::DirActivate);
    m.insert(key(KeyCode::Right), Action::DirActivate);
    m.insert(ch('l'), Action::DirActivate);
    m.insert(key(KeyCode::Left), Action::DirGoUp);
    m.insert(ch('h'), Action::DirGoUp);
    assert(m.bindings() =~= dir_defaults());
    m
}

/// A `(key, action)` pair of a config table, by views.
pub open spec fn pair_views(t: Seq<(String, String)>) -> Seq<(Seq<char>, Seq<char>)> {
    t.map_values(|p: (String, String)| (p.0@, p.1@))
}

/// A `[keys.<mode>]` table of a config file, by views.
pub open spec fn table_views(t: Seq<(String, Vec<(String, String)>)>) -> Seq<(Seq<char>, Seq<(Seq<char>, Seq<char>)>)> {
    t.map_values(|p: (String, Vec<(String, String)>)| (p.0@, pair_views(p.1@)))
}

pub open spec fn binding_prefix(mode: Seq<char>, key: Seq<char>) -> Seq<char> {
    "["@ + mode + "] `"@ + key + "`: "@
}

/// What one config line `key = "action"` under `[keys.<mode>]` yields: a
/// binding, or the warning that explains why it was skipped.
pub open spec fn binding_outcome(mode: Seq<char>, key: Seq<char>, action: Seq<char>) -> Result<(Chord, Action), Seq<char>> {
    match chord_of(key) {
        Err(e) => Err(binding_prefix(mode, key) + e),
        Ok(c) => match action_named(action) {
            None => Err(binding_prefix(mode, key) + "unknown action `"@ + action + "`"@),
            Some(a) => Ok((c, a)),
        },
    }
}

/// The keymap each mode name selects.
pub open spec fn mode_slot(mode: Seq<char>) -> Option<int> {
    if mode == "normal"@ {
        Some(0)
    } else if mode == "yank"@ {
        Some(1)
    } else if mode == "toc"@ {
        Some(2)
    } else if mode == "help"@ {
        Some(3)
    } else if mode == "dir"@ {
        Some(4)
    } else {
        None
    }
}

pub open spec fn unknown_mode_msg(mode: Seq<char>) -> Seq<char> {
    "unknown mode `"@ + mode + "`"@
}

/// The per-mode binding logs and the warnings, as the config is applied.
pub struct KeymapsModel {
    pub logs: Seq<Seq<(Chord, Action)>>,
    pub warnings: Seq<Seq<char>>,
}

/// Apply the lines of one mode's table, in order.
pub open spec fn apply_pairs(m: KeymapsModel, slot: int, mode: Seq<char>, pairs: Seq<(Seq<char>, Seq<char>)>) -> KeymapsModel
    decreases pairs.len(),
{
    if pairs.len() == 0 {
        m
    } else {
        let prev = apply_pairs(m, slot, mode, pairs.drop_last());
        match binding_outcome(mode, pairs.last().0, pairs.last().1) {
            Ok(b) => KeymapsModel { logs: prev.logs.update(slot, prev.logs[slot].push(b)), ..prev },
            Err(w) => KeymapsModel { warnings: prev.warnings.push(w), ..prev },
        }
    }
}

/// Apply one `[keys.<mode>]` table.
pub open spec fn apply_table(m: KeymapsModel, mode: Seq<char>, pairs: Seq<(Seq<char>, Seq<char>)>) -> KeymapsModel {
    match mode_slot(mode) {
        None => KeymapsModel { warnings: m.warnings.push(unknown_mode_msg(mode)), ..m },
        Some(k) => apply_pairs(m, k, mode, pairs),
    }
}

/// Apply every table, in order.
pub open spec fn apply_tables(m: KeymapsModel, tables: Seq<(Seq<char>, Seq<(Seq<char>, Seq<char>)>)>) -> KeymapsModel
    decreases tables.len(),
{
    if tables.len() == 0 {
        m
    } else {
        let prev = apply_tables(m, tables.drop_last());
        apply_table(prev, tables.last().0, tables.last().1)
    }
}

pub open spec fn default_model() -> KeymapsModel {
    KeymapsModel {
        logs: seq![normal_defaults(), yank_defaults(), toc_defaults(), help_defaults(), dir_defaults()],
        warnings: Seq::empty(),
    }
}

/// What became of the config file before its bindings were read.
pub enum ConfigRead {
    /// No config file exists.
    Missing,
    /// The file exists but could not be read; the reason.
    Unreadable(String),
    /// The file is not valid TOML of the expected shape; the reason.
    Malformed(String),
    /// The `[keys.<mode>]` tables, each with its `key = "action"` lines.
    Tables(Vec<(String, Vec<(String, String)>)>),
}

/// The per-mode keymaps after the user config is merged into the defaults.
pub struct LoadedKeymaps {
    pub normal: Keymap,
    pub yank: Keymap,
    pub toc: Keymap,
    pub help: Keymap,
    pub dir: Keymap,
    /// Problems met while reading the config: bad modifiers, unknown
    /// actions and the like. A config problem never aborts.
    pub warnings: Vec<String>,
    /// Where the config file was looked for, when there is such a place.
    pub config_path: Option<String>,
}

impl LoadedKeymaps {
    pub open spec fn model(self) -> KeymapsModel {
        KeymapsModel {
            logs: seq![
                self.normal.bindings(),
                self.yank.bindings(),
                self.toc.bindings(),
                self.help.bindings(),
                self.dir.bindings(),
            ],
            warnings: string_views(self.warnings@),
        }
    }

    /// The built-in keymaps, no warnings.
    pub fn defaults(config_path: Option<String>) -> (r: LoadedKeymaps)
        ensures
            r.model() == default_model(),
            r.config_path == config_path,
    {
        let r = LoadedKeymaps {
            normal: default_normal(),
            yank: default_yank(),
            toc: default_toc(),
            help: default_help(),
            dir: default_dir(),
            warnings: Vec::new(),
            config_path,
        };
        assert(r.model().logs =~= default_model().logs);
        assert(r.model().warnings =~= default_model().warnings);
        r
    }

    fn bind_in_slot(&mut self, k: usize, c: Chord, a: Action)
        requires
            k < 5,
        ensures
            final(self).model() == (KeymapsModel {
                logs: old(self).model().logs.update(k as int, old(self).model().logs[k as int].push((c, a))),
                ..old(self).model()
            }),
            final(self).config_path == old(self).config_path,
    {
        if k == 0 {
            self.normal.insert(c, a);
        } else if k == 1 {
            self.yank.insert(c, a);
        } else if k == 2 {
            self.toc.insert(c, a);
        } else if k == 3 {
            self.help.insert(c, a);
        } else {
            self.dir.insert(c, a);
        }
        assert(self.model().logs =~= old(self).model().logs.update(k as int, old(self).model().logs[k as int].push((c, a))));
    }

    fn warn(&mut self, w: String)
        ensures
            final(self).model() == (KeymapsModel { warnings: old(self).model().warnings.push(w@), ..old(self).model() }),
            final(self).config_path == old(self).config_path,
    {
        self.warnings.push(w);
        assert(string_views(self.warnings@) =~= string_views(old(self).warnings@).push(w@));
    }

    /// Merge one `[keys.<mode>]` table into the keymaps.
    pub fn apply_table(&mut self, mode: &str, table: &Vec<(String, String)>)
        ensures
            final(self).model() == apply_table(old(self).model(), mode@, pair_views(table@)),
            final(self).config_path == old(self).config_path,
    {
        let slot: usize = if str_eq(mode, "normal") {
            0
        } else if str_eq(mode, "yank") {
            1
        } else if str_eq(mode, "toc") {
            2
        } else if str_eq(mode, "help") {
            3
        } else if str_eq(mode, "dir") {
            4
        } else {
            let mut w = String::new();
            push_str(&mut w, "unknown mode `");
            push_str(&mut w, mode);
            push_str(&mut w, "`");
            assert(w@ =~= unknown_mode_msg(mode@));
            self.warn(w);
            return;
        };
        assert(mode_slot(mode@) == Some(slot as int));
        let ghost start = self.model();
        let ghost pv = pair_views(table@);
        let mut i: usize = 0;
        while i < table.len()
            invariant
                slot < 5,
                mode_slot(mode@) == Some(slot as int),
                pv == pair_views(table@),
                i <= table@.len(),
                self.model() == apply_pairs(start, slot as int, mode@, pv.take(i as int)),
                self.config_path == old(self).config_path,
                start == old(self).model(),
            decreases table@.len() - i,
        {
            let key = table[i].0.as_str();
            let action = table[i].1.as_str();
            assert(pv.take(i as int + 1).drop_last() =~= pv.take(i as int));
            assert(pv.take(i as int + 1).last() == (key@, action@));
            match parse_chord(key) {
                Err(e) => {
                    let w = binding_warning(mode, key, e.as_str());
                    self.warn(w);
                },
                Ok(c) => match Action::from_name(action) {
                    None => {
                        let mut tail = String::new();
                        push_str(&mut tail, "unknown action `");
                        push_str(&mut tail, action);
                        push_str(&mut tail, "`");
                        let w = binding_warning(mode, key, tail.as_str());
                        assert(w@ =~= binding_prefix(mode@, key@) + "unknown action `"@ + action@ + "`"@);
                        self.warn(w);
                    },
                    Some(a) => {
                        self.bind_in_slot(slot, c, a);
                    },
                },
            }
            i = i + 1;
        }
        assert(pv.take(table@.len() as int) =~= pv);
    }
}

fn binding_warning(mode: &str, key: &str, tail: &str) -> (w: String)
    ensures
        w@ == binding_prefix(mode@, key@) + tail@,
{
    let mut w = String::new();
    push_str(&mut w, "[");
    push_str(&mut w, mode);
    push_str(&mut w, "] `");
    push_str(&mut w, key);
    push_str(&mut w, "`: ");
    push_str(&mut w, tail);
    assert(w@ =~= binding_prefix(mode@, key@) + tail@);
    w
}

/// Build the per-mode keymaps: the defaults, with the user config merged
/// in. A missing config is silent; a config that cannot be read or parsed
/// leaves the defaults and says why in `warnings`.
pub fn load(config_path: Option<String>, config: ConfigRead) -> (r: LoadedKeymaps)
    ensures
        r.config_path == config_path,
        r.model() == match config {
            ConfigRead::Missing => default_model(),
            ConfigRead::Unreadable(e) => KeymapsModel {
                warnings: seq!["read config: "@ + e@],
                ..default_model()
            },
            ConfigRead::Malformed(e) => KeymapsModel {
                warnings: seq!["parse config: "@ + e@],
                ..default_model()
            },
            ConfigRead::Tables(t) => apply_tables(default_model(), table_views(t@)),
        },
{
    let mut out = LoadedKeymaps::defaults(config_path);
    match config {
        ConfigRead::Missing => out,
        ConfigRead::Unreadable(e) => {
            let mut w = String::new();
            push_str(&mut w, "read config: ");
            push_str(&mut w, e.as_str());
            out.warn(w);
            assert(out.model().warnings =~= seq!["read config: "@ + e@]);
            out
        },
        ConfigRead::Malformed(e) => {
            let mut w = String::new();
            push_str(&mut w, "parse config: ");
            push_str(&mut w, e.as_str());
            out.warn(w);
            assert(out.model().warnings =~= seq!["parse config: "@ + e@]);
            out
        },
        ConfigRead::Tables(t) => {
            let ghost tv = table_views(t@);
            let mut i: usize = 0;
            while i < t.len()
                invariant
                    tv == table_views(t@),
                    i <= t@.len(),
                    out.model() == apply_tables(default_model(), tv.take(i as int)),
                    out.config_path == config_path,
                decreases t@.len() - i,
            {
                assert(tv.take(i as int + 1).drop_last() =~= tv.take(i as int));
                assert(tv.take(i as int + 1).last() == (t@[i as int].0@, pair_views(t@[i as int].1@)));
                out.apply_table(t[i].0.as_str(), &t[i].1);
                i = i + 1;
            }
            assert(tv.take(t@.len() as int) =~= tv);
            out
        },
    }
}

} // verus!
