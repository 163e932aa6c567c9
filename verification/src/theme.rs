//! Visual theme — maps semantic roles to concrete styles.
//!
//! Centralized so palettes can be swapped (dark/light) without crawling the
//! renderer. Defaults assume a dark terminal background.

use vstd::prelude::*;

use crate::style::{plain_style, Color, Style};

verus! {

#[derive(Debug, Clone, Copy)]
pub struct Theme {
    pub heading: [Style; 6],
    pub paragraph: Style,
    pub blockquote: Style,
    pub blockquote_marker: Style,
    pub list_marker: Style,
    pub task_marker_done: Style,
    pub task_marker_todo: Style,
    pub code_inline: Style,
    pub code_block: Style,
    pub code_fence: Style,
    pub link_text: Style,
    pub link_url: Style,
    pub emph: Style,
    pub strong: Style,
    pub strikethrough: Style,
    pub thematic_break: Style,
    pub image_alt: Style,
}

/// Plain style with only a foreground colour.
pub open spec fn fg_only(c: Color) -> Style {
    Style { fg: Some(c), ..plain_style() }
}

/// Plain style with a foreground colour, bold.
pub open spec fn fg_bold(c: Color) -> Style {
    Style { fg: Some(c), bold: true, ..plain_style() }
}

/// The palette of the dark theme, role by role.
pub open spec fn is_dark_theme(t: Theme) -> bool {
    &&& t.heading@ == seq![
        fg_bold(Color::BrightCyan),
        fg_bold(Color::BrightMagenta),
        fg_bold(Color::BrightYellow),
        fg_bold(Color::BrightGreen),
        fg_bold(Color::BrightBlue),
        fg_bold(Color::BrightBlack),
    ]
    &&& t.paragraph == plain_style()
    &&& t.blockquote == (Style { dim: true, ..plain_style() })
    &&& t.blockquote_marker == fg_only(Color::BrightBlack)
    &&& t.list_marker == fg_only(Color::BrightYellow)
    &&& t.task_marker_done == fg_only(Color::BrightGreen)
    &&& t.task_marker_todo == fg_only(Color::BrightBlack)
    &&& t.code_inline == fg_only(Color::Yellow)
    &&& t.code_block == fg_only(Color::BrightWhite)
    &&& t.code_fence == fg_only(Color::BrightBlack)
    &&& t.link_text == (Style { fg: Some(Color::BrightBlue), underline: true, ..plain_style() })
    &&& t.link_url == (Style { fg: Some(Color::Blue), dim: true, ..plain_style() })
    &&& t.emph == (Style { italic: true, ..plain_style() })
    &&& t.strong == (Style { bold: true, ..plain_style() })
    &&& t.strikethrough == (Style { strikethrough: true, dim: true, ..plain_style() })
    &&& t.thematic_break == fg_only(Color::BrightBlack)
    &&& t.image_alt == fg_only(Color::Magenta)
}

/// Which of the six heading styles a heading of `level` uses: levels below
/// one use the first, levels above six the last.
pub open spec fn heading_index(level: u32) -> int {
    if level <= 1 {
        0
    } else if level >= 6 {
        5
    } else {
        level - 1
    }
}

impl Theme {
    pub fn dark() -> (t: Theme)
        ensures
            is_dark_theme(t),
    {
        Theme {
            heading: [
                Style::new().fg(Color::BrightCyan).bold(),
                Style::new().fg(Color::BrightMagenta).bold(),
                Style::new().fg(Color::BrightYellow).bold(),
                Style::new().fg(Color::BrightGreen).bold(),
                Style::new().fg(Color::BrightBlue).bold(),
                Style::new().fg(Color::BrightBlack).bold(),
            ],
            paragraph: Style::new(),
            blockquote: Style::new().dim(),
            blockquote_marker: Style::new().fg(Color::BrightBlack),
            list_marker: Style::new().fg(Color::BrightYellow),
            task_marker_done: Style::new().fg(Color::BrightGreen),
            task_marker_todo: Style::new().fg(Color::BrightBlack),
            code_inline: Style::new().fg(Color::Yellow),
            code_block: Style::new().fg(Color::BrightWhite),
            code_fence: Style::new().fg(Color::BrightBlack),
            link_text: Style::new().fg(Color::BrightBlue).underline(),
            link_url: Style::new().fg(Color::Blue).dim(),
            emph: Style::new().italic(),
            strong: Style::new().bold(),
            strikethrough: Style::new().strikethrough().dim(),
            thematic_break: Style::new().fg(Color::BrightBlack),
            image_alt: Style::new().fg(Color::Magenta),
        }
    }

    pub fn heading(&self, level: u32) -> (s: Style)
        ensures
            s == self.heading@[heading_index(level)],
    {
        let l = if level == 0 { 0 } else { level - 1 };
        let idx: usize = if l > 5 { 5 } else { l as usize };
        self.heading[idx]
    }
}

impl Default for Theme {
    fn default() -> (t: Theme)
        ensures
            is_dark_theme(t),
    {
        Theme::dark()
    }
}

} // verus!
