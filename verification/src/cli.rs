//! The command line: what the arguments ask for, decided before any I/O.

use vstd::prelude::*;

use crate::source::url_like;
use crate::source::is_url;
use crate::preview::str_eq;

verus! {

/// The parsed command line.
#[derive(Debug, Clone)]
pub struct Cli {
    pub command: Option<Command>,
    /// Markdown file, directory (opens README + the directory browser), or
    /// `http(s)://` URL to open. `-` or nothing reads from stdin.
    pub file: Option<String>,
    /// Leave GitHub-style emoji shortcodes (`:rocket:`) as text.
    pub no_emoji: bool,
    /// Do not start the embedded mermaid preview server.
    pub no_mermaid: bool,
    /// Port for the mermaid preview server; the OS picks one when absent.
    pub mermaid_port: Option<u16>,
}

/// A subcommand.
#[derive(Debug, Clone)]
pub enum Command {
    /// Render a markdown file as styled text to stdout.
    Render {
        file: Option<String>,
        /// Force ANSI color even when stdout is not a terminal.
        color: bool,
        /// No ANSI color even when stdout is a terminal.
        no_color: bool,
    },
}

/// Whether rendered output is colored.
#[derive(Debug, Clone, Copy, PartialEq, Eq, Structural)]
pub enum ColorChoice {
    Auto,
    Always,
    Never,
}

impl ColorChoice {
    /// `--color` wins over `--no-color`; with neither, color follows the
    /// terminal.
    pub fn resolve(color: bool, no_color: bool) -> (c: ColorChoice)
        ensures
            c == (if color {
                ColorChoice::Always
            } else if no_color {
                ColorChoice::Never
            } else {
                ColorChoice::Auto
            }),
    {
        if color {
            ColorChoice::Always
        } else if no_color {
            ColorChoice::Never
        } else {
            ColorChoice::Auto
        }
    }

    /// Whether to emit color, given whether stdout is a terminal.
    pub fn use_color(self, stdout_is_terminal: bool) -> (b: bool)
        ensures
            b == match self {
                ColorChoice::Always => true,
                ColorChoice::Never => false,
                ColorChoice::Auto => stdout_is_terminal,
            },
    {
        match self {
            ColorChoice::Always => true,
            ColorChoice::Never => false,
            ColorChoice::Auto => stdout_is_terminal,
        }
    }
}

/// How the embedded mermaid preview server is to run.
#[derive(Debug, Clone, Copy, PartialEq, Eq, Structural)]
pub struct PreviewConfig {
    pub enabled: bool,
    pub port: Option<u16>,
}

/// What the program is to do.
#[derive(Debug, Clone)]
pub enum RunPlan {
    /// Render `file` to stdout once.
    Render { file: Option<String>, color: ColorChoice, emoji: bool },
    /// Open the interactive browser on `file`; with none, or `-`, the
    /// document is read from stdin.
    Browse { file: Option<String>, emoji: bool, preview: PreviewConfig },
}

/// Decide what the command line asks for.
pub fn run(cli: Cli) -> (plan: RunPlan)
    ensures
        match cli.command {
            Some(Command::Render { file, color, no_color }) => plan == RunPlan::Render {
                file,
                color: if color {
                    ColorChoice::Always
                } else if no_color {
                    ColorChoice::Never
                } else {
                    ColorChoice::Auto
                },
                emoji: !cli.no_emoji,
            },
            None => plan == RunPlan::Browse {
                file: cli.file,
                emoji: !cli.no_emoji,
                preview: PreviewConfig { enabled: !cli.no_mermaid, port: cli.mermaid_port },
            },
        },
{
    let emoji = !cli.no_emoji;
    match cli.command {
        Some(Command::Render { file, color, no_color }) => RunPlan::Render {
            file,
            color: ColorChoice::resolve(color, no_color),
            emoji,
        },
        None => RunPlan::Browse {
            file: cli.file,
            emoji,
            preview: PreviewConfig { enabled: !cli.no_mermaid, port: cli.mermaid_port },
        },
    }
}

/// Where the render command reads its markdown from.
#[derive(Debug, Clone, PartialEq, Eq)]
pub enum InputSource {
    Stdin,
    Url(String),
    File(String),
}

/// A path of `-`, or none, reads stdin; an `http(s)://` address is fetched;
/// anything else is a file.
pub fn input_source(file: Option<&str>) -> (r: InputSource)
    ensures
        match file {
            Some(p) => if p@ == "-"@ {
                r == InputSource::Stdin
            } else if url_like(p@) {
                r matches InputSource::Url(u) && u@ == p@
            } else {
                r matches InputSource::File(f) && f@ == p@
            },
            None => r == InputSource::Stdin,
        },
{
    match file {
        Some(p) => {
            if str_eq(p, "-") {
                InputSource::Stdin
            } else if is_url(p) {
                InputSource::Url(p.to_string())
            } else {
                InputSource::File(p.to_string())
            }
        },
        None => InputSource::Stdin,
    }
}

} // verus!
