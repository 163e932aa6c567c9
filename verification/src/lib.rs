//! A terminal markdown browser: the rendering pipeline (markdown tree to
//! styled lines), the ANSI encoder, GFM table layout, and the pure state
//! logic of the interactive browser.

pub mod anchor;
pub mod ast;
pub mod block;
pub mod browser;
pub mod chord;
pub mod dirview;
pub mod display;
pub mod cli;
pub mod ansi;
pub mod highlight;
pub mod image;
pub mod inline;
pub mod keymap;
pub mod links;
pub mod markdown;
pub mod preview;
pub mod render;
pub mod search;
pub mod source;
pub mod style;
pub mod table;
pub mod text;
pub mod width;
pub mod wrap;
pub mod yank;
pub mod theme;
pub mod toc;
