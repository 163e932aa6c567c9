# markdown-browser

A terminal markdown browser: GFM tables, a table of contents, syntax-highlighted
code blocks, link following with history, search, yank to clipboard, a directory
browser, customizable keys and a live preview server for mermaid blocks.

The library under `src/` is written in Verus. Its contracts describe the
renderer and the browser over plain values, and Verus proves the code meets them.

## Layout

- `src/ast.rs`, `src/markdown.rs`: the markdown tree and how comrak's parse is
  copied into it.
- `src/inline.rs`, `src/block.rs`, `src/table.rs`, `src/render.rs`: rendering a
  tree into styled lines, with heading anchors, links, block ranges and mermaid
  blocks. `block_rendered` and its companions state what every kind of block
  renders to.
- `src/style.rs`, `src/theme.rs`, `src/ansi.rs`, `src/width.rs`, `src/wrap.rs`,
  `src/highlight.rs`: styles, the palette, ANSI output, display widths, wrapping
  and syntax highlighting.
- `src/browser.rs`, `src/display.rs`: the browser's state machine. `acted` states
  what each keymap action does; input, loading, clipboard and directory listing
  are requested as effects and reported back.
- `src/keymap.rs`, `src/chord.rs`: actions, key chords and the keymaps with their
  configuration.
- `src/search.rs`, `src/toc.rs`, `src/yank.rs`, `src/dirview.rs`, `src/links.rs`,
  `src/anchor.rs`, `src/source.rs`: search, the contents tree, yank ranges, the
  directory view, link targets, heading slugs and document sources.
- `src/preview.rs`, `src/cli.rs`: the preview server's routing and event stream,
  and the command line plan.
- `app/`: the program around the library (terminal, files, network, clipboard,
  the preview server's sockets).
- `tests/`: tests of the library through its public API.
