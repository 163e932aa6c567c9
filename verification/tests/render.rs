use markdown_browser::ast::{MdNode, NodeKind};
use markdown_browser::render::{parse_and_render, render_document, RenderOutput};
use markdown_browser::anchor::slugify;
use markdown_browser::highlight::{highlight_code, Highlighter};

fn render(input: &str) -> RenderOutput {
    parse_and_render(input, false)
}

fn line_text(out: &RenderOutput, i: usize) -> String {
    out.lines[i].spans.iter().map(|s| s.text.as_str()).collect()
}

#[test]
fn mermaid_block_is_captured() {
    let input = "before\n\n```mermaid\ngraph TD\nA-->B\n```\n\nafter\n";
    let out = render(input);
    assert_eq!(out.mermaid_blocks.len(), 1);
    let b = &out.mermaid_blocks[0];
    assert_eq!(b.source, "graph TD\nA-->B\n");
    assert!(b.start < b.end);
    let top_text = line_text(&out, b.start);
    let bot_text = line_text(&out, b.end);
    assert!(top_text.contains("mermaid"));
    assert_eq!(bot_text.trim(), "```");
}

#[test]
fn non_mermaid_code_block_is_ignored() {
    let input = "```rust\nfn main() {}\n```\n";
    let out = render(input);
    assert!(out.mermaid_blocks.is_empty());
}

#[test]
fn multiple_mermaid_blocks_are_captured_in_order() {
    let input =
        "```mermaid\ngraph TD\nA-->B\n```\n\nmiddle\n\n```mermaid\ngraph LR\nC-->D\n```\n";
    let out = render(input);
    assert_eq!(out.mermaid_blocks.len(), 2);
    assert!(out.mermaid_blocks[0].source.contains("A-->B"));
    assert!(out.mermaid_blocks[1].source.contains("C-->D"));
    assert!(out.mermaid_blocks[0].end < out.mermaid_blocks[1].start);
}

#[test]
fn mermaid_lang_match_is_case_insensitive() {
    let input = "```Mermaid\ngraph TD\nA-->B\n```\n";
    let out = render(input);
    assert_eq!(out.mermaid_blocks.len(), 1);
}

#[test]
fn showcase_renders_headings_lists_tables() {
    let input = "# Title\n\nSome *text* with a [link](other.md).\n\n- one\n- two\n\n> quote\n\n| a | b |\n|---|--:|\n| x | yy |\n";
    let out = render(input);
    let all: Vec<String> = (0..out.lines.len()).map(|i| line_text(&out, i)).collect();
    assert_eq!(all[0], "# Title");
    assert_eq!(out.anchors.len(), 1);
    assert_eq!(out.anchors[0].slug, "title");
    assert_eq!(out.anchors[0].line, 0);
    assert_eq!(all[2], "Some text with a link (other.md).");
    assert_eq!(out.links.len(), 1);
    assert_eq!(out.links[0].url, "other.md");
    assert_eq!(out.links[0].line, 2);
    assert_eq!(all[4], "• one");
    assert_eq!(all[5], "• two");
    assert_eq!(all[7], "│ quote");
    assert_eq!(all[9], "┌───┬────┐");
    assert_eq!(all[10], "│ a │  b │");
    assert_eq!(all[11], "├───┼────┤");
    assert_eq!(all[12], "│ x │ yy │");
    assert_eq!(all[13], "└───┴────┘");
    assert_eq!(all.len(), 14);
}

fn all_lines(out: &RenderOutput) -> Vec<String> {
    (0..out.lines.len()).map(|i| line_text(out, i)).collect()
}

#[test]
fn ordered_list_counts_from_its_start() {
    let out = render("3. three\n4. four\n");
    assert_eq!(all_lines(&out), vec!["3. three", "4. four"]);
}

#[test]
fn task_items_show_their_checkbox() {
    let out = render("- [x] done\n- [ ] todo\n");
    assert_eq!(all_lines(&out), vec!["[x] done", "[ ] todo"]);
}

#[test]
fn thematic_break_is_a_forty_column_rule() {
    let out = render("above\n\n***\n");
    let all = all_lines(&out);
    assert_eq!(all.len(), 3);
    assert_eq!(all[2], "─".repeat(40));
}

#[test]
fn code_block_has_fences_and_two_leaf_blocks() {
    let out = render("```text\nhello\n```\n");
    let all = all_lines(&out);
    assert_eq!(all, vec!["``` text", "hello", "```"]);
    let ranges: Vec<(usize, usize)> = out.blocks.iter().map(|b| (b.start, b.end)).collect();
    assert_eq!(ranges, vec![(1, 1), (0, 2)]);
}

#[test]
fn html_block_lines_are_kept_verbatim() {
    let out = render("<div>\nhi\n</div>\n");
    assert_eq!(all_lines(&out), vec!["<div>", "hi", "</div>"]);
}

#[test]
fn block_quote_lines_carry_the_bar() {
    let out = render("> one\n>\n> two\n");
    assert_eq!(all_lines(&out), vec!["│ one", "│ ", "│ two"]);
}

#[test]
fn heading_marker_matches_its_level() {
    let out = render("## Sub Title\n");
    assert_eq!(all_lines(&out), vec!["## Sub Title"]);
    assert_eq!(out.anchors.len(), 1);
    assert_eq!(out.anchors[0].level, 2);
    assert_eq!(out.anchors[0].text, "Sub Title");
    assert_eq!(out.anchors[0].slug, "sub-title");
}

#[test]
fn image_shows_alt_text_and_url() {
    let out = render("![alt](pic.png)\n");
    assert_eq!(all_lines(&out), vec!["🖼 alt (pic.png)"]);
    assert!(out.links.is_empty());
}

#[test]
fn hard_break_starts_a_new_line() {
    let out = render("first\\\nsecond\n");
    assert_eq!(all_lines(&out), vec!["first", "second"]);
}

#[test]
fn table_centres_a_column() {
    let out = render("| head | b |\n|:----:|---|\n| x | y |\n");
    let all = all_lines(&out);
    assert_eq!(all[0], "┌──────┬───┐");
    assert_eq!(all[1], "│ head │ b │");
    assert_eq!(all[3], "│  x   │ y │");
    assert_eq!(all.len(), 5);
}

#[test]
fn bare_table_rows_render_nothing() {
    let para = MdNode::new(NodeKind::Paragraph, vec![MdNode::leaf(NodeKind::Text("kept".to_string()))]);
    let row = MdNode::new(NodeKind::TableRow(false), vec![MdNode::leaf(NodeKind::TableCell)]);
    let doc = MdNode::new(NodeKind::Document, vec![para, row]);
    let out = render_document(&doc);
    // The separating blank line before the row is trimmed away.
    assert_eq!(all_lines(&out), vec!["kept"]);
}

#[test]
fn loose_list_items_are_separated_by_a_blank_line() {
    let out = render("- a\n\n- b\n");
    assert_eq!(all_lines(&out), vec!["• a", "", "• b"]);
}

#[test]
fn slugify_is_idempotent_and_ignores_ascii_case() {
    let t = "  Hello, World! -- 日本語_x ";
    let s = slugify(t);
    assert_eq!(s, "hello-world-日本語-x");
    assert_eq!(slugify(&s), s);
    assert_eq!(slugify(&t.to_ascii_uppercase()), s);
}

#[test]
fn anchors_come_in_line_order_with_their_slugs() {
    let out = parse_and_render("# A b\n\ntext\n\n## C-d\n\n### A b\n", false);
    let lines: Vec<usize> = out.anchors.iter().map(|a| a.line).collect();
    assert!(lines.windows(2).all(|w| w[0] < w[1]));
    for a in &out.anchors {
        assert_eq!(a.slug, slugify(&a.text));
        assert!(a.line < out.lines.len());
    }
}

#[test]
fn highlighted_code_has_one_line_per_source_line() {
    let h = Highlighter::new();
    assert_eq!(highlight_code(&h, "fn main() {}\nlet x = 1;\n", "rust").len(), 2);
    assert_eq!(highlight_code(&h, "a\n\nb", "").len(), 3);
    assert_eq!(highlight_code(&h, "", "rust").len(), 0);
    let line = &highlight_code(&h, "let x = 1;\n", "rust")[0];
    let text: String = line.spans.iter().map(|s| s.text.as_str()).collect();
    assert_eq!(text, "let x = 1;");
}

#[test]
fn table_lines_are_equally_wide() {
    let out = parse_and_render("| a | 日本語 |\n|---|:-:|\n| xyz | b |\n| 1 |\n", false);
    let widths: Vec<usize> = out
        .lines
        .iter()
        .filter(|l| !l.spans.is_empty())
        .map(|l| l.spans.iter().map(|s| markdown_browser::width::text_width(&s.text)).sum())
        .collect();
    assert_eq!(widths.len(), 6);
    assert!(widths.iter().all(|w| *w == widths[0]));
    assert_eq!(widths[0], 1 + (3 + 3) + (6 + 3));
}

#[test]
fn highlighted_lines_read_as_the_source_lines() {
    let h = Highlighter::new();
    let body = "fn main() {\n    let s = \"hi\";\n}\n";
    let lines = highlight_code(&h, body, "rust");
    let texts: Vec<String> = lines.iter().map(|l| l.spans.iter().map(|s| s.text.as_str()).collect()).collect();
    assert_eq!(texts, vec!["fn main() {", "    let s = \"hi\";", "}"]);
}

#[test]
fn slug_characters_follow_their_class() {
    assert_eq!(slugify("Tab\there"), "tab-here");
    assert_eq!(slugify("x\u{a0}y"), "x-y");
    assert_eq!(slugify("a~b(c)"), "abc");
    let t = "Ünïcode — Ωmega 42";
    assert!(slugify(t).chars().count() <= t.chars().count());
}
