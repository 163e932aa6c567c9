use markdown_browser::preview::{format_event, json_string, route, PreviewHandle, Route, SseReader};

#[test]
fn json_string_escapes_required_chars() {
    assert_eq!(json_string("hello"), "\"hello\"");
    assert_eq!(json_string("a\"b"), "\"a\\\"b\"");
    assert_eq!(json_string("a\\b"), "\"a\\\\b\"");
    assert_eq!(json_string("line1\nline2"), "\"line1\\nline2\"");
    assert_eq!(json_string("tab\there"), "\"tab\\there\"");
    assert_eq!(json_string("ctl\x01"), "\"ctl\\u0001\"");
}

#[test]
fn format_event_shape() {
    let ev = format_event("mermaid", "graph TD\nA-->B");
    assert!(ev.starts_with("event: mermaid\n"));
    assert!(ev.contains("\"source\":\"graph TD\\nA-->B\""));
    assert!(ev.ends_with("\n\n"));
}

#[test]
fn handle_deduplicates_identical_sources() {
    let mut handle = PreviewHandle::new("http://127.0.0.1:0".to_string());
    let mut sent: Vec<String> = Vec::new();
    for src in ["graph TD\nA-->B", "graph TD\nA-->B", "graph LR\nC-->D"] {
        if let Some(ev) = handle.set_source(Some(src)) {
            sent.push(ev);
        }
    }
    // Exactly two events: the repeat is dropped.
    assert_eq!(sent.len(), 2);
    assert!(sent[0].contains("A-->B"));
    assert!(sent[1].contains("C-->D"));
}

#[test]
fn handle_set_source_none_is_noop() {
    let mut handle = PreviewHandle::new("http://127.0.0.1:0".to_string());
    assert!(handle.set_source(None).is_none());
    assert_eq!(handle.url(), "http://127.0.0.1:0");
}

#[test]
fn json_string_escapes_other_controls() {
    assert_eq!(json_string("\r"), "\"\\r\"");
    assert_eq!(json_string("\x08\x0c"), "\"\\b\\f\"");
    assert_eq!(json_string("\x1f"), "\"\\u001f\"");
    assert_eq!(json_string(""), "\"\"");
    assert_eq!(json_string("é"), "\"é\"");
}

#[test]
fn format_event_exact() {
    assert_eq!(
        format_event("mermaid", "a\"b"),
        "event: mermaid\ndata: {\"source\":\"a\\\"b\"}\n\n"
    );
}

#[test]
fn set_source_pushes_again_after_change() {
    let mut handle = PreviewHandle::new("http://x".to_string());
    assert!(handle.set_source(Some("A")).is_some());
    assert!(handle.set_source(None).is_none());
    assert!(handle.set_source(Some("A")).is_none());
    assert!(handle.set_source(Some("B")).is_some());
    assert!(handle.set_source(Some("A")).is_some());
}

#[test]
fn routes_requests() {
    assert_eq!(route(true, "/"), Route::Index);
    assert_eq!(route(true, "/index.html"), Route::Index);
    assert_eq!(route(true, "/mermaid.min.js"), Route::Script);
    assert_eq!(route(true, "/events"), Route::Events);
    assert_eq!(route(true, "/other"), Route::NotFound);
    assert_eq!(route(false, "/"), Route::MethodNotAllowed);
}

#[test]
fn sse_reader_hands_out_event_in_pieces() {
    let mut r = SseReader::new();
    assert!(r.needs_event());
    r.load(b"hello".to_vec());
    assert!(!r.needs_event());
    assert_eq!(r.take(2), b"he".to_vec());
    assert_eq!(r.take(10), b"llo".to_vec());
    assert!(r.needs_event());
    assert_eq!(r.take(4), Vec::<u8>::new());
}

#[test]
fn json_string_leaves_no_raw_control_character() {
    let r = json_string("a\u{1}b\u{1f}é\r");
    assert_eq!(r, "\"a\\u0001b\\u001fé\\r\"");
    assert!(r.chars().all(|c| (c as u32) >= 0x20));
}
