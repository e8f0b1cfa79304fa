use redline::diff::{compute_diff, render_diff_plain, rich_diff, split_sentences, trim_line, unified_diff, DiffRow, DiffSegment};
use redline::pi::{
    model_config_from, scan_model, session_from_meta, transcript_of, try_transcript_of, AuthLookup,
    Block, LogEntry, SessionMeta,
};
use redline::tags::{parse_tags, tags_to_json};
use redline::text::{preview, session_dir_name, truncate_str};

#[test]
fn preview_truncates_and_collapses() {
    assert_eq!(preview("hello   world\nfoo", 20), "hello world foo");
    let long = "word ".repeat(50);
    let p = preview(&long, 10);
    assert!(p.ends_with('…'));
    assert_eq!(p.chars().count(), 11); // 10 + ellipsis
}

#[test]
fn session_dir_naming() {
    // The session dir naming replaces / with - in the cwd path
    let cwd = "/Users/test/projects/my-app";
    let dir_name = session_dir_name(cwd);
    assert_eq!(dir_name, "--Users-test-projects-my-app-");
}

#[test]
fn render_plain_prefixes_each_row() {
    let rows = vec![
        DiffRow { kind: "equal".to_string(), segments: vec![DiffSegment { tag: "ctx".to_string(), text: "a".to_string() }] },
        DiffRow { kind: "removed".to_string(), segments: vec![DiffSegment { tag: "del".to_string(), text: "b".to_string() }] },
        DiffRow {
            kind: "added".to_string(),
            segments: vec![
                DiffSegment { tag: "add".to_string(), text: "c".to_string() },
                DiffSegment { tag: "ctx".to_string(), text: "d".to_string() },
            ],
        },
    ];
    assert_eq!(render_diff_plain(&rows), " a\n-b\n+cd\n");
    assert_eq!(render_diff_plain(&[]), "");
}

#[test]
fn unified_diff_of_one_changed_line() {
    assert_eq!(unified_diff("same\nold", "same\nnew"), " same\n-old\n+new\n");
    assert_eq!(unified_diff("a\n", "b\n"), "-a\n+b\n");
    assert_eq!(unified_diff("a\r\nb\r\n", "a\r\nb\r\n"), " a\n b\n");
    assert_eq!(unified_diff("a", "a"), " a\n");
}

#[test]
fn rich_diff_unpaired_lines_are_whole_rows() {
    let rows = rich_diff("keep\ngone\n", "keep\n");
    assert_eq!(rows.len(), 2);
    assert_eq!(rows[0].kind, "equal");
    assert_eq!(rows[1].kind, "removed");
    assert_eq!(rows[1].segments.len(), 1);
    assert_eq!(rows[1].segments[0].tag, "del");
    assert_eq!(rows[1].segments[0].text, "gone");
}

#[test]
fn compute_diff_sentence_mode_splits_sentences() {
    let lines = compute_diff("One. Two.", "One. Three.", None);
    assert_eq!(lines.iter().filter(|r| r.kind == "removed").count(), 1);
    let sentences = compute_diff("One. Two.", "One. Three.", Some("sentences"));
    assert_eq!(sentences[0].kind, "equal");
    assert!(sentences.iter().any(|r| r.kind == "added"));
}

#[test]
fn tags_round_trip_through_json() {
    let tags = vec!["pitch".to_string(), "ex\"ternal".to_string()];
    let json = tags_to_json(&tags);
    assert_eq!(json, "[\"pitch\",\"ex\\\"ternal\"]");
    assert_eq!(parse_tags(Some(json.as_str())), tags);
    assert!(parse_tags(None).is_empty());
    assert!(parse_tags(Some("")).is_empty());
    assert!(parse_tags(Some("not json")).is_empty());
    let empty: Vec<String> = Vec::new();
    assert_eq!(tags_to_json(&empty), "[]");
    assert_eq!(parse_tags(Some(tags_to_json(&empty).as_str())), empty);
    let odd = vec!["line\nbreak".to_string(), "tab\tand\\slash".to_string(), "é✓".to_string()];
    assert_eq!(parse_tags(Some(tags_to_json(&odd).as_str())), odd);
}

#[test]
fn truncate_cuts_at_byte_offset() {
    assert_eq!(truncate_str("hello", 3), "hel");
    assert_eq!(truncate_str("hi", 3), "hi");
}

fn text_block(t: &str) -> Block {
    Block::Text { text: Some(t.to_string()) }
}

#[test]
fn transcript_renders_messages_tools_and_models() {
    let entries = vec![
        LogEntry::ModelChange { provider: Some("anthropic".to_string()), model_id: None },
        LogEntry::Message {
            role: Some("user".to_string()),
            content: Some(vec![text_block("Write the intro email"), Block::Other, text_block("")]),
        },
        LogEntry::Message {
            role: None,
            content: Some(vec![
                Block::ToolCall { name: Some("create_draft".to_string()), arguments: Some("{\"a\":1}".to_string()) },
                Block::ToolResult { tool_name: None },
            ]),
        },
        LogEntry::Message { role: Some("assistant".to_string()), content: None },
        LogEntry::Other,
    ];
    let t = transcript_of(&entries).expect("non-empty transcript");
    assert_eq!(
        t,
        "\n[model: anthropic/?]\n\n[User]: Write the intro email\n\n[tool_call: create_draft({\"a\":1})]\n\n[tool_result: unknown]\n"
    );
    assert_eq!(transcript_of(&vec![LogEntry::Other]), None);
}

#[test]
fn transcript_cuts_long_tool_arguments() {
    let args = "x".repeat(250);
    let entries = vec![LogEntry::Message {
        role: Some("assistant".to_string()),
        content: Some(vec![Block::ToolCall { name: None, arguments: Some(args) }]),
    }];
    let t = transcript_of(&entries).unwrap();
    assert_eq!(t, format!("\n[tool_call: unknown({}...)]\n", "x".repeat(200)));
    // a cut inside a multi-byte character cannot be made
    let bad = format!("{}é", "x".repeat(199));
    let entries = vec![LogEntry::Message {
        role: None,
        content: Some(vec![Block::ToolCall { name: None, arguments: Some(bad) }]),
    }];
    assert!(try_transcript_of(&entries).is_none());
}

#[test]
fn latest_model_keeps_earlier_fields() {
    let entries = vec![
        LogEntry::ModelChange { provider: Some("openai".to_string()), model_id: Some("gpt".to_string()) },
        LogEntry::Other,
        LogEntry::ModelChange { provider: None, model_id: Some("o3".to_string()) },
    ];
    let (p, m) = scan_model(&entries);
    assert_eq!(p.as_deref(), Some("openai"));
    assert_eq!(m.as_deref(), Some("o3"));
}

#[test]
fn session_needs_session_event_with_id_and_cwd() {
    let meta = SessionMeta {
        kind: Some("session".to_string()),
        id: Some("abc".to_string()),
        cwd: Some("/w".to_string()),
    };
    let s = session_from_meta(&meta, "/s/a.jsonl", Some("p".to_string()), None).unwrap();
    assert_eq!(s.session_id, "abc");
    assert_eq!(s.cwd, "/w");
    assert_eq!(s.session_file, "/s/a.jsonl");
    let other = SessionMeta { kind: Some("message".to_string()), id: Some("abc".to_string()), cwd: Some("/w".to_string()) };
    assert!(session_from_meta(&other, "/s/a.jsonl", None, None).is_none());
    let no_id = SessionMeta { kind: Some("session".to_string()), id: None, cwd: Some("/w".to_string()) };
    assert!(session_from_meta(&no_id, "/s/a.jsonl", None, None).is_none());
}

#[test]
fn model_config_prefers_models_key_then_auth() {
    let c = model_config_from(Some("p"), Some("m"), Some("http://x"), Some("k1"), &AuthLookup::Unusable).unwrap();
    assert_eq!(c.api_key.as_deref(), Some("k1"));
    let c = model_config_from(Some("p"), Some("m"), Some("http://x"), None, &AuthLookup::Key(Some("k2".to_string()))).unwrap();
    assert_eq!(c.api_key.as_deref(), Some("k2"));
    assert_eq!(c.base_url, "http://x");
    let c = model_config_from(Some("p"), Some("m"), Some("http://x"), None, &AuthLookup::Unreadable).unwrap();
    assert_eq!(c.api_key, None);
    assert!(model_config_from(Some("p"), Some("m"), Some("http://x"), None, &AuthLookup::Unusable).is_none());
    assert!(model_config_from(None, Some("m"), Some("http://x"), None, &AuthLookup::Unreadable).is_none());
}

fn side_lines(rows: &[DiffRow], skip: &str) -> Vec<String> {
    rows.iter()
        .filter(|r| r.kind != skip)
        .map(|r| r.segments.iter().map(|s| s.text.as_str()).collect::<String>())
        .collect()
}

#[test]
fn rich_diff_rows_show_every_line_of_both_sides() {
    let old = "Hi Sam,\nThe launch is Friday.\nThanks\r\nAna\n";
    let new = "Hi Sam,\nThe release is Monday.\nNew line here.\nThanks\r\nAna\n";
    let rows = rich_diff(old, new);
    assert_eq!(
        side_lines(&rows, "added"),
        vec!["Hi Sam,", "The launch is Friday.", "Thanks", "Ana"]
    );
    assert_eq!(
        side_lines(&rows, "removed"),
        vec!["Hi Sam,", "The release is Monday.", "New line here.", "Thanks", "Ana"]
    );
}

#[test]
fn sentences_keep_their_trailing_white_space() {
    assert_eq!(split_sentences("Hi. Bye."), vec!["Hi. ", "Bye."]);
    assert_eq!(split_sentences("Wait!  Really?\nYes"), vec!["Wait!  ", "Really?\n", "Yes"]);
    assert_eq!(split_sentences("Pi is 3.14 today."), vec!["Pi is 3.14 today."]);
    assert_eq!(split_sentences("End. "), vec!["End. "]);
    assert!(split_sentences("").is_empty());
}

#[test]
fn trim_line_takes_off_each_line_ending() {
    assert_eq!(trim_line("abc\n"), "abc");
    assert_eq!(trim_line("abc\r\n"), "abc");
    assert_eq!(trim_line("abc"), "abc");
    assert_eq!(trim_line("abc\n\n"), "abc\n");
}
