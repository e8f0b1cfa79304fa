use redline::analysis::{analyze_diff, try_analyze_diff, try_categorize_change};
use redline::diff::{rich_diff, split_sentences};
use redline::drafts::{create_draft, create_draft_at, get_draft, list_drafts, restore_revision, save_revision, update_draft_meta};
use redline::export::export_md;
use redline::feedback::{add_feedback, list_feedback};
use redline::finalize::{finalize_draft, try_create_draft_with_context, try_finalize_draft};
use redline::lint::{lint_draft, try_lint_draft};
use redline::pairs::{
    add_lesson, add_lesson_at, add_pair, add_pair_at, delete_lesson, delete_pair, lessons, query,
    recent_pairs, show_pair,
};
use redline::patterns::{add_pattern, delete_pattern, list_patterns};
use redline::prompt::{system_prompt, try_user_message, user_message};
use redline::promote::promote_patterns;
use redline::search::search_all;
use redline::store::{DraftRecord, LearnError, Store};
use redline::summarize::summarize_lessons;

#[test]
fn sentences_join_back_to_the_text() {
    let text = "First one. Second!  Third? tail without stop";
    let parts = split_sentences(text);
    assert_eq!(parts, vec!["First one. ", "Second!  ", "Third? ", "tail without stop"]);
    assert_eq!(parts.concat(), text);
    assert!(split_sentences("").is_empty());
    assert_eq!(split_sentences("a.b"), vec!["a.b"]);
}

#[test]
fn created_draft_reads_back_and_saves_append() {
    let mut store = Store::new();
    let id = create_draft_at(&mut store, "v1", Some("ctx"), &["t".to_string()], "agent", "T0").unwrap();
    let d = get_draft(&store, id).unwrap();
    assert_eq!(d.draft.status, "draft");
    assert_eq!(d.draft.context.as_deref(), Some("ctx"));
    assert_eq!(d.draft.tags, vec!["t".to_string()]);
    assert_eq!(d.draft.created_at, "T0");
    assert_eq!(d.revisions.len(), 1);
    assert_eq!(d.revisions[0].content, "v1");
    assert!(d.working_diff.is_none());
    let r2 = save_revision(&mut store, id, "v2", "user").unwrap();
    let d = get_draft(&store, id).unwrap();
    assert_eq!(d.revisions.len(), 2);
    assert_eq!(d.revisions[0].content, "v1");
    assert_eq!(d.revisions[1].id, r2);
    assert_eq!(d.revisions[1].content, "v2");
    let wd = d.working_diff.expect("working diff");
    assert!(wd.iter().any(|r| r.kind == "removed"));
    // restoring copies the old content as a new revision
    let r3 = restore_revision(&mut store, id, d.revisions[0].id).unwrap();
    let d = get_draft(&store, id).unwrap();
    assert_eq!(d.revisions.len(), 3);
    assert_eq!(d.revisions[2].id, r3);
    assert_eq!(d.revisions[2].content, "v1");
    assert_eq!(d.revisions[2].source, "restore");
    assert_eq!(d.revisions[1].content, "v2");
}

#[test]
fn each_error_has_its_input() {
    let mut store = Store::new();
    // a lesson for a pair that does not exist
    assert_eq!(add_lesson(&mut store, 7, "x", &[]), Err(LearnError::ForeignKey));
    // a pattern linked to a lesson that does not exist
    assert_eq!(
        add_pattern(&mut store, Some(3), "r", "p", "literal", "avoid", "style", None, None),
        Err(LearnError::ForeignKey)
    );
    // a revision of a draft that does not exist
    assert_eq!(save_revision(&mut store, 5, "x", "user"), Err(LearnError::ForeignKey));
    // restoring a revision that the draft does not have
    let id = create_draft(&mut store, "a", None, &[], "agent").unwrap();
    assert_eq!(restore_revision(&mut store, id, 99), Err(LearnError::NoRows));
    // finalizing a draft that does not exist
    assert_eq!(finalize_draft(&mut store, 42), Err(LearnError::NoDraft(42)));
    // finalizing a draft without revisions
    store.drafts.push(DraftRecord {
        id: 2,
        context: None,
        tags: None,
        status: "draft".to_string(),
        finalized_pair_id: None,
        created_at: "t".to_string(),
        updated_at: "t".to_string(),
    });
    store.next_draft = 3;
    assert!(store.is_well_formed());
    assert_eq!(finalize_draft(&mut store, 2), Err(LearnError::NoRevisions(2)));
    // a table whose counter is exhausted
    store.next_pair = i64::MAX;
    assert_eq!(add_pair(&mut store, "a", "b", None, &[]), Err(LearnError::Full));
    assert!(store.pairs.is_empty());
}

#[test]
fn ids_are_never_reused() {
    let mut store = Store::new();
    let a = add_pair(&mut store, "a", "b", None, &[]).unwrap();
    delete_pair(&mut store, a);
    let b = add_pair(&mut store, "c", "d", None, &[]).unwrap();
    assert_eq!(a, 1);
    assert_eq!(b, 2);
    assert!(show_pair(&store, a).is_none());
}

#[test]
fn deleting_a_pair_unlinks_its_lessons_and_draft() {
    let mut store = Store::new();
    let d = create_draft(&mut store, "one\n", None, &[], "agent").unwrap();
    save_revision(&mut store, d, "two\n", "user").unwrap();
    let p = finalize_draft(&mut store, d).unwrap();
    let l = add_lesson(&mut store, p, "Say two", &["x".to_string()]).unwrap();
    delete_pair(&mut store, p);
    assert!(show_pair(&store, p).is_none());
    let ls = lessons(&store, &[]);
    assert_eq!(ls.len(), 1);
    assert_eq!(ls[0].id, l);
    assert_eq!(ls[0].pair_id, None);
    let dr = get_draft(&store, d).unwrap();
    assert_eq!(dr.draft.finalized_pair_id, None);
    assert_eq!(dr.draft.status, "finalized");
}

#[test]
fn deleting_a_lesson_keeps_pair_and_unlinks_patterns() {
    let mut store = Store::new();
    let p = add_pair(&mut store, "a", "b", None, &[]).unwrap();
    let l = add_lesson(&mut store, p, "rule", &[]).unwrap();
    let pat = add_pattern(&mut store, Some(l), "r", "a", "literal", "avoid", "style", None, None).unwrap();
    assert_eq!(list_patterns(&store, Some(l)).len(), 1);
    delete_lesson(&mut store, l);
    assert!(show_pair(&store, p).is_some());
    assert!(lessons(&store, &[]).is_empty());
    let ps = list_patterns(&store, None);
    assert_eq!(ps.len(), 1);
    assert_eq!(ps[0].id, pat);
    assert_eq!(ps[0].lesson_id, None);
    assert!(list_patterns(&store, Some(l)).is_empty());
    delete_pattern(&mut store, pat);
    assert!(list_patterns(&store, None).is_empty());
}

#[test]
fn promoting_twice_confirms_nothing_more() {
    let mut store = Store::new();
    add_pattern(&mut store, None, "No hey", "HEY", "literal", "avoid", "style", None, None).unwrap();
    for d in ["hey there", "Hey you", "oh hey"] {
        add_pair(&mut store, d, "Hi", None, &[]).unwrap();
    }
    let first = promote_patterns(&mut store);
    assert_eq!(first.len(), 1);
    assert_eq!(first[0].2, 3);
    assert_eq!(first[0].3, vec![1, 2, 3]);
    let second = promote_patterns(&mut store);
    assert!(second.is_empty());
}

#[test]
fn lint_reports_every_match_with_line_and_context() {
    let mut store = Store::new();
    add_pattern(&mut store, None, "No very", "Very", "literal", "avoid", "style", None, None)
        .unwrap();
    let v = lint_draft(&store, "very good\nand VERY nice");
    assert_eq!(v.len(), 2);
    assert_eq!(v[0].matched_text, "very");
    assert_eq!(v[0].line, 1);
    assert_eq!(v[1].matched_text, "VERY");
    assert_eq!(v[1].line, 2);
    // the window is taken around the first occurrence of the matched text,
    // with line feeds shown as spaces
    assert_eq!(v[0].context, "very good and VERY nice");
    assert_eq!(v[0].direction, "avoid");
}

#[test]
fn lint_prefer_is_case_insensitive_and_invalid_regex_is_skipped() {
    let mut store = Store::new();
    add_pattern(&mut store, None, "Say quick", "Quick", "literal", "prefer", "style", None, None).unwrap();
    add_pattern(&mut store, None, "Broken", "(", "regex", "avoid", "style", None, None).unwrap();
    assert!(lint_draft(&store, "QUICK note").is_empty());
    let v = lint_draft(&store, "slow note");
    assert_eq!(v.len(), 1);
    assert_eq!(v[0].context, "consider using: Quick");
    assert_eq!(v[0].line, 0);
    assert_eq!(v[0].matched_text, "");
}

#[test]
fn lint_refuses_a_window_that_splits_a_character() {
    let mut store = Store::new();
    add_pattern(&mut store, None, "No X", "x", "literal", "avoid", "style", None, None).unwrap();
    let content = format!("é{}X", "a".repeat(39));
    assert!(try_lint_draft(&store, &content).is_none());
    assert!(try_create_draft_with_context(&mut store, &content, None, &[], "agent").is_none());
    assert!(store.drafts.is_empty());
    assert_eq!(try_lint_draft(&store, "ax").map(|v| v.len()), Some(1));
}

#[test]
fn analysis_lists_regex_hits_and_refuses_uncuttable_descriptions() {
    let mut store = Store::new();
    add_pattern(&mut store, None, "Numbers", "[0-9]+", "regex", "avoid", "factual", None, None).unwrap();
    let p = add_pair(&mut store, "pay 5 now", "pay now", None, &[]).unwrap();
    let a = analyze_diff(&store, p).unwrap();
    assert_eq!(a.draft_pattern_hits.len(), 1);
    assert_eq!(a.draft_pattern_hits[0].rule, "Numbers");
    assert!(a.final_pattern_hits.is_empty());
    assert_eq!(a.categorized.len(), 1);
    assert_eq!(a.categorized[0].category, "factual");
    assert!(analyze_diff(&store, 99).is_none());
    // a deleted line whose 80th byte falls inside a character
    let long = format!("{}é", "a".repeat(79));
    assert!(try_categorize_change(&long, "").is_none());
    let q = add_pair(&mut store, &long, "", None, &[]).unwrap();
    assert!(try_analyze_diff(&store, q).is_none());
    let d = create_draft(&mut store, &long, None, &[], "agent").unwrap();
    save_revision(&mut store, d, "", "user").unwrap();
    let before = store.pairs.len();
    assert!(try_finalize_draft(&mut store, d).is_none());
    assert_eq!(store.pairs.len(), before);
}

#[test]
fn categorize_descriptions_and_structural_rewrites() {
    let c = try_categorize_change("  Deleted line.  ", "").unwrap();
    assert_eq!(c.description, "Deleted: \"Deleted line.\"");
    assert_eq!(c.before, "Deleted line.");
    let s = try_categorize_change("one two three four five", "one").unwrap();
    assert_eq!(s.category, "structural");
    assert_eq!(s.description, "Structural rewrite: \"one two three four five\" \u{2192} \"one\"");
    let r = try_categorize_change("a b c d e f g", "a b c d").unwrap();
    assert_eq!(r.category, "structural");
    let t = try_categorize_change("a b c d", "e f g h").unwrap();
    assert_eq!(t.category, "stylistic");
    let d = try_categorize_change("meet mar 14", "meet soon").unwrap();
    assert_eq!(d.category, "factual");
}

#[test]
fn export_renders_lessons_then_pairs() {
    let mut store = Store::new();
    assert_eq!(
        export_md(&store),
        "# Voice Lessons (exported)\n\n## Lessons\n\n_(none yet)_\n\n\n## Pairs\n\n"
    );
    let p = add_pair_at(&mut store, "Hi\n", "Hello\n", Some("ctx"), &["a".to_string()], "T1").unwrap();
    add_lesson_at(&mut store, p, "Say hello", &["a".to_string(), "b".to_string()], "T2").unwrap();
    let md = export_md(&store);
    assert_eq!(
        md,
        "# Voice Lessons (exported)\n\n## Lessons\n\n- **L1** (pair #1) a,b: Say hello  _T2_\n\n## Pairs\n\n### Pair #1 \u{2014} T1\ncontext: ctx\ntags: a\n\n#### Draft\n```\nHi\n```\n#### Final\n```\nHello\n```\n#### Diff\n```diff\n-Hi\n+Hello\n```\n\n"
    );
}

#[test]
fn user_message_describes_pair_analysis_and_lessons() {
    let mut store = Store::new();
    assert_eq!(user_message(&store, 1, None), Err(LearnError::NoRows));
    let p = add_pair(&mut store, "I wanted to reach out.", "Quick note.", Some("intro"), &["x".to_string()]).unwrap();
    add_lesson(&mut store, p, "Open with Quick note", &[]).unwrap();
    let m = user_message(&store, p, Some("[User]: hi")).unwrap();
    assert!(m.starts_with("Context: intro\nTags: x\n\n## Draft (AI wrote this):\nI wanted to reach out.\n"));
    assert!(m.contains("\n## Final (user edited to this):\nQuick note.\n"));
    assert!(m.contains("\n## Diff Analysis:\n"));
    assert!(m.contains("\n## Existing lessons (don't duplicate):\n- Open with Quick note\n"));
    assert!(m.ends_with("\n## Agent context (conversation that produced the draft):\n[User]: hi\n\nUse this context to understand WHY the draft was written this way.\nEdits may correct the agent's understanding (intent) or refine its execution (style).\n"));
    assert_eq!(try_user_message(&store, p, None).map(|r| r.is_ok()), Some(true));
    assert!(system_prompt().starts_with("You are a writing voice analyzer for redline, a system that learns how a user writes"));
}

#[test]
fn feedback_is_listed_newest_first() {
    let mut store = Store::new();
    add_feedback(&mut store, Some("lint"), "slow", "warning", Some(2), None).unwrap();
    add_feedback(&mut store, None, "nice", "info", None, Some("agent-1")).unwrap();
    let fb = list_feedback(&store);
    assert_eq!(fb.len(), 2);
    assert_eq!(fb[0].message, "nice");
    assert_eq!(fb[1].rating, Some(2));
    assert!(!fb[0].created_at.is_empty());
}

#[test]
fn drafts_list_open_ones_most_recent_first() {
    let mut store = Store::new();
    let a = create_draft_at(&mut store, "a", None, &[], "agent", "2024-01-01").unwrap();
    let b = create_draft_at(&mut store, "b", None, &[], "agent", "2024-01-02").unwrap();
    let c = create_draft_at(&mut store, "c", None, &[], "agent", "2024-01-03").unwrap();
    update_draft_meta(&mut store, a, Some("ctx"), &["z".to_string()]);
    let ds = list_drafts(&store, false);
    // `a` was updated just now, later than the fixed dates
    assert_eq!(ds.iter().map(|d| d.id).collect::<Vec<_>>(), vec![a, c, b]);
    assert_eq!(ds[0].context.as_deref(), Some("ctx"));
    let s = search_all(&store, "CTX");
    assert_eq!(s.drafts.len(), 1);
    let (pairs, ls) = query(&store, "nothing");
    assert!(pairs.is_empty() && ls.is_empty());
}

#[test]
fn recent_pairs_newest_first_and_limited() {
    let mut store = Store::new();
    for i in 0..5 {
        add_pair(&mut store, &format!("d{i}"), "f", None, &[]).unwrap();
    }
    let r = recent_pairs(&store, 3);
    assert_eq!(r.iter().map(|p| p.id).collect::<Vec<_>>(), vec![5, 4, 3]);
    assert_eq!(r[0].draft, "d4");
}

#[test]
fn summarize_reports_the_stub() {
    let store = Store::new();
    assert_eq!(
        summarize_lessons(&store),
        Ok("LLM summarization disabled. Set EMAIL_LEARN_LLM to enable (future: ollama | openai | mcp). Derivation stays in the agent session.".to_string())
    );
}

#[test]
fn now_iso_is_an_rfc3339_utc_time() {
    let t = redline::store::now_iso();
    assert!(t.ends_with("+00:00"), "{t}");
    let b = t.as_bytes();
    assert_eq!(b[4], b'-');
    assert_eq!(b[7], b'-');
    assert_eq!(b[10], b'T');
    assert_eq!(b[13], b':');
    assert_eq!(b[16], b':');
    assert!([25, 29, 32, 35].contains(&t.len()), "{t}");
}

#[test]
fn identical_texts_give_only_equal_rows() {
    let text = "One line.\nTwo lines.\r\nThree";
    let rows = rich_diff(text, text);
    assert_eq!(rows.len(), 3);
    for r in &rows {
        assert_eq!(r.kind, "equal");
        assert_eq!(r.segments.len(), 1);
        assert_eq!(r.segments[0].tag, "ctx");
    }
    assert_eq!(rows[1].segments[0].text, "Two lines.");
    // a "\r" that no "\n" follows also ends a line
    let old_mac = rich_diff("a\rb\n", "a\rb\n");
    let texts: Vec<&str> = old_mac.iter().map(|r| r.segments[0].text.as_str()).collect();
    assert_eq!(texts, vec!["a", "b"]);
}

#[test]
fn changed_amount_is_categorized_as_factual() {
    let c = try_categorize_change("Budget is $500", "Budget is $750").unwrap();
    assert_eq!(c.category, "factual");
    let d = try_categorize_change("Meet on mar 14", "Meet on mar 15").unwrap();
    assert_eq!(d.category, "factual");
}

#[test]
fn analysis_counts_one_change_per_changed_line() {
    let mut store = Store::new();
    let p = add_pair(
        &mut store,
        "Hey  \u{2014} budget is $500.\nTagline goes here.\nBye\n",
        "Hey. Budget is $750.\nBye\nP.S. thanks\n",
        None,
        &[],
    )
    .unwrap();
    let a = try_analyze_diff(&store, p).unwrap().unwrap();
    assert_eq!(a.categorized.len(), a.deletions.len() + a.additions.len());
    for t in a.deletions.iter().chain(a.additions.iter()) {
        assert_eq!(t.trim(), t.as_str());
    }
    for (d, n) in &a.word_swaps {
        assert!(!d.is_empty() && !n.is_empty());
        assert_eq!(d.trim(), d.as_str());
        assert_eq!(n.trim(), n.as_str());
    }
}
