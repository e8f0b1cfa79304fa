use redline::analysis::{analyze_diff, categorize_change};
use redline::diff::{rich_diff, rich_diff_sentences, DiffRow};
use redline::drafts::{create_draft, delete_draft, get_draft, restore_revision, save_revision};
use redline::finalize::{create_draft_with_context, finalize_draft, finalize_draft_with_analysis};
use redline::lint::lint_draft;
use redline::pairs::{add_pair, recent_pairs, show_pair};
use redline::patterns::{add_pattern, list_patterns};
use redline::promote::promote_patterns;
use redline::search::search_all;
use redline::store::{PairRecord, Store, StoredDiff};

fn row_text(rows: &[DiffRow], kind: &str) -> String {
    rows.iter()
        .find(|r| r.kind == kind)
        .expect("row of that kind")
        .segments
        .iter()
        .map(|s| s.text.as_str())
        .collect()
}

#[test]
fn draft_edit_diff_finalize_restore_loop() {
    let mut store = Store::new();

    // agent pushes an original draft
    let id = create_draft(
        &mut store,
        "I wanted to reach out about the project.\n",
        Some("cold intro to investor"),
        &["pitch".to_string(), "external".to_string()],
        "agent",
    )
    .unwrap();

    // user edits it (the voice swap the agent should learn from)
    save_revision(&mut store, id, "Quick note on the project.\n", "user").unwrap();

    // working diff exists and is non-empty (original vs latest)
    let d = get_draft(&store, id).unwrap();
    assert_eq!(d.revisions.len(), 2);
    let wrows = d.working_diff.clone().expect("working diff");
    let removed_text = row_text(&wrows, "removed");
    assert!(removed_text.contains("reach out"), "removed line: {removed_text}");
    let added_text = row_text(&wrows, "added");
    assert!(added_text.contains("Quick"), "added line: {added_text}");

    // finalize -> writes a pair capturing the (original, edited) diff
    let pair_id = finalize_draft(&mut store, id).unwrap();
    let pair = show_pair(&store, pair_id).unwrap();
    assert_eq!(pair.draft, "I wanted to reach out about the project.\n");
    assert_eq!(pair.final_, "Quick note on the project.\n");
    let added_text = row_text(&pair.diff, "added");
    assert!(added_text.contains("Quick"), "pair added line: {added_text}");

    // the draft is now finalized and linked
    let d = get_draft(&store, id).unwrap();
    assert_eq!(d.draft.status, "finalized");
    assert_eq!(d.draft.finalized_pair_id, Some(pair_id));

    // restore the original: append-only, so 3 revisions now, history intact
    let first_rev_id = d.revisions[0].id;
    restore_revision(&mut store, id, first_rev_id).unwrap();
    let d = get_draft(&store, id).unwrap();
    assert_eq!(d.revisions.len(), 3);
    assert_eq!(d.revisions.last().unwrap().source, "restore");
    assert_eq!(
        d.revisions.last().unwrap().content,
        "I wanted to reach out about the project.\n"
    );
    // first revision still the original — never destroyed
    assert_eq!(
        d.revisions.first().unwrap().content,
        "I wanted to reach out about the project.\n"
    );
}

#[test]
fn search_finds_draft_by_revision_body() {
    let mut store = Store::new();
    create_draft(&mut store, "Schedule the quarterly review\n", None, &[], "agent").unwrap();
    let res = search_all(&store, "quarterly");
    assert_eq!(res.drafts.len(), 1);
    assert_eq!(res.lessons.len(), 0);
    assert_eq!(res.pairs.len(), 0);
}

#[test]
fn rich_diff_highlights_words_not_whole_lines() {
    // one line, one word changed — only that word should be flagged
    let rows = rich_diff("Quick note on the launch", "Quick note on the release");
    let removed: Vec<_> = rows.iter().filter(|r| r.kind == "removed").collect();
    let added: Vec<_> = rows.iter().filter(|r| r.kind == "added").collect();
    assert_eq!(removed.len(), 1, "one changed line on the removed side");
    assert_eq!(added.len(), 1, "one changed line on the added side");
    // only the changed word is marked del; the common words stay ctx
    let del_text: String = removed[0]
        .segments
        .iter()
        .filter(|s| s.tag == "del")
        .map(|s| s.text.as_str())
        .collect();
    assert_eq!(del_text.trim(), "launch");
    assert!(!del_text.contains("note"));
    let add_text: String = added[0]
        .segments
        .iter()
        .filter(|s| s.tag == "add")
        .map(|s| s.text.as_str())
        .collect();
    assert_eq!(add_text.trim(), "release");
}

#[test]
fn delete_draft_removes_draft_and_revisions_keeps_pair() {
    let mut store = Store::new();
    let id = create_draft(&mut store, "original\n", None, &[], "agent").unwrap();
    save_revision(&mut store, id, "edited\n", "user").unwrap();
    let pair_id = finalize_draft(&mut store, id).unwrap();
    assert!(show_pair(&store, pair_id).is_some());
    delete_draft(&mut store, id);
    // draft + its revisions gone
    assert!(get_draft(&store, id).is_none());
    let rev_count = store.revisions.iter().filter(|r| r.draft_id == id).count();
    assert_eq!(rev_count, 0);
    // the finalized pair (learning corpus) is left intact
    assert!(show_pair(&store, pair_id).is_some());
}

#[test]
fn show_pair_normalizes_legacy_plain_text_diff() {
    // A pair written before the rich-diff migration stores a plain unified
    // diff; reading it back must give structured rows.
    let mut store = Store::new();
    store.pairs.push(PairRecord {
        id: 1,
        draft: "Hey man,\nOption 1 works.\n".to_string(),
        final_: "Hi Carolina,\nThanks.\n".to_string(),
        diff: StoredDiff::Text("-Hey man,\n+Hi Carolina,\n+Thanks.\n".to_string()),
        context: Some("test".to_string()),
        tags: Some("[]".to_string()),
        created_at: redline::store::now_iso(),
    });
    store.next_pair = 2;
    assert!(store.is_well_formed());
    let pair = show_pair(&store, 1).expect("pair exists");
    let added = row_text(&pair.diff, "added");
    assert!(added.contains("Carolina"), "recomputed added line: {added}");
    // and recent_pairs must agree (same normalization path)
    let list = recent_pairs(&store, 10);
    assert_eq!(list[0].diff, pair.diff, "show_pair and recent_pairs agree");
}

#[test]
fn lint_catches_avoid_pattern_and_suggests_prefer() {
    let mut store = Store::new();

    // avoid pattern: em-dashes
    add_pattern(&mut store, None, "No em-dashes", "—", "literal", "avoid", "punctuation", None, None)
        .unwrap();
    // prefer pattern: use the word "quick" not "fast"
    add_pattern(
        &mut store,
        None,
        "Prefer quick over fast",
        "quick",
        "literal",
        "prefer",
        "style",
        None,
        None,
    )
    .unwrap();

    // content with an em-dash and no "quick" → 2 violations
    let v = lint_draft(&store, "Hey — that was fast.");
    assert_eq!(v.len(), 2, "should have 2 violations: em-dash + missing 'quick'");
    let has_emdash = v.iter().any(|x| x.rule == "No em-dashes");
    assert!(has_emdash, "em-dash violation present");
    let has_quick = v.iter().any(|x| x.direction == "prefer");
    assert!(has_quick, "prefer suggestion for missing 'quick'");

    // content that's clean → 0 violations
    let v2 = lint_draft(&store, "Hey. That was quick.");
    assert_eq!(v2.len(), 0, "clean content should have 0 violations");
}

#[test]
fn lint_regex_pattern_works() {
    let mut store = Store::new();
    add_pattern(&mut store, None, "No terse openers", r"^.{1,10}$", "regex", "avoid", "style", None, None)
        .unwrap();
    let v = lint_draft(&store, "Hi.");
    assert!(!v.is_empty(), "regex pattern should match terse 'Hi.'");
}

#[test]
fn analyze_diff_surfaces_word_swaps_and_pattern_hits() {
    let mut store = Store::new();
    // pattern: avoid em-dashes
    add_pattern(&mut store, None, "No em-dashes", "—", "literal", "avoid", "punctuation", None, None)
        .unwrap();
    // pair: draft had em-dash, final removed it
    let pair_id = add_pair(&mut store, "Hey — quick update.", "Hey. Quick update.", Some("test"), &[]).unwrap();
    let a = analyze_diff(&store, pair_id).expect("analysis exists");
    assert!(!a.word_swaps.is_empty(), "should have word swaps");
    assert!(!a.draft_pattern_hits.is_empty(), "draft should hit em-dash pattern");
    assert!(a.final_pattern_hits.is_empty(), "final should have no em-dash hits");
}

#[test]
fn sentence_diff_groups_by_sentence() {
    let old = "I wanted to reach out about the project.\nThis is really important.\nLet's talk next week.";
    let new = "Quick note on the project.\nThis matters a lot.\nLet's chat next week.";
    let sent_rows = rich_diff_sentences(old, new);
    // both should detect changes
    assert!(sent_rows.iter().any(|r| r.kind != "equal"), "should have changes");
    // each changed row should contain a full sentence, not a partial line fragment
    let changed_texts: Vec<String> = sent_rows
        .iter()
        .filter(|r| r.kind != "equal")
        .map(|r| r.segments.iter().map(|s| s.text.as_str()).collect::<String>())
        .collect();
    // at least one row should contain a complete sentence with punctuation
    assert!(
        changed_texts.iter().any(|t| t.contains('.') || t.contains('!') || t.contains('?')),
        "sentence diff rows should contain sentence-level text: {changed_texts:?}"
    );
}

#[test]
fn create_draft_with_context_returns_patterns_and_violations() {
    let mut store = Store::new();
    // seed a pattern
    add_pattern(&mut store, None, "No em-dashes", "—", "literal", "avoid", "punctuation", None, None)
        .unwrap();

    let ctx = create_draft_with_context(&mut store, "Hey — quick note.", Some("test"), &[], "agent")
        .unwrap();

    assert!(ctx.draft_id > 0);
    assert_eq!(ctx.patterns.len(), 1, "should return the stored pattern");
    assert!(!ctx.violations.is_empty(), "should detect em-dash violation");
    assert_eq!(ctx.violations[0].rule, "No em-dashes");
}

#[test]
fn finalize_with_analysis_returns_diff_data() {
    let mut store = Store::new();
    let id = create_draft(&mut store, "I wanted to reach out.\n", None, &[], "agent").unwrap();
    save_revision(&mut store, id, "Quick note.\n", "user").unwrap();

    let result = finalize_draft_with_analysis(&mut store, id).unwrap();
    assert!(result.pair_id > 0);
    assert!(
        !result.analysis.word_swaps.is_empty() || !result.analysis.deletions.is_empty(),
        "analysis should surface the diff"
    );
}

#[test]
fn promote_patterns_auto_confirms_at_three_occurrences() {
    let mut store = Store::new();
    add_pattern(&mut store, None, "No reach out", "reach out", "literal", "avoid", "style", None, None)
        .unwrap();

    // add 2 pairs with the pattern in the draft — not enough yet
    add_pair(&mut store, "I wanted to reach out.", "Quick note.", None, &[]).unwrap();
    add_pair(&mut store, "Going to reach out soon.", "Hi.", None, &[]).unwrap();
    let promoted = promote_patterns(&mut store);
    assert!(promoted.is_empty(), "should not promote at 2 occurrences");

    // add a 3rd pair with the pattern — now promotes
    add_pair(&mut store, "Wanted to reach out again.", "Hello.", None, &[]).unwrap();
    let promoted = promote_patterns(&mut store);
    assert_eq!(promoted.len(), 1, "should promote at 3 occurrences");
    assert_eq!(promoted[0].1, "No reach out");
    assert_eq!(promoted[0].2, 3, "3 occurrences");

    // verify confidence is now confirmed
    let pats = list_patterns(&store, None);
    assert_eq!(pats[0].confidence, "confirmed");
}

#[test]
fn categorize_change_detects_each_type() {
    // deletion: line removed with no replacement
    let d = categorize_change("This is important.", "");
    assert_eq!(d.category, "deletion");

    // structural: added line with no removed counterpart
    let s = categorize_change("", "Brand new paragraph here.");
    assert_eq!(s.category, "structural");

    // punctuation: em-dash to period
    let p = categorize_change("Hey — quick note", "Hey. Quick note");
    assert_eq!(p.category, "punctuation");

    // factual: number changed
    let f = categorize_change("Budget is $500", "Budget is $750");
    assert_eq!(f.category, "factual");

    // stylistic: word swap, same structure
    let st = categorize_change("I wanted to reach out", "Quick note on this");
    assert_eq!(st.category, "stylistic");
}

#[test]
fn analyze_diff_includes_categorized() {
    let mut store = Store::new();
    // pair with deletion, punctuation change, and factual change
    let pair_id = add_pair(
        &mut store,
        "Hey — budget is $500.\nTagline goes here.\n",
        "Hey. Budget is $750.\n",
        None,
        &[],
    )
    .unwrap();
    let a = analyze_diff(&store, pair_id).expect("analysis exists");
    assert!(!a.categorized.is_empty(), "should have categorized changes");
    // should have at least one deletion (the tagline)
    assert!(
        a.categorized.iter().any(|c| c.category == "deletion"),
        "should detect deletion: {:?}",
        a.categorized.iter().map(|c| c.category.clone()).collect::<Vec<_>>()
    );
}
