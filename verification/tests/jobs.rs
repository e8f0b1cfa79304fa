use redline::deriver::{
    count_outcome, empty_tally, settle_job, JobOutcome,
    apply_tool_calls_at, count_lessons_for_pair, count_patterns_for_pair, enqueue, mark_done,
    mark_failed, mark_processing, pending_count, pending_jobs, ToolCall,
};
use redline::feedback::list_feedback;
use redline::pairs::{add_pair, lessons};
use redline::patterns::list_patterns;
use redline::store::{LearnError, Store};

#[test]
fn enqueue_and_pending_works() {
    let mut store = Store::new();
    // Need a pair first
    let pair_id = add_pair(&mut store, "draft", "final", None, &[]).unwrap();

    enqueue(&mut store, pair_id).unwrap();
    let pending = pending_jobs(&store);
    assert_eq!(pending.len(), 1);
    assert_eq!(pending[0].pair_id, pair_id);
    assert_eq!(pending[0].status, "pending");

    // idempotent — second enqueue is a no-op
    enqueue(&mut store, pair_id).unwrap();
    let pending2 = pending_jobs(&store);
    assert_eq!(pending2.len(), 1);
}

#[test]
fn mark_done_removes_from_pending() {
    let mut store = Store::new();
    let pair_id = add_pair(&mut store, "draft", "final", None, &[]).unwrap();
    enqueue(&mut store, pair_id).unwrap();
    mark_done(&mut store, 1);
    assert!(pending_jobs(&store).is_empty());
}

#[test]
fn mark_failed_retries_until_limit() {
    let mut store = Store::new();
    let pair_id = add_pair(&mut store, "draft", "final", None, &[]).unwrap();
    enqueue(&mut store, pair_id).unwrap();

    // attempt 1: stays pending (attempts 0 → 1, status back to pending)
    mark_failed(&mut store, 1, "err");
    assert_eq!(pending_jobs(&store).len(), 1);

    // attempt 2: stays pending (attempts 1 → 2, status back to pending)
    mark_failed(&mut store, 1, "err");
    assert_eq!(pending_jobs(&store).len(), 1);

    // attempt 3: marks failed (attempts 2 → 3, status → failed)
    mark_failed(&mut store, 1, "err");
    // failed with attempts >= 3 drops off pending
    assert_eq!(pending_jobs(&store).len(), 0);
}

#[test]
fn failed_job_records_attempts_and_error() {
    let mut store = Store::new();
    let pair_id = add_pair(&mut store, "draft", "final", None, &[]).unwrap();
    enqueue(&mut store, pair_id).unwrap();
    mark_processing(&mut store, 1);
    assert_eq!(store.jobs[0].status, "processing");
    assert!(pending_jobs(&store).is_empty());
    mark_failed(&mut store, 1, "timeout");
    assert_eq!(store.jobs[0].attempts, 1);
    assert_eq!(store.jobs[0].status, "pending");
    assert_eq!(store.jobs[0].error.as_deref(), Some("timeout"));
    mark_failed(&mut store, 1, "timeout");
    mark_failed(&mut store, 1, "timeout");
    assert_eq!(store.jobs[0].status, "failed");
    assert_eq!(store.jobs[0].attempts, 3);
    // out of retries: no longer counted as still to run
    assert_eq!(pending_count(&store), 0);
    // an unknown job id changes nothing
    mark_failed(&mut store, 99, "x");
    assert_eq!(store.jobs[0].attempts, 3);
}

#[test]
fn pending_count_counts_jobs_still_to_run() {
    let mut store = Store::new();
    let a = add_pair(&mut store, "a", "b", None, &[]).unwrap();
    let b = add_pair(&mut store, "c", "d", None, &[]).unwrap();
    let c = add_pair(&mut store, "e", "f", None, &[]).unwrap();
    enqueue(&mut store, a).unwrap();
    enqueue(&mut store, b).unwrap();
    enqueue(&mut store, c).unwrap();
    assert_eq!(pending_count(&store), 3);
    mark_done(&mut store, 1);
    mark_processing(&mut store, 2);
    assert_eq!(pending_count(&store), 1);
    assert_eq!(pending_jobs(&store).len(), 1);
    assert_eq!(pending_jobs(&store)[0].pair_id, c);
}

fn call(name: &str) -> ToolCall {
    ToolCall {
        name: name.to_string(),
        lesson: None,
        tags: Vec::new(),
        rule: None,
        pattern: None,
        pattern_type: None,
        direction: None,
        category: None,
        message: None,
        severity: None,
    }
}

#[test]
fn tool_calls_store_lessons_patterns_and_feedback() {
    let mut store = Store::new();
    let pair_id = add_pair(&mut store, "I wanted to reach out.", "Quick note.", None, &[]).unwrap();
    let mut lesson = call("add_lesson");
    lesson.lesson = Some("Use 'Quick note' instead of 'I wanted to reach out'".to_string());
    lesson.tags = vec!["opener".to_string()];
    let mut empty_lesson = call("add_lesson");
    empty_lesson.lesson = Some(String::new());
    let mut pattern = call("add_pattern");
    pattern.rule = Some("No reach out".to_string());
    pattern.pattern = Some("reach out".to_string());
    let mut no_rule = call("add_pattern");
    no_rule.pattern = Some("x".to_string());
    let mut fb = call("add_feedback");
    fb.message = Some("diff was clear".to_string());
    let silent_fb = call("add_feedback");
    let unknown = call("rename_pair");
    let calls = vec![lesson, empty_lesson, pattern, no_rule, fb, silent_fb, unknown];
    let n = apply_tool_calls_at(&mut store, pair_id, &calls, "2024-01-01T00:00:00Z").unwrap();
    // lesson, pattern and both feedback calls count; the skipped ones do not
    assert_eq!(n, 4);
    let ls = lessons(&store, &[]);
    assert_eq!(ls.len(), 1);
    assert_eq!(ls[0].pair_id, Some(pair_id));
    assert_eq!(ls[0].tags, vec!["opener".to_string()]);
    let ps = list_patterns(&store, None);
    assert_eq!(ps.len(), 1);
    assert_eq!(ps[0].pattern_type, "literal");
    assert_eq!(ps[0].direction, "avoid");
    assert_eq!(ps[0].category, "style");
    assert_eq!(ps[0].lesson_id, None);
    // a pattern was stored alongside the lesson, so no warning is recorded
    let fbs = list_feedback(&store);
    assert_eq!(fbs.len(), 1);
    assert_eq!(fbs[0].message, "diff was clear");
    assert_eq!(fbs[0].tool_name.as_deref(), Some("deriver"));
    assert_eq!(fbs[0].agent_id.as_deref(), Some("auto-deriver"));
    assert_eq!(count_lessons_for_pair(&store, pair_id), 1);
    assert_eq!(count_patterns_for_pair(&store, pair_id), 0);
}

#[test]
fn tool_call_for_missing_pair_is_refused() {
    let mut store = Store::new();
    let mut lesson = call("add_lesson");
    lesson.lesson = Some("something".to_string());
    let r = apply_tool_calls_at(&mut store, 42, &vec![lesson], "now");
    assert_eq!(r, Err(LearnError::ForeignKey));
    assert!(lessons(&store, &[]).is_empty());
}

#[test]
fn pending_count_skips_jobs_out_of_retries() {
    let mut store = Store::new();
    let a = add_pair(&mut store, "draft", "final", None, &[]).unwrap();
    enqueue(&mut store, a).unwrap();
    mark_failed(&mut store, 1, "err");
    mark_failed(&mut store, 1, "err");
    assert_eq!(pending_count(&store), 1);
    mark_failed(&mut store, 1, "err");
    assert_eq!(pending_count(&store), 0);
    assert!(pending_jobs(&store).is_empty());
}

#[test]
fn settling_outcomes_marks_jobs_and_counts_them() {
    let mut store = Store::new();
    let a = add_pair(&mut store, "a", "b", None, &[]).unwrap();
    let b = add_pair(&mut store, "c", "d", None, &[]).unwrap();
    enqueue(&mut store, a).unwrap();
    enqueue(&mut store, b).unwrap();
    let mut t = empty_tally();
    settle_job(&mut store, 1, &JobOutcome::Succeeded);
    t = count_outcome(t, &JobOutcome::Succeeded);
    let failed = JobOutcome::Failed("timeout".to_string());
    settle_job(&mut store, 2, &failed);
    t = count_outcome(t, &failed);
    settle_job(&mut store, 2, &JobOutcome::NotStarted);
    t = count_outcome(t, &JobOutcome::NotStarted);
    assert_eq!(store.jobs[0].status, "done");
    assert_eq!(store.jobs[1].status, "pending");
    assert_eq!(store.jobs[1].attempts, 1);
    assert_eq!(store.jobs[1].error.as_deref(), Some("timeout"));
    assert_eq!((t.processed, t.succeeded, t.failed), (3, 1, 1));
}

#[test]
fn lesson_with_pattern_gets_no_warning_but_lesson_alone_does() {
    let mut store = Store::new();
    let pair_id = add_pair(&mut store, "I wanted to reach out.", "Quick note.", None, &[]).unwrap();
    let mut lesson = call("add_lesson");
    lesson.lesson = Some("Use 'Quick note'".to_string());
    let mut pattern = call("add_pattern");
    pattern.rule = Some("No reach out".to_string());
    pattern.pattern = Some("reach out".to_string());
    let n = apply_tool_calls_at(&mut store, pair_id, &vec![lesson, pattern], "t1").unwrap();
    assert_eq!(n, 2);
    assert!(list_feedback(&store).is_empty());

    let other = add_pair(&mut store, "a", "b", None, &[]).unwrap();
    let mut only = call("add_lesson");
    only.lesson = Some("Be brief".to_string());
    assert_eq!(apply_tool_calls_at(&mut store, other, &vec![only], "t2").unwrap(), 1);
    let fbs = list_feedback(&store);
    assert_eq!(fbs.len(), 1);
    assert_eq!(fbs[0].severity, "warning");
    assert_eq!(
        fbs[0].message,
        format!("Pair {other} has 1 lessons but 0 patterns — lessons without patterns won't lint")
    );
}
