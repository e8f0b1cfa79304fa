//! Properties of the library as a whole: what operations keep, what one
//! call gives back of another, and what stays unchanged.
use vstd::prelude::*;

use crate::diff::{is_terminator, sentence_state, sentences};
use crate::text::{is_white_space, lemma_trimmed_idempotent, trimmed};
use crate::analysis::{
    analyze_spec, cats_of, paired_at, row_step, tag_words, walk, walk_join, zip_pairs, WalkV,
};
use crate::diff::{
    lemma_rows_from_shaped, line_state, line_tokens, rows_shaped, trim_line_spec, RowV, SegV,
};
use crate::drafts::{
    draft_id_is, draft_id_not, get_draft_spec, restore_revision_spec, revision_match, revision_of,
    save_revision_spec, without_draft,
};
use crate::drafts::{touch_draft, with_revision};
use crate::pairs::{pair_id_is, pair_id_not, unlink_lesson, without_lesson, without_pair};
use crate::seqs::{first_index, first_match, lemma_first_index_bounds, select_asc};
use crate::bytes::byte_slice;
use crate::deriver::{enqueue_spec, job_failed, job_for_pair, job_pending};
use crate::diff::rich_diff_spec;
use crate::drafts::{create_draft_spec, with_draft, DraftFullOut, DraftOut};
use crate::finalize::{finalize_row, finalize_spec, lemma_new_pair_found, mark_finalized};
use crate::lint::{
    line_of, pattern_spans, pattern_violations, prefer_violation, regex_find_spans, spans_ok,
    ViolationV,
};
use crate::pairs::{
    limit, new_pair, pair_keep, pair_out, recent_pairs_spec, show_pair_spec, with_pair, PairOut,
};
use crate::promote::{confirm, pattern_pair_ids, promotable, promoted_store, promotions};
use crate::seqs::lemma_select_desc_members;
use crate::seqs::select_desc;
use crate::store::{DraftV, JobV, LearnError, LessonV, PairV, PatternV, RevisionV, StoreV};
use crate::tags::{parse_tags_spec, tags_json_spec};

verus! {

/// The characters of all `items`, in order.
pub open spec fn concat(items: Seq<Seq<char>>) -> Seq<char>
    decreases items.len(),
{
    if items.len() == 0 {
        seq![]
    } else {
        concat(items.drop_last()) + items.last()
    }
}

/// Whether `t` ends a sentence: '.', '!' or '?' followed by white space
/// only, at least one character of it.
pub open spec fn ends_sentence(t: Seq<char>) -> bool {
    exists|j: int|
        0 <= j && j + 1 < t.len() && is_terminator(#[trigger] t[j]) && forall|m: int|
            j < m < t.len() ==> is_white_space(#[trigger] t[m])
}

proof fn lemma_sentence_state(s: Seq<char>, i: nat)
    requires
        i <= s.len(),
    ensures
        ({
            let (done, cur, at) = sentence_state(s, i);
            &&& concat(done) + cur == s.take(i as int)
            &&& forall|k: int|
                0 <= k < done.len() ==> (#[trigger] done[k]).len() > 0 && ends_sentence(done[k])
            &&& forall|k: int| 0 < k < done.len() ==> !is_white_space(#[trigger] done[k][0])
            &&& done.len() > 0 ==> cur.len() > 0 && !is_white_space(cur[0])
            &&& at == 1 ==> cur.len() > 0 && is_terminator(cur.last())
            &&& at == 2 ==> ends_sentence(cur)
        }),
    decreases i,
{
    if i > 0 {
        lemma_sentence_state(s, (i - 1) as nat);
        let (done, cur, at) = sentence_state(s, (i - 1) as nat);
        let c = s[i - 1];
        assert(s.take(i as int) =~= s.take(i - 1).push(c));
        if at == 2 && !is_white_space(c) {
            let j = choose|j: int|
                0 <= j && j + 1 < cur.len() && is_terminator(#[trigger] cur[j]) && forall|m: int|
                    j < m < cur.len() ==> is_white_space(#[trigger] cur[m]);
            assert(cur[j] == cur[j]);
            assert(done.push(cur).drop_last() =~= done);
            assert(concat(done.push(cur)) =~= concat(done) + cur);
            assert(concat(done.push(cur)) + seq![c] =~= s.take(i as int));
            let d2 = done.push(cur);
            assert forall|k: int| 0 <= k < d2.len() implies (#[trigger] d2[k]).len() > 0
                && ends_sentence(d2[k]) by {
                if k == done.len() {
                    assert(d2[k] == cur);
                }
            }
            assert forall|k: int| 0 < k < d2.len() implies !is_white_space(#[trigger] d2[k][0]) by {
                if k == done.len() {
                    assert(d2[k] == cur);
                }
            }
        } else {
            let cur2 = cur.push(c);
            assert(concat(done) + cur2 =~= s.take(i as int));
            if is_white_space(c) && at == 1 && !is_terminator(c) {
                let j = cur.len() - 1;
                assert(cur2[j] == cur.last());
                assert forall|m: int| j < m < cur2.len() implies is_white_space(#[trigger] cur2[m]) by {
                    assert(m == cur.len());
                }
                assert(is_terminator(cur2[j]));
                assert(ends_sentence(cur2));
            }
            if is_white_space(c) && at == 2 && !is_terminator(c) {
                let j = choose|j: int|
                    0 <= j && j + 1 < cur.len() && is_terminator(#[trigger] cur[j]) && forall|m: int|
                        j < m < cur.len() ==> is_white_space(#[trigger] cur[m]);
                assert(cur2[j] == cur[j]);
                assert forall|m: int| j < m < cur2.len() implies is_white_space(#[trigger] cur2[m]) by {
                    if m < cur.len() {
                        assert(cur2[m] == cur[m]);
                    }
                }
                assert(ends_sentence(cur2));
            }
            if done.len() > 0 {
                assert(cur2[0] == cur[0]);
            }
        }
    }
}

/// Splitting into sentences loses and adds nothing: the sentences, joined
/// back, are the text, and none of them is empty. Each sentence but the
/// last ends with '.', '!' or '?' and the white space after it; each one
/// but the first starts with a character that is not white space.
pub proof fn law_sentences_cover_text(s: Seq<char>)
    ensures
        concat(sentences(s)) == s,
        forall|k: int| 0 <= k < sentences(s).len() ==> (#[trigger] sentences(s)[k]).len() > 0,
        forall|k: int|
            0 <= k < sentences(s).len() - 1 ==> ends_sentence(#[trigger] sentences(s)[k]),
        forall|k: int|
            0 < k < sentences(s).len() ==> !is_white_space(#[trigger] sentences(s)[k][0]),
{
    lemma_sentence_state(s, s.len());
    assert(s.take(s.len() as int) =~= s);
    let (done, cur, at) = sentence_state(s, s.len());
    if cur.len() > 0 {
        let r = done.push(cur);
        assert(r.drop_last() =~= done);
        assert(concat(r) == concat(done) + cur);
        assert forall|k: int| 0 <= k < r.len() implies (#[trigger] r[k]).len() > 0 by {
            if k < done.len() {
                assert(r[k] == done[k]);
            }
        }
        assert forall|k: int| 0 <= k < r.len() - 1 implies ends_sentence(#[trigger] r[k]) by {
            assert(r[k] == done[k]);
        }
        assert forall|k: int| 0 < k < r.len() implies !is_white_space(#[trigger] r[k][0]) by {
            if k < done.len() {
                assert(r[k] == done[k]);
            }
        }
    } else {
        assert(concat(done) + cur =~= concat(done));
        if done.len() > 0 {
            assert(false);
        }
    }
}

/// Saving a revision never rewrites history: on success exactly one
/// revision (the new one) is appended and every earlier one is kept; on
/// failure nothing changes.
pub proof fn law_save_revision_appends(
    s: StoreV,
    draft_id: i64,
    content: Seq<char>,
    source: Seq<char>,
    now: Seq<char>,
)
    ensures
        match save_revision_spec(s, draft_id, content, source, now) {
            (Ok(id), s2) => s2.revisions == s.revisions.push(
                RevisionV { id, draft_id, content, source, created_at: now },
            ) && s2.pairs == s.pairs && s2.lessons == s.lessons,
            (Err(_), s2) => s2 == s,
        },
{
}

/// Restoring a revision appends a copy of it (source "restore") and keeps
/// every earlier revision; it is refused, changing nothing, when the draft
/// has no such revision.
pub proof fn law_restore_appends_copy(s: StoreV, draft_id: i64, rev_id: i64, now: Seq<char>)
    ensures
        match restore_revision_spec(s, draft_id, rev_id, now) {
            (Ok(id), s2) => exists|k: int|
                0 <= k < s.revisions.len() && s.revisions[k].id == rev_id
                    && s.revisions[k].draft_id == draft_id && s2.revisions == s.revisions.push(
                    RevisionV {
                        id,
                        draft_id,
                        content: s.revisions[k].content,
                        source: "restore"@,
                        created_at: now,
                    },
                ),
            (Err(_), s2) => s2 == s,
        },
{
    lemma_first_index_bounds(s.revisions, revision_match(draft_id, rev_id));
    if let Some(k) = first_index(s.revisions, revision_match(draft_id, rev_id)) {
        assert(revision_match(draft_id, rev_id)(s.revisions[k]));
    }
}

/// Deleting a draft removes it and all its revisions and leaves every pair
/// (the learning corpus) and every lesson as it was.
pub proof fn law_delete_draft_keeps_pairs(s: StoreV, id: i64)
    ensures
        get_draft_spec(without_draft(s, id), id) is None,
        select_asc(without_draft(s, id).revisions, revision_of(id)).len() == 0,
        without_draft(s, id).pairs == s.pairs,
        without_draft(s, id).lessons == s.lessons,
{
    let s2 = without_draft(s, id);
    crate::seqs::lemma_select_asc_members(s.drafts, draft_id_not(id));
    lemma_first_index_bounds(s2.drafts, draft_id_is(id));
    if let Some(k) = first_index(s2.drafts, draft_id_is(id)) {
        assert(draft_id_not(id)(s2.drafts[k]));
    }
    crate::seqs::lemma_select_asc_members(s.revisions, crate::drafts::revision_not_of(id));
    crate::seqs::lemma_select_asc_members(s2.revisions, revision_of(id));
    let r = select_asc(s2.revisions, revision_of(id));
    if r.len() > 0 {
        assert(revision_of(id)(r[0]));
        assert(s2.revisions.contains(r[0]));
        let j = choose|j: int| 0 <= j < s2.revisions.len() && s2.revisions[j] == r[0];
        assert(crate::drafts::revision_not_of(id)(s2.revisions[j]));
    }
}

/// Deleting a pair keeps every lesson and every draft: only their link to
/// that pair is cleared.
pub proof fn law_delete_pair_keeps_lessons(s: StoreV, id: i64)
    ensures
        without_pair(s, id).lessons.len() == s.lessons.len(),
        without_pair(s, id).drafts.len() == s.drafts.len(),
        forall|k: int|
            0 <= k < s.lessons.len() ==> {
                let l2 = #[trigger] without_pair(s, id).lessons[k];
                &&& l2.id == s.lessons[k].id
                &&& l2.lesson == s.lessons[k].lesson
                &&& l2.pair_id == (if s.lessons[k].pair_id == Some(id) {
                    None
                } else {
                    s.lessons[k].pair_id
                })
            },
        forall|k: int|
            0 <= k < s.drafts.len() ==> (#[trigger] without_pair(s, id).drafts[k]).id
                == s.drafts[k].id,
        first_index(without_pair(s, id).pairs, pair_id_is(id)) is None,
{
    let s2 = without_pair(s, id);
    crate::seqs::lemma_select_asc_members(s.pairs, pair_id_not(id));
    lemma_first_index_bounds(s2.pairs, pair_id_is(id));
    if let Some(k) = first_index(s2.pairs, pair_id_is(id)) {
        assert(s2.pairs.contains(s2.pairs[k]));
        let j = choose|j: int| 0 <= j < s.pairs.len() && s.pairs[j] == s2.pairs[k];
    }
}

/// The first element satisfying `p` is at `j` when `s[j]` does and no
/// earlier one does.
pub proof fn lemma_first_index_at<T>(s: Seq<T>, p: spec_fn(T) -> bool, j: int)
    requires
        0 <= j < s.len(),
        p(s[j]),
        forall|k: int| 0 <= k < j ==> !p(#[trigger] s[k]),
    ensures
        first_index(s, p) == Some(j),
    decreases s.len(),
{
    if j == s.len() - 1 {
        lemma_first_index_bounds(s.drop_last(), p);
        if let Some(i) = first_index(s.drop_last(), p) {
            assert(s.drop_last()[i] == s[i]);
        }
    } else {
        assert forall|k: int| 0 <= k < j implies !p(#[trigger] s.drop_last()[k]) by {
            assert(s.drop_last()[k] == s[k]);
        }
        assert(s.drop_last()[j] == s[j]);
        lemma_first_index_at(s.drop_last(), p, j);
    }
}

/// In a table in id order, looking a row up by its id finds that row.
pub proof fn lemma_pair_found_by_id(ps: Seq<PairV>, next: i64, j: int)
    requires
        crate::store::ids_ok(ps.map_values(|x: PairV| x.id), next),
        0 <= j < ps.len(),
    ensures
        first_match(ps, pair_id_is(ps[j].id)) == Some(ps[j]),
{
    let ids = ps.map_values(|x: PairV| x.id);
    assert forall|k: int| 0 <= k < j implies !pair_id_is(ps[j].id)(#[trigger] ps[k]) by {
        assert(ids[k] == ps[k].id);
        assert(ids[j] == ps[j].id);
    }
    lemma_first_index_at(ps, pair_id_is(ps[j].id), j);
}

/// Reading back a stored pair: its draft, final and context as given, its
/// diff the rows of the draft against the final, and its tags as stored.
pub proof fn law_add_pair_read_back(
    s: StoreV,
    draft: Seq<char>,
    final_: Seq<char>,
    context: Option<Seq<char>>,
    tags: Seq<Seq<char>>,
    now: Seq<char>,
)
    requires
        s.wf(),
    ensures
        show_pair_spec(with_pair(s, draft, final_, context, tags, now), s.next_pair) == Some(
            PairOut {
                id: s.next_pair,
                draft,
                final_,
                diff: rich_diff_spec(draft, final_),
                context,
                tags: parse_tags_spec(Some(tags_json_spec(tags))),
                created_at: now,
            },
        ),
{
    let np = new_pair(s, draft, final_, context, tags, now);
    lemma_new_pair_found(s.pairs, s.next_pair, np);
}

/// Every pair the recent list shows reads back the same through
/// `show_pair` (both normalize the stored diff the same way).
pub proof fn law_show_pair_agrees_with_recent(s: StoreV, n: nat, k: int)
    requires
        s.wf(),
        0 <= k < recent_pairs_spec(s, n).len(),
    ensures
        show_pair_spec(s, recent_pairs_spec(s, n)[k].id) == Some(recent_pairs_spec(s, n)[k]),
{
    let sel = select_desc(s.pairs, pair_keep(None));
    crate::seqs::lemma_select_desc_members(s.pairs, pair_keep(None));
    let x = limit(sel, n)[k];
    assert(x == sel[k]);
    assert(s.pairs.contains(x));
    let j = choose|j: int| 0 <= j < s.pairs.len() && s.pairs[j] == x;
    lemma_pair_found_by_id(s.pairs, s.next_pair, j);
    assert(recent_pairs_spec(s, n)[k] == pair_out(x));
}

proof fn lemma_select_desc_none<T>(s: Seq<T>, p: spec_fn(T) -> bool)
    requires
        forall|k: int| 0 <= k < s.len() ==> !p(#[trigger] s[k]),
    ensures
        select_desc(s, p).len() == 0,
    decreases s.len(),
{
    if s.len() > 0 {
        assert forall|k: int| 0 <= k < s.drop_last().len() implies !p(#[trigger] s.drop_last()[k]) by {
            assert(s.drop_last()[k] == s[k]);
        }
        lemma_select_desc_none(s.drop_last(), p);
        assert(!p(s[s.len() - 1]));
    }
}

/// Promotion is idempotent: right after promoting, promoting again
/// confirms nothing and changes nothing.
pub proof fn law_promote_idempotent(s: StoreV)
    ensures
        promotions(promoted_store(s)).len() == 0,
        promoted_store(promoted_store(s)) == promoted_store(s),
{
    let s2 = promoted_store(s);
    assert forall|k: int| 0 <= k < s2.patterns.len() implies !promotable(s2)(
        #[trigger] s2.patterns[k],
    ) by {
        let p = s.patterns[k];
        assert(pattern_pair_ids(s2, p) == pattern_pair_ids(s, p));
    }
    lemma_select_desc_none(s2.patterns, promotable(s2));
    assert(promoted_store(s2).patterns =~= s2.patterns);
}

/// Promotion reports exactly the unconfirmed patterns that the drafts of
/// three or more pairs match, each with a count equal to the number of
/// pair ids it lists, and confirms exactly those: every other pattern is
/// kept as it was (a confirmed one stays confirmed), and nothing else in the
/// store changes.
pub proof fn law_promote_confirms(s: StoreV)
    ensures
        forall|k: int|
            0 <= k < promotions(s).len() ==> {
                let (id, rule, count, ids) = #[trigger] promotions(s)[k];
                &&& count == ids.len()
                &&& count >= 3
                &&& exists|j: int|
                    0 <= j < s.patterns.len() && s.patterns[j].id == id && s.patterns[j].rule == rule
                        && s.patterns[j].confidence != "confirmed"@ && ids == pattern_pair_ids(
                        s,
                        #[trigger] s.patterns[j],
                    )
            },
        promoted_store(s).patterns.len() == s.patterns.len(),
        forall|k: int|
            0 <= k < s.patterns.len() ==> #[trigger] promoted_store(s).patterns[k] == if promotable(
                s,
            )(s.patterns[k]) {
                confirm(s.patterns[k])
            } else {
                s.patterns[k]
            },
        forall|k: int|
            0 <= k < s.patterns.len() && s.patterns[k].confidence == "confirmed"@
                ==> (#[trigger] promoted_store(s).patterns[k]).confidence == "confirmed"@,
        promoted_store(s).pairs == s.pairs,
        promoted_store(s).lessons == s.lessons,
        promoted_store(s).drafts == s.drafts,
        promoted_store(s).revisions == s.revisions,
        promoted_store(s).jobs == s.jobs,
{
    let sel = select_desc(s.patterns, promotable(s));
    lemma_select_desc_members(s.patterns, promotable(s));
    assert forall|k: int| 0 <= k < promotions(s).len() implies {
        let (id, rule, count, ids) = #[trigger] promotions(s)[k];
        &&& count == ids.len()
        &&& count >= 3
        &&& exists|j: int|
            0 <= j < s.patterns.len() && s.patterns[j].id == id && s.patterns[j].rule == rule
                && s.patterns[j].confidence != "confirmed"@ && ids == pattern_pair_ids(
                s,
                #[trigger] s.patterns[j],
            )
    } by {
        let p = sel[k];
        assert(promotions(s)[k] == crate::promote::promotion_of(s, p));
        assert(s.patterns.contains(p));
        let j = choose|j: int| 0 <= j < s.patterns.len() && s.patterns[j] == p;
        assert(s.patterns[j] == p);
    }
}

/// Enqueueing is idempotent: once a pair has a job, enqueueing it again
/// changes nothing.
pub proof fn law_enqueue_idempotent(s: StoreV, pair_id: i64, now1: Seq<char>, now2: Seq<char>)
    ensures
        enqueue_spec(s, pair_id, now1).0 is Ok ==> enqueue_spec(
            enqueue_spec(s, pair_id, now1).1,
            pair_id,
            now2,
        ) == (Ok::<(), LearnError>(()), enqueue_spec(s, pair_id, now1).1),
{
    let s1 = enqueue_spec(s, pair_id, now1).1;
    if enqueue_spec(s, pair_id, now1).0 is Ok && first_index(s.jobs, job_for_pair(pair_id)) is None {
        lemma_first_index_bounds(s.jobs, job_for_pair(pair_id));
        assert forall|k: int| 0 <= k < s.jobs.len() implies !job_for_pair(pair_id)(
            #[trigger] s1.jobs[k],
        ) by {
            assert(s1.jobs[k] == s.jobs[k]);
        }
        lemma_first_index_at(s1.jobs, job_for_pair(pair_id), s.jobs.len() as int);
    }
}

/// Enqueueing a pair that has no job yet succeeds (while job ids last) and
/// leaves exactly one job for that pair: pending, with no attempts. Every
/// earlier job is kept.
pub proof fn law_enqueue_adds_one(s: StoreV, pair_id: i64, now: Seq<char>)
    requires
        s.next_job < i64::MAX,
        first_index(s.jobs, job_for_pair(pair_id)) is None,
    ensures
        enqueue_spec(s, pair_id, now).0 is Ok,
        ({
            let s1 = enqueue_spec(s, pair_id, now).1;
            &&& select_asc(s1.jobs, job_for_pair(pair_id)).len() == 1
            &&& select_asc(s1.jobs, job_for_pair(pair_id))[0].status == "pending"@
            &&& select_asc(s1.jobs, job_for_pair(pair_id))[0].attempts == 0
            &&& s1.jobs.drop_last() == s.jobs
        }),
{
    lemma_first_index_bounds(s.jobs, job_for_pair(pair_id));
    lemma_select_asc_none(s.jobs, job_for_pair(pair_id));
    let s1 = enqueue_spec(s, pair_id, now).1;
    assert(s1.jobs.drop_last() =~= s.jobs);
}

/// A failed attempt leaves a job to be run again exactly while fewer than
/// three attempts have been used: after its first and second failure a
/// job is pending, after its third it is not.
pub proof fn law_failed_job_retries(j: JobV, err: Seq<char>, now: Seq<char>)
    requires
        0 <= j.attempts < i64::MAX,
    ensures
        job_pending(job_failed(err, now)(j)) <==> j.attempts < 2,
        job_failed(err, now)(j).attempts == j.attempts + 1,
{
    reveal_strlit("failed");
    reveal_strlit("pending");
    assert("failed"@.len() != "pending"@.len());
}

/// A "prefer" pattern reports one suggestion exactly when it matches
/// nowhere, and nothing when it matches.
pub proof fn law_prefer_reports_absence(p: PatternV, content: Seq<char>, sp: Seq<(int, int)>)
    requires
        p.direction == "prefer"@,
        pattern_spans(p, content) == Some(sp),
        spans_ok(content, sp),
    ensures
        pattern_violations(p, content) == Some(
            if sp.len() == 0 {
                seq![prefer_violation(p)]
            } else {
                Seq::<ViolationV>::empty()
            },
        ),
{
}

/// Any other pattern reports each match: one "avoid" violation per match,
/// in order, with the matched text and its line.
pub proof fn law_avoid_reports_each_match(p: PatternV, content: Seq<char>, sp: Seq<(int, int)>)
    requires
        p.direction != "prefer"@,
        pattern_spans(p, content) == Some(sp),
        pattern_violations(p, content) is Some,
    ensures
        pattern_violations(p, content)->0.len() == sp.len(),
        forall|k: int|
            0 <= k < sp.len() ==> {
                let v = #[trigger] pattern_violations(p, content)->0[k];
                &&& v.direction == "avoid"@
                &&& v.pattern_id == p.id
                &&& v.matched_text == byte_slice(content, sp[k].0, sp[k].1)
                &&& v.line == line_of(content, sp[k].0)
            },
{
}

/// A regex pattern that does not compile is skipped: it reports nothing.
pub proof fn law_invalid_regex_skipped(p: PatternV, content: Seq<char>)
    requires
        p.pattern_type == "regex"@,
        regex_find_spans(p.pattern, content) is None,
    ensures
        pattern_violations(p, content) == Some(Seq::<ViolationV>::empty()),
{
}

/// Changing draft rows without changing their ids keeps where a draft is
/// found.
proof fn lemma_first_index_map_drafts(ds: Seq<DraftV>, f: spec_fn(DraftV) -> DraftV, id: i64)
    requires
        forall|d: DraftV| #[trigger] f(d).id == d.id,
    ensures
        first_index(ds.map_values(f), draft_id_is(id)) == first_index(ds, draft_id_is(id)),
    decreases ds.len(),
{
    if ds.len() > 0 {
        assert(ds.map_values(f).drop_last() =~= ds.drop_last().map_values(f));
        lemma_first_index_map_drafts(ds.drop_last(), f, id);
        assert(ds.map_values(f).last() == f(ds.last()));
    }
}

/// Finalizing writes a pair (stamped `pair_now`) whose draft is the first
/// revision and whose final is the latest, with the draft's context and
/// tags and the diff of the two; the draft is then finalized and linked to
/// that pair (updated at `now`), its revisions untouched. A refused
/// finalize changes nothing.
pub proof fn law_finalize_links_pair(s: StoreV, draft_id: i64, pair_now: Seq<char>, now: Seq<char>)
    requires
        s.wf(),
    ensures
        match finalize_spec(s, draft_id, pair_now, now) {
            (Ok(pid), s2) => {
                let d = get_draft_spec(s, draft_id)->0;
                &&& pid == s.next_pair
                &&& show_pair_spec(s2, pid) == Some(
                    PairOut {
                        id: pid,
                        draft: d.revisions[0].content,
                        final_: d.revisions.last().content,
                        diff: rich_diff_spec(d.revisions[0].content, d.revisions.last().content),
                        context: d.draft.context,
                        tags: parse_tags_spec(Some(tags_json_spec(d.draft.tags))),
                        created_at: pair_now,
                    },
                )
                &&& get_draft_spec(s2, draft_id) is Some
                &&& get_draft_spec(s2, draft_id)->0.draft.status == "finalized"@
                &&& get_draft_spec(s2, draft_id)->0.draft.finalized_pair_id == Some(pid)
                &&& get_draft_spec(s2, draft_id)->0.draft.updated_at == now
                &&& get_draft_spec(s2, draft_id)->0.revisions == d.revisions
            },
            (Err(_), s2) => s2 == s,
        },
{
    if finalize_spec(s, draft_id, pair_now, now).0 is Ok {
        let d = get_draft_spec(s, draft_id)->0;
        let first = d.revisions[0].content;
        let last = d.revisions.last().content;
        let s1 = with_pair(s, first, last, d.draft.context, d.draft.tags, pair_now);
        law_add_pair_read_back(s, first, last, d.draft.context, d.draft.tags, pair_now);
        let f = finalize_row(draft_id, s.next_pair, now);
        let sm = mark_finalized(s1, draft_id, s.next_pair, now);
        let s2 = promoted_store(sm);
        assert(s2.pairs == s1.pairs);
        assert(show_pair_spec(s2, s.next_pair) == show_pair_spec(s1, s.next_pair));
        assert forall|x: DraftV| #[trigger] f(x).id == x.id by {}
        lemma_first_index_map_drafts(s.drafts, f, draft_id);
        assert(s2.drafts == s.drafts.map_values(f));
        lemma_first_index_bounds(s.drafts, draft_id_is(draft_id));
        let i = first_index(s.drafts, draft_id_is(draft_id))->0;
        assert(s2.drafts[i] == f(s.drafts[i]));
        assert(s2.revisions == s.revisions);
    }
}

/// Whether every revision belongs to a draft id already handed out (as
/// every store this library builds keeps).
pub open spec fn revisions_linked(s: StoreV) -> bool {
    forall|k: int| 0 <= k < s.revisions.len() ==> #[trigger] s.revisions[k].draft_id < s.next_draft
}

proof fn lemma_select_asc_none<T>(s: Seq<T>, p: spec_fn(T) -> bool)
    requires
        forall|k: int| 0 <= k < s.len() ==> !p(#[trigger] s[k]),
    ensures
        select_asc(s, p).len() == 0,
    decreases s.len(),
{
    if s.len() > 0 {
        assert forall|k: int| 0 <= k < s.drop_last().len() implies !p(#[trigger] s.drop_last()[k]) by {
            assert(s.drop_last()[k] == s[k]);
        }
        lemma_select_asc_none(s.drop_last(), p);
        assert(!p(s[s.len() - 1]));
    }
}

/// A created draft reads back with its context and tags, status "draft",
/// no pair, one revision holding the content, and no working diff yet.
pub proof fn law_create_then_get(
    s: StoreV,
    content: Seq<char>,
    context: Option<Seq<char>>,
    tags: Seq<Seq<char>>,
    source: Seq<char>,
    now: Seq<char>,
)
    requires
        s.wf(),
        revisions_linked(s),
    ensures
        match create_draft_spec(s, content, context, tags, source, now) {
            (Ok(id), s2) => get_draft_spec(s2, id) == Some(
                DraftFullOut {
                    draft: DraftOut {
                        id,
                        context,
                        tags: parse_tags_spec(Some(tags_json_spec(tags))),
                        status: "draft"@,
                        finalized_pair_id: None,
                        created_at: now,
                        updated_at: now,
                    },
                    revisions: seq![
                        RevisionV {
                            id: s.next_revision,
                            draft_id: id,
                            content,
                            source,
                            created_at: now,
                        },
                    ],
                    working_diff: None,
                },
            ),
            (Err(_), _) => true,
        },
{
    if create_draft_spec(s, content, context, tags, source, now).0 is Ok {
        let id = s.next_draft;
        let s1 = with_draft(s, context, tags, now);
        let ids = s.drafts.map_values(|x: DraftV| x.id);
        assert forall|k: int| 0 <= k < s.drafts.len() implies !draft_id_is(id)(#[trigger] s1.drafts[k]) by {
            assert(ids[k] == s.drafts[k].id);
            assert(s1.drafts[k] == s.drafts[k]);
        }
        lemma_first_index_at(s1.drafts, draft_id_is(id), s.drafts.len() as int);
        assert forall|k: int| 0 <= k < s.revisions.len() implies !revision_of(id)(#[trigger] s.revisions[k]) by {}
        lemma_select_asc_none(s.revisions, revision_of(id));
        let nr = RevisionV { id: s.next_revision, draft_id: id, content, source, created_at: now };
        assert(s.revisions.push(nr).drop_last() =~= s.revisions);
        assert(select_asc(s.revisions.push(nr), revision_of(id)) =~= seq![nr]);
    }
}

/// A saved revision reads back as the draft's latest, after every earlier
/// one, and the working diff is then the original against it.
pub proof fn law_save_then_get(
    s: StoreV,
    draft_id: i64,
    content: Seq<char>,
    source: Seq<char>,
    now: Seq<char>,
)
    requires
        s.wf(),
    ensures
        match save_revision_spec(s, draft_id, content, source, now) {
            (Ok(id), s2) => {
                let before = get_draft_spec(s, draft_id)->0.revisions;
                let after = get_draft_spec(s2, draft_id)->0.revisions;
                &&& get_draft_spec(s2, draft_id) is Some
                &&& after == before.push(
                    RevisionV { id, draft_id, content, source, created_at: now },
                )
                &&& before.len() > 0 ==> get_draft_spec(s2, draft_id)->0.working_diff == Some(
                    rich_diff_spec(before[0].content, content),
                )
            },
            (Err(_), s2) => s2 == s,
        },
{
    if save_revision_spec(s, draft_id, content, source, now).0 is Ok {
        let id = s.next_revision;
        let nr = RevisionV { id, draft_id, content, source, created_at: now };
        let s1 = with_revision(s, draft_id, content, source, now);
        let s2 = touch_draft(s1, draft_id, now);
        let f = |d: DraftV|
            if d.id == draft_id {
                DraftV { updated_at: now, ..d }
            } else {
                d
            };
        assert(s2.drafts == s.drafts.map_values(f));
        assert forall|x: DraftV| #[trigger] f(x).id == x.id by {}
        lemma_first_index_map_drafts(s.drafts, f, draft_id);
        lemma_first_index_bounds(s.drafts, draft_id_is(draft_id));
        assert(s.revisions.push(nr).drop_last() =~= s.revisions);
        let before = select_asc(s.revisions, revision_of(draft_id));
        assert(select_asc(s2.revisions, revision_of(draft_id)) == before.push(nr));
        if before.len() > 0 {
            crate::seqs::lemma_select_asc_members(s.revisions, revision_of(draft_id));
            assert(s.revisions.contains(before[0]));
            let j = choose|j: int| 0 <= j < s.revisions.len() && s.revisions[j] == before[0];
            let ids = s.revisions.map_values(|x: RevisionV| x.id);
            assert(ids[j] == s.revisions[j].id);
            assert(before.push(nr)[0] == before[0]);
        }
    }
}

/// A pair whose diff column holds text (written before rows were stored)
/// reads back with the rows recomputed from its draft and final.
pub proof fn law_legacy_diff_recomputed(s: StoreV, id: i64)
    requires
        first_match(s.pairs, pair_id_is(id)) matches Some(p) && p.diff is Text,
    ensures
        show_pair_spec(s, id) matches Some(out) && out.diff == rich_diff_spec(out.draft, out.final_),
{
}

/// Deleting a lesson keeps its pair, and every pair, as they were; patterns
/// linked to it are kept, unlinked.
pub proof fn law_delete_lesson_keeps_pair(s: StoreV, id: i64)
    ensures
        without_lesson(s, id).pairs == s.pairs,
        without_lesson(s, id).patterns.len() == s.patterns.len(),
        forall|k: int|
            0 <= k < s.patterns.len() ==> (#[trigger] without_lesson(s, id).patterns[k]).id
                == s.patterns[k].id,
{
}

/// Whether every text of `s` is its own trim.
pub open spec fn all_trimmed(s: Seq<Seq<char>>) -> bool {
    forall|k: int| 0 <= k < s.len() ==> trimmed(#[trigger] s[k]) == s[k]
}

/// Whether every swap is two non-empty trimmed words.
pub open spec fn swaps_ok(s: Seq<(Seq<char>, Seq<char>)>) -> bool {
    forall|k: int|
        0 <= k < s.len() ==> {
            let (d, a) = #[trigger] s[k];
            d.len() > 0 && a.len() > 0 && trimmed(d) == d && trimmed(a) == a
        }
}

/// The shape of what a walk over diff rows collects: one change per
/// deleted or added text, every such text trimmed, every swap two
/// non-empty trimmed words.
pub open spec fn walk_shaped(w: WalkV) -> bool {
    &&& w.changes.len() == w.deletions.len() + w.additions.len()
    &&& all_trimmed(w.deletions)
    &&& all_trimmed(w.additions)
    &&& swaps_ok(w.swaps)
}

proof fn lemma_tag_words_shaped(segs: Seq<SegV>, t: Seq<char>)
    ensures
        forall|k: int|
            0 <= k < tag_words(segs, t).len() ==> (#[trigger] tag_words(segs, t)[k]).len() > 0
                && trimmed(tag_words(segs, t)[k]) == tag_words(segs, t)[k],
    decreases segs.len(),
{
    if segs.len() > 0 {
        lemma_tag_words_shaped(segs.drop_last(), t);
        lemma_trimmed_idempotent(segs.last().1);
        let prev = tag_words(segs.drop_last(), t);
        let cur = tag_words(segs, t);
        assert forall|k: int| 0 <= k < cur.len() implies (#[trigger] cur[k]).len() > 0 && trimmed(
            cur[k],
        ) == cur[k] by {
            if k < prev.len() {
                assert(cur[k] == prev[k]);
            }
        }
    }
}

proof fn lemma_join_shaped(x: WalkV, y: WalkV)
    requires
        walk_shaped(x),
        walk_shaped(y),
    ensures
        walk_shaped(walk_join(x, y)),
{
    let j = walk_join(x, y);
    assert forall|k: int| 0 <= k < j.deletions.len() implies trimmed(#[trigger] j.deletions[k])
        == j.deletions[k] by {
        if k >= x.deletions.len() {
            assert(j.deletions[k] == y.deletions[k - x.deletions.len()]);
        }
    }
    assert forall|k: int| 0 <= k < j.additions.len() implies trimmed(#[trigger] j.additions[k])
        == j.additions[k] by {
        if k >= x.additions.len() {
            assert(j.additions[k] == y.additions[k - x.additions.len()]);
        }
    }
    assert forall|k: int| 0 <= k < j.swaps.len() implies {
        let (d, a) = #[trigger] j.swaps[k];
        d.len() > 0 && a.len() > 0 && trimmed(d) == d && trimmed(a) == a
    } by {
        if k >= x.swaps.len() {
            assert(j.swaps[k] == y.swaps[k - x.swaps.len()]);
        } else {
            assert(j.swaps[k] == x.swaps[k]);
        }
    }
}

proof fn lemma_row_step_shaped(rows: Seq<RowV>, i: int)
    requires
        0 <= i < rows.len(),
    ensures
        walk_shaped(row_step(rows, i)),
{
    let w = row_step(rows, i);
    if paired_at(rows, i) {
        let d = tag_words(rows[i].1, "del"@);
        let a = tag_words(rows[i + 1].1, "add"@);
        lemma_tag_words_shaped(rows[i].1, "del"@);
        lemma_tag_words_shaped(rows[i + 1].1, "add"@);
        assert forall|k: int| 0 <= k < w.swaps.len() implies {
            let (x, y) = #[trigger] w.swaps[k];
            x.len() > 0 && y.len() > 0 && trimmed(x) == x && trimmed(y) == y
        } by {
            assert(w.swaps[k] == (d[k], a[k]));
        }
    }
    assert forall|k: int| 0 <= k < w.deletions.len() implies trimmed(#[trigger] w.deletions[k])
        == w.deletions[k] by {
        lemma_trimmed_idempotent(w.deletions[k]);
        if rows[i].0 == "removed"@ && !paired_at(rows, i) {
            lemma_trimmed_idempotent(crate::analysis::joined(rows[i].1, "del"@, "ctx"@, false));
        }
    }
    assert forall|k: int| 0 <= k < w.additions.len() implies trimmed(#[trigger] w.additions[k])
        == w.additions[k] by {
        if paired_at(rows, i) {
            lemma_trimmed_idempotent(crate::analysis::joined(rows[i + 1].1, "add"@, "ctx"@, false));
        } else {
            lemma_trimmed_idempotent(crate::analysis::joined(rows[i].1, seq![], seq![], true));
        }
    }
}

proof fn lemma_walk_shaped(rows: Seq<RowV>, i: int)
    ensures
        walk_shaped(walk(rows, i)),
    decreases rows.len() - i,
{
    if 0 <= i < rows.len() {
        lemma_row_step_shaped(rows, i);
        if paired_at(rows, i) {
            lemma_walk_shaped(rows, i + 2);
            lemma_join_shaped(row_step(rows, i), walk(rows, i + 2));
        } else {
            lemma_walk_shaped(rows, i + 1);
            lemma_join_shaped(row_step(rows, i), walk(rows, i + 1));
        }
    }
}

proof fn lemma_cats_len(ch: Seq<(Seq<char>, Seq<char>)>)
    ensures
        cats_of(ch) matches Some(cs) ==> cs.len() == ch.len(),
    decreases ch.len(),
{
    if ch.len() > 0 {
        lemma_cats_len(ch.drop_last());
    }
}

/// A pair's diff analysis has one categorized change per deleted or added
/// line; every deleted and added line is trimmed; every word swap is two
/// non-empty trimmed words.
pub proof fn law_analysis_shape(s: StoreV, pair_id: i64)
    ensures
        analyze_spec(s, pair_id) matches Some(Some(a)) ==> {
            &&& a.categorized.len() == a.deletions.len() + a.additions.len()
            &&& all_trimmed(a.deletions)
            &&& all_trimmed(a.additions)
            &&& swaps_ok(a.word_swaps)
        },
{
    if let Some(p) = show_pair_spec(s, pair_id) {
        lemma_walk_shaped(p.diff, 0);
        lemma_cats_len(walk(p.diff, 0).changes);
    }
}

/// Every row of a structured diff has its layout's shape: "equal" rows are
/// one "ctx" segment, "removed" rows hold only "del"/"ctx" segments and
/// "added" rows only "add"/"ctx" segments, and no row has another kind.
pub proof fn law_diff_rows_shaped(old: Seq<char>, new: Seq<char>)
    ensures
        rows_shaped(rich_diff_spec(old, new)),
{
    lemma_rows_from_shaped(crate::diff::line_diff(old, new), 0, seq![], seq![]);
}

/// Whether `t` holds no line break.
pub open spec fn no_break(t: Seq<char>) -> bool {
    forall|m: int| 0 <= m < t.len() ==> #[trigger] t[m] != '\n' && t[m] != '\r'
}

/// Whether `t` ends with a line break.
pub open spec fn ends_line(t: Seq<char>) -> bool {
    t.len() > 0 && (t.last() == '\n' || t.last() == '\r')
}

proof fn lemma_line_state(s: Seq<char>, i: nat)
    requires
        i <= s.len(),
    ensures
        ({
            let (done, cur) = line_state(s, i);
            &&& concat(done) + cur == s.take(i as int)
            &&& forall|k: int|
                0 <= k < done.len() ==> ends_line(#[trigger] done[k]) && no_break(
                    trim_line_spec(done[k]),
                )
            &&& forall|m: int| 0 <= m < cur.len() ==> #[trigger] cur[m] != '\n'
            &&& forall|m: int|
                0 <= m < cur.len() && #[trigger] cur[m] == '\r' ==> m == cur.len() - 1 && i
                    < s.len() && s[i as int] == '\n'
        }),
    decreases i,
{
    if i > 0 {
        lemma_line_state(s, (i - 1) as nat);
        let (done, cur) = line_state(s, (i - 1) as nat);
        let c = s[i - 1];
        let cur2 = cur.push(c);
        assert(s.take(i as int) =~= s.take(i - 1).push(c));
        assert(concat(done) + cur2 =~= s.take(i as int));
        if c == '\n' || (c == '\r' && !(i < s.len() && s[i as int] == '\n')) {
            let d2 = done.push(cur2);
            assert(d2.drop_last() =~= done);
            assert(concat(d2) == concat(done) + cur2);
            assert(concat(d2) + Seq::<char>::empty() =~= concat(d2));
            let t = trim_line_spec(cur2);
            assert(cur2.drop_last() =~= cur);
            if c == '\n' {
                if cur.len() > 0 && cur.last() == '\r' {
                    assert(t =~= cur.drop_last());
                    assert forall|m: int| 0 <= m < t.len() implies #[trigger] t[m] != '\n' && t[m]
                        != '\r' by {
                        assert(t[m] == cur[m]);
                    }
                } else {
                    assert(t =~= cur);
                    assert forall|m: int| 0 <= m < t.len() implies #[trigger] t[m] != '\n' && t[m]
                        != '\r' by {
                        assert(t[m] == cur[m]);
                        if cur[m] == '\r' {
                            assert(m == cur.len() - 1);
                        }
                    }
                }
            } else {
                assert(t =~= cur);
                assert forall|m: int| 0 <= m < t.len() implies #[trigger] t[m] != '\n' && t[m]
                    != '\r' by {
                    assert(t[m] == cur[m]);
                }
            }
            assert forall|k: int| 0 <= k < d2.len() implies ends_line(#[trigger] d2[k]) && no_break(
                trim_line_spec(d2[k]),
            ) by {
                if k < done.len() {
                    assert(d2[k] == done[k]);
                }
            }
        } else {
            assert forall|m: int| 0 <= m < cur2.len() implies #[trigger] cur2[m] != '\n' by {
                if m < cur.len() {
                    assert(cur2[m] == cur[m]);
                }
            }
            assert forall|m: int| 0 <= m < cur2.len() && #[trigger] cur2[m] == '\r' implies m
                == cur2.len() - 1 && i < s.len() && s[i as int] == '\n' by {
                if m < cur.len() {
                    assert(cur2[m] == cur[m]);
                }
            }
        }
    }
}

/// The lines of a text, joined back, are the text. None is empty; each but
/// the last ends with a line break ("\n", or a "\r" that no "\n"
/// follows), and a line without its line ending holds no line break: these
/// are the row texts a diff shows.
pub proof fn law_lines_cover_text(s: Seq<char>)
    ensures
        concat(line_tokens(s)) == s,
        forall|k: int| 0 <= k < line_tokens(s).len() ==> (#[trigger] line_tokens(s)[k]).len() > 0,
        forall|k: int| 0 <= k < line_tokens(s).len() - 1 ==> ends_line(#[trigger] line_tokens(s)[k]),
        forall|k: int|
            0 <= k < line_tokens(s).len() ==> no_break(trim_line_spec(#[trigger] line_tokens(s)[k])),
{
    lemma_line_state(s, s.len());
    assert(s.take(s.len() as int) =~= s);
    let (done, cur) = line_state(s, s.len());
    let r = line_tokens(s);
    if cur.len() > 0 {
        assert(r.drop_last() =~= done);
        assert(concat(r) == concat(done) + cur);
        assert(trim_line_spec(cur) =~= cur);
        assert forall|k: int| 0 <= k < r.len() implies (#[trigger] r[k]).len() > 0 && no_break(
            trim_line_spec(r[k]),
        ) by {
            if k < done.len() {
                assert(r[k] == done[k]);
            } else {
                assert forall|m: int| 0 <= m < cur.len() implies #[trigger] cur[m] != '\n'
                    && cur[m] != '\r' by {}
            }
        }
        assert forall|k: int| 0 <= k < r.len() - 1 implies ends_line(#[trigger] r[k]) by {
            assert(r[k] == done[k]);
        }
    } else {
        assert(concat(done) + cur =~= concat(done));
    }
}

} // verus!
