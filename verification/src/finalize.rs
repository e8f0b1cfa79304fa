//! The two ends of the write loop: creating a draft together with the
//! patterns to respect and the lint violations it already has, and
//! finalizing a draft into a learning pair (original against latest), with
//! occurrence-based promotion and the pair's diff analysis.
use vstd::prelude::*;

use crate::analysis::{
    analysis_v, analyze_diff, analyze_spec, cats_of, walk, walk_rows, categorize_all, swaps_v,
    strs_of, DiffAnalysis, analysis_of,
};
use crate::diff::{rich_diff, rich_diff_spec, rows_v};
use crate::drafts::{
    create_draft, create_draft_spec, draft_id_is, get_draft, get_draft_spec, full_out_v,
};
use crate::lint::{lint_draft, lint_spec, violations_v, Violation};
use crate::pairs::{add_pair_at, new_pair, pair_id_is, pair_out, show_pair_spec, with_pair};
use crate::patterns::{list_patterns, list_patterns_spec};
use crate::promote::{promote_patterns, promoted_store, promotions, promotions_v};
use crate::seqs::{first_index, lemma_first_index_bounds};
use crate::store::{
    draft_v, ids_ok, now_iso, patterns_v, DraftV, LearnError, PairV, Pattern, Store, StoreV,
};
use crate::tags::strs_v;
use crate::text::{opt_str_chars, owned};

verus! {

/// A draft row after finalizing draft `draft_id` into pair `pair_id` at
/// `now`: that draft is marked finalized and linked, others are unchanged.
pub open spec fn finalize_row(draft_id: i64, pair_id: i64, now: Seq<char>) -> spec_fn(DraftV) -> DraftV {
    |d: DraftV|
        if d.id == draft_id {
            DraftV { status: "finalized"@, finalized_pair_id: Some(pair_id), updated_at: now, ..d }
        } else {
            d
        }
}

/// `s` with draft `draft_id` finalized into pair `pair_id` at `now`.
pub open spec fn mark_finalized(s: StoreV, draft_id: i64, pair_id: i64, now: Seq<char>) -> StoreV {
    StoreV { drafts: s.drafts.map_values(finalize_row(draft_id, pair_id, now)), ..s }
}

/// `s` after the pair of draft `draft_id` is written (stamped `pair_now`)
/// and the draft marked (at `now`), before promotion: the pair holds the
/// first revision as its draft and the latest as its final, with the
/// draft's context and tags.
pub open spec fn finalize_written(
    s: StoreV,
    draft_id: i64,
    pair_now: Seq<char>,
    now: Seq<char>,
) -> StoreV {
    let d = get_draft_spec(s, draft_id)->0;
    mark_finalized(
        with_pair(
            s,
            d.revisions[0].content,
            d.revisions.last().content,
            d.draft.context,
            d.draft.tags,
            pair_now,
        ),
        draft_id,
        s.next_pair,
        now,
    )
}

/// What finalizing draft `draft_id` returns and leaves, the pair stamped
/// `pair_now` and the draft updated at `now`: no such draft, a draft
/// without revisions and a full pair table are refused; otherwise the new
/// pair's id, with the pair written, the draft marked and the patterns
/// promoted.
pub open spec fn finalize_spec(s: StoreV, draft_id: i64, pair_now: Seq<char>, now: Seq<char>) -> (
    Result<i64, LearnError>,
    StoreV,
) {
    match get_draft_spec(s, draft_id) {
        None => (Err(LearnError::NoDraft(draft_id)), s),
        Some(d) => if d.revisions.len() == 0 {
            (Err(LearnError::NoRevisions(draft_id)), s)
        } else if s.next_pair == i64::MAX {
            (Err(LearnError::Full), s)
        } else {
            (Ok(s.next_pair), promoted_store(finalize_written(s, draft_id, pair_now, now)))
        },
    }
}

/// Whether finalizing draft `draft_id` can analyze the new pair: every
/// change between the original and the latest revision can be categorized.
pub open spec fn finalize_ok(s: StoreV, draft_id: i64) -> bool {
    match get_draft_spec(s, draft_id) {
        Some(d) => d.revisions.len() > 0 && s.next_pair < i64::MAX ==> cats_of(
            walk(rich_diff_spec(d.revisions[0].content, d.revisions.last().content), 0).changes,
        ) is Some,
        None => true,
    }
}

/// What finalizing with analysis returns: the new pair's id, its diff
/// analysis and the patterns promoted.
pub struct FinalizeResult {
    pub pair_id: i64,
    pub analysis: DiffAnalysis,
    pub promoted_patterns: Vec<(i64, String, usize, Vec<i64>)>,
}

/// Marks draft `draft_id` finalized into pair `pair_id` at `now`.
fn mark_finalized_exec(store: &mut Store, draft_id: i64, pair_id: i64, now: &str)
    requires
        old(store)@.wf(),
    ensures
        final(store)@.wf(),
        final(store)@ == mark_finalized(old(store)@, draft_id, pair_id, now@),
{
    let ghost orig = store@;
    let mut d: usize = 0;
    while d < store.drafts.len()
        invariant
            orig.wf(),
            d <= store.drafts@.len(),
            store.drafts@.len() == orig.drafts.len(),
            forall|q: int|
                0 <= q < d ==> #[trigger] draft_v(store.drafts@[q]) == finalize_row(
                    draft_id,
                    pair_id,
                    now@,
                )(orig.drafts[q]),
            forall|q: int|
                d <= q < orig.drafts.len() ==> #[trigger] draft_v(store.drafts@[q])
                    == orig.drafts[q],
            store@.pairs == orig.pairs,
            store@.lessons == orig.lessons,
            store@.revisions == orig.revisions,
            store@.patterns == orig.patterns,
            store@.feedback == orig.feedback,
            store@.jobs == orig.jobs,
            store@.next_pair == orig.next_pair,
            store@.next_lesson == orig.next_lesson,
            store@.next_draft == orig.next_draft,
            store@.next_revision == orig.next_revision,
            store@.next_pattern == orig.next_pattern,
            store@.next_feedback == orig.next_feedback,
            store@.next_job == orig.next_job,
        decreases store.drafts@.len() - d,
    {
        assert(draft_v(store.drafts@[d as int]) == orig.drafts[d as int]);
        if store.drafts[d].id == draft_id {
            store.drafts[d].status = owned("finalized");
            store.drafts[d].finalized_pair_id = Some(pair_id);
            store.drafts[d].updated_at = owned(now);
        }
        d = d + 1;
    }
    proof {
        assert(store@.drafts =~= mark_finalized(orig, draft_id, pair_id, now@).drafts);
        assert(store@.drafts.map_values(|x: DraftV| x.id) =~= orig.drafts.map_values(
            |x: DraftV| x.id,
        ));
    }
}

/// A pair added with the table's next id is the one found by that id.
pub proof fn lemma_new_pair_found(ps: Seq<PairV>, next: i64, np: PairV)
    requires
        ids_ok(ps.map_values(|x: PairV| x.id), next),
        np.id == next,
    ensures
        first_index(ps.push(np), pair_id_is(next)) == Some(ps.len() as int),
{
    lemma_first_index_bounds(ps, pair_id_is(next));
    if first_index(ps, pair_id_is(next)) is Some {
        let i = first_index(ps, pair_id_is(next))->0;
        assert(ps.map_values(|x: PairV| x.id)[i] == ps[i].id);
    }
    assert(ps.push(np).drop_last() =~= ps);
}

/// Finalizes draft `draft_id`: writes the pair (first revision as draft,
/// latest as final, the draft's context and tags) stamped `pair_now`, marks
/// the draft finalized and linked at `now`, promotes patterns, and analyzes
/// the new pair.
pub fn finalize_draft_at(store: &mut Store, draft_id: i64, pair_now: &str, now: &str) -> (r: Result<
    FinalizeResult,
    LearnError,
>)
    requires
        old(store)@.wf(),
        finalize_ok(old(store)@, draft_id),
    ensures
        final(store)@.wf(),
        final(store)@ == finalize_spec(old(store)@, draft_id, pair_now@, now@).1,
        match r {
            Ok(fr) => {
                &&& finalize_spec(old(store)@, draft_id, pair_now@, now@).0 == Ok::<i64, LearnError>(
                    fr.pair_id,
                )
                &&& promotions_v(fr.promoted_patterns@) == promotions(
                    finalize_written(old(store)@, draft_id, pair_now@, now@),
                )
                &&& analyze_spec(final(store)@, fr.pair_id) == Some(
                    Some(analysis_v(fr.analysis)),
                )
            },
            Err(e) => finalize_spec(old(store)@, draft_id, pair_now@, now@).0 == Err::<i64, LearnError>(e),
        },
{
    let ghost s0 = store@;
    let d = match get_draft(store, draft_id) {
        None => {
            return Err(LearnError::NoDraft(draft_id));
        },
        Some(d) => d,
    };
    let n = d.revisions.len();
    if n == 0 {
        return Err(LearnError::NoRevisions(draft_id));
    }
    let ghost dv = full_out_v(d);
    let first = d.revisions[0].content.as_str();
    let last = d.revisions[n - 1].content.as_str();
    let ctx: Option<&str> = match &d.draft.context {
        Some(c) => Some(c.as_str()),
        None => None,
    };
    proof {
        assert(opt_str_chars(ctx) == dv.draft.context);
        assert(first@ == dv.revisions[0].content);
        assert(last@ == dv.revisions.last().content);
    }
    let pair_id = match add_pair_at(store, first, last, ctx, d.draft.tags.as_slice(), pair_now) {
        Err(e) => {
            return Err(e);
        },
        Ok(id) => id,
    };
    let ghost s1 = store@;
    mark_finalized_exec(store, draft_id, pair_id, now);
    proof {
        assert(store@ == finalize_written(s0, draft_id, pair_now@, now@));
    }
    let promoted = promote_patterns(store);
    proof {
        let np = new_pair(s0, first@, last@, dv.draft.context, dv.draft.tags, pair_now@);
        lemma_new_pair_found(s0.pairs, s0.next_pair, np);
        assert(s1.pairs == s0.pairs.push(np));
        assert(store@.pairs == s1.pairs);
        assert(show_pair_spec(store@, pair_id) == Some(pair_out(np)));
        assert(pair_out(np).diff == rich_diff_spec(first@, last@));
    }
    let analysis = match analyze_diff(store, pair_id) {
        Some(a) => a,
        None => DiffAnalysis {
            pair_id,
            deletions: Vec::new(),
            additions: Vec::new(),
            word_swaps: Vec::new(),
            categorized: Vec::new(),
            draft_pattern_hits: Vec::new(),
            final_pattern_hits: Vec::new(),
        },
    };
    Ok(FinalizeResult { pair_id, analysis, promoted_patterns: promoted })
}

/// Whether `r` and the store `s1` are what finalizing draft `draft_id` of
/// `s0` gives, the pair stamped `pair_now` and the draft updated at `now`.
pub open spec fn finalize_outcome(
    s0: StoreV,
    s1: StoreV,
    draft_id: i64,
    pair_now: Seq<char>,
    now: Seq<char>,
    r: Result<FinalizeResult, LearnError>,
) -> bool {
    &&& s1 == finalize_spec(s0, draft_id, pair_now, now).1
    &&& match r {
        Ok(fr) => {
            &&& finalize_spec(s0, draft_id, pair_now, now).0 == Ok::<i64, LearnError>(fr.pair_id)
            &&& promotions_v(fr.promoted_patterns@) == promotions(
                finalize_written(s0, draft_id, pair_now, now),
            )
            &&& analyze_spec(s1, fr.pair_id) == Some(Some(analysis_v(fr.analysis)))
        },
        Err(e) => finalize_spec(s0, draft_id, pair_now, now).0 == Err::<i64, LearnError>(e),
    }
}

/// Finalizes draft `draft_id` at the current time, returning the new pair's
/// id, its diff analysis and the patterns promoted.
pub fn finalize_draft_with_analysis(store: &mut Store, draft_id: i64) -> (r: Result<
    FinalizeResult,
    LearnError,
>)
    requires
        old(store)@.wf(),
        finalize_ok(old(store)@, draft_id),
    ensures
        final(store)@.wf(),
        exists|pair_now: Seq<char>, now: Seq<char>|
            finalize_outcome(old(store)@, final(store)@, draft_id, pair_now, now, r),
{
    let pair_now = now_iso();
    let now = now_iso();
    let r = finalize_draft_at(store, draft_id, pair_now.as_str(), now.as_str());
    proof {
        assert(finalize_outcome(old(store)@, store@, draft_id, pair_now@, now@, r));
    }
    r
}

/// Finalizes draft `draft_id` at the current time; returns the new pair's
/// id.
pub fn finalize_draft(store: &mut Store, draft_id: i64) -> (r: Result<i64, LearnError>)
    requires
        old(store)@.wf(),
        finalize_ok(old(store)@, draft_id),
    ensures
        final(store)@.wf(),
        exists|pair_now: Seq<char>, now: Seq<char>|
            final(store)@ == finalize_spec(old(store)@, draft_id, pair_now, now).1 && r
                == finalize_spec(old(store)@, draft_id, pair_now, now).0,
{
    let pair_now = now_iso();
    let now = now_iso();
    match finalize_draft_at(store, draft_id, pair_now.as_str(), now.as_str()) {
        Ok(fr) => Ok(fr.pair_id),
        Err(e) => Err(e),
    }
}

/// Whether every change between the original and the latest revision of
/// draft `draft_id` can be categorized (or finalizing is refused anyway).
pub fn can_finalize(store: &Store, draft_id: i64) -> (r: bool)
    ensures
        r == finalize_ok(store@, draft_id),
{
    let d = match get_draft(store, draft_id) {
        None => {
            return true;
        },
        Some(d) => d,
    };
    let n = d.revisions.len();
    if n == 0 || store.next_pair == i64::MAX {
        return true;
    }
    let rows = rich_diff(d.revisions[0].content.as_str(), d.revisions[n - 1].content.as_str());
    let (_dels, _adds, _swaps, changes) = walk_rows(&rows);
    categorize_all(&changes).is_some()
}

/// `finalize_draft_with_analysis` where the new pair can be analyzed;
/// `None`, with nothing changed, where a change between the original and
/// the latest revision cannot be categorized.
pub fn try_finalize_draft(store: &mut Store, draft_id: i64) -> (r: Option<
    Result<FinalizeResult, LearnError>,
>)
    requires
        old(store)@.wf(),
    ensures
        final(store)@.wf(),
        match r {
            None => !finalize_ok(old(store)@, draft_id) && final(store)@ == old(store)@,
            Some(x) => exists|pair_now: Seq<char>, now: Seq<char>|
                finalize_outcome(old(store)@, final(store)@, draft_id, pair_now, now, x),
        },
{
    if !can_finalize(store, draft_id) {
        return None;
    }
    Some(finalize_draft_with_analysis(store, draft_id))
}

/// What creating a draft with context returns: the new draft's id, every
/// stored pattern (newest first) and the content's lint violations.
pub struct DraftContext {
    pub draft_id: i64,
    pub patterns: Vec<Pattern>,
    pub violations: Vec<Violation>,
}

/// Whether `r` and the store `s1` are what creating a draft with context
/// in `s0` at `now` gives.
pub open spec fn draft_context_outcome(
    s0: StoreV,
    s1: StoreV,
    content: Seq<char>,
    context: Option<Seq<char>>,
    tags: Seq<Seq<char>>,
    source: Seq<char>,
    now: Seq<char>,
    r: Result<DraftContext, LearnError>,
) -> bool {
    let (res, s) = create_draft_spec(s0, content, context, tags, source, now);
    &&& s1 == s
    &&& match r {
        Ok(c) => {
            &&& res == Ok::<i64, LearnError>(c.draft_id)
            &&& patterns_v(c.patterns@) == list_patterns_spec(s1, None)
            &&& lint_spec(s1, content) == Some(violations_v(c.violations@))
        },
        Err(e) => res == Err::<i64, LearnError>(e),
    }
}

/// Creates a draft (as `create_draft`) and returns, with its id, every
/// stored pattern and the lint violations of its content, so the agent
/// can adjust the draft before the user sees it.
pub fn create_draft_with_context(
    store: &mut Store,
    content: &str,
    context: Option<&str>,
    tags: &[String],
    source: &str,
) -> (r: Result<DraftContext, LearnError>)
    requires
        old(store)@.wf(),
        lint_spec(old(store)@, content@) is Some,
    ensures
        final(store)@.wf(),
        exists|now: Seq<char>|
            draft_context_outcome(
                old(store)@,
                final(store)@,
                content@,
                opt_str_chars(context),
                strs_v(tags@),
                source@,
                now,
                r,
            ),
{
    let now = now_iso();
    let draft_id = match crate::drafts::create_draft_at(
        store,
        content,
        context,
        tags,
        source,
        now.as_str(),
    ) {
        Err(e) => {
            let r = Err(e);
            proof {
                assert(draft_context_outcome(
                    old(store)@,
                    store@,
                    content@,
                    opt_str_chars(context),
                    strs_v(tags@),
                    source@,
                    now@,
                    r,
                ));
            }
            return r;
        },
        Ok(id) => id,
    };
    let patterns = list_patterns(store, None);
    let violations = lint_draft(store, content);
    let r = Ok(DraftContext { draft_id, patterns, violations });
    proof {
        assert(draft_context_outcome(
            old(store)@,
            store@,
            content@,
            opt_str_chars(context),
            strs_v(tags@),
            source@,
            now@,
            r,
        ));
    }
    r
}

/// `create_draft_with_context` for content whose lint can be made; `None`,
/// with nothing created, for content where a match or its context window
/// would cut a character.
pub fn try_create_draft_with_context(
    store: &mut Store,
    content: &str,
    context: Option<&str>,
    tags: &[String],
    source: &str,
) -> (r: Option<Result<DraftContext, LearnError>>)
    requires
        old(store)@.wf(),
    ensures
        final(store)@.wf(),
        match r {
            None => lint_spec(old(store)@, content@) is None && final(store)@ == old(store)@,
            Some(x) => exists|now: Seq<char>|
                draft_context_outcome(
                    old(store)@,
                    final(store)@,
                    content@,
                    opt_str_chars(context),
                    strs_v(tags@),
                    source@,
                    now,
                    x,
                ),
        },
{
    if crate::lint::try_lint_draft(store, content).is_none() {
        return None;
    }
    Some(create_draft_with_context(store, content, context, tags, source))
}

} // verus!
