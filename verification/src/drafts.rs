//! The drafting surface: in-flight drafts with an append-only revision
//! history. Saving appends a revision; restoring appends a copy of an old
//! one; nothing in the history is ever overwritten.
use vstd::prelude::*;

use crate::diff::{rich_diff, rich_diff_spec, rows_v, DiffRow, RowV};
use crate::order::{
    lemma_text_lt_asymmetric, lemma_text_lt_irreflexive, lemma_text_lt_total,
    lemma_text_lt_transitive, text_less, text_lt,
};
use crate::seqs::{
    first_index, first_match, lemma_first_index_bounds, lemma_first_index_prefix, lemma_take_all,
    lemma_take_succ, select_asc,
};
use crate::store::{
    draft_v, drafts_v, ids_ok, lemma_ids_push, lemma_select_ids, now_iso, revision_v,
    revisions_v, DraftRecord, DraftRevision, DraftV, LearnError, RevisionV, Store, StoreV,
};
use crate::tags::{parse_tags_opt, parse_tags_spec, strs_v, tags_json_spec, tags_to_json};
use crate::text::{clone_opt, opt_chars, opt_str_chars, owned, owned_opt, str_eq};

verus! {

/// A draft as read back, tags parsed.
pub struct Draft {
    pub id: i64,
    pub context: Option<String>,
    pub tags: Vec<String>,
    pub status: String,
    pub finalized_pair_id: Option<i64>,
    pub created_at: String,
    pub updated_at: String,
}

/// A draft plus every revision (oldest first) and the working diff between
/// the original (first revision) and the current (latest revision) text;
/// `None` while there is only one revision.
pub struct DraftWithRevisions {
    pub draft: Draft,
    pub revisions: Vec<DraftRevision>,
    pub working_diff: Option<Vec<DiffRow>>,
}

pub struct DraftOut {
    pub id: i64,
    pub context: Option<Seq<char>>,
    pub tags: Seq<Seq<char>>,
    pub status: Seq<char>,
    pub finalized_pair_id: Option<i64>,
    pub created_at: Seq<char>,
    pub updated_at: Seq<char>,
}

pub struct DraftFullOut {
    pub draft: DraftOut,
    pub revisions: Seq<RevisionV>,
    pub working_diff: Option<Seq<RowV>>,
}

pub open spec fn draft_out_v(d: Draft) -> DraftOut {
    DraftOut {
        id: d.id,
        context: opt_chars(d.context),
        tags: strs_v(d.tags@),
        status: d.status@,
        finalized_pair_id: d.finalized_pair_id,
        created_at: d.created_at@,
        updated_at: d.updated_at@,
    }
}

pub open spec fn draft_outs_v(s: Seq<Draft>) -> Seq<DraftOut> {
    s.map_values(|d: Draft| draft_out_v(d))
}

pub open spec fn full_out_v(d: DraftWithRevisions) -> DraftFullOut {
    DraftFullOut {
        draft: draft_out_v(d.draft),
        revisions: revisions_v(d.revisions@),
        working_diff: match d.working_diff {
            Some(w) => Some(rows_v(w@)),
            None => None,
        },
    }
}

/// A draft as read back.
pub open spec fn draft_out(d: DraftV) -> DraftOut {
    DraftOut {
        id: d.id,
        context: d.context,
        tags: parse_tags_spec(d.tags),
        status: d.status,
        finalized_pair_id: d.finalized_pair_id,
        created_at: d.created_at,
        updated_at: d.updated_at,
    }
}

pub open spec fn draft_id_is(id: i64) -> spec_fn(DraftV) -> bool {
    |d: DraftV| d.id == id
}

pub open spec fn draft_id_not(id: i64) -> spec_fn(DraftV) -> bool {
    |d: DraftV| d.id != id
}

pub open spec fn revision_of(id: i64) -> spec_fn(RevisionV) -> bool {
    |r: RevisionV| r.draft_id == id
}

pub open spec fn revision_not_of(id: i64) -> spec_fn(RevisionV) -> bool {
    |r: RevisionV| r.draft_id != id
}

/// The working diff of a revision history: original against latest, when
/// they are different revisions.
pub open spec fn working_diff_spec(revs: Seq<RevisionV>) -> Option<Seq<RowV>> {
    if revs.len() > 0 && revs[0].id != revs.last().id {
        Some(rich_diff_spec(revs[0].content, revs.last().content))
    } else {
        None
    }
}

/// What `get_draft` returns.
pub open spec fn get_draft_spec(s: StoreV, id: i64) -> Option<DraftFullOut> {
    match first_match(s.drafts, draft_id_is(id)) {
        None => None,
        Some(d) => {
            let revs = select_asc(s.revisions, revision_of(id));
            Some(
                DraftFullOut {
                    draft: draft_out(d),
                    revisions: revs,
                    working_diff: working_diff_spec(revs),
                },
            )
        },
    }
}

/// `s` with a new open draft stamped `now`.
pub open spec fn with_draft(
    s: StoreV,
    context: Option<Seq<char>>,
    tags: Seq<Seq<char>>,
    now: Seq<char>,
) -> StoreV {
    StoreV {
        drafts: s.drafts.push(
            DraftV {
                id: s.next_draft,
                context,
                tags: Some(tags_json_spec(tags)),
                status: "draft"@,
                finalized_pair_id: None,
                created_at: now,
                updated_at: now,
            },
        ),
        next_draft: (s.next_draft + 1) as i64,
        ..s
    }
}

/// `s` with a new revision of draft `draft_id`.
pub open spec fn with_revision(
    s: StoreV,
    draft_id: i64,
    content: Seq<char>,
    source: Seq<char>,
    now: Seq<char>,
) -> StoreV {
    StoreV {
        revisions: s.revisions.push(
            RevisionV { id: s.next_revision, draft_id, content, source, created_at: now },
        ),
        next_revision: (s.next_revision + 1) as i64,
        ..s
    }
}

/// `s` with draft `draft_id` marked as updated at `now`.
pub open spec fn touch_draft(s: StoreV, draft_id: i64, now: Seq<char>) -> StoreV {
    StoreV {
        drafts: s.drafts.map_values(
            |d: DraftV|
                if d.id == draft_id {
                    DraftV { updated_at: now, ..d }
                } else {
                    d
                },
        ),
        ..s
    }
}

/// What `create_draft_at` returns and leaves.
pub open spec fn create_draft_spec(
    s: StoreV,
    content: Seq<char>,
    context: Option<Seq<char>>,
    tags: Seq<Seq<char>>,
    source: Seq<char>,
    now: Seq<char>,
) -> (Result<i64, LearnError>, StoreV) {
    if s.next_draft == i64::MAX {
        (Err(LearnError::Full), s)
    } else {
        let s1 = with_draft(s, context, tags, now);
        if s1.next_revision == i64::MAX {
            (Err(LearnError::Full), s1)
        } else {
            (Ok(s.next_draft), with_revision(s1, s.next_draft, content, source, now))
        }
    }
}

/// What `save_revision_at` returns and leaves.
pub open spec fn save_revision_spec(
    s: StoreV,
    draft_id: i64,
    content: Seq<char>,
    source: Seq<char>,
    now: Seq<char>,
) -> (Result<i64, LearnError>, StoreV) {
    if s.next_revision == i64::MAX {
        (Err(LearnError::Full), s)
    } else if first_index(s.drafts, draft_id_is(draft_id)) is None {
        (Err(LearnError::ForeignKey), s)
    } else {
        (
            Ok(s.next_revision),
            touch_draft(with_revision(s, draft_id, content, source, now), draft_id, now),
        )
    }
}

fn push_draft(store: &mut Store, context: Option<&str>, tags: &[String], now: &str) -> (id: i64)
    requires
        old(store)@.wf(),
        old(store)@.next_draft < i64::MAX,
    ensures
        final(store)@.wf(),
        id == old(store)@.next_draft,
        final(store)@ == with_draft(old(store)@, opt_str_chars(context), strs_v(tags@), now@),
{
    let id = store.next_draft;
    let rec = DraftRecord {
        id,
        context: owned_opt(context),
        tags: Some(tags_to_json(tags)),
        status: owned("draft"),
        finalized_pair_id: None,
        created_at: owned(now),
        updated_at: owned(now),
    };
    let ghost before = store@;
    store.drafts.push(rec);
    store.next_draft = id + 1;
    proof {
        assert(store@.drafts =~= before.drafts.push(draft_v(rec)));
        assert(store@.drafts.map_values(|x: DraftV| x.id) =~= before.drafts.map_values(
            |x: DraftV| x.id,
        ).push(id));
        lemma_ids_push(before.drafts.map_values(|x: DraftV| x.id), id);
    }
    id
}

fn push_revision(store: &mut Store, draft_id: i64, content: &str, source: &str, now: &str) -> (id:
    i64)
    requires
        old(store)@.wf(),
        old(store)@.next_revision < i64::MAX,
    ensures
        final(store)@.wf(),
        id == old(store)@.next_revision,
        final(store)@ == with_revision(old(store)@, draft_id, content@, source@, now@),
{
    let id = store.next_revision;
    let rec = DraftRevision {
        id,
        draft_id,
        content: owned(content),
        source: owned(source),
        created_at: owned(now),
    };
    let ghost before = store@;
    store.revisions.push(rec);
    store.next_revision = id + 1;
    proof {
        assert(store@.revisions =~= before.revisions.push(revision_v(rec)));
        assert(store@.revisions.map_values(|x: RevisionV| x.id) =~= before.revisions.map_values(
            |x: RevisionV| x.id,
        ).push(id));
        lemma_ids_push(before.revisions.map_values(|x: RevisionV| x.id), id);
    }
    id
}

/// Creates an in-flight draft stamped `now` and records its first revision
/// (the original text). Returns the new draft id.
pub fn create_draft_at(
    store: &mut Store,
    content: &str,
    context: Option<&str>,
    tags: &[String],
    source: &str,
    now: &str,
) -> (r: Result<i64, LearnError>)
    requires
        old(store)@.wf(),
    ensures
        final(store)@.wf(),
        (r, final(store)@) == create_draft_spec(
            old(store)@,
            content@,
            opt_str_chars(context),
            strs_v(tags@),
            source@,
            now@,
        ),
{
    if store.next_draft == i64::MAX {
        return Err(LearnError::Full);
    }
    let draft_id = push_draft(store, context, tags, now);
    if store.next_revision == i64::MAX {
        return Err(LearnError::Full);
    }
    push_revision(store, draft_id, content, source, now);
    Ok(draft_id)
}

/// Creates an in-flight draft stamped with the current time and records its
/// first revision. Returns the new draft id.
pub fn create_draft(
    store: &mut Store,
    content: &str,
    context: Option<&str>,
    tags: &[String],
    source: &str,
) -> (r: Result<i64, LearnError>)
    requires
        old(store)@.wf(),
    ensures
        final(store)@.wf(),
        exists|now: Seq<char>|
            (r, final(store)@) == create_draft_spec(
                old(store)@,
                content@,
                opt_str_chars(context),
                strs_v(tags@),
                source@,
                now,
            ),
{
    let now = now_iso();
    create_draft_at(store, content, context, tags, source, now.as_str())
}

/// Whether a draft with id `id` exists.
pub fn has_draft(store: &Store, id: i64) -> (b: bool)
    ensures
        b == (first_index(store@.drafts, draft_id_is(id)) is Some),
{
    match find_draft(store, id) {
        Some(_) => true,
        None => false,
    }
}

/// The index of draft `id`.
pub fn find_draft(store: &Store, id: i64) -> (r: Option<usize>)
    ensures
        match r {
            Some(i) => first_index(store@.drafts, draft_id_is(id)) == Some(i as int) && i
                < store.drafts@.len(),
            None => first_index(store@.drafts, draft_id_is(id)) is None,
        },
{
    let ghost ds = store@.drafts;
    let mut i: usize = 0;
    while i < store.drafts.len()
        invariant
            ds == store@.drafts,
            ds.len() == store.drafts@.len(),
            i <= ds.len(),
            first_index(ds.take(i as int), draft_id_is(id)) is None,
        decreases ds.len() - i,
    {
        proof {
            lemma_take_succ(ds, i as int);
            assert(ds[i as int] == draft_v(store.drafts@[i as int]));
        }
        if store.drafts[i].id == id {
            proof {
                lemma_first_index_prefix(ds, draft_id_is(id), i + 1);
            }
            return Some(i);
        }
        i = i + 1;
    }
    proof {
        lemma_take_all(ds);
    }
    None
}

/// Marks every draft with id `draft_id` as updated at `now`.
fn touch(store: &mut Store, draft_id: i64, now: &str)
    requires
        old(store)@.wf(),
    ensures
        final(store)@.wf(),
        final(store)@ == touch_draft(old(store)@, draft_id, now@),
{
    let ghost orig = store@;
    let mut d: usize = 0;
    while d < store.drafts.len()
        invariant
            orig.wf(),
            d <= store.drafts@.len(),
            store.drafts@.len() == orig.drafts.len(),
            forall|q: int|
                0 <= q < d ==> #[trigger] draft_v(store.drafts@[q]) == (if orig.drafts[q].id
                    == draft_id {
                    DraftV { updated_at: now@, ..orig.drafts[q] }
                } else {
                    orig.drafts[q]
                }),
            forall|q: int|
                d <= q < orig.drafts.len() ==> #[trigger] draft_v(store.drafts@[q])
                    == orig.drafts[q],
            store@.pairs == orig.pairs,
            store@.lessons == orig.lessons,
            store@.revisions == orig.revisions,
            store@.patterns == orig.patterns,
            store@.feedback == orig.feedback,
            store@.jobs == orig.jobs,
            store@.next_pair == orig.next_pair,
            store@.next_lesson == orig.next_lesson,
            store@.next_draft == orig.next_draft,
            store@.next_revision == orig.next_revision,
            store@.next_pattern == orig.next_pattern,
            store@.next_feedback == orig.next_feedback,
            store@.next_job == orig.next_job,
        decreases store.drafts@.len() - d,
    {
        assert(draft_v(store.drafts@[d as int]) == orig.drafts[d as int]);
        if store.drafts[d].id == draft_id {
            store.drafts[d].updated_at = owned(now);
        }
        d = d + 1;
    }
    proof {
        assert(store@.drafts =~= touch_draft(orig, draft_id, now@).drafts);
        assert(store@.drafts.map_values(|x: DraftV| x.id) =~= orig.drafts.map_values(
            |x: DraftV| x.id,
        ));
    }
}

/// Appends a revision of draft `draft_id`, stamped `now`, and marks the
/// draft updated. Refused when the draft does not exist.
pub fn save_revision_at(
    store: &mut Store,
    draft_id: i64,
    content: &str,
    source: &str,
    now: &str,
) -> (r: Result<i64, LearnError>)
    requires
        old(store)@.wf(),
    ensures
        final(store)@.wf(),
        (r, final(store)@) == save_revision_spec(old(store)@, draft_id, content@, source@, now@),
{
    if store.next_revision == i64::MAX {
        return Err(LearnError::Full);
    }
    if !has_draft(store, draft_id) {
        return Err(LearnError::ForeignKey);
    }
    let rev_id = push_revision(store, draft_id, content, source, now);
    touch(store, draft_id, now);
    Ok(rev_id)
}

/// Appends a revision ("agent" | "user" | "restore") of draft `draft_id`,
/// stamped with the current time.
pub fn save_revision(store: &mut Store, draft_id: i64, content: &str, source: &str) -> (r: Result<
    i64,
    LearnError,
>)
    requires
        old(store)@.wf(),
    ensures
        final(store)@.wf(),
        exists|now: Seq<char>|
            (r, final(store)@) == save_revision_spec(old(store)@, draft_id, content@, source@, now),
{
    let now = now_iso();
    save_revision_at(store, draft_id, content, source, now.as_str())
}

/// `s` with draft `draft_id`'s context and tags replaced.
pub open spec fn meta_updated(
    s: StoreV,
    draft_id: i64,
    context: Option<Seq<char>>,
    tags: Seq<Seq<char>>,
    now: Seq<char>,
) -> StoreV {
    StoreV {
        drafts: s.drafts.map_values(
            |d: DraftV|
                if d.id == draft_id {
                    DraftV { context, tags: Some(tags_json_spec(tags)), updated_at: now, ..d }
                } else {
                    d
                },
        ),
        ..s
    }
}

/// Replaces a draft's context and tags (stamped `now`) without touching
/// its revision history. No draft with that id: nothing changes.
pub fn update_draft_meta_at(
    store: &mut Store,
    draft_id: i64,
    context: Option<&str>,
    tags: &[String],
    now: &str,
)
    requires
        old(store)@.wf(),
    ensures
        final(store)@.wf(),
        final(store)@ == meta_updated(
            old(store)@,
            draft_id,
            opt_str_chars(context),
            strs_v(tags@),
            now@,
        ),
{
    let ghost orig = store@;
    let tags_json = tags_to_json(tags);
    let mut d: usize = 0;
    while d < store.drafts.len()
        invariant
            orig.wf(),
            tags_json@ == tags_json_spec(strs_v(tags@)),
            d <= store.drafts@.len(),
            store.drafts@.len() == orig.drafts.len(),
            forall|q: int|
                0 <= q < d ==> #[trigger] draft_v(store.drafts@[q]) == (if orig.drafts[q].id
                    == draft_id {
                    DraftV {
                        context: opt_str_chars(context),
                        tags: Some(tags_json_spec(strs_v(tags@))),
                        updated_at: now@,
                        ..orig.drafts[q]
                    }
                } else {
                    orig.drafts[q]
                }),
            forall|q: int|
                d <= q < orig.drafts.len() ==> #[trigger] draft_v(store.drafts@[q])
                    == orig.drafts[q],
            store@.pairs == orig.pairs,
            store@.lessons == orig.lessons,
            store@.revisions == orig.revisions,
            store@.patterns == orig.patterns,
            store@.feedback == orig.feedback,
            store@.jobs == orig.jobs,
            store@.next_pair == orig.next_pair,
            store@.next_lesson == orig.next_lesson,
            store@.next_draft == orig.next_draft,
            store@.next_revision == orig.next_revision,
            store@.next_pattern == orig.next_pattern,
            store@.next_feedback == orig.next_feedback,
            store@.next_job == orig.next_job,
        decreases store.drafts@.len() - d,
    {
        assert(draft_v(store.drafts@[d as int]) == orig.drafts[d as int]);
        if store.drafts[d].id == draft_id {
            store.drafts[d].context = owned_opt(context);
            store.drafts[d].tags = Some(tags_json.clone());
            store.drafts[d].updated_at = owned(now);
        }
        d = d + 1;
    }
    proof {
        assert(store@.drafts =~= meta_updated(
            orig,
            draft_id,
            opt_str_chars(context),
            strs_v(tags@),
            now@,
        ).drafts);
        assert(store@.drafts.map_values(|x: DraftV| x.id) =~= orig.drafts.map_values(
            |x: DraftV| x.id,
        ));
    }
}

/// Replaces a draft's context and tags, stamped with the current time.
pub fn update_draft_meta(store: &mut Store, draft_id: i64, context: Option<&str>, tags: &[String])
    requires
        old(store)@.wf(),
    ensures
        final(store)@.wf(),
        exists|now: Seq<char>|
            final(store)@ == meta_updated(
                old(store)@,
                draft_id,
                opt_str_chars(context),
                strs_v(tags@),
                now,
            ),
{
    let now = now_iso();
    update_draft_meta_at(store, draft_id, context, tags, now.as_str())
}

/// `s` without draft `id` and its revisions.
pub open spec fn without_draft(s: StoreV, id: i64) -> StoreV {
    StoreV {
        drafts: select_asc(s.drafts, draft_id_not(id)),
        revisions: select_asc(s.revisions, revision_not_of(id)),
        ..s
    }
}

/// Deletes a draft and its revisions. A pair finalized from it is kept.
pub fn delete_draft(store: &mut Store, draft_id: i64)
    requires
        old(store)@.wf(),
    ensures
        final(store)@.wf(),
        final(store)@ == without_draft(old(store)@, draft_id),
{
    let ghost orig = store@;
    let mut i: usize = 0;
    let ghost mut k: int = 0;
    proof {
        assert(orig.drafts.take(0) =~= seq![]);
        assert(orig.drafts.skip(0) =~= orig.drafts);
        assert(store@.drafts =~= select_asc(orig.drafts.take(0), draft_id_not(draft_id))
            + orig.drafts.skip(0));
    }
    while i < store.drafts.len()
        invariant
            0 <= k <= orig.drafts.len(),
            i == select_asc(orig.drafts.take(k), draft_id_not(draft_id)).len(),
            store@.drafts == select_asc(orig.drafts.take(k), draft_id_not(draft_id))
                + orig.drafts.skip(k),
            store@.pairs == orig.pairs,
            store@.lessons == orig.lessons,
            store@.revisions == orig.revisions,
            store@.patterns == orig.patterns,
            store@.feedback == orig.feedback,
            store@.jobs == orig.jobs,
            store@.next_pair == orig.next_pair,
            store@.next_lesson == orig.next_lesson,
            store@.next_draft == orig.next_draft,
            store@.next_revision == orig.next_revision,
            store@.next_pattern == orig.next_pattern,
            store@.next_feedback == orig.next_feedback,
            store@.next_job == orig.next_job,
        decreases store.drafts@.len() - i,
    {
        let ghost before = store@.drafts;
        proof {
            lemma_take_succ(orig.drafts, k);
            assert(store@.drafts[i as int] == orig.drafts[k]);
            assert(store@.drafts[i as int] == draft_v(store.drafts@[i as int]));
            assert(orig.drafts.skip(k).drop_first() =~= orig.drafts.skip(k + 1));
        }
        if store.drafts[i].id == draft_id {
            store.drafts.remove(i);
            proof {
                assert(store@.drafts =~= before.remove(i as int));
                assert(before.remove(i as int) =~= select_asc(
                    orig.drafts.take(k),
                    draft_id_not(draft_id),
                ) + orig.drafts.skip(k + 1));
                assert(select_asc(orig.drafts.take(k + 1), draft_id_not(draft_id)) == select_asc(
                    orig.drafts.take(k),
                    draft_id_not(draft_id),
                ));
            }
        } else {
            i = i + 1;
        }
        proof {
            assert(store@.drafts =~= select_asc(orig.drafts.take(k + 1), draft_id_not(draft_id))
                + orig.drafts.skip(k + 1));
            k = k + 1;
        }
    }
    proof {
        lemma_take_all(orig.drafts);
        assert(orig.drafts.skip(orig.drafts.len() as int) =~= seq![]);
        assert(store@.drafts =~= select_asc(orig.drafts, draft_id_not(draft_id)));
    }
    let ghost mid = store@;
    let mut j: usize = 0;
    let ghost mut m: int = 0;
    proof {
        assert(orig.revisions.take(0) =~= seq![]);
        assert(orig.revisions.skip(0) =~= orig.revisions);
        assert(store@.revisions =~= select_asc(orig.revisions.take(0), revision_not_of(draft_id))
            + orig.revisions.skip(0));
    }
    while j < store.revisions.len()
        invariant
            0 <= m <= orig.revisions.len(),
            j == select_asc(orig.revisions.take(m), revision_not_of(draft_id)).len(),
            store@.revisions == select_asc(orig.revisions.take(m), revision_not_of(draft_id))
                + orig.revisions.skip(m),
            store@.pairs == mid.pairs,
            store@.lessons == mid.lessons,
            store@.drafts == mid.drafts,
            store@.patterns == mid.patterns,
            store@.feedback == mid.feedback,
            store@.jobs == mid.jobs,
            store@.next_pair == mid.next_pair,
            store@.next_lesson == mid.next_lesson,
            store@.next_draft == mid.next_draft,
            store@.next_revision == mid.next_revision,
            store@.next_pattern == mid.next_pattern,
            store@.next_feedback == mid.next_feedback,
            store@.next_job == mid.next_job,
        decreases store.revisions@.len() - j,
    {
        let ghost before = store@.revisions;
        proof {
            lemma_take_succ(orig.revisions, m);
            assert(store@.revisions[j as int] == orig.revisions[m]);
            assert(store@.revisions[j as int] == revision_v(store.revisions@[j as int]));
            assert(orig.revisions.skip(m).drop_first() =~= orig.revisions.skip(m + 1));
        }
        if store.revisions[j].draft_id == draft_id {
            store.revisions.remove(j);
            proof {
                assert(store@.revisions =~= before.remove(j as int));
                assert(before.remove(j as int) =~= select_asc(
                    orig.revisions.take(m),
                    revision_not_of(draft_id),
                ) + orig.revisions.skip(m + 1));
                assert(select_asc(orig.revisions.take(m + 1), revision_not_of(draft_id))
                    == select_asc(orig.revisions.take(m), revision_not_of(draft_id)));
            }
        } else {
            j = j + 1;
        }
        proof {
            assert(store@.revisions =~= select_asc(
                orig.revisions.take(m + 1),
                revision_not_of(draft_id),
            ) + orig.revisions.skip(m + 1));
            m = m + 1;
        }
    }
    proof {
        lemma_take_all(orig.revisions);
        assert(orig.revisions.skip(orig.revisions.len() as int) =~= seq![]);
        assert(store@.revisions =~= select_asc(orig.revisions, revision_not_of(draft_id)));
        lemma_select_ids(orig.drafts, draft_id_not(draft_id), |x: DraftV| x.id, orig.next_draft);
        lemma_select_ids(
            orig.revisions,
            revision_not_of(draft_id),
            |x: RevisionV| x.id,
            orig.next_revision,
        );
        assert(store@ == without_draft(orig, draft_id));
    }
}

/// A copy of a revision.
pub fn clone_revision(r: &DraftRevision) -> (c: DraftRevision)
    ensures
        revision_v(c) == revision_v(*r),
{
    DraftRevision {
        id: r.id,
        draft_id: r.draft_id,
        content: r.content.clone(),
        source: r.source.clone(),
        created_at: r.created_at.clone(),
    }
}

/// A draft as read back.
pub fn to_draft(r: &DraftRecord) -> (d: Draft)
    ensures
        draft_out_v(d) == draft_out(draft_v(*r)),
{
    Draft {
        id: r.id,
        context: clone_opt(&r.context),
        tags: parse_tags_opt(&r.tags),
        status: r.status.clone(),
        finalized_pair_id: r.finalized_pair_id,
        created_at: r.created_at.clone(),
        updated_at: r.updated_at.clone(),
    }
}

/// The revisions of draft `id`, oldest first.
pub fn revisions_of(store: &Store, id: i64) -> (r: Vec<DraftRevision>)
    ensures
        revisions_v(r@) == select_asc(store@.revisions, revision_of(id)),
{
    let ghost rs = store@.revisions;
    let mut out: Vec<DraftRevision> = Vec::new();
    let mut i: usize = 0;
    while i < store.revisions.len()
        invariant
            rs == store@.revisions,
            rs.len() == store.revisions@.len(),
            i <= rs.len(),
            revisions_v(out@) == select_asc(rs.take(i as int), revision_of(id)),
        decreases rs.len() - i,
    {
        proof {
            lemma_take_succ(rs, i as int);
            assert(rs[i as int] == revision_v(store.revisions@[i as int]));
        }
        if store.revisions[i].draft_id == id {
            let c = clone_revision(&store.revisions[i]);
            let ghost before = out@;
            out.push(c);
            proof {
                assert(revisions_v(out@) =~= revisions_v(before).push(revision_v(c)));
            }
        }
        i = i + 1;
    }
    proof {
        lemma_take_all(rs);
    }
    out
}

/// Reads a draft: its metadata, every revision (oldest first), and the
/// working diff between the first and the latest revision.
pub fn get_draft(store: &Store, id: i64) -> (r: Option<DraftWithRevisions>)
    ensures
        match r {
            Some(d) => get_draft_spec(store@, id) == Some(full_out_v(d)),
            None => get_draft_spec(store@, id) is None,
        },
{
    match find_draft(store, id) {
        None => None,
        Some(i) => {
            let draft = to_draft(&store.drafts[i]);
            let revisions = revisions_of(store, id);
            let n = revisions.len();
            let working_diff = if n > 0 && revisions[0].id != revisions[n - 1].id {
                Some(
                    rich_diff(revisions[0].content.as_str(), revisions[n - 1].content.as_str()),
                )
            } else {
                None
            };
            proof {
                assert(store@.drafts[i as int] == draft_v(store.drafts@[i as int]));
            }
            Some(DraftWithRevisions { draft, revisions, working_diff })
        },
    }
}

/// Whether a revision is revision `rev_id` of draft `draft_id`.
pub open spec fn revision_match(draft_id: i64, rev_id: i64) -> spec_fn(RevisionV) -> bool {
    |r: RevisionV| r.id == rev_id && r.draft_id == draft_id
}

/// What `restore_revision_at` returns and leaves: a new revision (source
/// "restore") copying the old one's content.
pub open spec fn restore_revision_spec(
    s: StoreV,
    draft_id: i64,
    rev_id: i64,
    now: Seq<char>,
) -> (Result<i64, LearnError>, StoreV) {
    match first_match(s.revisions, revision_match(draft_id, rev_id)) {
        None => (Err(LearnError::NoRows), s),
        Some(r) => save_revision_spec(s, draft_id, r.content, "restore"@, now),
    }
}

/// Restores revision `rev_id` of draft `draft_id` by appending a copy of it
/// (stamped `now`). History is never destroyed.
pub fn restore_revision_at(store: &mut Store, draft_id: i64, rev_id: i64, now: &str) -> (r: Result<
    i64,
    LearnError,
>)
    requires
        old(store)@.wf(),
    ensures
        final(store)@.wf(),
        (r, final(store)@) == restore_revision_spec(old(store)@, draft_id, rev_id, now@),
{
    let ghost rs = store@.revisions;
    let ghost orig = store@;
    let mut i: usize = 0;
    while i < store.revisions.len()
        invariant
            rs == store@.revisions,
            store@ == orig,
            orig == old(store)@,
            orig.wf(),
            rs.len() == store.revisions@.len(),
            i <= rs.len(),
            first_index(rs.take(i as int), revision_match(draft_id, rev_id)) is None,
        decreases rs.len() - i,
    {
        proof {
            lemma_take_succ(rs, i as int);
            assert(rs[i as int] == revision_v(store.revisions@[i as int]));
        }
        if store.revisions[i].id == rev_id && store.revisions[i].draft_id == draft_id {
            proof {
                lemma_first_index_prefix(rs, revision_match(draft_id, rev_id), i + 1);
            }
            let content = store.revisions[i].content.clone();
            return save_revision_at(store, draft_id, content.as_str(), "restore", now);
        }
        i = i + 1;
    }
    proof {
        lemma_take_all(rs);
    }
    Err(LearnError::NoRows)
}

/// Restores a past revision by appending a copy of it, stamped with the
/// current time.
pub fn restore_revision(store: &mut Store, draft_id: i64, rev_id: i64) -> (r: Result<
    i64,
    LearnError,
>)
    requires
        old(store)@.wf(),
    ensures
        final(store)@.wf(),
        exists|now: Seq<char>|
            (r, final(store)@) == restore_revision_spec(old(store)@, draft_id, rev_id, now),
{
    let now = now_iso();
    restore_revision_at(store, draft_id, rev_id, now.as_str())
}

} // verus!

verus! {

/// Whether `a` is listed before `b`: more recently updated first, and for
/// the same update time the older draft first.
pub open spec fn comes_before(a: DraftOut, b: DraftOut) -> bool {
    text_lt(b.updated_at, a.updated_at) || (a.updated_at == b.updated_at && a.id < b.id)
}

/// Whether the drafts are listed most recently updated first.
pub open spec fn newest_first(s: Seq<DraftOut>) -> bool {
    forall|i: int, j: int| 0 <= i < j < s.len() ==> comes_before(s[i], s[j])
}

/// Whether `r` lists exactly the drafts of `f`, most recently updated first.
pub open spec fn listed_newest_first(r: Seq<DraftOut>, f: Seq<DraftOut>) -> bool {
    &&& r.len() == f.len()
    &&& newest_first(r)
    &&& forall|x: DraftOut| r.contains(x) <==> f.contains(x)
}

pub proof fn lemma_comes_before_transitive(a: DraftOut, b: DraftOut, c: DraftOut)
    requires
        comes_before(a, b),
        comes_before(b, c),
    ensures
        comes_before(a, c),
{
    if text_lt(b.updated_at, a.updated_at) && text_lt(c.updated_at, b.updated_at) {
        lemma_text_lt_transitive(c.updated_at, b.updated_at, a.updated_at);
    }
}

pub proof fn lemma_comes_before_total(a: DraftOut, b: DraftOut)
    requires
        a.id != b.id,
    ensures
        comes_before(a, b) || comes_before(b, a),
{
    lemma_text_lt_total(a.updated_at, b.updated_at);
}

/// Ids strictly increasing along the list.
pub open spec fn ids_increasing(s: Seq<DraftOut>) -> bool {
    forall|i: int, j: int| 0 <= i < j < s.len() ==> s[i].id < s[j].id
}

fn before_exec(a: &Draft, b: &Draft) -> (r: bool)
    ensures
        r == comes_before(draft_out_v(*a), draft_out_v(*b)),
{
    text_less(b.updated_at.as_str(), a.updated_at.as_str()) || (str_eq(
        a.updated_at.as_str(),
        b.updated_at.as_str(),
    ) && a.id < b.id)
}

/// Sorts drafts most recently updated first (equal times: older first).
pub fn sort_newest_first(v: Vec<Draft>) -> (r: Vec<Draft>)
    requires
        ids_increasing(draft_outs_v(v@)),
    ensures
        listed_newest_first(draft_outs_v(r@), draft_outs_v(v@)),
{
    let ghost vv = draft_outs_v(v@);
    let n = v.len();
    let mut out: Vec<Draft> = Vec::new();
    let mut rest = v;
    let mut i: usize = 0;
    // `rest` is consumed from the front; keep the original view in `vv`.
    let ghost mut src: Seq<DraftOut> = seq![];
    proof {
        assert(vv =~= src + draft_outs_v(rest@));
    }
    while rest.len() > 0
        invariant
            vv == src + draft_outs_v(rest@),
            ids_increasing(vv),
            vv.len() == n,
            src.len() == i,
            i + rest@.len() == vv.len(),
            draft_outs_v(out@).len() == i,
            newest_first(draft_outs_v(out@)),
            forall|y: DraftOut| draft_outs_v(out@).contains(y) <==> vv.take(i as int).contains(y),
        decreases rest@.len(),
    {
        let ghost ov = draft_outs_v(out@);
        let ghost pre_rest = rest@;
        let x = rest.remove(0);
        let ghost xv = draft_out_v(x);
        proof {
            assert(x == pre_rest[0]);
            assert(draft_outs_v(pre_rest)[0] == xv);
            assert(vv[i as int] == xv);
            assert(draft_outs_v(rest@) =~= draft_outs_v(pre_rest).drop_first());
        }
        // every listed draft is older (smaller id) than x
        proof {
            assert forall|q: int| 0 <= q < ov.len() implies #[trigger] ov[q].id < xv.id by {
                assert(ov.contains(ov[q]));
                assert(vv.take(i as int).contains(ov[q]));
                let k = choose|k: int| 0 <= k < vv.take(i as int).len() && #[trigger] vv.take(i as int)[k] == ov[q];
                assert(vv[k] == ov[q]);
            }
        }
        let mut p: usize = 0;
        while p < out.len() && !before_exec(&x, &out[p])
            invariant
                ov == draft_outs_v(out@),
                p <= ov.len(),
                xv == draft_out_v(x),
                forall|q: int| 0 <= q < p ==> comes_before(#[trigger] ov[q], xv),
                forall|q: int| 0 <= q < ov.len() ==> #[trigger] ov[q].id < xv.id,
            decreases ov.len() - p,
        {
            proof {
                lemma_comes_before_total(ov[p as int], xv);
            }
            p = p + 1;
        }
        proof {
            if p < ov.len() {
                assert forall|q: int| p <= q < ov.len() implies comes_before(xv, #[trigger] ov[q]) by {
                    if q > p {
                        lemma_comes_before_transitive(xv, ov[p as int], ov[q]);
                    }
                }
            }
        }
        let ghost old_rest = draft_outs_v(rest@);
        out.insert(p, x);
        proof {
            let nv = draft_outs_v(out@);
            assert(nv =~= ov.insert(p as int, xv));
            assert forall|a: int, b: int| 0 <= a < b < nv.len() implies comes_before(nv[a], nv[b]) by {
                if a < p && b < p {
                } else if a < p && b == p {
                } else if a < p && b > p {
                    assert(nv[b] == ov[b - 1]);
                } else if a == p {
                    assert(nv[b] == ov[b - 1]);
                } else {
                    assert(nv[a] == ov[a - 1]);
                    assert(nv[b] == ov[b - 1]);
                }
            }
            assert(vv.take(i + 1) =~= vv.take(i as int).push(xv));
            let t0 = vv.take(i as int);
            let t1 = vv.take(i + 1);
            assert(t1 =~= t0.push(xv));
            assert forall|y: DraftOut| nv.contains(y) implies t1.contains(y) by {
                let k = choose|k: int| 0 <= k < nv.len() && #[trigger] nv[k] == y;
                if k == p {
                    assert(t1[i as int] == y);
                } else {
                    let w = if k < p { k } else { k - 1 };
                    assert(ov[w] == y);
                    assert(ov.contains(y));
                    assert(t0.contains(y));
                    let z = choose|z: int| 0 <= z < t0.len() && #[trigger] t0[z] == y;
                    assert(t1[z] == y);
                }
            }
            assert forall|y: DraftOut| t1.contains(y) implies nv.contains(y) by {
                let k = choose|k: int| 0 <= k < t1.len() && #[trigger] t1[k] == y;
                if k < i {
                    assert(t0[k] == y);
                    assert(t0.contains(y));
                    assert(ov.contains(y));
                    let w = choose|w: int| 0 <= w < ov.len() && #[trigger] ov[w] == y;
                    if w < p {
                        assert(nv[w] == y);
                    } else {
                        assert(nv[w + 1] == y);
                    }
                } else {
                    assert(nv[p as int] == y);
                }
            }
        }
        proof {
            src = src.push(xv);
            assert(src + draft_outs_v(rest@) =~= vv);
        }
        i = i + 1;
    }
    proof {
        assert(vv.take(i as int) =~= vv);
    }
    out
}

/// Which drafts a listing shows: open ones, or all with `include_finalized`.
pub open spec fn draft_keep(include_finalized: bool) -> spec_fn(DraftV) -> bool {
    |d: DraftV| include_finalized || d.status == "draft"@
}

/// The drafts a listing shows, oldest first (before sorting).
pub open spec fn listed_drafts(s: StoreV, include_finalized: bool) -> Seq<DraftOut> {
    select_asc(s.drafts, draft_keep(include_finalized)).map_values(|d: DraftV| draft_out(d))
}

/// Lists drafts (open ones, or all with `include_finalized`), most
/// recently updated first.
pub fn list_drafts(store: &Store, include_finalized: bool) -> (r: Vec<Draft>)
    requires
        store@.wf(),
    ensures
        listed_newest_first(draft_outs_v(r@), listed_drafts(store@, include_finalized)),
{
    let ghost ds = store@.drafts;
    let mut sel: Vec<Draft> = Vec::new();
    let mut i: usize = 0;
    while i < store.drafts.len()
        invariant
            ds == store@.drafts,
            ds.len() == store.drafts@.len(),
            i <= ds.len(),
            draft_outs_v(sel@) == select_asc(ds.take(i as int), draft_keep(include_finalized)).map_values(
                |d: DraftV| draft_out(d),
            ),
        decreases ds.len() - i,
    {
        proof {
            lemma_take_succ(ds, i as int);
            assert(ds[i as int] == draft_v(store.drafts@[i as int]));
        }
        let keep = include_finalized || str_eq(store.drafts[i].status.as_str(), "draft");
        if keep {
            let d = to_draft(&store.drafts[i]);
            let ghost before = sel@;
            sel.push(d);
            proof {
                assert(draft_outs_v(sel@) =~= draft_outs_v(before).push(draft_out_v(d)));
            }
        }
        proof {
            assert(draft_outs_v(sel@) =~= select_asc(ds.take(i + 1), draft_keep(include_finalized)).map_values(
                |d: DraftV| draft_out(d),
            ));
        }
        i = i + 1;
    }
    proof {
        lemma_take_all(ds);
        lemma_select_ids(ds, draft_keep(include_finalized), |x: DraftV| x.id, store@.next_draft);
        let f = select_asc(ds, draft_keep(include_finalized));
        assert forall|a: int, b: int| 0 <= a < b < draft_outs_v(sel@).len() implies draft_outs_v(sel@)[a].id
            < draft_outs_v(sel@)[b].id by {
            assert(f.map_values(|x: DraftV| x.id)[a] == f[a].id);
            assert(f.map_values(|x: DraftV| x.id)[b] == f[b].id);
        }
    }
    sort_newest_first(sel)
}

} // verus!
