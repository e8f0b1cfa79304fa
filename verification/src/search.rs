//! Broad search across drafts (including every revision's text), pairs and
//! lessons.
use vstd::prelude::*;

use crate::drafts::{
    draft_out, draft_out_v, draft_outs_v, listed_newest_first, sort_newest_first, to_draft, Draft,
    DraftOut,
};
use crate::like::{like, like_match, like_match_opt, like_opt};
use crate::pairs::{
    lesson_outs_v, limit, needle_pattern, needle_pattern_exec, pair_outs_v, query, query_spec,
    Lesson, Pair,
};
use crate::seqs::{first_index, lemma_first_index_prefix, lemma_take_all, lemma_take_succ, select_asc};
use crate::store::{draft_v, lemma_select_ids, revision_v, DraftV, RevisionV, Store, StoreV};

verus! {

/// Whether a revision belongs to draft `id` and its text matches `pat`.
pub open spec fn revision_hit(id: i64, pat: Seq<char>) -> spec_fn(RevisionV) -> bool {
    |r: RevisionV| r.draft_id == id && like(r.content, pat)
}

/// Whether a search with LIKE pattern `pat` finds draft `d`: its context,
/// its tags or the text of one of its revisions matches.
pub open spec fn draft_found(s: StoreV, pat: Seq<char>) -> spec_fn(DraftV) -> bool {
    |d: DraftV|
        like_opt(d.context, pat) || like_opt(d.tags, pat) || first_index(
            s.revisions,
            revision_hit(d.id, pat),
        ) is Some
}

/// The drafts a search for `needle` finds, oldest first (before sorting).
pub open spec fn found_drafts(s: StoreV, needle: Seq<char>) -> Seq<DraftOut> {
    select_asc(s.drafts, draft_found(s, needle_pattern(needle))).map_values(
        |d: DraftV| draft_out(d),
    )
}

/// What a broad search returns.
pub struct SearchResult {
    pub drafts: Vec<Draft>,
    pub pairs: Vec<Pair>,
    pub lessons: Vec<Lesson>,
}

/// Whether some revision of draft `id` matches `pat`.
fn has_revision_hit(store: &Store, id: i64, pat: &str) -> (r: bool)
    ensures
        r == (first_index(store@.revisions, revision_hit(id, pat@)) is Some),
{
    let ghost rs = store@.revisions;
    let mut i: usize = 0;
    while i < store.revisions.len()
        invariant
            rs == store@.revisions,
            rs.len() == store.revisions@.len(),
            i <= rs.len(),
            first_index(rs.take(i as int), revision_hit(id, pat@)) is None,
        decreases rs.len() - i,
    {
        proof {
            lemma_take_succ(rs, i as int);
            assert(rs[i as int] == revision_v(store.revisions@[i as int]));
        }
        if store.revisions[i].draft_id == id && like_match(store.revisions[i].content.as_str(), pat) {
            proof {
                lemma_first_index_prefix(rs, revision_hit(id, pat@), i + 1);
            }
            return true;
        }
        i = i + 1;
    }
    proof {
        lemma_take_all(rs);
    }
    false
}

/// The drafts that a search with pattern `pat` finds, oldest first.
fn select_found_drafts(store: &Store, pat: &str) -> (r: Vec<Draft>)
    requires
        store@.wf(),
    ensures
        draft_outs_v(r@) == select_asc(store@.drafts, draft_found(store@, pat@)).map_values(
            |d: DraftV| draft_out(d),
        ),
        crate::drafts::ids_increasing(draft_outs_v(r@)),
{
    let ghost ds = store@.drafts;
    let ghost keep = draft_found(store@, pat@);
    let mut sel: Vec<Draft> = Vec::new();
    let mut i: usize = 0;
    while i < store.drafts.len()
        invariant
            ds == store@.drafts,
            keep == draft_found(store@, pat@),
            ds.len() == store.drafts@.len(),
            i <= ds.len(),
            draft_outs_v(sel@) == select_asc(ds.take(i as int), keep).map_values(
                |d: DraftV| draft_out(d),
            ),
        decreases ds.len() - i,
    {
        proof {
            lemma_take_succ(ds, i as int);
            assert(ds[i as int] == draft_v(store.drafts@[i as int]));
        }
        let d = &store.drafts[i];
        let found = like_match_opt(&d.context, pat) || like_match_opt(&d.tags, pat)
            || has_revision_hit(store, d.id, pat);
        if found {
            let x = to_draft(d);
            let ghost before = sel@;
            sel.push(x);
            proof {
                assert(draft_outs_v(sel@) =~= draft_outs_v(before).push(draft_out_v(x)));
            }
        }
        proof {
            assert(draft_outs_v(sel@) =~= select_asc(ds.take(i + 1), keep).map_values(
                |d: DraftV| draft_out(d),
            ));
        }
        i = i + 1;
    }
    proof {
        lemma_take_all(ds);
        lemma_select_ids(ds, keep, |x: DraftV| x.id, store@.next_draft);
        let f = select_asc(ds, keep);
        assert forall|a: int, b: int|
            0 <= a < b < draft_outs_v(sel@).len() implies draft_outs_v(sel@)[a].id < draft_outs_v(
            sel@,
        )[b].id by {
            assert(f.map_values(|x: DraftV| x.id)[a] == f[a].id);
            assert(f.map_values(|x: DraftV| x.id)[b] == f[b].id);
        }
    }
    sel
}

/// The first `n` of `v`.
fn keep_first(v: Vec<Draft>, n: usize) -> (r: Vec<Draft>)
    ensures
        draft_outs_v(r@) == limit(draft_outs_v(v@), n as nat),
{
    let ghost v0 = v@;
    let mut v = v;
    if v.len() > n {
        v.truncate(n);
        proof {
            assert(v@ =~= v0.take(n as int));
        }
    }
    proof {
        assert(draft_outs_v(v@) =~= limit(draft_outs_v(v0), n as nat));
    }
    v
}

/// Searches drafts (context, tags, or any revision's text), pairs and
/// lessons for `needle` (SQL LIKE `%needle%`: case-insensitive for ASCII).
/// Drafts come most recently updated first, at most 50; pairs and lessons
/// as `query` gives them.
pub fn search_all(store: &Store, needle: &str) -> (r: SearchResult)
    requires
        store@.wf(),
    ensures
        exists|f: Seq<DraftOut>|
            listed_newest_first(f, found_drafts(store@, needle@)) && draft_outs_v(r.drafts@)
                == limit(f, 50),
        pair_outs_v(r.pairs@) == query_spec(store@, needle@).0,
        lesson_outs_v(r.lessons@) == query_spec(store@, needle@).1,
{
    let pat = needle_pattern_exec(needle);
    let sel = select_found_drafts(store, pat.as_str());
    let sorted = sort_newest_first(sel);
    let ghost f = draft_outs_v(sorted@);
    let drafts = keep_first(sorted, 50);
    let (pairs, lessons) = query(store, needle);
    SearchResult { drafts, pairs, lessons }
}

} // verus!
