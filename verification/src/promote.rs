//! Occurrence-based promotion: an unconfirmed pattern found in the drafts
//! of three or more pairs becomes confirmed.
use vstd::prelude::*;

use crate::lint::{pattern_matches, pattern_matches_spec};
use crate::seqs::{lemma_take_all, lemma_take_succ, select_asc, select_desc};
use crate::store::{pair_v, pattern_v, Pattern, PairV, PatternV, Store, StoreV};
use crate::text::{owned, str_eq};

verus! {

/// Whether a pair's draft matches pattern `p`.
pub open spec fn draft_has(p: PatternV) -> spec_fn(PairV) -> bool {
    |q: PairV| pattern_matches_spec(p, q.draft)
}

/// The ids of the pairs whose draft matches `p`, oldest first.
pub open spec fn pattern_pair_ids(s: StoreV, p: PatternV) -> Seq<i64> {
    select_asc(s.pairs, draft_has(p)).map_values(|q: PairV| q.id)
}

/// Whether promotion confirms `p`: it is not confirmed yet and three or
/// more pairs' drafts match it.
pub open spec fn promotable(s: StoreV) -> spec_fn(PatternV) -> bool {
    |p: PatternV| p.confidence != "confirmed"@ && pattern_pair_ids(s, p).len() >= 3
}

/// `p` marked confirmed.
pub open spec fn confirm(p: PatternV) -> PatternV {
    PatternV { confidence: "confirmed"@, ..p }
}

/// `s` after promotion: every promotable pattern confirmed.
pub open spec fn promoted_store(s: StoreV) -> StoreV {
    StoreV {
        patterns: s.patterns.map_values(
            |p: PatternV|
                if promotable(s)(p) {
                    confirm(p)
                } else {
                    p
                },
        ),
        ..s
    }
}

/// What promotion reports for pattern `p`: its id, its rule, how many
/// pairs matched and which.
pub open spec fn promotion_of(s: StoreV, p: PatternV) -> (i64, Seq<char>, int, Seq<i64>) {
    (p.id, p.rule, pattern_pair_ids(s, p).len() as int, pattern_pair_ids(s, p))
}

/// The promotions, newest pattern first.
pub open spec fn promotions(s: StoreV) -> Seq<(i64, Seq<char>, int, Seq<i64>)> {
    select_desc(s.patterns, promotable(s)).map_values(|p: PatternV| promotion_of(s, p))
}

pub open spec fn promotion_v(t: (i64, String, usize, Vec<i64>)) -> (i64, Seq<char>, int, Seq<i64>) {
    (t.0, t.1@, t.2 as int, t.3@)
}

pub open spec fn promotions_v(s: Seq<(i64, String, usize, Vec<i64>)>) -> Seq<
    (i64, Seq<char>, int, Seq<i64>),
> {
    s.map_values(|t: (i64, String, usize, Vec<i64>)| promotion_v(t))
}

/// The ids of the pairs whose draft matches `p`, oldest first.
pub fn matching_pair_ids(store: &Store, p: &Pattern) -> (r: Vec<i64>)
    ensures
        r@ == pattern_pair_ids(store@, pattern_v(*p)),
        r@.len() <= store@.pairs.len(),
{
    let ghost ps = store@.pairs;
    let ghost pv = pattern_v(*p);
    let mut out: Vec<i64> = Vec::new();
    let mut i: usize = 0;
    while i < store.pairs.len()
        invariant
            ps == store@.pairs,
            pv == pattern_v(*p),
            ps.len() == store.pairs@.len(),
            i <= ps.len(),
            out@ == select_asc(ps.take(i as int), draft_has(pv)).map_values(|q: PairV| q.id),
            out@.len() <= i,
        decreases ps.len() - i,
    {
        proof {
            lemma_take_succ(ps, i as int);
            assert(ps[i as int] == pair_v(store.pairs@[i as int]));
        }
        if pattern_matches(p, store.pairs[i].draft.as_str()) {
            out.push(store.pairs[i].id);
            proof {
                assert(out@ =~= select_asc(ps.take(i + 1), draft_has(pv)).map_values(
                    |q: PairV| q.id,
                ));
            }
        } else {
            proof {
                assert(select_asc(ps.take(i + 1), draft_has(pv)) == select_asc(
                    ps.take(i as int),
                    draft_has(pv),
                ));
            }
        }
        i = i + 1;
    }
    proof {
        lemma_take_all(ps);
    }
    out
}

/// Counts the pairs whose draft matches `p`: how many, and which.
pub fn count_pattern_in_pairs(store: &Store, p: &Pattern) -> (r: (usize, Vec<i64>))
    ensures
        r.1@ == pattern_pair_ids(store@, pattern_v(*p)),
        r.0 == r.1@.len(),
{
    let ids = matching_pair_ids(store, p);
    (ids.len(), ids)
}

/// Confirms every unconfirmed pattern that the drafts of three or more
/// pairs match. Reports each confirmed pattern (newest first) with its
/// rule, the number of matching pairs and their ids.
pub fn promote_patterns(store: &mut Store) -> (r: Vec<(i64, String, usize, Vec<i64>)>)
    requires
        old(store)@.wf(),
    ensures
        final(store)@.wf(),
        final(store)@ == promoted_store(old(store)@),
        promotions_v(r@) == promotions(old(store)@),
{
    let ghost orig = store@;
    let ghost pats = orig.patterns;
    // which patterns promotion confirms, with their matching pairs
    let mut found: Vec<Option<Vec<i64>>> = Vec::new();
    let mut j: usize = 0;
    while j < store.patterns.len()
        invariant
            store@ == orig,
            pats == orig.patterns,
            pats.len() == store.patterns@.len(),
            j <= pats.len(),
            found@.len() == j,
            forall|k: int|
                0 <= k < j ==> match #[trigger] found@[k] {
                    Some(ids) => promotable(orig)(pats[k]) && ids@ == pattern_pair_ids(
                        orig,
                        pats[k],
                    ),
                    None => !promotable(orig)(pats[k]),
                },
        decreases pats.len() - j,
    {
        proof {
            assert(pats[j as int] == pattern_v(store.patterns@[j as int]));
        }
        let p = &store.patterns[j];
        if str_eq(p.confidence.as_str(), "confirmed") {
            found.push(None);
        } else {
            let (count, ids) = count_pattern_in_pairs(store, p);
            if count >= 3 {
                found.push(Some(ids));
            } else {
                found.push(None);
            }
        }
        j = j + 1;
    }
    // the report, newest pattern first
    let ghost full = select_desc(pats, promotable(orig));
    let mut out: Vec<(i64, String, usize, Vec<i64>)> = Vec::new();
    let mut i: usize = store.patterns.len();
    proof {
        lemma_take_all(pats);
    }
    while i > 0
        invariant
            store@ == orig,
            pats == orig.patterns,
            pats.len() == store.patterns@.len(),
            found@.len() == pats.len(),
            forall|k: int|
                0 <= k < pats.len() ==> match #[trigger] found@[k] {
                    Some(ids) => promotable(orig)(pats[k]) && ids@ == pattern_pair_ids(
                        orig,
                        pats[k],
                    ),
                    None => !promotable(orig)(pats[k]),
                },
            i <= pats.len(),
            full.map_values(|p: PatternV| promotion_of(orig, p)) == promotions_v(out@)
                + select_desc(pats.take(i as int), promotable(orig)).map_values(
                |p: PatternV| promotion_of(orig, p),
            ),
        decreases i,
    {
        let k = i - 1;
        proof {
            lemma_take_succ(pats, k as int);
            assert(pats[k as int] == pattern_v(store.patterns@[k as int]));
        }
        match &found[k] {
            Some(ids) => {
                let ghost before = out@;
                let t = (store.patterns[k].id, store.patterns[k].rule.clone(), ids.len(), ids.clone());
                out.push(t);
                proof {
                    assert(promotable(orig)(pats[k as int]));
                    assert(promotion_v(t) == promotion_of(orig, pats[k as int]));
                    assert(promotions_v(out@) =~= promotions_v(before).push(
                        promotion_of(orig, pats[k as int]),
                    ));
                    let rest = select_desc(pats.take(k as int), promotable(orig));
                    assert(select_desc(pats.take(k + 1), promotable(orig)) == seq![pats[k as int]]
                        + rest);
                    assert((seq![pats[k as int]] + rest).map_values(
                        |p: PatternV| promotion_of(orig, p),
                    ) =~= seq![promotion_of(orig, pats[k as int])] + rest.map_values(
                        |p: PatternV| promotion_of(orig, p),
                    ));
                }
            },
            None => {
                proof {
                    assert(select_desc(pats.take(k as int), promotable(orig)) == select_desc(
                        pats.take(k + 1),
                        promotable(orig),
                    ));
                }
            },
        }
        i = k;
    }
    proof {
        assert(pats.take(0) =~= Seq::<PatternV>::empty());
        assert(promotions_v(out@) =~= promotions(orig));
    }
    // confirm them
    let mut m: usize = 0;
    while m < store.patterns.len()
        invariant
            pats == orig.patterns,
            store.patterns@.len() == pats.len(),
            found@.len() == pats.len(),
            forall|k: int|
                0 <= k < pats.len() ==> match #[trigger] found@[k] {
                    Some(ids) => promotable(orig)(pats[k]),
                    None => !promotable(orig)(pats[k]),
                },
            m <= pats.len(),
            forall|q: int|
                0 <= q < m ==> #[trigger] pattern_v(store.patterns@[q]) == (if promotable(orig)(
                    pats[q],
                ) {
                    confirm(pats[q])
                } else {
                    pats[q]
                }),
            forall|q: int| m <= q < pats.len() ==> #[trigger] pattern_v(store.patterns@[q]) == pats[q],
            store@.pairs == orig.pairs,
            store@.lessons == orig.lessons,
            store@.drafts == orig.drafts,
            store@.revisions == orig.revisions,
            store@.feedback == orig.feedback,
            store@.jobs == orig.jobs,
            store@.next_pair == orig.next_pair,
            store@.next_lesson == orig.next_lesson,
            store@.next_draft == orig.next_draft,
            store@.next_revision == orig.next_revision,
            store@.next_pattern == orig.next_pattern,
            store@.next_feedback == orig.next_feedback,
            store@.next_job == orig.next_job,
        decreases pats.len() - m,
    {
        assert(pattern_v(store.patterns@[m as int]) == pats[m as int]);
        let hit = found[m].is_some();
        proof {
            assert(hit == promotable(orig)(pats[m as int]));
        }
        if hit {
            store.patterns[m].confidence = owned("confirmed");
        }
        m = m + 1;
    }
    proof {
        assert(store@.patterns =~= promoted_store(orig).patterns);
        assert(store@.patterns.map_values(|x: PatternV| x.id) =~= orig.patterns.map_values(
            |x: PatternV| x.id,
        ));
        assert(store@ == promoted_store(orig));
    }
    out
}

} // verus!
