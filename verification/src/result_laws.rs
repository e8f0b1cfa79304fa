//! What the results of searching, listing, promoting, categorizing and
//! laying out a diff must satisfy, stated over the inputs themselves.
use vstd::prelude::*;

use crate::analysis::{categorize_spec, has_date, letters_key, matched_texts, number_spans};
use crate::diff::{hunk_rows, new_segs, old_segs, trim_line_spec, word_diff};
use crate::like::{like, like_opt};
use crate::lint::pattern_matches_spec;
use crate::pairs::{
    any_like, lesson_keep, lesson_out, lessons_spec, limit, needle_pattern, pair_keep, pair_out,
    query_spec, tag_pattern, LessonOut, PairOut,
};
use crate::promote::{pattern_pair_ids, promotions};
use crate::seqs::{
    count_where, lemma_select_asc_members, lemma_select_desc_members, select_asc, select_desc,
};
use crate::store::{LessonV, PairV, PatternV, StoreV};
use crate::text::{trimmed, words};

verus! {

/// Where an element kept by `p` lands when selecting last first: after
/// exactly the kept elements that come later in `s`.
pub proof fn lemma_select_desc_position<T>(s: Seq<T>, p: spec_fn(T) -> bool, k: int)
    requires
        0 <= k < s.len(),
        p(s[k]),
    ensures
        count_where(s.subrange(k + 1, s.len() as int), p) < select_desc(s, p).len(),
        select_desc(s, p)[count_where(s.subrange(k + 1, s.len() as int), p) as int] == s[k],
    decreases s.len(),
{
    let tail = s.subrange(k + 1, s.len() as int);
    if k == s.len() - 1 {
        assert(tail =~= Seq::<T>::empty());
    } else {
        let d = s.drop_last();
        assert(d[k] == s[k]);
        lemma_select_desc_position(d, p, k);
        let dt = d.subrange(k + 1, d.len() as int);
        assert(tail.drop_last() =~= dt);
        assert(tail.last() == s.last());
    }
}

/// An element kept by `p` is among those selected first to last.
pub proof fn lemma_select_asc_keeps<T>(s: Seq<T>, p: spec_fn(T) -> bool, k: int)
    requires
        0 <= k < s.len(),
        p(s[k]),
    ensures
        select_asc(s, p).contains(s[k]),
    decreases s.len(),
{
    if k == s.len() - 1 {
        assert(select_asc(s, p).last() == s[k]);
        assert(select_asc(s, p)[select_asc(s, p).len() - 1] == s[k]);
    } else {
        let d = s.drop_last();
        assert(d[k] == s[k]);
        lemma_select_asc_keeps(d, p, k);
        let w = choose|w: int| 0 <= w < select_asc(d, p).len() && select_asc(d, p)[w] == s[k];
        if p(s.last()) {
            assert(select_asc(s, p)[w] == select_asc(d, p)[w]);
        }
    }
}

/// Whether the needle occurs (as SQL `LIKE '%needle%'` finds it) in the
/// pair's context, tags, final text or draft.
pub open spec fn pair_mentions(q: PairV, needle: Seq<char>) -> bool {
    let pat = needle_pattern(needle);
    like_opt(q.context, pat) || like_opt(q.tags, pat) || like(q.final_, pat) || like(q.draft, pat)
}

/// A search finds a pair whose context, tags, final text or draft contains
/// the needle, as long as fewer than 50 newer pairs also do; and every pair
/// it returns contains the needle in one of those.
pub proof fn law_query_finds_mentioning_pairs(s: StoreV, needle: Seq<char>, k: int)
    requires
        0 <= k < s.pairs.len(),
        pair_mentions(s.pairs[k], needle),
        count_where(
            s.pairs.subrange(k + 1, s.pairs.len() as int),
            |q: PairV| pair_mentions(q, needle),
        ) < 50,
    ensures
        query_spec(s, needle).0.contains(pair_out(s.pairs[k])),
        forall|x: PairOut|
            query_spec(s, needle).0.contains(x) ==> exists|j: int|
                0 <= j < s.pairs.len() && x == pair_out(#[trigger] s.pairs[j]) && pair_mentions(
                    s.pairs[j],
                    needle,
                ),
{
    let keep = pair_keep(Some(needle_pattern(needle)));
    let mention = |q: PairV| pair_mentions(q, needle);
    assert(keep =~= mention);
    let sel = select_desc(s.pairs, keep);
    lemma_select_desc_position(s.pairs, keep, k);
    let j = count_where(s.pairs.subrange(k + 1, s.pairs.len() as int), keep) as int;
    let lim = limit(sel, 50);
    assert(lim[j] == sel[j]);
    assert(lim.map_values(|p: PairV| pair_out(p))[j] == pair_out(s.pairs[k]));
    lemma_select_desc_members(s.pairs, keep);
    assert forall|x: PairOut| query_spec(s, needle).0.contains(x) implies exists|j: int|
        0 <= j < s.pairs.len() && x == pair_out(#[trigger] s.pairs[j]) && pair_mentions(
            s.pairs[j],
            needle,
        ) by {
        let w = choose|w: int|
            0 <= w < query_spec(s, needle).0.len() && query_spec(s, needle).0[w] == x;
        assert(lim[w] == sel[w]);
        let q = sel[w];
        assert(s.pairs.contains(q));
        let j = choose|j: int| 0 <= j < s.pairs.len() && s.pairs[j] == q;
        assert(x == pair_out(s.pairs[j]));
    }
}

proof fn lemma_any_like(t: Option<Seq<char>>, pats: Seq<Seq<char>>)
    ensures
        any_like(t, pats) <==> exists|m: int| 0 <= m < pats.len() && like_opt(t, #[trigger] pats[m]),
    decreases pats.len(),
{
    if pats.len() > 0 {
        lemma_any_like(t, pats.drop_last());
        if any_like(t, pats.drop_last()) {
            let m = choose|m: int| 0 <= m < pats.len() - 1 && like_opt(t, #[trigger] pats.drop_last()[m]);
            assert(pats[m] == pats.drop_last()[m]);
        }
        if exists|m: int| 0 <= m < pats.len() && like_opt(t, #[trigger] pats[m]) {
            let m = choose|m: int| 0 <= m < pats.len() && like_opt(t, #[trigger] pats[m]);
            if m < pats.len() - 1 {
                assert(pats.drop_last()[m] == pats[m]);
            }
        }
    }
}

/// Whether the lesson's tags column matches the pattern of one of `tags`
/// (SQL `tags LIKE '%"tag"%'`).
pub open spec fn tagged_with_any(l: LessonV, tags: Seq<Seq<char>>) -> bool {
    exists|m: int| 0 <= m < tags.len() && like_opt(l.tags, tag_pattern(#[trigger] tags[m]))
}

/// Listing lessons by tags keeps every lesson tagged with any one of the
/// tags, and only those; with no tags it lists every lesson.
pub proof fn law_lessons_by_any_tag(s: StoreV, tags: Seq<Seq<char>>, k: int)
    requires
        0 <= k < s.lessons.len(),
    ensures
        tags.len() == 0 || tagged_with_any(s.lessons[k], tags) ==> lessons_spec(s, tags).contains(
            lesson_out(s.lessons[k]),
        ),
        tags.len() > 0 ==> forall|x: LessonOut|
            lessons_spec(s, tags).contains(x) ==> exists|j: int|
                0 <= j < s.lessons.len() && x == lesson_out(#[trigger] s.lessons[j])
                    && tagged_with_any(s.lessons[j], tags),
{
    let pats = tags.map_values(|t: Seq<char>| tag_pattern(t));
    let keep = if tags.len() == 0 {
        lesson_keep(None, None)
    } else {
        lesson_keep(Some(pats), None)
    };
    assert forall|l: LessonV| tags.len() > 0 implies (keep(l) <==> tagged_with_any(l, tags)) by {
        lemma_any_like(l.tags, pats);
        if tagged_with_any(l, tags) {
            let m = choose|m: int| 0 <= m < tags.len() && like_opt(l.tags, tag_pattern(#[trigger] tags[m]));
            assert(pats[m] == tag_pattern(tags[m]));
        }
        if any_like(l.tags, pats) {
            let m = choose|m: int| 0 <= m < pats.len() && like_opt(l.tags, #[trigger] pats[m]);
            assert(pats[m] == tag_pattern(tags[m]));
        }
    }
    let sel = select_desc(s.lessons, keep);
    if tags.len() == 0 || tagged_with_any(s.lessons[k], tags) {
        lemma_select_desc_position(s.lessons, keep, k);
        let j = count_where(s.lessons.subrange(k + 1, s.lessons.len() as int), keep) as int;
        assert(sel.map_values(|l: LessonV| lesson_out(l))[j] == lesson_out(s.lessons[k]));
    }
    lemma_select_desc_members(s.lessons, keep);
    if tags.len() > 0 {
        assert forall|x: LessonOut| lessons_spec(s, tags).contains(x) implies exists|j: int|
            0 <= j < s.lessons.len() && x == lesson_out(#[trigger] s.lessons[j]) && tagged_with_any(
                s.lessons[j],
                tags,
            ) by {
            let w = choose|w: int|
                0 <= w < lessons_spec(s, tags).len() && lessons_spec(s, tags)[w] == x;
            let q = sel[w];
            assert(s.lessons.contains(q));
            let j = choose|j: int| 0 <= j < s.lessons.len() && s.lessons[j] == q;
            assert(x == lesson_out(s.lessons[j]));
        }
    }
}

/// Whether a pair with id `id` has a draft that matches `p`.
pub open spec fn draft_matches_for_id(s: StoreV, p: PatternV, id: i64) -> bool {
    exists|j: int|
        0 <= j < s.pairs.len() && (#[trigger] s.pairs[j]).id == id && pattern_matches_spec(
            p,
            s.pairs[j].draft,
        )
}

/// Whether `ids` are exactly the ids of the pairs whose draft matches
/// `p`: each listed id is such a pair's, and each such pair is listed.
pub open spec fn ids_of_matching_drafts(s: StoreV, p: PatternV, ids: Seq<i64>) -> bool {
    &&& forall|m: int| 0 <= m < ids.len() ==> draft_matches_for_id(s, p, #[trigger] ids[m])
    &&& forall|j: int|
        0 <= j < s.pairs.len() && pattern_matches_spec(p, (#[trigger] s.pairs[j]).draft)
            ==> ids.contains(s.pairs[j].id)
}

proof fn lemma_pattern_pair_ids(s: StoreV, p: PatternV)
    ensures
        ids_of_matching_drafts(s, p, pattern_pair_ids(s, p)),
{
    let keep = |q: PairV| pattern_matches_spec(p, q.draft);
    assert(crate::promote::draft_has(p) =~= keep);
    let sel = select_asc(s.pairs, keep);
    let ids = pattern_pair_ids(s, p);
    assert(select_asc(s.pairs, crate::promote::draft_has(p)) == sel);
    assert(ids == sel.map_values(|q: PairV| q.id));
    assert(ids.len() == sel.len());
    lemma_select_asc_members(s.pairs, keep);
    assert forall|m: int| 0 <= m < ids.len() implies draft_matches_for_id(s, p, #[trigger] ids[m]) by {
        assert(ids[m] == sel[m].id);
        assert(s.pairs.contains(sel[m]));
        let j = choose|j: int| 0 <= j < s.pairs.len() && s.pairs[j] == sel[m];
        assert(s.pairs[j].id == ids[m]);
    }
    assert forall|j: int|
        0 <= j < s.pairs.len() && pattern_matches_spec(p, (#[trigger] s.pairs[j]).draft)
            implies ids.contains(s.pairs[j].id) by {
        lemma_select_asc_keeps(s.pairs, keep, j);
        let w = choose|w: int| 0 <= w < sel.len() && sel[w] == s.pairs[j];
        assert(ids[w] == sel[w].id);
        assert(ids[w] == s.pairs[j].id);
    }
}

/// Whether promotion report `r` names a stored, not yet confirmed pattern
/// by its id and rule, and counts exactly the pairs whose draft matches it:
/// at least three, each listed by id.
pub open spec fn report_counts_drafts(s: StoreV, r: (i64, Seq<char>, int, Seq<i64>)) -> bool {
    exists|i: int|
        0 <= i < s.patterns.len() && (#[trigger] s.patterns[i]).id == r.0 && s.patterns[i].rule
            == r.1 && s.patterns[i].confidence != "confirmed"@ && r.2 == r.3.len() && r.2 >= 3
            && ids_of_matching_drafts(s, s.patterns[i], r.3)
}

/// Each promotion names a stored, not yet confirmed pattern by its id and
/// rule, and counts exactly the pairs whose draft (not whose final text)
/// matches that pattern: at least three of them, each listed by id.
pub proof fn law_promotion_counts_matching_drafts(s: StoreV)
    ensures
        forall|k: int|
            0 <= k < promotions(s).len() ==> report_counts_drafts(s, #[trigger] promotions(s)[k]),
{
    let keep = crate::promote::promotable(s);
    let sel = select_desc(s.patterns, keep);
    lemma_select_desc_members(s.patterns, keep);
    assert forall|k: int| 0 <= k < promotions(s).len() implies report_counts_drafts(
        s,
        #[trigger] promotions(s)[k],
    ) by {
        let p = sel[k];
        assert(promotions(s)[k] == crate::promote::promotion_of(s, p));
        assert(s.patterns.contains(p));
        let i = choose|i: int| 0 <= i < s.patterns.len() && s.patterns[i] == p;
        lemma_pattern_pair_ids(s, p);
        assert(keep(p));
        assert(s.patterns[i].id == promotions(s)[k].0);
    }
}

/// Whether two word counts differ enough for a rewrite to be structural:
/// by four or more, or, both above three, one more than 1.5 times the
/// other.
pub open spec fn counts_far_apart(x: int, y: int) -> bool {
    x - y >= 4 || y - x >= 4 || (x > 3 && y > 3 && (2 * x > 3 * y || 2 * y > 3 * x))
}

/// An edit whose two sides (trimmed) are both non-empty, keep the same
/// numbers and dates, and differ in more than punctuation is categorized
/// "structural" exactly when their counts of whitespace-separated words are
/// far apart, and "stylistic" otherwise.
pub proof fn law_structural_by_word_count(before: Seq<char>, after: Seq<char>)
    ensures
        ({
            let b = trimmed(before);
            let a = trimmed(after);
            categorize_spec(before, after) matches Some(c) ==> (b.len() > 0 && a.len() > 0
                && matched_texts(b, number_spans(b)) == matched_texts(a, number_spans(a))
                && has_date(b) == has_date(a) && !(letters_key(b) == letters_key(a) && b != a) ==> {
                &&& c.category == "structural"@ <==> counts_far_apart(
                    words(b).len() as int,
                    words(a).len() as int,
                )
                &&& c.category == "structural"@ || c.category == "stylistic"@
            })
        }),
{
    reveal_strlit("structural");
    reveal_strlit("stylistic");
    assert("structural"@[2] != "stylistic"@[2]);
}

/// The smaller of two lengths.
pub open spec fn min_len(x: int, y: int) -> int {
    if x <= y {
        x
    } else {
        y
    }
}

/// The rows of one hunk of removed lines `dels` and added lines `ins`:
/// one row per line; for each k below the smaller count, rows 2k and 2k+1
/// are the k-th removed line and the k-th added line, word-diffed against
/// each other; after them come the removed lines left over, then the added
/// lines left over, each as one whole segment.
pub proof fn law_hunk_pairs_kth_lines(dels: Seq<Seq<char>>, ins: Seq<Seq<char>>)
    ensures
        hunk_rows(dels, ins).len() == dels.len() + ins.len(),
        forall|k: int|
            0 <= k < min_len(dels.len() as int, ins.len() as int) ==> {
                let w = word_diff(trim_line_spec(#[trigger] dels[k]), trim_line_spec(ins[k]));
                &&& hunk_rows(dels, ins)[2 * k] == ("removed"@, old_segs(w))
                &&& hunk_rows(dels, ins)[2 * k + 1] == ("added"@, new_segs(w))
            },
        forall|k: int|
            min_len(dels.len() as int, ins.len() as int) <= k < dels.len() ==> hunk_rows(dels, ins)[min_len(
                dels.len() as int,
                ins.len() as int,
            ) + k] == ("removed"@, seq![("del"@, trim_line_spec(#[trigger] dels[k]))]),
        forall|k: int|
            min_len(dels.len() as int, ins.len() as int) <= k < ins.len() ==> hunk_rows(dels, ins)[min_len(
                dels.len() as int,
                ins.len() as int,
            ) + k] == ("added"@, seq![("add"@, trim_line_spec(#[trigger] ins[k]))]),
    decreases dels.len() + ins.len(),
{
    let h = hunk_rows(dels, ins);
    let m = min_len(dels.len() as int, ins.len() as int);
    if dels.len() > 0 && ins.len() > 0 {
        let d2 = dels.drop_first();
        let i2 = ins.drop_first();
        law_hunk_pairs_kth_lines(d2, i2);
        let h2 = hunk_rows(d2, i2);
        let m2 = min_len(d2.len() as int, i2.len() as int);
        assert(m2 == m - 1);
        assert(h.len() == 2 + h2.len());
        assert forall|k: int| 0 <= k < m implies {
            let w = word_diff(trim_line_spec(#[trigger] dels[k]), trim_line_spec(ins[k]));
            &&& h[2 * k] == ("removed"@, old_segs(w))
            &&& h[2 * k + 1] == ("added"@, new_segs(w))
        } by {
            if k > 0 {
                assert(d2[k - 1] == dels[k]);
                assert(i2[k - 1] == ins[k]);
                assert(h[2 * k] == h2[2 * (k - 1)]);
                assert(h[2 * k + 1] == h2[2 * (k - 1) + 1]);
            }
        }
        assert forall|k: int| m <= k < dels.len() implies h[m + k] == (
            "removed"@,
            seq![("del"@, trim_line_spec(#[trigger] dels[k]))],
        ) by {
            assert(d2[k - 1] == dels[k]);
            assert(h[m + k] == h2[m2 + (k - 1)]);
        }
        assert forall|k: int| m <= k < ins.len() implies h[m + k] == (
            "added"@,
            seq![("add"@, trim_line_spec(#[trigger] ins[k]))],
        ) by {
            assert(i2[k - 1] == ins[k]);
            assert(h[m + k] == h2[m2 + (k - 1)]);
        }
    } else if dels.len() > 0 {
        let d2 = dels.drop_first();
        law_hunk_pairs_kth_lines(d2, ins);
        let h2 = hunk_rows(d2, ins);
        assert forall|k: int| m <= k < dels.len() implies h[m + k] == (
            "removed"@,
            seq![("del"@, trim_line_spec(#[trigger] dels[k]))],
        ) by {
            if k > 0 {
                assert(d2[k - 1] == dels[k]);
                assert(h[k] == h2[k - 1]);
            }
        }
    } else if ins.len() > 0 {
        let i2 = ins.drop_first();
        law_hunk_pairs_kth_lines(dels, i2);
        let h2 = hunk_rows(dels, i2);
        assert forall|k: int| m <= k < ins.len() implies h[m + k] == (
            "added"@,
            seq![("add"@, trim_line_spec(#[trigger] ins[k]))],
        ) by {
            if k > 0 {
                assert(i2[k - 1] == ins[k]);
                assert(h[k] == h2[k - 1]);
            }
        }
    }
}

} // verus!
