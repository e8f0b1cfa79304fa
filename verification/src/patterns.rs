//! Lint patterns: the matchable voice rules. Storing, listing and deleting
//! them.
use vstd::prelude::*;

use crate::seqs::{
    first_index, lemma_first_index_prefix, lemma_take_all, lemma_take_succ, select_asc,
    select_desc,
};
use crate::store::{
    ids_ok, lemma_ids_push, lemma_select_ids, lesson_v, now_iso, pattern_v, patterns_v,
    LearnError, LessonV, Pattern, PatternV, Store, StoreV,
};
use crate::text::{clone_opt, opt_chars, opt_str_chars, owned, owned_opt};

verus! {

/// Whether a lesson has id `id`.
pub open spec fn lesson_id_is(id: i64) -> spec_fn(LessonV) -> bool {
    |l: LessonV| l.id == id
}

/// Whether a lesson with id `id` exists.
pub fn has_lesson(store: &Store, id: i64) -> (b: bool)
    ensures
        b == (first_index(store@.lessons, lesson_id_is(id)) is Some),
{
    let ghost ls = store@.lessons;
    let mut i: usize = 0;
    while i < store.lessons.len()
        invariant
            ls == store@.lessons,
            ls.len() == store.lessons@.len(),
            i <= ls.len(),
            first_index(ls.take(i as int), lesson_id_is(id)) is None,
        decreases ls.len() - i,
    {
        proof {
            lemma_take_succ(ls, i as int);
            assert(ls[i as int] == lesson_v(store.lessons@[i as int]));
        }
        if store.lessons[i].id == id {
            proof {
                lemma_first_index_prefix(ls, lesson_id_is(id), i + 1);
            }
            return true;
        }
        i = i + 1;
    }
    proof {
        lemma_take_all(ls);
    }
    false
}

/// Whether the lesson a new pattern links to is acceptable: no link, or a
/// lesson that exists.
pub open spec fn lesson_link_ok(s: StoreV, lesson_id: Option<i64>) -> bool {
    match lesson_id {
        None => true,
        Some(l) => first_index(s.lessons, lesson_id_is(l)) is Some,
    }
}

/// The pattern added as the newest row of `s`; it starts unconfirmed.
pub open spec fn new_pattern(
    s: StoreV,
    lesson_id: Option<i64>,
    rule: Seq<char>,
    pattern: Seq<char>,
    pattern_type: Seq<char>,
    direction: Seq<char>,
    category: Seq<char>,
    before_text: Option<Seq<char>>,
    after_text: Option<Seq<char>>,
    now: Seq<char>,
) -> PatternV {
    PatternV {
        id: s.next_pattern,
        lesson_id,
        rule,
        pattern,
        pattern_type,
        direction,
        category,
        before_text,
        after_text,
        confidence: "unconfirmed"@,
        created_at: now,
    }
}

/// `s` with that pattern added.
pub open spec fn with_pattern(
    s: StoreV,
    lesson_id: Option<i64>,
    rule: Seq<char>,
    pattern: Seq<char>,
    pattern_type: Seq<char>,
    direction: Seq<char>,
    category: Seq<char>,
    before_text: Option<Seq<char>>,
    after_text: Option<Seq<char>>,
    now: Seq<char>,
) -> StoreV {
    StoreV {
        patterns: s.patterns.push(
            new_pattern(
                s,
                lesson_id,
                rule,
                pattern,
                pattern_type,
                direction,
                category,
                before_text,
                after_text,
                now,
            ),
        ),
        next_pattern: (s.next_pattern + 1) as i64,
        ..s
    }
}

/// Stores a voice pattern stamped `now`, unconfirmed. Refused when it
/// links to a lesson that does not exist. Returns the new pattern's id.
pub fn add_pattern_at(
    store: &mut Store,
    lesson_id: Option<i64>,
    rule: &str,
    pattern: &str,
    pattern_type: &str,
    direction: &str,
    category: &str,
    before_text: Option<&str>,
    after_text: Option<&str>,
    now: &str,
) -> (r: Result<i64, LearnError>)
    requires
        old(store)@.wf(),
    ensures
        final(store)@.wf(),
        old(store)@.next_pattern == i64::MAX ==> r == Err::<i64, LearnError>(LearnError::Full)
            && final(store)@ == old(store)@,
        old(store)@.next_pattern < i64::MAX && !lesson_link_ok(old(store)@, lesson_id) ==> r
            == Err::<i64, LearnError>(LearnError::ForeignKey) && final(store)@ == old(store)@,
        old(store)@.next_pattern < i64::MAX && lesson_link_ok(old(store)@, lesson_id) ==> r == Ok::<
            i64,
            LearnError,
        >(old(store)@.next_pattern) && final(store)@ == with_pattern(
            old(store)@,
            lesson_id,
            rule@,
            pattern@,
            pattern_type@,
            direction@,
            category@,
            opt_str_chars(before_text),
            opt_str_chars(after_text),
            now@,
        ),
{
    if store.next_pattern == i64::MAX {
        return Err(LearnError::Full);
    }
    if let Some(l) = lesson_id {
        if !has_lesson(store, l) {
            return Err(LearnError::ForeignKey);
        }
    }
    let id = store.next_pattern;
    let rec = Pattern {
        id,
        lesson_id,
        rule: owned(rule),
        pattern: owned(pattern),
        pattern_type: owned(pattern_type),
        direction: owned(direction),
        category: owned(category),
        before_text: owned_opt(before_text),
        after_text: owned_opt(after_text),
        confidence: owned("unconfirmed"),
        created_at: owned(now),
    };
    let ghost before = store@;
    store.patterns.push(rec);
    store.next_pattern = id + 1;
    proof {
        assert(store@.patterns =~= before.patterns.push(pattern_v(rec)));
        assert(store@.patterns.map_values(|x: PatternV| x.id) =~= before.patterns.map_values(
            |x: PatternV| x.id,
        ).push(id));
        lemma_ids_push(before.patterns.map_values(|x: PatternV| x.id), id);
    }
    Ok(id)
}

/// Stores a voice pattern stamped with the current time, unconfirmed.
/// Refused when it links to a lesson that does not exist.
pub fn add_pattern(
    store: &mut Store,
    lesson_id: Option<i64>,
    rule: &str,
    pattern: &str,
    pattern_type: &str,
    direction: &str,
    category: &str,
    before_text: Option<&str>,
    after_text: Option<&str>,
) -> (r: Result<i64, LearnError>)
    requires
        old(store)@.wf(),
    ensures
        final(store)@.wf(),
        old(store)@.next_pattern == i64::MAX ==> r == Err::<i64, LearnError>(LearnError::Full)
            && final(store)@ == old(store)@,
        old(store)@.next_pattern < i64::MAX && !lesson_link_ok(old(store)@, lesson_id) ==> r
            == Err::<i64, LearnError>(LearnError::ForeignKey) && final(store)@ == old(store)@,
        old(store)@.next_pattern < i64::MAX && lesson_link_ok(old(store)@, lesson_id) ==> r == Ok::<
            i64,
            LearnError,
        >(old(store)@.next_pattern) && exists|now: Seq<char>|
            final(store)@ == with_pattern(
                old(store)@,
                lesson_id,
                rule@,
                pattern@,
                pattern_type@,
                direction@,
                category@,
                opt_str_chars(before_text),
                opt_str_chars(after_text),
                now,
            ),
{
    let now = now_iso();
    add_pattern_at(
        store,
        lesson_id,
        rule,
        pattern,
        pattern_type,
        direction,
        category,
        before_text,
        after_text,
        now.as_str(),
    )
}

/// A copy of a pattern row.
pub fn clone_pattern(p: &Pattern) -> (r: Pattern)
    ensures
        pattern_v(r) == pattern_v(*p),
{
    Pattern {
        id: p.id,
        lesson_id: p.lesson_id,
        rule: p.rule.clone(),
        pattern: p.pattern.clone(),
        pattern_type: p.pattern_type.clone(),
        direction: p.direction.clone(),
        category: p.category.clone(),
        before_text: clone_opt(&p.before_text),
        after_text: clone_opt(&p.after_text),
        confidence: p.confidence.clone(),
        created_at: p.created_at.clone(),
    }
}

/// Which patterns a listing keeps: all, or those linked to one lesson.
pub open spec fn pattern_keep(lesson_id: Option<i64>) -> spec_fn(PatternV) -> bool {
    |p: PatternV|
        match lesson_id {
            None => true,
            Some(l) => p.lesson_id == Some(l),
        }
}

/// The patterns (all, or those of lesson `lesson_id`), newest first.
pub open spec fn list_patterns_spec(s: StoreV, lesson_id: Option<i64>) -> Seq<PatternV> {
    select_desc(s.patterns, pattern_keep(lesson_id))
}

/// Lists the patterns (all, or those linked to `lesson_id`), newest first.
pub fn list_patterns(store: &Store, lesson_id: Option<i64>) -> (r: Vec<Pattern>)
    ensures
        patterns_v(r@) == list_patterns_spec(store@, lesson_id),
{
    let ghost ps = store@.patterns;
    let ghost full = select_desc(ps, pattern_keep(lesson_id));
    let mut out: Vec<Pattern> = Vec::new();
    let mut i: usize = store.patterns.len();
    proof {
        lemma_take_all(ps);
    }
    while i > 0
        invariant
            ps == store@.patterns,
            ps.len() == store.patterns@.len(),
            i <= ps.len(),
            full == patterns_v(out@) + select_desc(ps.take(i as int), pattern_keep(lesson_id)),
        decreases i,
    {
        let j = i - 1;
        proof {
            lemma_take_succ(ps, j as int);
            assert(ps[j as int] == pattern_v(store.patterns@[j as int]));
        }
        let keep = match lesson_id {
            None => true,
            Some(l) => match store.patterns[j].lesson_id {
                Some(m) => m == l,
                None => false,
            },
        };
        if keep {
            let ghost before = out@;
            out.push(clone_pattern(&store.patterns[j]));
            proof {
                assert(patterns_v(out@) =~= patterns_v(before).push(ps[j as int]));
                assert(seq![ps[j as int]] + select_desc(ps.take(j as int), pattern_keep(lesson_id))
                    == select_desc(ps.take(j + 1), pattern_keep(lesson_id)));
                assert(full =~= patterns_v(out@) + select_desc(
                    ps.take(j as int),
                    pattern_keep(lesson_id),
                ));
            }
        } else {
            proof {
                assert(select_desc(ps.take(j as int), pattern_keep(lesson_id)) == select_desc(
                    ps.take(j + 1),
                    pattern_keep(lesson_id),
                ));
            }
        }
        i = j;
    }
    proof {
        assert(ps.take(0) =~= Seq::<PatternV>::empty());
        assert(patterns_v(out@) =~= full);
    }
    out
}

/// Whether a pattern's id differs from `id`.
pub open spec fn pattern_id_not(id: i64) -> spec_fn(PatternV) -> bool {
    |p: PatternV| p.id != id
}

/// `s` without pattern `id`.
pub open spec fn without_pattern(s: StoreV, id: i64) -> StoreV {
    StoreV { patterns: select_asc(s.patterns, pattern_id_not(id)), ..s }
}

/// Deletes pattern `id` (nothing when there is none).
pub fn delete_pattern(store: &mut Store, id: i64)
    requires
        old(store)@.wf(),
    ensures
        final(store)@.wf(),
        final(store)@ == without_pattern(old(store)@, id),
{
    let ghost orig = store@;
    let mut i: usize = 0;
    let ghost mut k: int = 0;
    proof {
        assert(orig.patterns.take(0) =~= seq![]);
        assert(orig.patterns.skip(0) =~= orig.patterns);
        assert(store@.patterns =~= select_asc(orig.patterns.take(0), pattern_id_not(id))
            + orig.patterns.skip(0));
    }
    while i < store.patterns.len()
        invariant
            orig.wf(),
            0 <= k <= orig.patterns.len(),
            i == select_asc(orig.patterns.take(k), pattern_id_not(id)).len(),
            store@.patterns == select_asc(orig.patterns.take(k), pattern_id_not(id))
                + orig.patterns.skip(k),
            store@.pairs == orig.pairs,
            store@.lessons == orig.lessons,
            store@.drafts == orig.drafts,
            store@.revisions == orig.revisions,
            store@.feedback == orig.feedback,
            store@.jobs == orig.jobs,
            store@.next_pair == orig.next_pair,
            store@.next_lesson == orig.next_lesson,
            store@.next_draft == orig.next_draft,
            store@.next_revision == orig.next_revision,
            store@.next_pattern == orig.next_pattern,
            store@.next_feedback == orig.next_feedback,
            store@.next_job == orig.next_job,
        decreases store.patterns@.len() - i,
    {
        let ghost before = store@.patterns;
        proof {
            lemma_take_succ(orig.patterns, k);
            assert(store@.patterns[i as int] == orig.patterns[k]);
            assert(store@.patterns[i as int] == pattern_v(store.patterns@[i as int]));
            assert(orig.patterns.skip(k).drop_first() =~= orig.patterns.skip(k + 1));
        }
        if store.patterns[i].id == id {
            store.patterns.remove(i);
            proof {
                assert(store@.patterns =~= before.remove(i as int));
                assert(before.remove(i as int) =~= select_asc(
                    orig.patterns.take(k),
                    pattern_id_not(id),
                ) + orig.patterns.skip(k + 1));
                assert(!pattern_id_not(id)(orig.patterns[k]));
                assert(select_asc(orig.patterns.take(k + 1), pattern_id_not(id)) == select_asc(
                    orig.patterns.take(k),
                    pattern_id_not(id),
                ));
            }
        } else {
            i = i + 1;
            proof {
                assert(store@.patterns =~= select_asc(
                    orig.patterns.take(k + 1),
                    pattern_id_not(id),
                ) + orig.patterns.skip(k + 1));
            }
        }
        proof {
            k = k + 1;
        }
    }
    proof {
        lemma_take_all(orig.patterns);
        assert(orig.patterns.skip(orig.patterns.len() as int) =~= seq![]);
        assert(store@.patterns =~= select_asc(orig.patterns, pattern_id_not(id)));
        lemma_select_ids(
            orig.patterns,
            pattern_id_not(id),
            |x: PatternV| x.id,
            orig.next_pattern,
        );
        assert(store@ == without_pattern(orig, id));
    }
}

} // verus!
