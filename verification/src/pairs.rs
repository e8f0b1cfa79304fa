//! Pairs (a draft, its final, and their diff) and the lessons derived from
//! them: storing, reading, searching and deleting.
use vstd::prelude::*;
use vstd::string::StringExecFns;

use crate::diff::{clone_rows, rich_diff, rich_diff_spec, rows_v, DiffRow, RowV};
use crate::like::{like, like_match, like_match_opt, like_opt};
use crate::seqs::{
    first_index, first_match, lemma_first_index_bounds, lemma_first_index_prefix, lemma_take_all,
    lemma_take_succ, select_asc, select_desc,
};
use crate::store::{
    ids_ok, lemma_ids_push, lesson_v, lessons_v, pair_v, pairs_v, DiffV, LearnError, LessonRecord, LessonV,
    PairRecord, PairV, Store, StoreV, StoredDiff, now_iso, pattern_v, patterns_v, PatternV, draft_v,
    drafts_v, DraftV, Pattern, DraftRecord,
};
use crate::tags::{parse_tags_opt, parse_tags_spec, strs_v, tags_json_spec, tags_to_json};
use crate::text::{chars_of, clone_opt, opt_chars, opt_str_chars, owned, owned_opt, push_char};

verus! {

/// A stored pair as read back: the diff as rows and the tags parsed.
pub struct Pair {
    pub id: i64,
    pub draft: String,
    pub final_: String,
    pub diff: Vec<DiffRow>,
    pub context: Option<String>,
    pub tags: Vec<String>,
    pub created_at: String,
}

/// A stored lesson as read back, tags parsed.
pub struct Lesson {
    pub id: i64,
    pub pair_id: Option<i64>,
    pub lesson: String,
    pub tags: Vec<String>,
    pub created_at: String,
}

pub struct PairOut {
    pub id: i64,
    pub draft: Seq<char>,
    pub final_: Seq<char>,
    pub diff: Seq<RowV>,
    pub context: Option<Seq<char>>,
    pub tags: Seq<Seq<char>>,
    pub created_at: Seq<char>,
}

pub struct LessonOut {
    pub id: i64,
    pub pair_id: Option<i64>,
    pub lesson: Seq<char>,
    pub tags: Seq<Seq<char>>,
    pub created_at: Seq<char>,
}

pub open spec fn pair_out_v(p: Pair) -> PairOut {
    PairOut {
        id: p.id,
        draft: p.draft@,
        final_: p.final_@,
        diff: rows_v(p.diff@),
        context: opt_chars(p.context),
        tags: strs_v(p.tags@),
        created_at: p.created_at@,
    }
}

pub open spec fn pair_outs_v(s: Seq<Pair>) -> Seq<PairOut> {
    s.map_values(|p: Pair| pair_out_v(p))
}

pub open spec fn lesson_out_v(l: Lesson) -> LessonOut {
    LessonOut {
        id: l.id,
        pair_id: l.pair_id,
        lesson: l.lesson@,
        tags: strs_v(l.tags@),
        created_at: l.created_at@,
    }
}

pub open spec fn lesson_outs_v(s: Seq<Lesson>) -> Seq<LessonOut> {
    s.map_values(|l: Lesson| lesson_out_v(l))
}

/// The rows of a pair's diff: the stored rows, or, for a diff column that
/// holds text, the rows recomputed from the draft and the final.
pub open spec fn stored_rows(p: PairV) -> Seq<RowV> {
    match p.diff {
        DiffV::Rows(r) => r,
        DiffV::Text(_) => rich_diff_spec(p.draft, p.final_),
    }
}

/// A pair as read back.
pub open spec fn pair_out(p: PairV) -> PairOut {
    PairOut {
        id: p.id,
        draft: p.draft,
        final_: p.final_,
        diff: stored_rows(p),
        context: p.context,
        tags: parse_tags_spec(p.tags),
        created_at: p.created_at,
    }
}

/// A lesson as read back.
pub open spec fn lesson_out(l: LessonV) -> LessonOut {
    LessonOut {
        id: l.id,
        pair_id: l.pair_id,
        lesson: l.lesson,
        tags: parse_tags_spec(l.tags),
        created_at: l.created_at,
    }
}

/// The first `n` elements of `s` (all of them when fewer).
pub open spec fn limit<T>(s: Seq<T>, n: nat) -> Seq<T> {
    if s.len() <= n {
        s
    } else {
        s.take(n as int)
    }
}

/// The pair added as the newest row of `s`.
pub open spec fn new_pair(
    s: StoreV,
    draft: Seq<char>,
    final_: Seq<char>,
    context: Option<Seq<char>>,
    tags: Seq<Seq<char>>,
    now: Seq<char>,
) -> PairV {
    PairV {
        id: s.next_pair,
        draft,
        final_,
        diff: DiffV::Rows(rich_diff_spec(draft, final_)),
        context,
        tags: Some(tags_json_spec(tags)),
        created_at: now,
    }
}

/// `s` with that pair added.
pub open spec fn with_pair(
    s: StoreV,
    draft: Seq<char>,
    final_: Seq<char>,
    context: Option<Seq<char>>,
    tags: Seq<Seq<char>>,
    now: Seq<char>,
) -> StoreV {
    StoreV {
        pairs: s.pairs.push(new_pair(s, draft, final_, context, tags, now)),
        next_pair: (s.next_pair + 1) as i64,
        ..s
    }
}


/// The diff rows of a stored pair.
pub fn pair_diff(r: &PairRecord) -> (d: Vec<DiffRow>)
    ensures
        rows_v(d@) == stored_rows(pair_v(*r)),
{
    match &r.diff {
        StoredDiff::Rows(rows) => clone_rows(rows),
        StoredDiff::Text(_) => rich_diff(r.draft.as_str(), r.final_.as_str()),
    }
}

/// A stored pair as read back.
pub fn to_pair(r: &PairRecord) -> (p: Pair)
    ensures
        pair_out_v(p) == pair_out(pair_v(*r)),
{
    Pair {
        id: r.id,
        draft: r.draft.clone(),
        final_: r.final_.clone(),
        diff: pair_diff(r),
        context: clone_opt(&r.context),
        tags: parse_tags_opt(&r.tags),
        created_at: r.created_at.clone(),
    }
}

/// A stored lesson as read back.
pub fn to_lesson(r: &LessonRecord) -> (l: Lesson)
    ensures
        lesson_out_v(l) == lesson_out(lesson_v(*r)),
{
    Lesson {
        id: r.id,
        pair_id: r.pair_id,
        lesson: r.lesson.clone(),
        tags: parse_tags_opt(&r.tags),
        created_at: r.created_at.clone(),
    }
}

/// Stores a (draft, final) pair stamped `now`, with its structured diff.
/// Returns the new pair's id.
pub fn add_pair_at(
    store: &mut Store,
    draft: &str,
    final_: &str,
    context: Option<&str>,
    tags: &[String],
    now: &str,
) -> (r: Result<i64, LearnError>)
    requires
        old(store)@.wf(),
    ensures
        final(store)@.wf(),
        old(store)@.next_pair == i64::MAX ==> r == Err::<i64, LearnError>(LearnError::Full)
            && final(store)@ == old(store)@,
        old(store)@.next_pair < i64::MAX ==> r == Ok::<i64, LearnError>(old(store)@.next_pair)
            && final(store)@ == with_pair(
            old(store)@,
            draft@,
            final_@,
            opt_str_chars(context),
            strs_v(tags@),
            now@,
        ),
{
    if store.next_pair == i64::MAX {
        return Err(LearnError::Full);
    }
    let id = store.next_pair;
    let diff = rich_diff(draft, final_);
    let rec = PairRecord {
        id,
        draft: owned(draft),
        final_: owned(final_),
        diff: StoredDiff::Rows(diff),
        context: owned_opt(context),
        tags: Some(tags_to_json(tags)),
        created_at: owned(now),
    };
    let ghost before = store@;
    store.pairs.push(rec);
    store.next_pair = id + 1;
    proof {
        assert(store@.pairs =~= before.pairs.push(pair_v(rec)));
        assert(store@.pairs.map_values(|x: PairV| x.id) =~= before.pairs.map_values(
            |x: PairV| x.id,
        ).push(id));
        lemma_ids_push(before.pairs.map_values(|x: PairV| x.id), id);
        assert(store@ == with_pair(
            before,
            draft@,
            final_@,
            opt_str_chars(context),
            strs_v(tags@),
            now@,
        ));
    }
    Ok(id)
}

/// Stores a (draft, final) pair stamped with the current time. Returns the
/// new pair's id.
pub fn add_pair(
    store: &mut Store,
    draft: &str,
    final_: &str,
    context: Option<&str>,
    tags: &[String],
) -> (r: Result<i64, LearnError>)
    requires
        old(store)@.wf(),
    ensures
        final(store)@.wf(),
        old(store)@.next_pair == i64::MAX ==> r == Err::<i64, LearnError>(LearnError::Full)
            && final(store)@ == old(store)@,
        old(store)@.next_pair < i64::MAX ==> r == Ok::<i64, LearnError>(old(store)@.next_pair)
            && exists|now: Seq<char>|
            final(store)@ == with_pair(
                old(store)@,
                draft@,
                final_@,
                opt_str_chars(context),
                strs_v(tags@),
                now,
            ),
{
    let now = now_iso();
    add_pair_at(store, draft, final_, context, tags, now.as_str())
}

/// Whether a pair has id `id`.
pub open spec fn pair_id_is(id: i64) -> spec_fn(PairV) -> bool {
    |p: PairV| p.id == id
}

/// The pair with id `id`, as read back.
pub open spec fn show_pair_spec(s: StoreV, id: i64) -> Option<PairOut> {
    match first_match(s.pairs, pair_id_is(id)) {
        Some(p) => Some(pair_out(p)),
        None => None,
    }
}

/// Reads one pair, its diff normalized to rows.
pub fn show_pair(store: &Store, id: i64) -> (r: Option<Pair>)
    ensures
        match r {
            Some(p) => show_pair_spec(store@, id) == Some(pair_out_v(p)),
            None => show_pair_spec(store@, id) is None,
        },
{
    let ghost ps = store@.pairs;
    let mut i: usize = 0;
    while i < store.pairs.len()
        invariant
            ps == store@.pairs,
            ps.len() == store.pairs@.len(),
            i <= ps.len(),
            first_index(ps.take(i as int), pair_id_is(id)) is None,
        decreases ps.len() - i,
    {
        if store.pairs[i].id == id {
            proof {
                lemma_take_succ(ps, i as int);
                assert(ps[i as int] == pair_v(store.pairs@[i as int]));
                assert(pair_id_is(id)(ps[i as int]));
                assert(first_index(ps.take(i + 1), pair_id_is(id)) == Some(i as int));
                lemma_first_index_prefix(ps, pair_id_is(id), i + 1);
            }
            return Some(to_pair(&store.pairs[i]));
        }
        proof {
            lemma_take_succ(ps, i as int);
            assert(ps[i as int] == pair_v(store.pairs@[i as int]));
            assert(!pair_id_is(id)(ps[i as int]));
        }
        i = i + 1;
    }
    proof {
        lemma_take_all(ps);
    }
    None
}

/// The `n` newest pairs, newest first.
pub open spec fn recent_pairs_spec(s: StoreV, n: nat) -> Seq<PairOut> {
    limit(select_desc(s.pairs, pair_keep(None)), n).map_values(|p: PairV| pair_out(p))
}

/// Collects, newest first, the rows of `t` that `keep` selects, at most `n`
/// of them.
pub open spec fn pair_keep(needle_pat: Option<Seq<char>>) -> spec_fn(PairV) -> bool {
    |p: PairV|
        match needle_pat {
            None => true,
            Some(pat) => like_opt(p.context, pat) || like_opt(p.tags, pat) || like(p.final_, pat)
                || like(p.draft, pat),
        }
}

fn pair_selected(r: &PairRecord, needle_pat: &Option<String>) -> (b: bool)
    ensures
        b == pair_keep(opt_chars(*needle_pat))(pair_v(*r)),
{
    match needle_pat {
        None => true,
        Some(pat) => {
            let p = pat.as_str();
            like_match_opt(&r.context, p) || like_match_opt(&r.tags, p) || like_match(
                r.final_.as_str(),
                p,
            ) || like_match(r.draft.as_str(), p)
        },
    }
}

/// The newest pairs that match (`needle_pat` None: every pair), at most `n`.
fn select_pairs_desc(store: &Store, needle_pat: &Option<String>, n: usize) -> (r: Vec<Pair>)
    ensures
        pair_outs_v(r@) == limit(
            select_desc(store@.pairs, pair_keep(opt_chars(*needle_pat))),
            n as nat,
        ).map_values(|p: PairV| pair_out(p)),
{
    let ghost ps = store@.pairs;
    let ghost full = select_desc(ps, pair_keep(opt_chars(*needle_pat)));
    let ghost mut taken: Seq<PairV> = seq![];
    let mut out: Vec<Pair> = Vec::new();
    let mut i: usize = store.pairs.len();
    proof {
        lemma_take_all(ps);
    }
    while i > 0
        invariant
            ps == store@.pairs,
            ps.len() == store.pairs@.len(),
            i <= ps.len(),
            full == taken + select_desc(ps.take(i as int), pair_keep(opt_chars(*needle_pat))),
            out@.len() == limit(taken, n as nat).len(),
            forall|k: int|
                0 <= k < out@.len() ==> #[trigger] pair_out_v(out@[k]) == pair_out(
                    limit(taken, n as nat)[k],
                ),
        decreases i,
    {
        let j = i - 1;
        proof {
            lemma_take_succ(ps, j as int);
            assert(ps[j as int] == pair_v(store.pairs@[j as int]));
        }
        if pair_selected(&store.pairs[j], needle_pat) {
            if out.len() < n {
                out.push(to_pair(&store.pairs[j]));
            }
            proof {
                let old_taken = taken;
                taken = taken.push(ps[j as int]);
                assert(seq![ps[j as int]] + select_desc(ps.take(j as int), pair_keep(opt_chars(*needle_pat))) == select_desc(
                    ps.take(j + 1),
                    pair_keep(opt_chars(*needle_pat)),
                ));
                assert(full =~= taken + select_desc(ps.take(j as int), pair_keep(opt_chars(*needle_pat))));
                if old_taken.len() < n {
                    assert(limit(taken, n as nat) =~= limit(old_taken, n as nat).push(
                        ps[j as int],
                    ));
                } else {
                    assert(limit(taken, n as nat) =~= limit(old_taken, n as nat));
                }
            }
        } else {
            proof {
                assert(select_desc(ps.take(j as int), pair_keep(opt_chars(*needle_pat))) == select_desc(ps.take(j + 1), pair_keep(opt_chars(*needle_pat))));
            }
        }
        i = j;
    }
    proof {
        assert(taken =~= full);
        assert(pair_outs_v(out@) =~= limit(full, n as nat).map_values(|p: PairV| pair_out(p)));
    }
    out
}

/// The `n` most recent pairs, newest first.
pub fn recent_pairs(store: &Store, n: usize) -> (r: Vec<Pair>)
    ensures
        pair_outs_v(r@) == recent_pairs_spec(store@, n as nat),
{
    select_pairs_desc(store, &None, n)
}

} // verus!

verus! {

// ---------- lessons ----------
/// `t` with each `"` written as `\"`.
pub open spec fn escape_quotes(t: Seq<char>) -> Seq<char>
    decreases t.len(),
{
    if t.len() == 0 {
        seq![]
    } else {
        escape_quotes(t.drop_last()) + if t.last() == '"' {
            seq!['\\', '"']
        } else {
            seq![t.last()]
        }
    }
}

/// The LIKE pattern that finds a tag inside a stored JSON tag array.
pub open spec fn tag_pattern(t: Seq<char>) -> Seq<char> {
    seq!['%', '"'] + escape_quotes(t) + seq!['"', '%']
}

/// Whether the column matches any of the patterns.
pub open spec fn any_like(t: Option<Seq<char>>, pats: Seq<Seq<char>>) -> bool
    decreases pats.len(),
{
    if pats.len() == 0 {
        false
    } else {
        any_like(t, pats.drop_last()) || like_opt(t, pats.last())
    }
}

/// Which lessons a listing keeps: all of them, those whose tags match one
/// of `tag_pats`, or those whose text or tags match `needle_pat`.
pub open spec fn lesson_keep(
    tag_pats: Option<Seq<Seq<char>>>,
    needle_pat: Option<Seq<char>>,
) -> spec_fn(LessonV) -> bool {
    |l: LessonV|
        match tag_pats {
            Some(ps) => any_like(l.tags, ps),
            None => match needle_pat {
                Some(p) => like(l.lesson, p) || like_opt(l.tags, p),
                None => true,
            },
        }
}

/// The lessons tagged with any of `tags` (every lesson when `tags` is
/// empty), newest first.
pub open spec fn lessons_spec(s: StoreV, tags: Seq<Seq<char>>) -> Seq<LessonOut> {
    let keep = if tags.len() == 0 {
        lesson_keep(None, None)
    } else {
        lesson_keep(Some(tags.map_values(|t: Seq<char>| tag_pattern(t))), None)
    };
    select_desc(s.lessons, keep).map_values(|l: LessonV| lesson_out(l))
}

fn escape_tag_pattern(t: &str) -> (r: String)
    ensures
        r@ == tag_pattern(t@),
{
    let cs = chars_of(t);
    let mut r = String::new();
    push_char(&mut r, '%');
    push_char(&mut r, '"');
    let mut i: usize = 0;
    while i < cs.len()
        invariant
            cs@ == t@,
            i <= cs@.len(),
            r@ == seq!['%', '"'] + escape_quotes(t@.take(i as int)),
        decreases cs@.len() - i,
    {
        proof {
            lemma_take_succ(t@, i as int);
        }
        if cs[i] == '"' {
            push_char(&mut r, '\\');
            push_char(&mut r, '"');
        } else {
            push_char(&mut r, cs[i]);
        }
        proof {
            assert(r@ =~= seq!['%', '"'] + escape_quotes(t@.take(i + 1)));
        }
        i = i + 1;
    }
    proof {
        lemma_take_all(t@);
    }
    push_char(&mut r, '"');
    push_char(&mut r, '%');
    proof {
        assert(r@ =~= tag_pattern(t@));
    }
    r
}

fn any_like_exec(t: &Option<String>, pats: &Vec<String>) -> (b: bool)
    ensures
        b == any_like(opt_chars(*t), strs_v(pats@)),
{
    let ghost ps = strs_v(pats@);
    let mut i: usize = 0;
    let mut found = false;
    while i < pats.len()
        invariant
            ps == strs_v(pats@),
            i <= pats@.len(),
            found == any_like(opt_chars(*t), ps.take(i as int)),
        decreases pats@.len() - i,
    {
        proof {
            lemma_take_succ(ps, i as int);
        }
        let m = like_match_opt(t, pats[i].as_str());
        found = found || m;
        i = i + 1;
    }
    proof {
        lemma_take_all(ps);
    }
    found
}

fn lesson_selected(r: &LessonRecord, tag_pats: &Option<Vec<String>>, needle_pat: &Option<String>) -> (b: bool)
    ensures
        b == lesson_keep(
            match tag_pats {
                Some(v) => Some(strs_v(v@)),
                None => None,
            },
            opt_chars(*needle_pat),
        )(lesson_v(*r)),
{
    match tag_pats {
        Some(ps) => any_like_exec(&r.tags, ps),
        None => match needle_pat {
            Some(p) => like_match(r.lesson.as_str(), p.as_str()) || like_match_opt(
                &r.tags,
                p.as_str(),
            ),
            None => true,
        },
    }
}

/// The newest lessons that a listing keeps, at most `n`.
fn select_lessons_desc(
    store: &Store,
    tag_pats: &Option<Vec<String>>,
    needle_pat: &Option<String>,
    n: usize,
) -> (r: Vec<Lesson>)
    ensures
        lesson_outs_v(r@) == limit(
            select_desc(
                store@.lessons,
                lesson_keep(
                    match tag_pats {
                        Some(v) => Some(strs_v(v@)),
                        None => None,
                    },
                    opt_chars(*needle_pat),
                ),
            ),
            n as nat,
        ).map_values(|l: LessonV| lesson_out(l)),
{
    let ghost ls = store@.lessons;
    let ghost tp = match tag_pats {
        Some(v) => Some(strs_v(v@)),
        None => None,
    };
    let ghost full = select_desc(ls, lesson_keep(tp, opt_chars(*needle_pat)));
    let ghost mut taken: Seq<LessonV> = seq![];
    let mut out: Vec<Lesson> = Vec::new();
    let mut i: usize = store.lessons.len();
    proof {
        lemma_take_all(ls);
    }
    while i > 0
        invariant
            ls == store@.lessons,
            ls.len() == store.lessons@.len(),
            tp == match tag_pats {
                Some(v) => Some(strs_v(v@)),
                None => None,
            },
            i <= ls.len(),
            full == taken + select_desc(ls.take(i as int), lesson_keep(tp, opt_chars(*needle_pat))),
            out@.len() == limit(taken, n as nat).len(),
            forall|k: int|
                0 <= k < out@.len() ==> #[trigger] lesson_out_v(out@[k]) == lesson_out(
                    limit(taken, n as nat)[k],
                ),
        decreases i,
    {
        let j = i - 1;
        proof {
            lemma_take_succ(ls, j as int);
            assert(ls[j as int] == lesson_v(store.lessons@[j as int]));
        }
        if lesson_selected(&store.lessons[j], tag_pats, needle_pat) {
            if out.len() < n {
                out.push(to_lesson(&store.lessons[j]));
            }
            proof {
                let old_taken = taken;
                taken = taken.push(ls[j as int]);
                assert(full =~= taken + select_desc(
                    ls.take(j as int),
                    lesson_keep(tp, opt_chars(*needle_pat)),
                ));
                if old_taken.len() < n {
                    assert(limit(taken, n as nat) =~= limit(old_taken, n as nat).push(
                        ls[j as int],
                    ));
                } else {
                    assert(limit(taken, n as nat) =~= limit(old_taken, n as nat));
                }
            }
        }
        i = j;
    }
    proof {
        assert(taken =~= full);
        assert(lesson_outs_v(out@) =~= limit(full, n as nat).map_values(
            |l: LessonV| lesson_out(l),
        ));
    }
    out
}

/// Lessons, newest first; with `tags`, only those tagged with any of them.
pub fn lessons(store: &Store, tags: &[String]) -> (r: Vec<Lesson>)
    ensures
        lesson_outs_v(r@) == lessons_spec(store@, strs_v(tags@)),
{
    let n = store.lessons.len();
    if tags.len() == 0 {
        let r = select_lessons_desc(store, &None, &None, n);
        proof {
            crate::seqs::lemma_select_desc_len(store@.lessons, lesson_keep(None, None));
            assert(strs_v(tags@).len() == 0);
        }
        r
    } else {
        let mut pats: Vec<String> = Vec::new();
        let mut i: usize = 0;
        while i < tags.len()
            invariant
                i <= tags@.len(),
                pats@.len() == i,
                forall|k: int| 0 <= k < i ==> #[trigger] pats@[k]@ == tag_pattern(tags@[k]@),
            decreases tags@.len() - i,
        {
            pats.push(escape_tag_pattern(tags[i].as_str()));
            i = i + 1;
        }
        proof {
            assert(strs_v(pats@) =~= strs_v(tags@).map_values(|t: Seq<char>| tag_pattern(t)));
        }
        let some_pats = Some(pats);
        let r = select_lessons_desc(store, &some_pats, &None, n);
        proof {
            crate::seqs::lemma_select_desc_len(
                store@.lessons,
                lesson_keep(Some(strs_v(tags@).map_values(|t: Seq<char>| tag_pattern(t))), None),
            );
        }
        r
    }
}

/// Whether a pair with id `id` exists.
pub fn has_pair(store: &Store, id: i64) -> (b: bool)
    ensures
        b == (first_index(store@.pairs, pair_id_is(id)) is Some),
{
    let ghost ps = store@.pairs;
    let mut i: usize = 0;
    while i < store.pairs.len()
        invariant
            ps == store@.pairs,
            ps.len() == store.pairs@.len(),
            i <= ps.len(),
            first_index(ps.take(i as int), pair_id_is(id)) is None,
        decreases ps.len() - i,
    {
        proof {
            lemma_take_succ(ps, i as int);
            assert(ps[i as int] == pair_v(store.pairs@[i as int]));
        }
        if store.pairs[i].id == id {
            proof {
                lemma_first_index_prefix(ps, pair_id_is(id), i + 1);
            }
            return true;
        }
        i = i + 1;
    }
    proof {
        lemma_take_all(ps);
    }
    false
}

/// `s` with a lesson derived from pair `pair_id` added.
pub open spec fn with_lesson(
    s: StoreV,
    pair_id: i64,
    lesson: Seq<char>,
    tags: Seq<Seq<char>>,
    now: Seq<char>,
) -> StoreV {
    StoreV {
        lessons: s.lessons.push(
            LessonV {
                id: s.next_lesson,
                pair_id: Some(pair_id),
                lesson,
                tags: Some(tags_json_spec(tags)),
                created_at: now,
            },
        ),
        next_lesson: (s.next_lesson + 1) as i64,
        ..s
    }
}

/// Records a lesson derived from pair `pair_id`, stamped `now`. Refused
/// when no such pair exists.
pub fn add_lesson_at(
    store: &mut Store,
    pair_id: i64,
    lesson: &str,
    tags: &[String],
    now: &str,
) -> (r: Result<i64, LearnError>)
    requires
        old(store)@.wf(),
    ensures
        final(store)@.wf(),
        old(store)@.next_lesson == i64::MAX ==> r == Err::<i64, LearnError>(LearnError::Full)
            && final(store)@ == old(store)@,
        old(store)@.next_lesson < i64::MAX && first_index(old(store)@.pairs, pair_id_is(pair_id))
            is None ==> r == Err::<i64, LearnError>(LearnError::ForeignKey) && final(store)@ == old(
            store,
        )@,
        old(store)@.next_lesson < i64::MAX && first_index(old(store)@.pairs, pair_id_is(pair_id))
            is Some ==> r == Ok::<i64, LearnError>(old(store)@.next_lesson) && final(store)@
            == with_lesson(old(store)@, pair_id, lesson@, strs_v(tags@), now@),
{
    if store.next_lesson == i64::MAX {
        return Err(LearnError::Full);
    }
    if !has_pair(store, pair_id) {
        return Err(LearnError::ForeignKey);
    }
    let id = store.next_lesson;
    let rec = LessonRecord {
        id,
        pair_id: Some(pair_id),
        lesson: owned(lesson),
        tags: Some(tags_to_json(tags)),
        created_at: owned(now),
    };
    let ghost before = store@;
    store.lessons.push(rec);
    store.next_lesson = id + 1;
    proof {
        assert(store@.lessons =~= before.lessons.push(lesson_v(rec)));
        assert(store@.lessons.map_values(|x: LessonV| x.id) =~= before.lessons.map_values(
            |x: LessonV| x.id,
        ).push(id));
        lemma_ids_push(before.lessons.map_values(|x: LessonV| x.id), id);
        assert(store@ == with_lesson(before, pair_id, lesson@, strs_v(tags@), now@));
    }
    Ok(id)
}

/// Records a lesson derived from pair `pair_id`, stamped with the current
/// time.
pub fn add_lesson(store: &mut Store, pair_id: i64, lesson: &str, tags: &[String]) -> (r: Result<
    i64,
    LearnError,
>)
    requires
        old(store)@.wf(),
    ensures
        final(store)@.wf(),
        old(store)@.next_lesson == i64::MAX ==> r == Err::<i64, LearnError>(LearnError::Full)
            && final(store)@ == old(store)@,
        old(store)@.next_lesson < i64::MAX && first_index(old(store)@.pairs, pair_id_is(pair_id))
            is None ==> r == Err::<i64, LearnError>(LearnError::ForeignKey) && final(store)@ == old(
            store,
        )@,
        old(store)@.next_lesson < i64::MAX && first_index(old(store)@.pairs, pair_id_is(pair_id))
            is Some ==> r == Ok::<i64, LearnError>(old(store)@.next_lesson) && exists|now: Seq<char>|
            final(store)@ == with_lesson(old(store)@, pair_id, lesson@, strs_v(tags@), now),
{
    let now = now_iso();
    add_lesson_at(store, pair_id, lesson, tags, now.as_str())
}

/// The LIKE pattern for a substring search.
pub open spec fn needle_pattern(needle: Seq<char>) -> Seq<char> {
    seq!['%'] + needle + seq!['%']
}

/// What `query` returns: the newest 50 pairs whose context, tags, final or
/// draft contain the needle, and the newest 50 lessons whose text or tags
/// do.
pub open spec fn query_spec(s: StoreV, needle: Seq<char>) -> (Seq<PairOut>, Seq<LessonOut>) {
    let pat = needle_pattern(needle);
    (
        limit(select_desc(s.pairs, pair_keep(Some(pat))), 50).map_values(|p: PairV| pair_out(p)),
        limit(select_desc(s.lessons, lesson_keep(None, Some(pat))), 50).map_values(
            |l: LessonV| lesson_out(l),
        ),
    )
}

pub(crate) fn needle_pattern_exec(needle: &str) -> (r: String)
    ensures
        r@ == needle_pattern(needle@),
{
    let mut r = String::new();
    push_char(&mut r, '%');
    r.append(needle);
    push_char(&mut r, '%');
    r
}

/// Substring search (SQL LIKE, so `%` and `_` in the needle are wildcards)
/// across pairs and lessons, newest first, 50 of each at most.
pub fn query(store: &Store, needle: &str) -> (r: (Vec<Pair>, Vec<Lesson>))
    ensures
        pair_outs_v(r.0@) == query_spec(store@, needle@).0,
        lesson_outs_v(r.1@) == query_spec(store@, needle@).1,
{
    let pat = Some(needle_pattern_exec(needle));
    let pairs = select_pairs_desc(store, &pat, 50);
    let lessons = select_lessons_desc(store, &None, &pat, 50);
    (pairs, lessons)
}

/// All pairs, oldest first.
pub open spec fn all_pairs_asc_spec(s: StoreV) -> Seq<PairOut> {
    s.pairs.map_values(|p: PairV| pair_out(p))
}

/// All pairs, oldest first.
pub fn all_pairs_asc(store: &Store) -> (r: Vec<Pair>)
    ensures
        pair_outs_v(r@) == all_pairs_asc_spec(store@),
{
    let mut out: Vec<Pair> = Vec::new();
    let mut i: usize = 0;
    while i < store.pairs.len()
        invariant
            i <= store.pairs@.len(),
            out@.len() == i,
            forall|k: int| 0 <= k < i ==> #[trigger] pair_out_v(out@[k]) == pair_out(store@.pairs[k]),
        decreases store.pairs@.len() - i,
    {
        out.push(to_pair(&store.pairs[i]));
        i = i + 1;
    }
    assert(pair_outs_v(out@) =~= all_pairs_asc_spec(store@));
    out
}

} // verus!

verus! {

/// A lesson unlinked from pair `pid` when it was derived from it.
pub open spec fn unlink_lesson(l: LessonV, pid: i64) -> LessonV {
    if l.pair_id == Some(pid) {
        LessonV { pair_id: None, ..l }
    } else {
        l
    }
}

/// A draft unlinked from pair `pid` when it was finalized into it.
pub open spec fn unlink_draft(d: DraftV, pid: i64) -> DraftV {
    if d.finalized_pair_id == Some(pid) {
        DraftV { finalized_pair_id: None, ..d }
    } else {
        d
    }
}

/// Whether a pair's id differs from `id`.
pub open spec fn pair_id_not(id: i64) -> spec_fn(PairV) -> bool {
    |p: PairV| p.id != id
}

/// `s` without pair `id`; lessons and drafts that pointed at it are kept,
/// unlinked.
pub open spec fn without_pair(s: StoreV, id: i64) -> StoreV {
    StoreV {
        pairs: select_asc(s.pairs, pair_id_not(id)),
        lessons: s.lessons.map_values(|l: LessonV| unlink_lesson(l, id)),
        drafts: s.drafts.map_values(|d: DraftV| unlink_draft(d, id)),
        ..s
    }
}

/// Deletes pair `id`. Lessons derived from it and a draft finalized into it
/// are kept, with their link cleared.
pub fn delete_pair(store: &mut Store, id: i64)
    requires
        old(store)@.wf(),
    ensures
        final(store)@.wf(),
        final(store)@ == without_pair(old(store)@, id),
{
    let ghost orig = store@;
    // pairs
    let mut i: usize = 0;
    let ghost mut k: int = 0;
    proof {
        assert(orig.pairs.take(0) =~= seq![]);
        assert(orig.pairs.skip(0) =~= orig.pairs);
        assert(store@.pairs =~= select_asc(orig.pairs.take(0), pair_id_not(id)) + orig.pairs.skip(0));
    }
    while i < store.pairs.len()
        invariant
            orig.wf(),
            0 <= k <= orig.pairs.len(),
            i == select_asc(orig.pairs.take(k), pair_id_not(id)).len(),
            store@.pairs == select_asc(orig.pairs.take(k), pair_id_not(id)) + orig.pairs.skip(k),
            store@.lessons == orig.lessons,
            store@.drafts == orig.drafts,
            store@.revisions == orig.revisions,
            store@.patterns == orig.patterns,
            store@.feedback == orig.feedback,
            store@.jobs == orig.jobs,
            store@.next_pair == orig.next_pair,
            store@.next_lesson == orig.next_lesson,
            store@.next_draft == orig.next_draft,
            store@.next_revision == orig.next_revision,
            store@.next_pattern == orig.next_pattern,
            store@.next_feedback == orig.next_feedback,
            store@.next_job == orig.next_job,
        decreases store.pairs@.len() - i,
    {
        let ghost before = store@.pairs;
        proof {
            lemma_take_succ(orig.pairs, k);
            assert(store@.pairs[i as int] == orig.pairs[k]);
            assert(store@.pairs[i as int] == pair_v(store.pairs@[i as int]));
            assert(orig.pairs.skip(k).drop_first() =~= orig.pairs.skip(k + 1));
        }
        if store.pairs[i].id == id {
            store.pairs.remove(i);
            proof {
                assert(store@.pairs =~= before.remove(i as int));
                assert(before.remove(i as int) =~= select_asc(orig.pairs.take(k), pair_id_not(id)) + orig.pairs.skip(k + 1));
                assert(!pair_id_not(id)(orig.pairs[k]));
                assert(select_asc(orig.pairs.take(k + 1), pair_id_not(id)) == select_asc(orig.pairs.take(k), pair_id_not(id)));
                assert(store@.pairs =~= select_asc(orig.pairs.take(k + 1), pair_id_not(id))
                    + orig.pairs.skip(k + 1));
            }
        } else {
            i = i + 1;
            proof {
                assert(store@.pairs =~= select_asc(orig.pairs.take(k + 1), pair_id_not(id))
                    + orig.pairs.skip(k + 1));
            }
        }
        proof {
            k = k + 1;
        }
    }
    proof {
        lemma_take_all(orig.pairs);
        assert(orig.pairs.skip(orig.pairs.len() as int) =~= seq![]);
        assert(store@.pairs =~= select_asc(orig.pairs, pair_id_not(id)));
    }
    // lessons
    let ghost mid = store@;
    let mut j: usize = 0;
    while j < store.lessons.len()
        invariant
            j <= store.lessons@.len(),
            store.lessons@.len() == orig.lessons.len(),
            forall|q: int| 0 <= q < j ==> #[trigger] lesson_v(store.lessons@[q]) == unlink_lesson(orig.lessons[q], id),
            forall|q: int| j <= q < orig.lessons.len() ==> #[trigger] lesson_v(store.lessons@[q]) == orig.lessons[q],
            store@.pairs == mid.pairs,
            store@.drafts == mid.drafts,
            store@.revisions == mid.revisions,
            store@.patterns == mid.patterns,
            store@.feedback == mid.feedback,
            store@.jobs == mid.jobs,
            store@.next_pair == mid.next_pair,
            store@.next_lesson == mid.next_lesson,
            store@.next_draft == mid.next_draft,
            store@.next_revision == mid.next_revision,
            store@.next_pattern == mid.next_pattern,
            store@.next_feedback == mid.next_feedback,
            store@.next_job == mid.next_job,
        decreases store.lessons@.len() - j,
    {
        let ghost pre = store.lessons@;
        assert(lesson_v(pre[j as int]) == orig.lessons[j as int]);
        if let Some(p) = store.lessons[j].pair_id {
            if p == id {
                store.lessons[j].pair_id = None;
            }
        }
        assert(lesson_v(store.lessons@[j as int]) == unlink_lesson(orig.lessons[j as int], id));
        j = j + 1;
    }
    proof {
        assert(store@.lessons =~= orig.lessons.map_values(|l: LessonV| unlink_lesson(l, id)));
    }
    // drafts
    let ghost mid2 = store@;
    let mut d: usize = 0;
    while d < store.drafts.len()
        invariant
            d <= store.drafts@.len(),
            store.drafts@.len() == orig.drafts.len(),
            forall|q: int| 0 <= q < d ==> #[trigger] draft_v(store.drafts@[q]) == unlink_draft(orig.drafts[q], id),
            forall|q: int| d <= q < orig.drafts.len() ==> #[trigger] draft_v(store.drafts@[q]) == orig.drafts[q],
            store@.pairs == mid2.pairs,
            store@.lessons == mid2.lessons,
            store@.revisions == mid2.revisions,
            store@.patterns == mid2.patterns,
            store@.feedback == mid2.feedback,
            store@.jobs == mid2.jobs,
            store@.next_pair == mid2.next_pair,
            store@.next_lesson == mid2.next_lesson,
            store@.next_draft == mid2.next_draft,
            store@.next_revision == mid2.next_revision,
            store@.next_pattern == mid2.next_pattern,
            store@.next_feedback == mid2.next_feedback,
            store@.next_job == mid2.next_job,
        decreases store.drafts@.len() - d,
    {
        assert(draft_v(store.drafts@[d as int]) == orig.drafts[d as int]);
        if let Some(p) = store.drafts[d].finalized_pair_id {
            if p == id {
                store.drafts[d].finalized_pair_id = None;
            }
        }
        d = d + 1;
    }
    proof {
        assert(store@.drafts =~= orig.drafts.map_values(|x: DraftV| unlink_draft(x, id)));
        lemma_select_pairs_ids(orig.pairs, pair_id_not(id), orig.next_pair);
        assert(store@.lessons.map_values(|x: LessonV| x.id) =~= orig.lessons.map_values(|x: LessonV| x.id));
        assert(store@.drafts.map_values(|x: DraftV| x.id) =~= orig.drafts.map_values(|x: DraftV| x.id));
        assert(store@ == without_pair(orig, id));
    }
}

/// Keeping some pairs keeps the table in id order.
pub proof fn lemma_select_pairs_ids(ps: Seq<PairV>, keep: spec_fn(PairV) -> bool, next: i64)
    requires
        ids_ok(ps.map_values(|x: PairV| x.id), next),
    ensures
        ids_ok(select_asc(ps, keep).map_values(|x: PairV| x.id), next),
    decreases ps.len(),
{
    if ps.len() > 0 {
        let dl = ps.drop_last();
        assert(dl.map_values(|x: PairV| x.id) =~= ps.map_values(|x: PairV| x.id).drop_last());
        lemma_select_pairs_ids(dl, keep, next);
        crate::seqs::lemma_select_asc_members(dl, keep);
        let q = select_asc(dl, keep);
        assert forall|a: int| 0 <= a < q.len() implies #[trigger] q[a].id < ps.last().id by {
            let w = choose|w: int| 0 <= w < dl.len() && dl[w] == q[a];
            assert(ps.map_values(|x: PairV| x.id)[w] == q[a].id);
            assert(ps.map_values(|x: PairV| x.id)[ps.len() - 1] == ps.last().id);
        }
        if keep(ps.last()) {
            assert(select_asc(ps, keep).map_values(|x: PairV| x.id) =~= q.map_values(
                |x: PairV| x.id,
            ).push(ps.last().id));
            assert(ps.map_values(|x: PairV| x.id)[ps.len() - 1] == ps.last().id);
        }
    }
}

} // verus!

verus! {

/// A pattern unlinked from lesson `lid` when it was linked to it.
pub open spec fn unlink_pattern(p: PatternV, lid: i64) -> PatternV {
    if p.lesson_id == Some(lid) {
        PatternV { lesson_id: None, ..p }
    } else {
        p
    }
}

/// Whether a lesson's id differs from `id`.
pub open spec fn lesson_id_not(id: i64) -> spec_fn(LessonV) -> bool {
    |l: LessonV| l.id != id
}

/// `s` without lesson `id`; patterns linked to it are kept, unlinked.
pub open spec fn without_lesson(s: StoreV, id: i64) -> StoreV {
    StoreV {
        lessons: select_asc(s.lessons, lesson_id_not(id)),
        patterns: s.patterns.map_values(|p: PatternV| unlink_pattern(p, id)),
        ..s
    }
}

/// Deletes lesson `id`; its source pair is left as it is, and patterns
/// linked to it are kept with the link cleared.
pub fn delete_lesson(store: &mut Store, id: i64)
    requires
        old(store)@.wf(),
    ensures
        final(store)@.wf(),
        final(store)@ == without_lesson(old(store)@, id),
{
    let ghost orig = store@;
    let mut i: usize = 0;
    let ghost mut k: int = 0;
    proof {
        assert(orig.lessons.take(0) =~= seq![]);
        assert(orig.lessons.skip(0) =~= orig.lessons);
        assert(store@.lessons =~= select_asc(orig.lessons.take(0), lesson_id_not(id)) + orig.lessons.skip(0));
    }
    while i < store.lessons.len()
        invariant
            orig.wf(),
            0 <= k <= orig.lessons.len(),
            i == select_asc(orig.lessons.take(k), lesson_id_not(id)).len(),
            store@.lessons == select_asc(orig.lessons.take(k), lesson_id_not(id)) + orig.lessons.skip(k),
            store@.pairs == orig.pairs,
            store@.drafts == orig.drafts,
            store@.revisions == orig.revisions,
            store@.patterns == orig.patterns,
            store@.feedback == orig.feedback,
            store@.jobs == orig.jobs,
            store@.next_pair == orig.next_pair,
            store@.next_lesson == orig.next_lesson,
            store@.next_draft == orig.next_draft,
            store@.next_revision == orig.next_revision,
            store@.next_pattern == orig.next_pattern,
            store@.next_feedback == orig.next_feedback,
            store@.next_job == orig.next_job,
        decreases store.lessons@.len() - i,
    {
        let ghost before = store@.lessons;
        proof {
            lemma_take_succ(orig.lessons, k);
            assert(store@.lessons[i as int] == orig.lessons[k]);
            assert(store@.lessons[i as int] == lesson_v(store.lessons@[i as int]));
            assert(orig.lessons.skip(k).drop_first() =~= orig.lessons.skip(k + 1));
        }
        if store.lessons[i].id == id {
            store.lessons.remove(i);
            proof {
                assert(store@.lessons =~= before.remove(i as int));
                assert(before.remove(i as int) =~= select_asc(orig.lessons.take(k), lesson_id_not(id)) + orig.lessons.skip(k + 1));
                assert(!lesson_id_not(id)(orig.lessons[k]));
                assert(select_asc(orig.lessons.take(k + 1), lesson_id_not(id)) == select_asc(orig.lessons.take(k), lesson_id_not(id)));
                assert(store@.lessons =~= select_asc(orig.lessons.take(k + 1), lesson_id_not(id))
                    + orig.lessons.skip(k + 1));
            }
        } else {
            i = i + 1;
            proof {
                assert(store@.lessons =~= select_asc(orig.lessons.take(k + 1), lesson_id_not(id))
                    + orig.lessons.skip(k + 1));
            }
        }
        proof {
            k = k + 1;
        }
    }
    proof {
        lemma_take_all(orig.lessons);
        assert(orig.lessons.skip(orig.lessons.len() as int) =~= seq![]);
        assert(store@.lessons =~= select_asc(orig.lessons, lesson_id_not(id)));
    }
    let ghost mid = store@;
    let mut j: usize = 0;
    while j < store.patterns.len()
        invariant
            j <= store.patterns@.len(),
            store.patterns@.len() == orig.patterns.len(),
            forall|q: int| 0 <= q < j ==> #[trigger] pattern_v(store.patterns@[q]) == unlink_pattern(orig.patterns[q], id),
            forall|q: int| j <= q < orig.patterns.len() ==> #[trigger] pattern_v(store.patterns@[q]) == orig.patterns[q],
            store@.pairs == mid.pairs,
            store@.lessons == mid.lessons,
            store@.drafts == mid.drafts,
            store@.revisions == mid.revisions,
            store@.feedback == mid.feedback,
            store@.jobs == mid.jobs,
            store@.next_pair == mid.next_pair,
            store@.next_lesson == mid.next_lesson,
            store@.next_draft == mid.next_draft,
            store@.next_revision == mid.next_revision,
            store@.next_pattern == mid.next_pattern,
            store@.next_feedback == mid.next_feedback,
            store@.next_job == mid.next_job,
        decreases store.patterns@.len() - j,
    {
        assert(pattern_v(store.patterns@[j as int]) == orig.patterns[j as int]);
        if let Some(p) = store.patterns[j].lesson_id {
            if p == id {
                store.patterns[j].lesson_id = None;
            }
        }
        j = j + 1;
    }
    proof {
        assert(store@.patterns =~= orig.patterns.map_values(|p: PatternV| unlink_pattern(p, id)));
        crate::store::lemma_select_ids(orig.lessons, lesson_id_not(id), |x: LessonV| x.id, orig.next_lesson);
        assert(store@.patterns.map_values(|x: PatternV| x.id) =~= orig.patterns.map_values(|x: PatternV| x.id));
        assert(store@ == without_lesson(orig, id));
    }
}

} // verus!
