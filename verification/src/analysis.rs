//! Diff analysis: each change of a finalized pair categorized (deletion,
//! structural, factual, punctuation, stylistic), with the deleted and added
//! text, word swaps and the stored patterns that fire on either side.
use vstd::prelude::*;
use vstd::string::StringSliceAdditionalSpecFns;
use vstd::utf8::*;

use crate::bytes::{byte_slice, slice_str, utf8};
use crate::diff::{segs_v, rows_v, DiffRow, DiffSegment, RowV, SegV};
use crate::lint::{
    lowercase, pattern_matches, pattern_matches_spec, regex_find_spans, regex_is_match,
    regex_spans, regex_test, span_ok, to_lower,
};
use crate::pairs::{show_pair, show_pair_spec, PairOut, pair_out_v};
use crate::patterns::{list_patterns, list_patterns_spec};
use crate::seqs::{lemma_take_all, lemma_take_succ, select_asc};
use crate::store::{pattern_v, patterns_v, Pattern, PatternV, Store, StoreV};
use crate::text::{
    can_cut, chars_of, cut_ok, owned, push_char, push_str, split_words, str_eq, trim, trimmed,
    truncate_str, truncated, words,
};

verus! {

broadcast use vstd::utf8::encode_utf8_decode_utf8;

/// Whether a character is alphanumeric (`char::is_alphanumeric`: the
/// Unicode `Alphabetic` or `Numeric` property).
pub uninterp spec fn alphanumeric(c: char) -> bool;

/// `char::is_alphanumeric`. Claimed only that the result is named
/// `alphanumeric` of the character.
#[verifier::external_body]
fn is_alnum(c: char) -> (r: bool)
    ensures
        r == alphanumeric(c),
{
    c.is_alphanumeric()
}

/// The regex a number (amount, count, percentage) is recognised by.
pub open spec fn number_pattern() -> Seq<char> {
    "\\$?[0-9][0-9,]*(\\.[0-9]+)?%?"@
}

/// The regex a date such as "mar 14" is recognised by.
pub open spec fn date_pattern() -> Seq<char> {
    "\\b(jan|feb|mar|apr|may|jun|jul|aug|sep|oct|nov|dec)[a-z]*\\s+\\d{1,2}\\b"@
}

/// The spans of the numbers in `t` (the number regex always compiles).
pub open spec fn number_spans(t: Seq<char>) -> Seq<(usize, usize)> {
    match regex_find_spans(number_pattern(), t) {
        Some(v) => v,
        None => seq![],
    }
}

/// Whether `t` holds a date (the date regex always compiles).
pub open spec fn has_date(t: Seq<char>) -> bool {
    regex_test(date_pattern(), t) == Some(true)
}

/// The texts of `spans` in `t`.
pub open spec fn matched_texts(t: Seq<char>, spans: Seq<(usize, usize)>) -> Seq<Seq<char>> {
    spans.map_values(|sp: (usize, usize)| byte_slice(t, sp.0 as int, sp.1 as int))
}

/// The alphanumeric characters of `s`, in order.
pub open spec fn alnum_only(s: Seq<char>) -> Seq<char>
    decreases s.len(),
{
    if s.len() == 0 {
        seq![]
    } else if alphanumeric(s.last()) {
        alnum_only(s.drop_last()).push(s.last())
    } else {
        alnum_only(s.drop_last())
    }
}

/// What a punctuation-only edit leaves unchanged: the alphanumeric
/// characters, lowercased.
pub open spec fn letters_key(s: Seq<char>) -> Seq<char> {
    lowercase(alnum_only(s))
}

/// Whether word counts `bw` (before) and `aw` (after) differ enough to call
/// the change structural: by four or more words, or, with more than three
/// words on each side, one side more than one and a half times the other.
pub open spec fn reshaped(bw: int, aw: int) -> bool {
    ||| bw - aw >= 4
    ||| aw - bw >= 4
    ||| bw > 3 && aw > 3 && 2 * bw > 3 * aw
    ||| aw > 3 && bw > 3 && 2 * aw > 3 * bw
}

/// One categorized change: "structural" | "stylistic" | "factual" |
/// "deletion" | "punctuation", a one-line description and both sides.
pub struct CategorizedChange {
    pub category: String,
    pub description: String,
    pub before: String,
    pub after: String,
}

pub struct CatV {
    pub category: Seq<char>,
    pub description: Seq<char>,
    pub before: Seq<char>,
    pub after: Seq<char>,
}

pub open spec fn cat_v(c: CategorizedChange) -> CatV {
    CatV {
        category: c.category@,
        description: c.description@,
        before: c.before@,
        after: c.after@,
    }
}

pub open spec fn cat_opt_v(c: Option<CategorizedChange>) -> Option<CatV> {
    match c {
        Some(x) => Some(cat_v(x)),
        None => None,
    }
}

/// `label` followed by both sides, quoted, each cut to 50 bytes.
pub open spec fn quoted_pair(label: Seq<char>, b: Seq<char>, a: Seq<char>) -> Seq<char> {
    label + "\""@ + truncated(b, 50) + "\" \u{2192} \""@ + truncated(a, 50) + "\""@
}

/// The category and description label of a change that both sides have
/// text for, given the numbers found on each side and whether each side
/// holds a date.
pub open spec fn edit_kind(
    b: Seq<char>,
    a: Seq<char>,
    bn: Seq<Seq<char>>,
    an: Seq<Seq<char>>,
    bd: bool,
    ad: bool,
) -> (Seq<char>, Seq<char>) {
    if bn != an || bd != ad {
        ("factual"@, "Factual change: "@)
    } else if letters_key(b) == letters_key(a) && b != a {
        ("punctuation"@, "Punctuation: "@)
    } else if reshaped(words(b).len() as int, words(a).len() as int) {
        ("structural"@, "Structural rewrite: "@)
    } else {
        ("stylistic"@, "Stylistic: "@)
    }
}

/// How a change from `before` to `after` is categorized, both sides
/// trimmed: a side left empty is a deletion, an empty side filled is
/// structural; otherwise changed numbers or dates are factual, unchanged
/// letters and digits are punctuation, a large change in word count is
/// structural, and anything else is stylistic. `None` only where a
/// description would be cut inside a character.
pub open spec fn categorize_spec(before: Seq<char>, after: Seq<char>) -> Option<CatV> {
    let b = trimmed(before);
    let a = trimmed(after);
    if b.len() > 0 && a.len() == 0 {
        if cut_ok(b, 80) {
            Some(
                CatV {
                    category: "deletion"@,
                    description: "Deleted: \""@ + truncated(b, 80) + "\""@,
                    before: b,
                    after: a,
                },
            )
        } else {
            None
        }
    } else if b.len() == 0 && a.len() > 0 {
        if cut_ok(a, 80) {
            Some(
                CatV {
                    category: "structural"@,
                    description: "Added: \""@ + truncated(a, 80) + "\""@,
                    before: b,
                    after: a,
                },
            )
        } else {
            None
        }
    } else {
        let k = edit_kind(
            b,
            a,
            matched_texts(b, number_spans(b)),
            matched_texts(a, number_spans(a)),
            has_date(b),
            has_date(a),
        );
        if cut_ok(b, 50) && cut_ok(a, 50) {
            Some(CatV { category: k.0, description: quoted_pair(k.1, b, a), before: b, after: a })
        } else {
            None
        }
    }
}

/// Whether the texts of two span lists are equal.
fn same_texts(b: &str, bn: &Vec<(usize, usize)>, a: &str, an: &Vec<(usize, usize)>) -> (r: bool)
    requires
        forall|k: int| 0 <= k < bn@.len() ==> span_ok(b@, #[trigger] bn@[k]),
        forall|k: int| 0 <= k < an@.len() ==> span_ok(a@, #[trigger] an@[k]),
    ensures
        r == (matched_texts(b@, bn@) == matched_texts(a@, an@)),
{
    let ghost mb = matched_texts(b@, bn@);
    let ghost ma = matched_texts(a@, an@);
    if bn.len() != an.len() {
        proof {
            assert(mb.len() != ma.len());
        }
        return false;
    }
    let mut i: usize = 0;
    while i < bn.len()
        invariant
            mb == matched_texts(b@, bn@),
            ma == matched_texts(a@, an@),
            bn@.len() == an@.len(),
            forall|k: int| 0 <= k < bn@.len() ==> span_ok(b@, #[trigger] bn@[k]),
            forall|k: int| 0 <= k < an@.len() ==> span_ok(a@, #[trigger] an@[k]),
            i <= bn@.len(),
            forall|k: int| 0 <= k < i ==> mb[k] == ma[k],
        decreases bn@.len() - i,
    {
        let (b0, b1) = bn[i];
        let (a0, a1) = an[i];
        proof {
            assert(span_ok(b@, bn@[i as int]));
            assert(span_ok(a@, an@[i as int]));
        }
        let tb = slice_str(b, b0, b1);
        let ta = slice_str(a, a0, a1);
        if !str_eq(tb, ta) {
            proof {
                assert(mb[i as int] != ma[i as int]);
            }
            return false;
        }
        i = i + 1;
    }
    proof {
        assert(mb =~= ma);
    }
    true
}

/// The alphanumeric characters of `s`, lowercased.
fn letters_of(s: &str) -> (r: String)
    ensures
        r@ == letters_key(s@),
{
    let cs = chars_of(s);
    let mut kept = String::new();
    let mut i: usize = 0;
    while i < cs.len()
        invariant
            cs@ == s@,
            i <= cs@.len(),
            kept@ == alnum_only(s@.take(i as int)),
        decreases cs@.len() - i,
    {
        proof {
            crate::seqs::lemma_take_succ(s@, i as int);
        }
        if is_alnum(cs[i]) {
            push_char(&mut kept, cs[i]);
        }
        i = i + 1;
    }
    proof {
        crate::seqs::lemma_take_all(s@);
    }
    to_lower(kept.as_str())
}

/// Whether word counts differ enough to call a change structural.
fn reshaped_exec(bw: usize, aw: usize) -> (r: bool)
    ensures
        r == reshaped(bw as int, aw as int),
{
    let b2 = (bw as u128) * 2;
    let a2 = (aw as u128) * 2;
    let b3 = (bw as u128) * 3;
    let a3 = (aw as u128) * 3;
    (bw >= aw && bw - aw >= 4) || (aw >= bw && aw - bw >= 4) || (bw > 3 && aw > 3 && b2 > a3) || (
    aw > 3 && bw > 3 && a2 > b3)
}

/// `label`, then both sides quoted and cut to 50 bytes.
fn quoted_pair_exec(label: &str, b: &str, a: &str) -> (r: String)
    requires
        cut_ok(b@, 50),
        cut_ok(a@, 50),
        encode_utf8(b@).len() <= usize::MAX,
        encode_utf8(a@).len() <= usize::MAX,
    ensures
        r@ == quoted_pair(label@, b@, a@),
{
    let mut d = owned(label);
    push_str(&mut d, "\"");
    push_str(&mut d, truncate_str(b, 50));
    push_str(&mut d, "\" \u{2192} \"");
    push_str(&mut d, truncate_str(a, 50));
    push_str(&mut d, "\"");
    proof {
        assert(d@ =~= quoted_pair(label@, b@, a@));
    }
    d
}

/// The categorization, or `None` where it cannot be made.
fn categorize_outcome(before: &str, after: &str) -> (r: Option<CategorizedChange>)
    ensures
        cat_opt_v(r) == categorize_spec(before@, after@),
{
    let bs = trim(before);
    let as_ = trim(after);
    let b = bs.as_str();
    let a = as_.as_str();
    let blen = b.as_bytes().len();
    let alen = a.as_bytes().len();
    if !b.is_empty() && a.is_empty() {
        if !can_cut(b, 80) {
            return None;
        }
        let mut d = owned("Deleted: \"");
        push_str(&mut d, truncate_str(b, 80));
        push_str(&mut d, "\"");
        let c = CategorizedChange {
            category: owned("deletion"),
            description: d,
            before: owned(b),
            after: owned(a),
        };
        proof {
            assert(c.description@ =~= "Deleted: \""@ + truncated(b@, 80) + "\""@);
        }
        return Some(c);
    }
    if b.is_empty() && !a.is_empty() {
        if !can_cut(a, 80) {
            return None;
        }
        let mut d = owned("Added: \"");
        push_str(&mut d, truncate_str(a, 80));
        push_str(&mut d, "\"");
        let c = CategorizedChange {
            category: owned("structural"),
            description: d,
            before: owned(b),
            after: owned(a),
        };
        proof {
            assert(c.description@ =~= "Added: \""@ + truncated(a@, 80) + "\""@);
        }
        return Some(c);
    }
    let bn = regex_spans("\\$?[0-9][0-9,]*(\\.[0-9]+)?%?", b).unwrap();
    let an = regex_spans("\\$?[0-9][0-9,]*(\\.[0-9]+)?%?", a).unwrap();
    let bd = regex_is_match(
        "\\b(jan|feb|mar|apr|may|jun|jul|aug|sep|oct|nov|dec)[a-z]*\\s+\\d{1,2}\\b",
        b,
    ).unwrap();
    let ad = regex_is_match(
        "\\b(jan|feb|mar|apr|may|jun|jul|aug|sep|oct|nov|dec)[a-z]*\\s+\\d{1,2}\\b",
        a,
    ).unwrap();
    let (category, label) = if !same_texts(b, &bn, a, &an) || bd != ad {
        ("factual", "Factual change: ")
    } else if str_eq(letters_of(b).as_str(), letters_of(a).as_str()) && !str_eq(b, a) {
        ("punctuation", "Punctuation: ")
    } else if reshaped_exec(split_words(b).len(), split_words(a).len()) {
        ("structural", "Structural rewrite: ")
    } else {
        ("stylistic", "Stylistic: ")
    };
    proof {
        let k = edit_kind(b@, a@, matched_texts(b@, bn@), matched_texts(a@, an@), bd, ad);
        assert(k == (category@, label@));
    }
    if !can_cut(b, 50) || !can_cut(a, 50) {
        return None;
    }
    let d = quoted_pair_exec(label, b, a);
    Some(CategorizedChange { category: owned(category), description: d, before: owned(b), after: owned(a) })
}

/// Categorizes a change from `before` to `after` (both trimmed first).
pub fn categorize_change(before: &str, after: &str) -> (r: CategorizedChange)
    requires
        categorize_spec(before@, after@) is Some,
    ensures
        categorize_spec(before@, after@) == Some(cat_v(r)),
{
    match categorize_outcome(before, after) {
        Some(c) => c,
        None => {
            // excluded by the precondition
            CategorizedChange {
                category: String::new(),
                description: String::new(),
                before: String::new(),
                after: String::new(),
            }
        },
    }
}

/// `categorize_change` where it can be made; `None` where a description
/// would be cut inside a character.
pub fn try_categorize_change(before: &str, after: &str) -> (r: Option<CategorizedChange>)
    ensures
        cat_opt_v(r) == categorize_spec(before@, after@),
{
    if categorize_outcome(before, after).is_some() {
        Some(categorize_change(before, after))
    } else {
        None
    }
}

} // verus!

verus! {

// ---------- walking a pair's diff rows ----------
/// The texts of the segments whose tag is `t1` or `t2` (every segment when
/// `all`), concatenated.
pub open spec fn joined(segs: Seq<SegV>, t1: Seq<char>, t2: Seq<char>, all: bool) -> Seq<char>
    decreases segs.len(),
{
    if segs.len() == 0 {
        seq![]
    } else if all || segs.last().0 == t1 || segs.last().0 == t2 {
        joined(segs.drop_last(), t1, t2, all) + segs.last().1
    } else {
        joined(segs.drop_last(), t1, t2, all)
    }
}

/// The trimmed texts of the segments tagged `t`, empty ones left out.
pub open spec fn tag_words(segs: Seq<SegV>, t: Seq<char>) -> Seq<Seq<char>>
    decreases segs.len(),
{
    if segs.len() == 0 {
        seq![]
    } else if segs.last().0 == t && trimmed(segs.last().1).len() > 0 {
        tag_words(segs.drop_last(), t).push(trimmed(segs.last().1))
    } else {
        tag_words(segs.drop_last(), t)
    }
}

/// `d` and `a` paired up position by position, as far as the shorter goes.
pub open spec fn zip_pairs(d: Seq<Seq<char>>, a: Seq<Seq<char>>) -> Seq<(Seq<char>, Seq<char>)> {
    Seq::new(
        if d.len() <= a.len() {
            d.len()
        } else {
            a.len()
        },
        |k: int| (d[k], a[k]),
    )
}

/// What walking the rows collects: deleted texts, added texts, word swaps
/// and the (before, after) texts of each change.
pub struct WalkV {
    pub deletions: Seq<Seq<char>>,
    pub additions: Seq<Seq<char>>,
    pub swaps: Seq<(Seq<char>, Seq<char>)>,
    pub changes: Seq<(Seq<char>, Seq<char>)>,
}

pub open spec fn empty_walk() -> WalkV {
    WalkV { deletions: seq![], additions: seq![], swaps: seq![], changes: seq![] }
}

pub open spec fn walk_join(x: WalkV, y: WalkV) -> WalkV {
    WalkV {
        deletions: x.deletions + y.deletions,
        additions: x.additions + y.additions,
        swaps: x.swaps + y.swaps,
        changes: x.changes + y.changes,
    }
}

/// Whether row `i` is a removed row directly followed by an added row (a
/// changed line).
pub open spec fn paired_at(rows: Seq<RowV>, i: int) -> bool {
    rows[i].0 == "removed"@ && i + 1 < rows.len() && rows[i + 1].0 == "added"@
}

/// What row `i` contributes (with row `i + 1` when they are paired): a
/// changed line gives its added text, its word swaps and a change; a lone
/// removed row a deletion; a lone added row an addition; an equal row
/// nothing.
pub open spec fn row_step(rows: Seq<RowV>, i: int) -> WalkV {
    if paired_at(rows, i) {
        let dt = joined(rows[i].1, "del"@, "ctx"@, false);
        let at = joined(rows[i + 1].1, "add"@, "ctx"@, false);
        WalkV {
            deletions: seq![],
            additions: seq![trimmed(at)],
            swaps: zip_pairs(tag_words(rows[i].1, "del"@), tag_words(rows[i + 1].1, "add"@)),
            changes: seq![(dt, at)],
        }
    } else if rows[i].0 == "removed"@ {
        let dt = joined(rows[i].1, "del"@, "ctx"@, false);
        WalkV {
            deletions: seq![trimmed(dt)],
            additions: seq![],
            swaps: seq![],
            changes: seq![(dt, seq![])],
        }
    } else if rows[i].0 == "added"@ {
        let at = joined(rows[i].1, seq![], seq![], true);
        WalkV {
            deletions: seq![],
            additions: seq![trimmed(at)],
            swaps: seq![],
            changes: seq![(seq![], at)],
        }
    } else {
        empty_walk()
    }
}

/// What the rows from `i` on contribute.
pub open spec fn walk(rows: Seq<RowV>, i: int) -> WalkV
    decreases rows.len() - i,
{
    if i < 0 || i >= rows.len() {
        empty_walk()
    } else if paired_at(rows, i) {
        walk_join(row_step(rows, i), walk(rows, i + 2))
    } else {
        walk_join(row_step(rows, i), walk(rows, i + 1))
    }
}

/// Each change categorized; `None` if one cannot be.
pub open spec fn cats_of(changes: Seq<(Seq<char>, Seq<char>)>) -> Option<Seq<CatV>>
    decreases changes.len(),
{
    if changes.len() == 0 {
        Some(seq![])
    } else {
        match (cats_of(changes.drop_last()), categorize_spec(changes.last().0, changes.last().1)) {
            (Some(cs), Some(c)) => Some(cs.push(c)),
            _ => None,
        }
    }
}

/// Whether pattern `p` fires on `text`.
pub open spec fn fires_on(text: Seq<char>) -> spec_fn(PatternV) -> bool {
    |p: PatternV| pattern_matches_spec(p, text)
}

/// The (id, rule) of each of `ps` that fires on `text`, in the order of `ps`.
pub open spec fn hits_on(ps: Seq<PatternV>, text: Seq<char>) -> Seq<(i64, Seq<char>)> {
    select_asc(ps, fires_on(text)).map_values(|p: PatternV| (p.id, p.rule))
}

/// A stored pattern that fires on a text.
pub struct PatternHit {
    pub pattern_id: i64,
    pub rule: String,
}

pub open spec fn pattern_hits_v(s: Seq<PatternHit>) -> Seq<(i64, Seq<char>)> {
    s.map_values(|h: PatternHit| (h.pattern_id, h.rule@))
}

/// The signal extracted from a pair's diff.
pub struct DiffAnalysis {
    pub pair_id: i64,
    /// Every deleted line (the strongest voice signal: what got cut).
    pub deletions: Vec<String>,
    /// Every added line.
    pub additions: Vec<String>,
    /// Word-level swaps (old word, new word) in changed lines.
    pub word_swaps: Vec<(String, String)>,
    /// Each change categorized.
    pub categorized: Vec<CategorizedChange>,
    /// Stored patterns that fire on the pair's draft.
    pub draft_pattern_hits: Vec<PatternHit>,
    /// Stored patterns that fire on the pair's final.
    pub final_pattern_hits: Vec<PatternHit>,
}

pub struct AnalysisV {
    pub pair_id: i64,
    pub deletions: Seq<Seq<char>>,
    pub additions: Seq<Seq<char>>,
    pub word_swaps: Seq<(Seq<char>, Seq<char>)>,
    pub categorized: Seq<CatV>,
    pub draft_pattern_hits: Seq<(i64, Seq<char>)>,
    pub final_pattern_hits: Seq<(i64, Seq<char>)>,
}

pub open spec fn strs_of(s: Seq<String>) -> Seq<Seq<char>> {
    s.map_values(|x: String| x@)
}

pub open spec fn swaps_v(s: Seq<(String, String)>) -> Seq<(Seq<char>, Seq<char>)> {
    s.map_values(|x: (String, String)| (x.0@, x.1@))
}

pub open spec fn cats_v(s: Seq<CategorizedChange>) -> Seq<CatV> {
    s.map_values(|c: CategorizedChange| cat_v(c))
}

pub open spec fn analysis_v(a: DiffAnalysis) -> AnalysisV {
    AnalysisV {
        pair_id: a.pair_id,
        deletions: strs_of(a.deletions@),
        additions: strs_of(a.additions@),
        word_swaps: swaps_v(a.word_swaps@),
        categorized: cats_v(a.categorized@),
        draft_pattern_hits: pattern_hits_v(a.draft_pattern_hits@),
        final_pattern_hits: pattern_hits_v(a.final_pattern_hits@),
    }
}

/// The analysis of pair `p` against the stored patterns; `None` where a
/// change cannot be categorized.
pub open spec fn analysis_of(s: StoreV, p: PairOut) -> Option<AnalysisV> {
    let w = walk(p.diff, 0);
    match cats_of(w.changes) {
        Some(cs) => Some(
            AnalysisV {
                pair_id: p.id,
                deletions: w.deletions,
                additions: w.additions,
                word_swaps: w.swaps,
                categorized: cs,
                draft_pattern_hits: hits_on(list_patterns_spec(s, None), p.draft),
                final_pattern_hits: hits_on(list_patterns_spec(s, None), p.final_),
            },
        ),
        None => None,
    }
}

/// What analyzing pair `pair_id` gives: `Some(None)` when there is no such
/// pair; `None` where a change of it cannot be categorized.
pub open spec fn analyze_spec(s: StoreV, pair_id: i64) -> Option<Option<AnalysisV>> {
    match show_pair_spec(s, pair_id) {
        None => Some(None),
        Some(p) => match analysis_of(s, p) {
            Some(a) => Some(Some(a)),
            None => None,
        },
    }
}

pub open spec fn analysis_opt_v(a: Option<DiffAnalysis>) -> Option<AnalysisV> {
    match a {
        Some(x) => Some(analysis_v(x)),
        None => None,
    }
}

} // verus!

verus! {

/// The texts of the segments tagged `t1` or `t2` (all when `all`), joined.
fn joined_exec(segs: &Vec<DiffSegment>, t1: &str, t2: &str, all: bool) -> (r: String)
    ensures
        r@ == joined(segs_v(segs@), t1@, t2@, all),
{
    let ghost sv = segs_v(segs@);
    let mut r = String::new();
    let mut i: usize = 0;
    while i < segs.len()
        invariant
            sv == segs_v(segs@),
            sv.len() == segs@.len(),
            i <= segs@.len(),
            r@ == joined(sv.take(i as int), t1@, t2@, all),
        decreases segs@.len() - i,
    {
        proof {
            lemma_take_succ(sv, i as int);
            assert(sv[i as int] == (segs@[i as int].tag@, segs@[i as int].text@));
        }
        let tag = segs[i].tag.as_str();
        if all || str_eq(tag, t1) || str_eq(tag, t2) {
            push_str(&mut r, segs[i].text.as_str());
        }
        i = i + 1;
    }
    proof {
        lemma_take_all(sv);
    }
    r
}

/// The trimmed texts of the segments tagged `t`, empty ones left out.
fn tag_words_exec(segs: &Vec<DiffSegment>, t: &str) -> (r: Vec<String>)
    ensures
        strs_of(r@) == tag_words(segs_v(segs@), t@),
{
    let ghost sv = segs_v(segs@);
    let mut r: Vec<String> = Vec::new();
    let mut i: usize = 0;
    while i < segs.len()
        invariant
            sv == segs_v(segs@),
            sv.len() == segs@.len(),
            i <= segs@.len(),
            strs_of(r@) == tag_words(sv.take(i as int), t@),
        decreases segs@.len() - i,
    {
        proof {
            lemma_take_succ(sv, i as int);
            assert(sv[i as int] == (segs@[i as int].tag@, segs@[i as int].text@));
        }
        if str_eq(segs[i].tag.as_str(), t) {
            let w = trim(segs[i].text.as_str());
            if !w.as_str().is_empty() {
                let ghost before = r@;
                r.push(w);
                proof {
                    assert(strs_of(r@) =~= strs_of(before).push(w@));
                }
            }
        }
        i = i + 1;
    }
    proof {
        lemma_take_all(sv);
    }
    r
}

proof fn lemma_walk_join_assoc(x: WalkV, y: WalkV, z: WalkV)
    ensures
        walk_join(x, walk_join(y, z)) == walk_join(walk_join(x, y), z),
{
    assert(walk_join(x, walk_join(y, z)).deletions =~= walk_join(walk_join(x, y), z).deletions);
    assert(walk_join(x, walk_join(y, z)).additions =~= walk_join(walk_join(x, y), z).additions);
    assert(walk_join(x, walk_join(y, z)).swaps =~= walk_join(walk_join(x, y), z).swaps);
    assert(walk_join(x, walk_join(y, z)).changes =~= walk_join(walk_join(x, y), z).changes);
}

proof fn lemma_walk_join_empty(x: WalkV)
    ensures
        walk_join(x, empty_walk()) == x,
{
    assert(walk_join(x, empty_walk()).deletions =~= x.deletions);
    assert(walk_join(x, empty_walk()).additions =~= x.additions);
    assert(walk_join(x, empty_walk()).swaps =~= x.swaps);
    assert(walk_join(x, empty_walk()).changes =~= x.changes);
}

/// The collected texts as plain values.
pub open spec fn walk_v(
    d: Seq<String>,
    a: Seq<String>,
    s: Seq<(String, String)>,
    c: Seq<(String, String)>,
) -> WalkV {
    WalkV { deletions: strs_of(d), additions: strs_of(a), swaps: swaps_v(s), changes: swaps_v(c) }
}

/// Walks the rows: deleted and added texts, word swaps, and the
/// (before, after) texts of each change.
pub(crate) fn walk_rows(rows: &Vec<DiffRow>) -> (r: (Vec<String>, Vec<String>, Vec<(String, String)>, Vec<(String, String)>))
    ensures
        walk_v(r.0@, r.1@, r.2@, r.3@) == walk(rows_v(rows@), 0),
{
    let ghost rv = rows_v(rows@);
    let mut dels: Vec<String> = Vec::new();
    let mut adds: Vec<String> = Vec::new();
    let mut swaps: Vec<(String, String)> = Vec::new();
    let mut changes: Vec<(String, String)> = Vec::new();
    let mut i: usize = 0;
    proof {
        assert(strs_of(dels@) =~= Seq::<Seq<char>>::empty());
        assert(strs_of(adds@) =~= Seq::<Seq<char>>::empty());
        assert(swaps_v(swaps@) =~= Seq::<(Seq<char>, Seq<char>)>::empty());
        assert(swaps_v(changes@) =~= Seq::<(Seq<char>, Seq<char>)>::empty());
        assert(walk_v(dels@, adds@, swaps@, changes@) == empty_walk());
        assert(walk_join(empty_walk(), walk(rv, 0)) == walk(rv, 0)) by {
            let w = walk(rv, 0);
            assert(walk_join(empty_walk(), w).deletions =~= w.deletions);
            assert(walk_join(empty_walk(), w).additions =~= w.additions);
            assert(walk_join(empty_walk(), w).swaps =~= w.swaps);
            assert(walk_join(empty_walk(), w).changes =~= w.changes);
        }
    }
    while i < rows.len()
        invariant
            rv == rows_v(rows@),
            rv.len() == rows@.len(),
            i <= rows@.len(),
            walk(rv, 0) == walk_join(walk_v(dels@, adds@, swaps@, changes@), walk(rv, i as int)),
        decreases rows@.len() - i,
    {
        let ghost acc = walk_v(dels@, adds@, swaps@, changes@);
        proof {
            assert(rv[i as int] == (rows@[i as int].kind@, segs_v(rows@[i as int].segments@)));
        }
        let kind = rows[i].kind.as_str();
        if str_eq(kind, "removed") && i + 1 < rows.len() && str_eq(rows[i + 1].kind.as_str(), "added") {
            proof {
                assert(rv[i + 1] == (rows@[i + 1].kind@, segs_v(rows@[i + 1].segments@)));
                assert(paired_at(rv, i as int));
            }
            let dt = joined_exec(&rows[i].segments, "del", "ctx", false);
            let at = joined_exec(&rows[i + 1].segments, "add", "ctx", false);
            let dw = tag_words_exec(&rows[i].segments, "del");
            let aw = tag_words_exec(&rows[i + 1].segments, "add");
            let n = if dw.len() <= aw.len() {
                dw.len()
            } else {
                aw.len()
            };
            let ghost s0 = swaps@;
            let mut k: usize = 0;
            while k < n
                invariant
                    n <= dw@.len(),
                    n <= aw@.len(),
                    k <= n,
                    swaps@.len() == s0.len() + k,
                    forall|q: int| 0 <= q < s0.len() ==> #[trigger] swaps@[q] == s0[q],
                    forall|q: int|
                        0 <= q < k ==> (#[trigger] swaps@[s0.len() + q].0@, swaps@[s0.len()
                            + q].1@) == (dw@[q]@, aw@[q]@),
                decreases n - k,
            {
                swaps.push((dw[k].clone(), aw[k].clone()));
                k = k + 1;
            }
            let ghost a0 = adds@;
            adds.push(trim(at.as_str()));
            let ghost c0 = changes@;
            changes.push((dt, at));
            let ghost step = row_step(rv, i as int);
            proof {
                assert(strs_of(dw@) == tag_words(rv[i as int].1, "del"@));
                assert(strs_of(aw@) == tag_words(rv[i + 1].1, "add"@));
                let z = zip_pairs(strs_of(dw@), strs_of(aw@));
                assert(step.swaps == z);
                assert(z.len() == n);
                assert forall|q: int| 0 <= q < swaps_v(swaps@).len() implies #[trigger] swaps_v(
                    swaps@,
                )[q] == (swaps_v(s0) + z)[q] by {
                    if q >= s0.len() {
                        assert(swaps@[s0.len() + (q - s0.len())] == swaps@[q]);
                    }
                }
                assert(swaps_v(swaps@) =~= swaps_v(s0) + step.swaps);
                assert(strs_of(adds@) =~= strs_of(a0) + step.additions);
                assert(swaps_v(changes@) =~= swaps_v(c0) + step.changes);
                assert(strs_of(dels@) =~= strs_of(dels@) + step.deletions);
                assert(walk_v(dels@, adds@, swaps@, changes@) == walk_join(acc, step));
                lemma_walk_join_assoc(acc, step, walk(rv, i + 2));
            }
            i = i + 2;
        } else if str_eq(kind, "removed") {
            let dt = joined_exec(&rows[i].segments, "del", "ctx", false);
            let ghost d0 = dels@;
            dels.push(trim(dt.as_str()));
            let ghost c0 = changes@;
            changes.push((dt, String::new()));
            let ghost step = row_step(rv, i as int);
            proof {
                assert(!paired_at(rv, i as int));
                assert(strs_of(dels@) =~= strs_of(d0) + step.deletions);
                assert(swaps_v(changes@) =~= swaps_v(c0) + step.changes);
                assert(strs_of(adds@) =~= strs_of(adds@) + step.additions);
                assert(swaps_v(swaps@) =~= swaps_v(swaps@) + step.swaps);
                assert(walk_v(dels@, adds@, swaps@, changes@) == walk_join(acc, step));
                lemma_walk_join_assoc(acc, step, walk(rv, i + 1));
            }
            i = i + 1;
        } else if str_eq(kind, "added") {
            let at = joined_exec(&rows[i].segments, "", "", true);
            proof {
                reveal_strlit("");
                assert(""@ =~= Seq::<char>::empty());
            }
            let ghost a0 = adds@;
            adds.push(trim(at.as_str()));
            let ghost c0 = changes@;
            changes.push((String::new(), at));
            let ghost step = row_step(rv, i as int);
            proof {
                assert(!paired_at(rv, i as int));
                assert(strs_of(adds@) =~= strs_of(a0) + step.additions);
                assert(swaps_v(changes@) =~= swaps_v(c0) + step.changes);
                assert(strs_of(dels@) =~= strs_of(dels@) + step.deletions);
                assert(swaps_v(swaps@) =~= swaps_v(swaps@) + step.swaps);
                assert(walk_v(dels@, adds@, swaps@, changes@) == walk_join(acc, step));
                lemma_walk_join_assoc(acc, step, walk(rv, i + 1));
            }
            i = i + 1;
        } else {
            proof {
                assert(!paired_at(rv, i as int));
                assert(row_step(rv, i as int) == empty_walk());
                lemma_walk_join_assoc(acc, empty_walk(), walk(rv, i + 1));
                lemma_walk_join_empty(acc);
            }
            i = i + 1;
        }
    }
    proof {
        lemma_walk_join_empty(walk_v(dels@, adds@, swaps@, changes@));
    }
    (dels, adds, swaps, changes)
}

/// Once one change cannot be categorized, no longer list can be.
proof fn lemma_cats_none_extends(ch: Seq<(Seq<char>, Seq<char>)>, j: int)
    requires
        0 <= j <= ch.len(),
        cats_of(ch.take(j)) is None,
    ensures
        cats_of(ch) is None,
    decreases ch.len(),
{
    if j == ch.len() {
        assert(ch.take(j) =~= ch);
    } else {
        assert(ch.drop_last().take(j) =~= ch.take(j));
        lemma_cats_none_extends(ch.drop_last(), j);
    }
}

/// Each change categorized, or `None` if one cannot be.
pub(crate) fn categorize_all(changes: &Vec<(String, String)>) -> (r: Option<Vec<CategorizedChange>>)
    ensures
        match r {
            Some(v) => cats_of(swaps_v(changes@)) == Some(cats_v(v@)),
            None => cats_of(swaps_v(changes@)) is None,
        },
{
    let ghost cv = swaps_v(changes@);
    let mut out: Vec<CategorizedChange> = Vec::new();
    let mut i: usize = 0;
    proof {
        assert(cv.take(0) =~= Seq::<(Seq<char>, Seq<char>)>::empty());
        assert(cats_v(out@) =~= Seq::<CatV>::empty());
    }
    while i < changes.len()
        invariant
            cv == swaps_v(changes@),
            cv.len() == changes@.len(),
            i <= changes@.len(),
            cats_of(cv.take(i as int)) == Some(cats_v(out@)),
        decreases changes@.len() - i,
    {
        proof {
            assert(cv.take(i + 1).drop_last() =~= cv.take(i as int));
            assert(cv.take(i + 1).last() == cv[i as int]);
        }
        match categorize_outcome(changes[i].0.as_str(), changes[i].1.as_str()) {
            Some(c) => {
                let ghost before = out@;
                out.push(c);
                proof {
                    assert(cats_v(out@) =~= cats_v(before).push(cat_v(c)));
                }
            },
            None => {
                proof {
                    lemma_cats_none_extends(cv, i + 1);
                }
                return None;
            },
        }
        i = i + 1;
    }
    proof {
        assert(cv.take(i as int) =~= cv);
    }
    Some(out)
}

/// The (id, rule) of each of `ps` that fires on `text`, in order.
fn pattern_hits_on(ps: &Vec<Pattern>, text: &str) -> (r: Vec<PatternHit>)
    ensures
        pattern_hits_v(r@) == hits_on(patterns_v(ps@), text@),
{
    let ghost pv = patterns_v(ps@);
    let mut out: Vec<PatternHit> = Vec::new();
    let mut i: usize = 0;
    while i < ps.len()
        invariant
            pv == patterns_v(ps@),
            pv.len() == ps@.len(),
            i <= ps@.len(),
            pattern_hits_v(out@) == hits_on(pv.take(i as int), text@),
        decreases ps@.len() - i,
    {
        proof {
            lemma_take_succ(pv, i as int);
            assert(pv[i as int] == pattern_v(ps@[i as int]));
        }
        if pattern_matches(&ps[i], text) {
            let ghost before = out@;
            out.push(PatternHit { pattern_id: ps[i].id, rule: ps[i].rule.clone() });
            proof {
                assert(fires_on(text@)(pv[i as int]));
                assert(select_asc(pv.take(i + 1), fires_on(text@)) == select_asc(
                    pv.take(i as int),
                    fires_on(text@),
                ).push(pv[i as int]));
                let sel = select_asc(pv.take(i as int), fires_on(text@));
                assert(sel.push(pv[i as int]).map_values(|p: PatternV| (p.id, p.rule)) =~= sel.map_values(
                    |p: PatternV| (p.id, p.rule),
                ).push((pv[i as int].id, pv[i as int].rule)));
                assert(pattern_hits_v(out@) =~= pattern_hits_v(before).push(
                    (pv[i as int].id, pv[i as int].rule),
                ));
                assert(pattern_hits_v(out@) =~= hits_on(pv.take(i + 1), text@));
            }
        } else {
            proof {
                assert(select_asc(pv.take(i + 1), fires_on(text@)) == select_asc(
                    pv.take(i as int),
                    fires_on(text@),
                ));
            }
        }
        i = i + 1;
    }
    proof {
        lemma_take_all(pv);
    }
    out
}

/// The analysis of pair `pair_id`; `None` where a change of it cannot be
/// categorized.
fn analysis_outcome(store: &Store, pair_id: i64) -> (r: Option<Option<DiffAnalysis>>)
    ensures
        match r {
            Some(a) => analyze_spec(store@, pair_id) == Some(analysis_opt_v(a)),
            None => analyze_spec(store@, pair_id) is None,
        },
{
    let pair = match show_pair(store, pair_id) {
        None => {
            return Some(None);
        },
        Some(p) => p,
    };
    let ghost po = pair_out_v(pair);
    let (deletions, additions, word_swaps, changes) = walk_rows(&pair.diff);
    let categorized = match categorize_all(&changes) {
        None => {
            return None;
        },
        Some(c) => c,
    };
    let ps = list_patterns(store, None);
    let dh = pattern_hits_on(&ps, pair.draft.as_str());
    let fh = pattern_hits_on(&ps, pair.final_.as_str());
    let a = DiffAnalysis {
        pair_id,
        deletions,
        additions,
        word_swaps,
        categorized,
        draft_pattern_hits: dh,
        final_pattern_hits: fh,
    };
    proof {
        assert(show_pair_spec(store@, pair_id) == Some(po));
        crate::seqs::lemma_first_index_bounds(store@.pairs, crate::pairs::pair_id_is(pair_id));
        assert(po.id == pair_id);
    }
    Some(Some(a))
}

/// Analyzes a stored pair's diff: deletions, additions, word swaps, each
/// change categorized, and the stored patterns that fire on its draft and
/// on its final. `None` when there is no such pair.
pub fn analyze_diff(store: &Store, pair_id: i64) -> (r: Option<DiffAnalysis>)
    requires
        analyze_spec(store@, pair_id) is Some,
    ensures
        analyze_spec(store@, pair_id) == Some(analysis_opt_v(r)),
{
    match analysis_outcome(store, pair_id) {
        Some(a) => a,
        None => None,
    }
}

/// `analyze_diff` where every change can be categorized; `None` where one
/// cannot be.
pub fn try_analyze_diff(store: &Store, pair_id: i64) -> (r: Option<Option<DiffAnalysis>>)
    ensures
        match r {
            Some(a) => analyze_spec(store@, pair_id) == Some(analysis_opt_v(a)),
            None => analyze_spec(store@, pair_id) is None,
        },
{
    if analysis_outcome(store, pair_id).is_some() {
        Some(analyze_diff(store, pair_id))
    } else {
        None
    }
}

} // verus!
