//! The lint engine: which stored patterns a text matches, and the
//! violations a draft's content yields against every stored pattern.
use vstd::prelude::*;
use vstd::string::StringSliceAdditionalSpecFns;
use vstd::utf8::*;

use crate::bytes::{
    boundary_at, byte_slice, count_newlines, count_nl, find_bytes, find_from, flatten_lines,
    lemma_find_from_found_at,
    match_indices, match_starts, occurs_at, replace_newlines, slice_ok, slice_str, utf8,
};
use crate::analysis::{date_pattern, number_pattern};
use crate::patterns::{list_patterns, list_patterns_spec};
use crate::seqs::{lemma_take_all, lemma_take_succ};
use crate::store::{pattern_v, patterns_v, Pattern, PatternV, Store, StoreV};
use crate::text::{owned, push_str, str_eq};

verus! {

broadcast use {
    vstd::utf8::encode_utf8_decode_utf8,
    vstd::utf8::encode_utf8_valid_utf8,
    vstd::utf8::is_char_boundary_start_end_of_seq,
};

// ---------- outside text operations ----------
/// What `str::to_lowercase` returns for a text (Unicode lowercase mapping).
pub uninterp spec fn lowercase(s: Seq<char>) -> Seq<char>;

/// The match spans that `regex::Regex::new(pattern)` and then `find_iter`
/// over `text` yield, as (start, end) byte offsets; `None` when the pattern
/// does not compile.
pub uninterp spec fn regex_find_spans(pattern: Seq<char>, text: Seq<char>) -> Option<
    Seq<(usize, usize)>,
>;

/// What `regex::Regex::new(pattern)` and then `is_match(text)` give;
/// `None` when the pattern does not compile.
pub uninterp spec fn regex_test(pattern: Seq<char>, text: Seq<char>) -> Option<bool>;

/// Whether `sp` is a span of `text` that starts and ends between characters.
pub open spec fn span_ok(text: Seq<char>, sp: (usize, usize)) -> bool {
    sp.0 <= sp.1 && slice_ok(text, sp.0 as int, sp.1 as int)
}

/// `str::to_lowercase`. Only that the result is the Unicode lowercase
/// mapping of the argument, named `lowercase`, is claimed.
#[verifier::external_body]
pub(crate) fn to_lower(s: &str) -> (r: String)
    ensures
        r@ == lowercase(s@),
{
    s.to_lowercase()
}

/// `regex::Regex::new(pattern)`, then `find_iter(text)` with each match's
/// `start()` and `end()`. Claimed: the spans are named `regex_find_spans`
/// of the two texts, and, as the crate documents for `Match`, each has
/// start <= end, both within `text` and on character boundaries. `None`
/// exactly when `Regex::new` returns an error, which it does not for the
/// library's two fixed patterns (valid regex syntax, well within the size
/// limits).
#[verifier::external_body]
pub(crate) fn regex_spans(pattern: &str, text: &str) -> (r: Option<Vec<(usize, usize)>>)
    ensures
        pattern@ == number_pattern() || pattern@ == date_pattern() ==> r is Some,
        match r {
            Some(v) => regex_find_spans(pattern@, text@) == Some(v@) && forall|k: int|
                0 <= k < v@.len() ==> span_ok(text@, #[trigger] v@[k]),
            None => regex_find_spans(pattern@, text@) is None,
        },
{
    match regex::Regex::new(pattern) {
        Ok(re) => Some(re.find_iter(text).map(|m| (m.start(), m.end())).collect()),
        Err(_) => None,
    }
}

/// `regex::Regex::new(pattern)`, then `is_match(text)`. Claimed only that
/// the result is named `regex_test` of the two texts, `None` exactly when
/// `Regex::new` returns an error, which it does not for the library's two
/// fixed patterns.
#[verifier::external_body]
pub(crate) fn regex_is_match(pattern: &str, text: &str) -> (r: Option<bool>)
    ensures
        r == regex_test(pattern@, text@),
        pattern@ == number_pattern() || pattern@ == date_pattern() ==> r is Some,
{
    match regex::Regex::new(pattern) {
        Ok(re) => Some(re.is_match(text)),
        Err(_) => None,
    }
}

// ---------- matching ----------
/// Whether `h` contains `n` (`str::contains`).
pub open spec fn contains(h: Seq<char>, n: Seq<char>) -> bool {
    find_from(utf8(h), utf8(n), 0) is Some
}

/// Whether `h` contains `n`.
pub fn contains_text(h: &str, n: &str) -> (r: bool)
    ensures
        r == contains(h@, n@),
{
    find_bytes(h.as_bytes(), n.as_bytes()).is_some()
}

/// Whether a pattern matches anywhere in `text`: a regex that compiles and
/// matches, or, for any other type, the pattern contained in the text with
/// both lowercased.
pub open spec fn pattern_matches_spec(p: PatternV, text: Seq<char>) -> bool {
    if p.pattern_type == "regex"@ {
        regex_test(p.pattern, text) == Some(true)
    } else {
        contains(lowercase(text), lowercase(p.pattern))
    }
}

/// Whether a pattern matches anywhere in `text`.
pub fn pattern_matches(p: &Pattern, text: &str) -> (r: bool)
    ensures
        r == pattern_matches_spec(pattern_v(*p), text@),
{
    if str_eq(p.pattern_type.as_str(), "regex") {
        match regex_is_match(p.pattern.as_str(), text) {
            Some(b) => b,
            None => false,
        }
    } else {
        let lt = to_lower(text);
        let lp = to_lower(p.pattern.as_str());
        contains_text(lt.as_str(), lp.as_str())
    }
}

// ---------- violations ----------
/// One rule violation found in draft content.
pub struct Violation {
    pub pattern_id: i64,
    pub lesson_id: Option<i64>,
    pub rule: String,
    pub category: String,
    pub direction: String,
    pub matched_text: String,
    pub context: String,
    pub line: usize,
}

pub struct ViolationV {
    pub pattern_id: i64,
    pub lesson_id: Option<i64>,
    pub rule: Seq<char>,
    pub category: Seq<char>,
    pub direction: Seq<char>,
    pub matched_text: Seq<char>,
    pub context: Seq<char>,
    pub line: int,
}

pub open spec fn violation_v(v: Violation) -> ViolationV {
    ViolationV {
        pattern_id: v.pattern_id,
        lesson_id: v.lesson_id,
        rule: v.rule@,
        category: v.category@,
        direction: v.direction@,
        matched_text: v.matched_text@,
        context: v.context@,
        line: v.line as int,
    }
}

pub open spec fn violations_v(s: Seq<Violation>) -> Seq<ViolationV> {
    s.map_values(|v: Violation| violation_v(v))
}

/// The line (1-based) that byte offset `i` of `content` falls on.
pub open spec fn line_of(content: Seq<char>, i: int) -> int {
    count_nl(byte_slice(content, 0, i)) as int + 1
}

/// Whether a match at bytes `a..b` can be read back: the prefix before it
/// and the match itself fall between characters, and its line number fits
/// a `usize`.
pub open spec fn hit_ok(content: Seq<char>, a: int, b: int) -> bool {
    &&& slice_ok(content, 0, a)
    &&& slice_ok(content, a, b)
    &&& line_of(content, a) <= usize::MAX
}

/// A match at bytes `a..b`: the matched text and its line.
pub open spec fn hit_at(content: Seq<char>, a: int, b: int) -> (Seq<char>, int) {
    (byte_slice(content, a, b), line_of(content, a))
}

pub open spec fn spans_ok(content: Seq<char>, spans: Seq<(int, int)>) -> bool {
    forall|k: int| 0 <= k < spans.len() ==> hit_ok(content, #[trigger] spans[k].0, spans[k].1)
}

pub open spec fn spans_hits(content: Seq<char>, spans: Seq<(int, int)>) -> Seq<(Seq<char>, int)> {
    spans.map_values(|sp: (int, int)| hit_at(content, sp.0, sp.1))
}

pub open spec fn int_spans(spans: Seq<(usize, usize)>) -> Seq<(int, int)> {
    spans.map_values(|sp: (usize, usize)| (sp.0 as int, sp.1 as int))
}

/// The literal matches of `pattern`: each non-overlapping occurrence of the
/// lowercased pattern in the lowercased content, taken at that offset of
/// the original content with the original pattern's byte length.
pub open spec fn literal_spans(content: Seq<char>, pattern: Seq<char>) -> Seq<(int, int)> {
    match_starts(utf8(lowercase(content)), utf8(lowercase(pattern)), 0).map_values(
        |i: int| (i, i + utf8(pattern).len()),
    )
}

/// The spans pattern `p` matches in `content`; `None` for a regex that does
/// not compile (such a pattern is skipped).
pub open spec fn pattern_spans(p: PatternV, content: Seq<char>) -> Option<Seq<(int, int)>> {
    if p.pattern_type == "regex"@ {
        match regex_find_spans(p.pattern, content) {
            Some(sp) => Some(int_spans(sp)),
            None => None,
        }
    } else {
        Some(literal_spans(content, p.pattern))
    }
}

/// The window shown around a match: 40 bytes each side of the first
/// occurrence of the matched text, clipped to the content.
pub open spec fn context_bounds(content: Seq<char>, matched: Seq<char>) -> (int, int) {
    let pos = match find_from(utf8(content), utf8(matched), 0) {
        Some(i) => i,
        None => 0,
    };
    let len = utf8(content).len() as int;
    let start = if pos >= 40 {
        pos - 40
    } else {
        0
    };
    let end = if pos + utf8(matched).len() + 40 <= len {
        pos + utf8(matched).len() + 40
    } else {
        len
    };
    (start, end)
}

/// Whether that window falls between characters.
pub open spec fn window_ok(content: Seq<char>, matched: Seq<char>) -> bool {
    slice_ok(content, context_bounds(content, matched).0, context_bounds(content, matched).1)
}

/// The violation an "avoid" pattern reports for one match.
pub open spec fn avoid_violation(p: PatternV, content: Seq<char>, hit: (Seq<char>, int)) -> ViolationV {
    let (a, b) = context_bounds(content, hit.0);
    ViolationV {
        pattern_id: p.id,
        lesson_id: p.lesson_id,
        rule: p.rule,
        category: p.category,
        direction: "avoid"@,
        matched_text: hit.0,
        context: flatten_lines(byte_slice(content, a, b)),
        line: hit.1,
    }
}

/// The suggestion a "prefer" pattern reports when it is absent.
pub open spec fn prefer_violation(p: PatternV) -> ViolationV {
    ViolationV {
        pattern_id: p.id,
        lesson_id: p.lesson_id,
        rule: p.rule,
        category: p.category,
        direction: "prefer"@,
        matched_text: seq![],
        context: "consider using: "@ + p.pattern,
        line: 0,
    }
}

/// What pattern `p` reports on `content`: "prefer" patterns a suggestion
/// when they do not match, every other direction one violation per match
/// (as "avoid"). `None` where reading a match back would fail.
pub open spec fn pattern_violations(p: PatternV, content: Seq<char>) -> Option<Seq<ViolationV>> {
    match pattern_spans(p, content) {
        None => Some(seq![]),
        Some(spans) => if !spans_ok(content, spans) {
            None
        } else if p.direction == "prefer"@ {
            if spans.len() == 0 {
                Some(seq![prefer_violation(p)])
            } else {
                Some(seq![])
            }
        } else {
            let hits = spans_hits(content, spans);
            if forall|k: int| 0 <= k < hits.len() ==> window_ok(content, #[trigger] hits[k].0) {
                Some(hits.map_values(|h: (Seq<char>, int)| avoid_violation(p, content, h)))
            } else {
                None
            }
        },
    }
}

/// The violations of all `ps`, in order; `None` if any pattern's are.
pub open spec fn lint_all(ps: Seq<PatternV>, content: Seq<char>) -> Option<Seq<ViolationV>>
    decreases ps.len(),
{
    if ps.len() == 0 {
        Some(seq![])
    } else {
        match lint_all(ps.drop_last(), content) {
            None => None,
            Some(v) => match pattern_violations(ps.last(), content) {
                None => None,
                Some(w) => Some(v + w),
            },
        }
    }
}

/// The violations `content` has against every stored pattern, newest
/// pattern first; `None` on content where reading a match back would fail.
pub open spec fn lint_spec(s: StoreV, content: Seq<char>) -> Option<Seq<ViolationV>> {
    lint_all(list_patterns_spec(s, None), content)
}

pub open spec fn violations_opt_v(r: Option<Vec<Violation>>) -> Option<Seq<ViolationV>> {
    match r {
        Some(v) => Some(violations_v(v@)),
        None => None,
    }
}

} // verus!

verus! {

/// The literal spans of `pattern` in `content`; `None` when one of them
/// runs past the end of the content.
fn literal_spans_exec(content: &str, pattern: &str) -> (r: Option<Vec<(usize, usize)>>)
    ensures
        match r {
            Some(v) => int_spans(v@) == literal_spans(content@, pattern@),
            None => !spans_ok(content@, literal_spans(content@, pattern@)),
        },
{
    let lower = to_lower(content);
    let needle = to_lower(pattern);
    let starts = match_indices(lower.as_str(), needle.as_str().as_bytes());
    let clen = content.as_bytes().len();
    let plen = pattern.as_bytes().len();
    let ghost full = literal_spans(content@, pattern@);
    let ghost ms = match_starts(utf8(lowercase(content@)), utf8(lowercase(pattern@)), 0);
    assert(full.len() == ms.len());
    let mut out: Vec<(usize, usize)> = Vec::new();
    let mut i: usize = 0;
    while i < starts.len()
        invariant
            starts@.map_values(|x: usize| x as int) == ms,
            full == literal_spans(content@, pattern@),
            full.len() == ms.len(),
            ms == match_starts(utf8(lowercase(content@)), utf8(lowercase(pattern@)), 0),
            clen == utf8(content@).len(),
            plen == utf8(pattern@).len(),
            i <= starts@.len(),
            out@.len() == i,
            forall|k: int| 0 <= k < i ==> (#[trigger] out@[k].0 as int, out@[k].1 as int) == full[k],
        decreases starts@.len() - i,
    {
        let a = starts[i];
        proof {
            assert(ms[i as int] == a as int);
            assert(full[i as int] == (a as int, a + plen));
        }
        if a > clen || plen > clen - a {
            proof {
                assert(!hit_ok(content@, full[i as int].0, full[i as int].1));
            }
            return None;
        }
        out.push((a, a + plen));
        i = i + 1;
    }
    proof {
        assert(int_spans(out@) =~= full);
    }
    Some(out)
}

/// A match read back: the matched text and its line.
struct Hit {
    text: String,
    line: usize,
}

spec fn hits_v(s: Seq<Hit>) -> Seq<(Seq<char>, int)> {
    s.map_values(|h: Hit| (h.text@, h.line as int))
}

/// The matches at `spans`, read back; `None` where one cannot be.
fn read_hits(content: &str, spans: &Vec<(usize, usize)>) -> (r: Option<Vec<Hit>>)
    ensures
        match r {
            Some(v) => spans_ok(content@, int_spans(spans@)) && hits_v(v@) == spans_hits(
                content@,
                int_spans(spans@),
            ),
            None => !spans_ok(content@, int_spans(spans@)),
        },
{
    let ghost sp = int_spans(spans@);
    let clen = content.as_bytes().len();
    let mut out: Vec<Hit> = Vec::new();
    let mut i: usize = 0;
    while i < spans.len()
        invariant
            sp == int_spans(spans@),
            sp.len() == spans@.len(),
            clen == utf8(content@).len(),
            i <= spans@.len(),
            out@.len() == i,
            forall|k: int| 0 <= k < i ==> hit_ok(content@, #[trigger] sp[k].0, sp[k].1),
            forall|k: int| 0 <= k < i ==> (#[trigger] out@[k].text@, out@[k].line as int) == hit_at(
                content@,
                sp[k].0,
                sp[k].1,
            ),
        decreases spans@.len() - i,
    {
        let (a, b) = spans[i];
        proof {
            assert(sp[i as int] == (a as int, b as int));
        }
        if a > b || b > clen || !boundary_at(content, a) || !boundary_at(content, b) {
            proof {
                assert(!hit_ok(content@, sp[i as int].0, sp[i as int].1));
            }
            return None;
        }
        let prefix = slice_str(content, 0, a);
        let nl = count_newlines(prefix);
        if nl == usize::MAX {
            proof {
                assert(!hit_ok(content@, sp[i as int].0, sp[i as int].1));
            }
            return None;
        }
        let text = owned(slice_str(content, a, b));
        out.push(Hit { text, line: nl + 1 });
        proof {
            assert(hit_ok(content@, sp[i as int].0, sp[i as int].1));
        }
        i = i + 1;
    }
    proof {
        assert(hits_v(out@) =~= spans_hits(content@, sp));
    }
    Some(out)
}

} // verus!

verus! {

/// The "avoid" violations for the matches `hits`; `None` where a context
/// window would cut a character.
fn avoid_violations(p: &Pattern, content: &str, hits: &Vec<Hit>) -> (r: Option<Vec<Violation>>)
    ensures
        match r {
            Some(v) => (forall|k: int|
                0 <= k < hits@.len() ==> window_ok(content@, #[trigger] hits_v(hits@)[k].0))
                && violations_v(v@) == hits_v(hits@).map_values(
                |h: (Seq<char>, int)| avoid_violation(pattern_v(*p), content@, h),
            ),
            None => !(forall|k: int|
                0 <= k < hits@.len() ==> window_ok(content@, #[trigger] hits_v(hits@)[k].0)),
        },
{
    let ghost hv = hits_v(hits@);
    let ghost pv = pattern_v(*p);
    let cb = content.as_bytes();
    let clen = cb.len();
    let mut out: Vec<Violation> = Vec::new();
    let mut i: usize = 0;
    while i < hits.len()
        invariant
            hv == hits_v(hits@),
            pv == pattern_v(*p),
            hv.len() == hits@.len(),
            cb@ == utf8(content@),
            clen == cb@.len(),
            i <= hits@.len(),
            out@.len() == i,
            forall|k: int| 0 <= k < i ==> window_ok(content@, #[trigger] hv[k].0),
            forall|k: int|
                0 <= k < i ==> #[trigger] violation_v(out@[k]) == avoid_violation(
                    pv,
                    content@,
                    hv[k],
                ),
        decreases hits@.len() - i,
    {
        let m = hits[i].text.as_str();
        let mb = m.as_bytes();
        let mlen = mb.len();
        proof {
            assert(hv[i as int] == (hits@[i as int].text@, hits@[i as int].line as int));
        }
        let found = find_bytes(cb, mb);
        let pos: usize = match found {
            Some(x) => {
                proof {
                    lemma_find_from_found_at(cb@, mb@);
                }
                x
            },
            None => 0,
        };
        let start: usize = if pos >= 40 {
            pos - 40
        } else {
            0
        };
        let end: usize = if pos <= clen && mlen <= clen - pos && clen - pos - mlen >= 40 {
            pos + mlen + 40
        } else {
            clen
        };
        proof {
            assert(context_bounds(content@, hv[i as int].0) == (start as int, end as int));
        }
        if start > end || !boundary_at(content, start) || !boundary_at(content, end) {
            proof {
                assert(!window_ok(content@, hv[i as int].0));
            }
            return None;
        }
        let ctx = replace_newlines(slice_str(content, start, end));
        let v = Violation {
            pattern_id: p.id,
            lesson_id: p.lesson_id,
            rule: p.rule.clone(),
            category: p.category.clone(),
            direction: owned("avoid"),
            matched_text: hits[i].text.clone(),
            context: ctx,
            line: hits[i].line,
        };
        out.push(v);
        proof {
            assert(window_ok(content@, hv[i as int].0));
            assert(violation_v(out@[i as int]) == avoid_violation(pv, content@, hv[i as int]));
        }
        i = i + 1;
    }
    proof {
        assert(violations_v(out@) =~= hv.map_values(
            |h: (Seq<char>, int)| avoid_violation(pv, content@, h),
        ));
    }
    Some(out)
}

/// The suggestion for a "prefer" pattern that does not match.
fn prefer_violation_exec(p: &Pattern) -> (v: Violation)
    ensures
        violation_v(v) == prefer_violation(pattern_v(*p)),
{
    let mut ctx = owned("consider using: ");
    push_str(&mut ctx, p.pattern.as_str());
    let v = Violation {
        pattern_id: p.id,
        lesson_id: p.lesson_id,
        rule: p.rule.clone(),
        category: p.category.clone(),
        direction: owned("prefer"),
        matched_text: String::new(),
        context: ctx,
        line: 0,
    };
    proof {
        assert(v.matched_text@ =~= seq![]);
    }
    v
}

/// What pattern `p` reports on `content`.
fn violations_for(p: &Pattern, content: &str) -> (r: Option<Vec<Violation>>)
    ensures
        violations_opt_v(r) == pattern_violations(pattern_v(*p), content@),
{
    let ghost pv = pattern_v(*p);
    let spans: Vec<(usize, usize)> = if str_eq(p.pattern_type.as_str(), "regex") {
        match regex_spans(p.pattern.as_str(), content) {
            None => {
                return Some(Vec::new());
            },
            Some(sp) => sp,
        }
    } else {
        match literal_spans_exec(content, p.pattern.as_str()) {
            None => {
                return None;
            },
            Some(sp) => sp,
        }
    };
    assert(pattern_spans(pv, content@) == Some(int_spans(spans@)));
    let hits = match read_hits(content, &spans) {
        None => {
            return None;
        },
        Some(h) => h,
    };
    proof {
        assert(hits_v(hits@).len() == hits@.len());
        assert(spans_hits(content@, int_spans(spans@)).len() == spans@.len());
    }
    if str_eq(p.direction.as_str(), "prefer") {
        if hits.len() == 0 {
            let v = prefer_violation_exec(p);
            let out = vec![v];
            proof {
                assert(violations_v(out@) =~= seq![prefer_violation(pv)]);
            }
            Some(out)
        } else {
            let out: Vec<Violation> = Vec::new();
            proof {
                assert(violations_v(out@) =~= Seq::<ViolationV>::empty());
            }
            Some(out)
        }
    } else {
        let r = avoid_violations(p, content, &hits);
        proof {
            let hs = spans_hits(content@, int_spans(spans@));
            assert(hs == hits_v(hits@));
            if r is Some {
                assert(forall|k: int| 0 <= k < hs.len() ==> window_ok(content@, #[trigger] hs[k].0));
            }
        }
        r
    }
}

/// Once some patterns fail, any longer list fails.
proof fn lemma_lint_none_extends(ps: Seq<PatternV>, content: Seq<char>, j: int)
    requires
        0 <= j <= ps.len(),
        lint_all(ps.take(j), content) is None,
    ensures
        lint_all(ps, content) is None,
    decreases ps.len(),
{
    if j == ps.len() {
        assert(ps.take(j) =~= ps);
    } else {
        assert(ps.drop_last().take(j) =~= ps.take(j));
        lemma_lint_none_extends(ps.drop_last(), content, j);
    }
}

/// The violations of `content` against `ps`, in order.
fn lint_patterns(ps: &Vec<Pattern>, content: &str) -> (r: Option<Vec<Violation>>)
    ensures
        violations_opt_v(r) == lint_all(patterns_v(ps@), content@),
{
    let ghost pv = patterns_v(ps@);
    let mut acc: Vec<Violation> = Vec::new();
    let mut i: usize = 0;
    proof {
        assert(pv.take(0) =~= Seq::<PatternV>::empty());
        assert(violations_v(acc@) =~= Seq::<ViolationV>::empty());
    }
    while i < ps.len()
        invariant
            pv == patterns_v(ps@),
            pv.len() == ps@.len(),
            i <= ps@.len(),
            lint_all(pv.take(i as int), content@) == Some(violations_v(acc@)),
        decreases ps@.len() - i,
    {
        proof {
            assert(pv.take(i + 1).drop_last() =~= pv.take(i as int));
            assert(pv.take(i + 1).last() == pv[i as int]);
            assert(pv[i as int] == pattern_v(ps@[i as int]));
        }
        match violations_for(&ps[i], content) {
            None => {
                proof {
                    lemma_lint_none_extends(pv, content@, i + 1);
                }
                return None;
            },
            Some(w) => {
                let ghost before = acc@;
                let mut w = w;
                let ghost wv = w@;
                acc.append(&mut w);
                proof {
                    assert(violations_v(acc@) =~= violations_v(before) + violations_v(wv));
                }
            },
        }
        i = i + 1;
    }
    proof {
        assert(pv.take(i as int) =~= pv);
    }
    Some(acc)
}

/// Scans draft content against every stored pattern (newest first):
/// "avoid" patterns report each match, with its line and the surrounding
/// text; "prefer" patterns that are absent report a suggestion.
pub fn lint_draft(store: &Store, content: &str) -> (r: Vec<Violation>)
    requires
        lint_spec(store@, content@) is Some,
    ensures
        lint_spec(store@, content@) == Some(violations_v(r@)),
{
    let ps = list_patterns(store, None);
    match lint_patterns(&ps, content) {
        Some(v) => v,
        None => Vec::new(),
    }
}

/// `lint_draft` where every match can be read back; `None` on content
/// where a match or its context window would cut a character.
pub fn try_lint_draft(store: &Store, content: &str) -> (r: Option<Vec<Violation>>)
    ensures
        violations_opt_v(r) == lint_spec(store@, content@),
{
    let ps = list_patterns(store, None);
    if lint_patterns(&ps, content).is_some() {
        Some(lint_draft(store, content))
    } else {
        None
    }
}

} // verus!
