//! GitHub-style structured diffs: one row per line, with intra-line word
//! segments for each removed/added line pair. The line and word diffs
//! themselves come from the `similar` crate (Myers diff); the row layout is
//! this library's own.
use vstd::prelude::*;
use vstd::string::StringExecFns;

use crate::text::{chars_of, is_white_space, is_white_space_char, join, join_strings, owned, push_char, str_eq, string_of};

verus! {

/// The tag of one change in a diff.
#[derive(Clone, Copy, PartialEq, Eq, Structural, Debug)]
pub enum ChangeKind {
    Equal,
    Delete,
    Insert,
}

/// One change of a token diff: its tag and the token's text.
pub struct TextChange {
    pub tag: ChangeKind,
    pub value: String,
}

/// A change as a plain value.
pub type ChangeV = (ChangeKind, Seq<char>);

/// The changes as plain values.
pub open spec fn changes_view(s: Seq<TextChange>) -> Seq<ChangeV> {
    s.map_values(|c: TextChange| (c.tag, c.value@))
}

/// The changes that `similar::TextDiff::from_lines(old, new)` yields, in
/// iteration order.
pub uninterp spec fn line_diff(old: Seq<char>, new: Seq<char>) -> Seq<ChangeV>;

/// The changes that `similar::TextDiff::from_words(old, new)` yields, in
/// iteration order.
pub uninterp spec fn word_diff(old: Seq<char>, new: Seq<char>) -> Seq<ChangeV>;

/// The old side of a diff: the equal and deleted tokens, in order.
pub open spec fn old_side(ch: Seq<ChangeV>) -> Seq<char>
    decreases ch.len(),
{
    if ch.len() == 0 {
        seq![]
    } else {
        old_side(ch.drop_last()) + if ch.last().0 != ChangeKind::Insert {
            ch.last().1
        } else {
            seq![]
        }
    }
}

/// The new side of a diff: the equal and inserted tokens, in order.
pub open spec fn new_side(ch: Seq<ChangeV>) -> Seq<char>
    decreases ch.len(),
{
    if ch.len() == 0 {
        seq![]
    } else {
        new_side(ch.drop_last()) + if ch.last().0 != ChangeKind::Delete {
            ch.last().1
        } else {
            seq![]
        }
    }
}

/// The lines of `s` after reading `i` characters: the finished lines and
/// the line being read. A line ends after "\n", after "\r\n", and after a
/// "\r" that no "\n" follows (the line tokenizer of `similar`).
pub open spec fn line_state(s: Seq<char>, i: nat) -> (Seq<Seq<char>>, Seq<char>)
    decreases i,
{
    if i == 0 {
        (seq![], seq![])
    } else {
        let (done, cur) = line_state(s, (i - 1) as nat);
        let c = s[i - 1];
        let cur2 = cur.push(c);
        if c == '\n' || (c == '\r' && !(i < s.len() && s[i as int] == '\n')) {
            (done.push(cur2), seq![])
        } else {
            (done, cur2)
        }
    }
}

/// The lines of `s`, each with its line ending; the last one may have
/// none.
pub open spec fn line_tokens(s: Seq<char>) -> Seq<Seq<char>> {
    let (done, cur) = line_state(s, s.len());
    if cur.len() > 0 {
        done.push(cur)
    } else {
        done
    }
}

/// `similar::TextDiff::from_lines(old, new).iter_all_changes()`, each change
/// taken as its tag and its text. The contract says the result is
/// `line_diff(old, new)`; that, as the crate's `tokenize_lines` and its
/// change iterator show (the diff ops cover every token of each side in
/// order, equal and deleted values coming from the old tokens, equal and
/// inserted values from the new ones), the old side's tokens are the lines
/// of `old` and the new side's the lines of `new`; and, as the Myers
/// implementation first takes off the common prefix, that two equal texts
/// give only equal changes.
#[verifier::external_body]
fn line_changes(old: &str, new: &str) -> (r: Vec<TextChange>)
    ensures
        changes_view(r@) == line_diff(old@, new@),
        old_tokens(changes_view(r@)) == line_tokens(old@),
        new_tokens(changes_view(r@)) == line_tokens(new@),
        old@ == new@ ==> forall|k: int| 0 <= k < r@.len() ==> (#[trigger] r@[k]).tag
            == ChangeKind::Equal,
{
    let d = similar::TextDiff::from_lines(old, new);
    let mut out = Vec::new();
    for c in d.iter_all_changes() {
        let tag = match c.tag() {
            similar::ChangeTag::Equal => ChangeKind::Equal,
            similar::ChangeTag::Delete => ChangeKind::Delete,
            similar::ChangeTag::Insert => ChangeKind::Insert,
        };
        out.push(TextChange { tag, value: c.value().to_string() });
    }
    out
}

/// `similar::TextDiff::from_words(old, new).iter_all_changes()`, each
/// change taken as its tag and its text. The contract says the result is
/// `word_diff(old, new)` and that its two sides spell `old` and `new` (the
/// word tokenizer covers the text with runs of white space and non-white
/// space).
#[verifier::external_body]
fn word_changes(old: &str, new: &str) -> (r: Vec<TextChange>)
    ensures
        changes_view(r@) == word_diff(old@, new@),
        old_side(changes_view(r@)) == old@,
        new_side(changes_view(r@)) == new@,
{
    let d = similar::TextDiff::from_words(old, new);
    let mut out = Vec::new();
    for c in d.iter_all_changes() {
        let tag = match c.tag() {
            similar::ChangeTag::Equal => ChangeKind::Equal,
            similar::ChangeTag::Delete => ChangeKind::Delete,
            similar::ChangeTag::Insert => ChangeKind::Insert,
        };
        out.push(TextChange { tag, value: c.value().to_string() });
    }
    out
}

/// One highlighted piece of a row: tag "add" | "del" | "ctx" and its text.
#[derive(Clone, Debug, PartialEq)]
pub struct DiffSegment {
    pub tag: String,
    pub text: String,
}

/// One row of a structured diff: kind "equal" | "removed" | "added".
#[derive(Clone, Debug, PartialEq)]
pub struct DiffRow {
    pub kind: String,
    pub segments: Vec<DiffSegment>,
}

/// A segment as plain values: (tag, text).
pub type SegV = (Seq<char>, Seq<char>);

/// A row as plain values: (kind, segments).
pub type RowV = (Seq<char>, Seq<SegV>);

pub open spec fn seg_v(s: DiffSegment) -> SegV {
    (s.tag@, s.text@)
}

pub open spec fn segs_v(s: Seq<DiffSegment>) -> Seq<SegV> {
    s.map_values(|x: DiffSegment| seg_v(x))
}

pub open spec fn row_v(r: DiffRow) -> RowV {
    (r.kind@, segs_v(r.segments@))
}

pub open spec fn rows_v(s: Seq<DiffRow>) -> Seq<RowV> {
    s.map_values(|x: DiffRow| row_v(x))
}

/// A line without its line ending: one trailing "\n" removed, then one
/// trailing "\r".
pub open spec fn trim_line_spec(s: Seq<char>) -> Seq<char> {
    let a = if s.len() > 0 && s.last() == '\n' {
        s.drop_last()
    } else {
        s
    };
    if a.len() > 0 && a.last() == '\r' {
        a.drop_last()
    } else {
        a
    }
}

/// The old-line segments of a word diff: equal words as "ctx", deleted
/// words as "del".
pub open spec fn old_segs(ch: Seq<ChangeV>) -> Seq<SegV>
    decreases ch.len(),
{
    if ch.len() == 0 {
        seq![]
    } else {
        let r = old_segs(ch.drop_last());
        let (k, v) = ch.last();
        if k == ChangeKind::Equal {
            r.push(("ctx"@, v))
        } else if k == ChangeKind::Delete {
            r.push(("del"@, v))
        } else {
            r
        }
    }
}

/// The new-line segments of a word diff: equal words as "ctx", inserted
/// words as "add".
pub open spec fn new_segs(ch: Seq<ChangeV>) -> Seq<SegV>
    decreases ch.len(),
{
    if ch.len() == 0 {
        seq![]
    } else {
        let r = new_segs(ch.drop_last());
        let (k, v) = ch.last();
        if k == ChangeKind::Equal {
            r.push(("ctx"@, v))
        } else if k == ChangeKind::Insert {
            r.push(("add"@, v))
        } else {
            r
        }
    }
}

pub open spec fn equal_row(v: Seq<char>) -> RowV {
    ("equal"@, seq![("ctx"@, trim_line_spec(v))])
}

pub open spec fn removed_row(v: Seq<char>) -> RowV {
    ("removed"@, seq![("del"@, trim_line_spec(v))])
}

pub open spec fn added_row(v: Seq<char>) -> RowV {
    ("added"@, seq![("add"@, trim_line_spec(v))])
}

/// The removed row of a paired (old line, new line).
pub open spec fn paired_removed_row(d: Seq<char>, n: Seq<char>) -> RowV {
    ("removed"@, old_segs(word_diff(trim_line_spec(d), trim_line_spec(n))))
}

/// The added row of a paired (old line, new line).
pub open spec fn paired_added_row(d: Seq<char>, n: Seq<char>) -> RowV {
    ("added"@, new_segs(word_diff(trim_line_spec(d), trim_line_spec(n))))
}

/// The rows of one hunk: the k-th removed line is paired with the k-th added
/// line (a removed row then an added row, with word segments); the removed
/// lines left over follow, then the added lines left over.
pub open spec fn hunk_rows(dels: Seq<Seq<char>>, ins: Seq<Seq<char>>) -> Seq<RowV>
    decreases dels.len() + ins.len(),
{
    if dels.len() > 0 && ins.len() > 0 {
        seq![paired_removed_row(dels[0], ins[0]), paired_added_row(dels[0], ins[0])] + hunk_rows(
            dels.drop_first(),
            ins.drop_first(),
        )
    } else if dels.len() > 0 {
        seq![removed_row(dels[0])] + hunk_rows(dels.drop_first(), ins)
    } else if ins.len() > 0 {
        seq![added_row(ins[0])] + hunk_rows(dels, ins.drop_first())
    } else {
        seq![]
    }
}

/// The rows for the line changes from index `i` on, when the pending hunk
/// holds the removed lines `dels` and the added lines `ins`: each equal line
/// gives an "equal" row; each maximal run of changed lines gives its hunk.
pub open spec fn rows_from(
    ops: Seq<ChangeV>,
    i: int,
    dels: Seq<Seq<char>>,
    ins: Seq<Seq<char>>,
) -> Seq<RowV>
    decreases ops.len() - i,
{
    if i >= ops.len() || i < 0 {
        hunk_rows(dels, ins)
    } else if ops[i].0 == ChangeKind::Equal {
        hunk_rows(dels, ins) + seq![equal_row(ops[i].1)] + rows_from(ops, i + 1, seq![], seq![])
    } else if ops[i].0 == ChangeKind::Delete {
        rows_from(ops, i + 1, dels.push(ops[i].1), ins)
    } else {
        rows_from(ops, i + 1, dels, ins.push(ops[i].1))
    }
}

/// The rows of a line diff.
pub open spec fn rows_of(ops: Seq<ChangeV>) -> Seq<RowV> {
    rows_from(ops, 0, seq![], seq![])
}

/// The rows `rich_diff(old, new)` returns.
pub open spec fn rich_diff_spec(old: Seq<char>, new: Seq<char>) -> Seq<RowV> {
    rows_of(line_diff(old, new))
}

/// The tokens of the old side of a diff: the equal and deleted values, in
/// order.
pub open spec fn old_tokens(ch: Seq<ChangeV>) -> Seq<Seq<char>>
    decreases ch.len(),
{
    if ch.len() == 0 {
        seq![]
    } else {
        let t = old_tokens(ch.drop_last());
        if ch.last().0 != ChangeKind::Insert {
            t.push(ch.last().1)
        } else {
            t
        }
    }
}

/// The tokens of the new side of a diff: the equal and inserted values, in
/// order.
pub open spec fn new_tokens(ch: Seq<ChangeV>) -> Seq<Seq<char>>
    decreases ch.len(),
{
    if ch.len() == 0 {
        seq![]
    } else {
        let t = new_tokens(ch.drop_last());
        if ch.last().0 != ChangeKind::Delete {
            t.push(ch.last().1)
        } else {
            t
        }
    }
}

/// Each token without its line ending.
pub open spec fn trimmed_lines(ts: Seq<Seq<char>>) -> Seq<Seq<char>> {
    ts.map_values(|t: Seq<char>| trim_line_spec(t))
}

/// The texts of the rows whose kind is not `skip`, in order: with `skip`
/// "added" the lines a reader sees of the old text, with "removed" those of
/// the new text.
pub open spec fn shown(rows: Seq<RowV>, skip: Seq<char>) -> Seq<Seq<char>>
    decreases rows.len(),
{
    if rows.len() == 0 {
        seq![]
    } else {
        let t = shown(rows.drop_last(), skip);
        if rows.last().0 != skip {
            t.push(seg_texts(rows.last().1))
        } else {
            t
        }
    }
}

proof fn lemma_old_tokens_all_equal(ch: Seq<ChangeV>)
    requires
        forall|k: int| 0 <= k < ch.len() ==> (#[trigger] ch[k]).0 == ChangeKind::Equal,
    ensures
        old_tokens(ch).map_values(|t: Seq<char>| equal_row(t)) == ch.map_values(
            |c: ChangeV| equal_row(c.1),
        ),
    decreases ch.len(),
{
    if ch.len() > 0 {
        let d = ch.drop_last();
        assert forall|k: int| 0 <= k < d.len() implies (#[trigger] d[k]).0 == ChangeKind::Equal by {
            assert(d[k] == ch[k]);
        }
        lemma_old_tokens_all_equal(d);
        assert(ch.last() == ch[ch.len() - 1]);
        assert(old_tokens(ch) == old_tokens(d).push(ch.last().1));
        assert(old_tokens(ch).map_values(|t: Seq<char>| equal_row(t)) =~= old_tokens(d).map_values(
            |t: Seq<char>| equal_row(t),
        ).push(equal_row(ch.last().1)));
        assert(ch.map_values(|c: ChangeV| equal_row(c.1)) =~= d.map_values(
            |c: ChangeV| equal_row(c.1),
        ).push(equal_row(ch.last().1)));
    } else {
        assert(old_tokens(ch).map_values(|t: Seq<char>| equal_row(t)) =~= seq![]);
        assert(ch.map_values(|c: ChangeV| equal_row(c.1)) =~= seq![]);
    }
}

proof fn lemma_seg_texts_push(s: Seq<SegV>, x: SegV)
    ensures
        seg_texts(s.push(x)) == seg_texts(s) + x.1,
{
    assert(s.push(x).drop_last() =~= s);
}

proof fn lemma_seg_texts_one(x: SegV)
    ensures
        seg_texts(seq![x]) == x.1,
{
    lemma_seg_texts_push(seq![], x);
    assert(Seq::<SegV>::empty().push(x) =~= seq![x]);
    assert(Seq::<char>::empty() + x.1 =~= x.1);
}

proof fn lemma_segs_spell(ch: Seq<ChangeV>)
    ensures
        seg_texts(old_segs(ch)) == old_side(ch),
        seg_texts(new_segs(ch)) == new_side(ch),
    decreases ch.len(),
{
    if ch.len() > 0 {
        lemma_segs_spell(ch.drop_last());
        let (k, v) = ch.last();
        lemma_seg_texts_push(old_segs(ch.drop_last()), ("ctx"@, v));
        lemma_seg_texts_push(old_segs(ch.drop_last()), ("del"@, v));
        lemma_seg_texts_push(new_segs(ch.drop_last()), ("ctx"@, v));
        lemma_seg_texts_push(new_segs(ch.drop_last()), ("add"@, v));
        assert(old_side(ch.drop_last()) + seq![] =~= old_side(ch.drop_last()));
        assert(new_side(ch.drop_last()) + seq![] =~= new_side(ch.drop_last()));
    }
}

proof fn lemma_shown_push(rows: Seq<RowV>, x: RowV, skip: Seq<char>)
    ensures
        shown(rows.push(x), skip) == if x.0 != skip {
            shown(rows, skip).push(seg_texts(x.1))
        } else {
            shown(rows, skip)
        },
{
    assert(rows.push(x).drop_last() =~= rows);
}

proof fn lemma_tokens_take(ch: Seq<ChangeV>, i: int)
    requires
        0 <= i < ch.len(),
    ensures
        old_tokens(ch.take(i + 1)) == if ch[i].0 != ChangeKind::Insert {
            old_tokens(ch.take(i)).push(ch[i].1)
        } else {
            old_tokens(ch.take(i))
        },
        new_tokens(ch.take(i + 1)) == if ch[i].0 != ChangeKind::Delete {
            new_tokens(ch.take(i)).push(ch[i].1)
        } else {
            new_tokens(ch.take(i))
        },
{
    assert(ch.take(i + 1).drop_last() =~= ch.take(i));
}

proof fn lemma_trimmed_lines_push(ts: Seq<Seq<char>>, t: Seq<char>)
    ensures
        trimmed_lines(ts.push(t)) == trimmed_lines(ts).push(trim_line_spec(t)),
{
    assert(trimmed_lines(ts.push(t)) =~= trimmed_lines(ts).push(trim_line_spec(t)));
}

/// The row kinds differ from one another.
proof fn lemma_kinds_differ()
    ensures
        "removed"@ != "added"@,
        "equal"@ != "added"@,
        "equal"@ != "removed"@,
{
    reveal_strlit("removed");
    reveal_strlit("added");
    reveal_strlit("equal");
    assert("equal"@[0] != "added"@[0]);
    assert("removed"@.len() != "added"@.len());
    assert("equal"@.len() != "removed"@.len());
}

/// Whether a row has the shape the layout gives it: an "equal" row is one
/// "ctx" segment; a "removed" row holds only "del" and "ctx" segments; an
/// "added" row only "add" and "ctx" segments.
pub open spec fn row_shaped(r: RowV) -> bool {
    ||| r.0 == "equal"@ && r.1.len() == 1 && r.1[0].0 == "ctx"@
    ||| r.0 == "removed"@ && forall|k: int|
        0 <= k < r.1.len() ==> (#[trigger] r.1[k]).0 == "del"@ || r.1[k].0 == "ctx"@
    ||| r.0 == "added"@ && forall|k: int|
        0 <= k < r.1.len() ==> (#[trigger] r.1[k]).0 == "add"@ || r.1[k].0 == "ctx"@
}

/// Whether every row is shaped.
pub open spec fn rows_shaped(rows: Seq<RowV>) -> bool {
    forall|k: int| 0 <= k < rows.len() ==> row_shaped(#[trigger] rows[k])
}

proof fn lemma_rows_shaped_join(x: Seq<RowV>, y: Seq<RowV>)
    requires
        rows_shaped(x),
        rows_shaped(y),
    ensures
        rows_shaped(x + y),
{
    assert forall|k: int| 0 <= k < (x + y).len() implies row_shaped(#[trigger] (x + y)[k]) by {
        if k < x.len() {
            assert((x + y)[k] == x[k]);
        } else {
            assert((x + y)[k] == y[k - x.len()]);
        }
    }
}

proof fn lemma_segs_tags(ch: Seq<ChangeV>)
    ensures
        forall|k: int|
            0 <= k < old_segs(ch).len() ==> (#[trigger] old_segs(ch)[k]).0 == "del"@ || old_segs(
                ch,
            )[k].0 == "ctx"@,
        forall|k: int|
            0 <= k < new_segs(ch).len() ==> (#[trigger] new_segs(ch)[k]).0 == "add"@ || new_segs(
                ch,
            )[k].0 == "ctx"@,
    decreases ch.len(),
{
    if ch.len() > 0 {
        lemma_segs_tags(ch.drop_last());
        let o = old_segs(ch.drop_last());
        let n = new_segs(ch.drop_last());
        assert forall|k: int| 0 <= k < old_segs(ch).len() implies (#[trigger] old_segs(ch)[k]).0
            == "del"@ || old_segs(ch)[k].0 == "ctx"@ by {
            if k < o.len() {
                assert(old_segs(ch)[k] == o[k]);
            }
        }
        assert forall|k: int| 0 <= k < new_segs(ch).len() implies (#[trigger] new_segs(ch)[k]).0
            == "add"@ || new_segs(ch)[k].0 == "ctx"@ by {
            if k < n.len() {
                assert(new_segs(ch)[k] == n[k]);
            }
        }
    }
}

proof fn lemma_hunk_shaped(dels: Seq<Seq<char>>, ins: Seq<Seq<char>>)
    ensures
        rows_shaped(hunk_rows(dels, ins)),
    decreases dels.len() + ins.len(),
{
    if dels.len() > 0 && ins.len() > 0 {
        lemma_hunk_shaped(dels.drop_first(), ins.drop_first());
        let wd = word_diff(trim_line_spec(dels[0]), trim_line_spec(ins[0]));
        lemma_segs_tags(wd);
        let two = seq![paired_removed_row(dels[0], ins[0]), paired_added_row(dels[0], ins[0])];
        assert(row_shaped(two[0]));
        assert(row_shaped(two[1]));
        assert(rows_shaped(two));
        lemma_rows_shaped_join(two, hunk_rows(dels.drop_first(), ins.drop_first()));
    } else if dels.len() > 0 {
        lemma_hunk_shaped(dels.drop_first(), ins);
        let one = seq![removed_row(dels[0])];
        assert(row_shaped(one[0]));
        assert(rows_shaped(one));
        lemma_rows_shaped_join(one, hunk_rows(dels.drop_first(), ins));
    } else if ins.len() > 0 {
        lemma_hunk_shaped(dels, ins.drop_first());
        let one = seq![added_row(ins[0])];
        assert(row_shaped(one[0]));
        assert(rows_shaped(one));
        lemma_rows_shaped_join(one, hunk_rows(dels, ins.drop_first()));
    }
}

/// Every row that the layout of a line diff gives is shaped.
pub proof fn lemma_rows_from_shaped(
    ops: Seq<ChangeV>,
    i: int,
    dels: Seq<Seq<char>>,
    ins: Seq<Seq<char>>,
)
    ensures
        rows_shaped(rows_from(ops, i, dels, ins)),
    decreases ops.len() - i,
{
    lemma_hunk_shaped(dels, ins);
    if 0 <= i < ops.len() {
        if ops[i].0 == ChangeKind::Equal {
            lemma_rows_from_shaped(ops, i + 1, seq![], seq![]);
            let one = seq![equal_row(ops[i].1)];
            assert(row_shaped(one[0]));
            assert(rows_shaped(one));
            lemma_rows_shaped_join(hunk_rows(dels, ins), one);
            lemma_rows_shaped_join(hunk_rows(dels, ins) + one, rows_from(ops, i + 1, seq![], seq![]));
        } else if ops[i].0 == ChangeKind::Delete {
            lemma_rows_from_shaped(ops, i + 1, dels.push(ops[i].1), ins);
        } else {
            lemma_rows_from_shaped(ops, i + 1, dels, ins.push(ops[i].1));
        }
    }
}

/// The layout of a diff whose changes are all equal: one "equal" row per
/// line.
pub proof fn lemma_rows_all_equal(ops: Seq<ChangeV>, i: int)
    requires
        0 <= i <= ops.len(),
        forall|k: int| 0 <= k < ops.len() ==> (#[trigger] ops[k]).0 == ChangeKind::Equal,
    ensures
        rows_from(ops, i, seq![], seq![]) == ops.subrange(i, ops.len() as int).map_values(
            |c: ChangeV| equal_row(c.1),
        ),
    decreases ops.len() - i,
{
    assert(hunk_rows(seq![], seq![]) == Seq::<RowV>::empty());
    if i < ops.len() {
        lemma_rows_all_equal(ops, i + 1);
        assert(ops.subrange(i, ops.len() as int).map_values(|c: ChangeV| equal_row(c.1)) =~= seq![
            equal_row(ops[i].1),
        ] + ops.subrange(i + 1, ops.len() as int).map_values(|c: ChangeV| equal_row(c.1)));
        assert(Seq::<RowV>::empty() + seq![equal_row(ops[i].1)] =~= seq![equal_row(ops[i].1)]);
    } else {
        assert(ops.subrange(i, ops.len() as int).map_values(|c: ChangeV| equal_row(c.1)) =~= seq![]);
    }
}

/// A line without its line ending ("\n", "\r\n" or a final "\r").
pub fn trim_line(s: &str) -> (r: String)
    ensures
        r@ == trim_line_spec(s@),
{
    let cs = chars_of(s);
    let n = cs.len();
    let a_len = if n > 0 && cs[n - 1] == '\n' {
        n - 1
    } else {
        n
    };
    proof {
        assert(cs@.subrange(0, n as int) =~= s@);
        assert(cs@.subrange(0, n - 1) =~= s@.drop_last());
    }
    if a_len > 0 && cs[a_len - 1] == '\r' {
        proof {
            assert(cs@.subrange(0, a_len - 1) =~= cs@.subrange(0, a_len as int).drop_last());
        }
        string_of(&cs, 0, a_len - 1)
    } else {
        string_of(&cs, 0, a_len)
    }
}

fn segment(tag: &str, text: String) -> (r: DiffSegment)
    ensures
        seg_v(r) == (tag@, text@),
{
    DiffSegment { tag: owned(tag), text }
}

fn row(kind: &str, segments: Vec<DiffSegment>) -> (r: DiffRow)
    ensures
        row_v(r) == (kind@, segs_v(segments@)),
{
    DiffRow { kind: owned(kind), segments }
}

/// Word-level diff of a paired (old line, new line): the segments of the
/// removed side and of the added side. Common words are "ctx" on both
/// sides; changed words are "del" / "add".
pub fn paired_word_diff(old: &str, new: &str) -> (r: (Vec<DiffSegment>, Vec<DiffSegment>))
    ensures
        segs_v(r.0@) == old_segs(word_diff(old@, new@)),
        segs_v(r.1@) == new_segs(word_diff(old@, new@)),
        seg_texts(segs_v(r.0@)) == old@,
        seg_texts(segs_v(r.1@)) == new@,
{
    let wd = word_changes(old, new);
    let ghost ch = changes_view(wd@);
    let mut old_segs_v: Vec<DiffSegment> = Vec::new();
    let mut new_segs_v: Vec<DiffSegment> = Vec::new();
    let mut i: usize = 0;
    while i < wd.len()
        invariant
            ch == changes_view(wd@),
            ch == word_diff(old@, new@),
            i <= wd@.len(),
            segs_v(old_segs_v@) == old_segs(ch.take(i as int)),
            segs_v(new_segs_v@) == new_segs(ch.take(i as int)),
        decreases wd@.len() - i,
    {
        let c = &wd[i];
        let text = c.value.clone();
        proof {
            assert(ch.take(i + 1).drop_last() =~= ch.take(i as int));
        }
        match c.tag {
            ChangeKind::Equal => {
                old_segs_v.push(segment("ctx", text.clone()));
                new_segs_v.push(segment("ctx", text));
            },
            ChangeKind::Delete => {
                old_segs_v.push(segment("del", text));
            },
            ChangeKind::Insert => {
                new_segs_v.push(segment("add", text));
            },
        }
        proof {
            assert(segs_v(old_segs_v@) =~= old_segs(ch.take(i + 1)));
            assert(segs_v(new_segs_v@) =~= new_segs(ch.take(i + 1)));
        }
        i = i + 1;
    }
    assert(ch.take(wd@.len() as int) =~= ch);
    proof {
        lemma_segs_spell(ch);
    }
    (old_segs_v, new_segs_v)
}

pub open spec fn strings_v(s: Seq<String>) -> Seq<Seq<char>> {
    s.map_values(|x: String| x@)
}

/// Appends the rows of the hunk (`dels`, `ins`) to `rows`.
fn push_hunk(rows: &mut Vec<DiffRow>, dels: &Vec<String>, ins: &Vec<String>)
    ensures
        rows_v(final(rows)@) == rows_v(old(rows)@) + hunk_rows(strings_v(dels@), strings_v(ins@)),
        shown(rows_v(final(rows)@), "added"@) == shown(rows_v(old(rows)@), "added"@) + trimmed_lines(
            strings_v(dels@),
        ),
        shown(rows_v(final(rows)@), "removed"@) == shown(rows_v(old(rows)@), "removed"@) + trimmed_lines(
            strings_v(ins@),
        ),
{
    let ghost dv = strings_v(dels@);
    let ghost iv = strings_v(ins@);
    let ghost start = rows_v(rows@);
    let mut a: usize = 0;
    let mut b: usize = 0;
    proof {
        assert(dv.skip(0) =~= dv);
        assert(iv.skip(0) =~= iv);
        lemma_kinds_differ();
        assert(shown(start, "added"@) + trimmed_lines(dv.take(0)) =~= shown(start, "added"@));
        assert(shown(start, "removed"@) + trimmed_lines(iv.take(0)) =~= shown(start, "removed"@));
    }
    while a < dels.len() || b < ins.len()
        invariant
            dv == strings_v(dels@),
            iv == strings_v(ins@),
            a <= dels@.len(),
            b <= ins@.len(),
            start + hunk_rows(dv, iv) == rows_v(rows@) + hunk_rows(
                dv.skip(a as int),
                iv.skip(b as int),
            ),
            shown(rows_v(rows@), "added"@) == shown(start, "added"@) + trimmed_lines(dv.take(a as int)),
            shown(rows_v(rows@), "removed"@) == shown(start, "removed"@) + trimmed_lines(
                iv.take(b as int),
            ),
            "removed"@ != "added"@,
        decreases dels@.len() + ins@.len() - a - b,
    {
        let ghost before = rows_v(rows@);
        let ghost ds = dv.skip(a as int);
        let ghost is = iv.skip(b as int);
        if a < dels.len() && b < ins.len() {
            let d = trim_line(dels[a].as_str());
            let n = trim_line(ins[b].as_str());
            let (o, w) = paired_word_diff(d.as_str(), n.as_str());
            rows.push(row("removed", o));
            rows.push(row("added", w));
            proof {
                assert(ds.drop_first() =~= dv.skip(a + 1));
                assert(is.drop_first() =~= iv.skip(b + 1));
                assert(rows_v(rows@) =~= before + seq![
                    paired_removed_row(ds[0], is[0]),
                    paired_added_row(ds[0], is[0]),
                ]);
                let x = paired_removed_row(ds[0], is[0]);
                let y = paired_added_row(ds[0], is[0]);
                assert(rows_v(rows@) =~= before.push(x).push(y));
                lemma_shown_push(before, x, "added"@);
                lemma_shown_push(before.push(x), y, "added"@);
                lemma_shown_push(before, x, "removed"@);
                lemma_shown_push(before.push(x), y, "removed"@);
                assert(dv.take(a + 1) =~= dv.take(a as int).push(ds[0]));
                assert(iv.take(b + 1) =~= iv.take(b as int).push(is[0]));
                lemma_trimmed_lines_push(dv.take(a as int), ds[0]);
                lemma_trimmed_lines_push(iv.take(b as int), is[0]);
            }
            a = a + 1;
            b = b + 1;
        } else if a < dels.len() {
            let d = trim_line(dels[a].as_str());
            let mut segs = Vec::new();
            segs.push(segment("del", d));
            rows.push(row("removed", segs));
            proof {
                assert(ds.drop_first() =~= dv.skip(a + 1));
                assert(segs_v(segs@) =~= seq![("del"@, trim_line_spec(ds[0]))]);
                assert(rows_v(rows@) =~= before + seq![removed_row(ds[0])]);
                assert(rows_v(rows@) =~= before.push(removed_row(ds[0])));
                lemma_shown_push(before, removed_row(ds[0]), "added"@);
                lemma_shown_push(before, removed_row(ds[0]), "removed"@);
                lemma_seg_texts_one(("del"@, trim_line_spec(ds[0])));
                assert(dv.take(a + 1) =~= dv.take(a as int).push(ds[0]));
                lemma_trimmed_lines_push(dv.take(a as int), ds[0]);
            }
            a = a + 1;
        } else {
            let n = trim_line(ins[b].as_str());
            let mut segs = Vec::new();
            segs.push(segment("add", n));
            rows.push(row("added", segs));
            proof {
                assert(is.drop_first() =~= iv.skip(b + 1));
                assert(segs_v(segs@) =~= seq![("add"@, trim_line_spec(is[0]))]);
                assert(rows_v(rows@) =~= before + seq![added_row(is[0])]);
                assert(rows_v(rows@) =~= before.push(added_row(is[0])));
                lemma_shown_push(before, added_row(is[0]), "added"@);
                lemma_shown_push(before, added_row(is[0]), "removed"@);
                lemma_seg_texts_one(("add"@, trim_line_spec(is[0])));
                assert(iv.take(b + 1) =~= iv.take(b as int).push(is[0]));
                lemma_trimmed_lines_push(iv.take(b as int), is[0]);
            }
            b = b + 1;
        }
        proof {
            assert(start + hunk_rows(dv, iv) =~= rows_v(rows@) + hunk_rows(
                dv.skip(a as int),
                iv.skip(b as int),
            ));
        }
    }
    proof {
        assert(dv.skip(a as int) =~= seq![]);
        assert(iv.skip(b as int) =~= seq![]);
        assert(rows_v(rows@) =~= start + hunk_rows(dv, iv));
        assert(dv.take(a as int) =~= dv);
        assert(iv.take(b as int) =~= iv);
    }
}

/// Lays out the rows of a line diff (see `rows_of`).
pub fn rows_of_changes(ops: &Vec<TextChange>) -> (r: Vec<DiffRow>)
    ensures
        rows_v(r@) == rows_of(changes_view(ops@)),
        shown(rows_v(r@), "added"@) == trimmed_lines(old_tokens(changes_view(ops@))),
        shown(rows_v(r@), "removed"@) == trimmed_lines(new_tokens(changes_view(ops@))),
{
    let ghost ov = changes_view(ops@);
    let mut rows: Vec<DiffRow> = Vec::new();
    let mut dels: Vec<String> = Vec::new();
    let mut ins: Vec<String> = Vec::new();
    let mut i: usize = 0;
    proof {
        assert(strings_v(dels@) =~= seq![]);
        assert(strings_v(ins@) =~= seq![]);
        assert(rows_v(rows@) =~= seq![]);
        assert(rows_of(ov) =~= rows_v(rows@) + rows_from(ov, 0, seq![], seq![]));
        assert(ov.take(0) =~= seq![]);
        assert(shown(rows_v(rows@), "added"@) + trimmed_lines(strings_v(dels@)) =~= trimmed_lines(
            old_tokens(ov.take(0)),
        ));
        assert(shown(rows_v(rows@), "removed"@) + trimmed_lines(strings_v(ins@)) =~= trimmed_lines(
            new_tokens(ov.take(0)),
        ));
        lemma_kinds_differ();
    }
    while i < ops.len()
        invariant
            ov == changes_view(ops@),
            i <= ops@.len(),
            rows_of(ov) == rows_v(rows@) + rows_from(ov, i as int, strings_v(dels@), strings_v(ins@)),
            shown(rows_v(rows@), "added"@) + trimmed_lines(strings_v(dels@)) == trimmed_lines(
                old_tokens(ov.take(i as int)),
            ),
            shown(rows_v(rows@), "removed"@) + trimmed_lines(strings_v(ins@)) == trimmed_lines(
                new_tokens(ov.take(i as int)),
            ),
            "equal"@ != "added"@,
            "equal"@ != "removed"@,
        decreases ops@.len() - i,
    {
        let ghost before = rows_v(rows@);
        let ghost dv = strings_v(dels@);
        let ghost iv = strings_v(ins@);
        let op = &ops[i];
        proof {
            lemma_tokens_take(ov, i as int);
            lemma_trimmed_lines_push(old_tokens(ov.take(i as int)), ov[i as int].1);
            lemma_trimmed_lines_push(new_tokens(ov.take(i as int)), ov[i as int].1);
        }
        match op.tag {
            ChangeKind::Equal => {
                push_hunk(&mut rows, &dels, &ins);
                let ghost mid = rows_v(rows@);
                dels = Vec::new();
                ins = Vec::new();
                let t = trim_line(op.value.as_str());
                let mut segs = Vec::new();
                segs.push(segment("ctx", t));
                rows.push(row("equal", segs));
                proof {
                    assert(segs_v(segs@) =~= seq![("ctx"@, trim_line_spec(ov[i as int].1))]);
                    assert(strings_v(dels@) =~= seq![]);
                    assert(strings_v(ins@) =~= seq![]);
                    assert(rows_v(rows@) =~= before + hunk_rows(dv, iv) + seq![
                        equal_row(ov[i as int].1),
                    ]);
                    assert(rows_v(rows@) =~= mid.push(equal_row(ov[i as int].1)));
                    lemma_shown_push(mid, equal_row(ov[i as int].1), "added"@);
                    lemma_shown_push(mid, equal_row(ov[i as int].1), "removed"@);
                    lemma_seg_texts_one(("ctx"@, trim_line_spec(ov[i as int].1)));
                    assert(trimmed_lines(strings_v(dels@)) =~= seq![]);
                    assert(trimmed_lines(strings_v(ins@)) =~= seq![]);
                    assert(shown(rows_v(rows@), "added"@) + trimmed_lines(strings_v(dels@)) =~= trimmed_lines(
                        old_tokens(ov.take(i + 1)),
                    ));
                    assert(shown(rows_v(rows@), "removed"@) + trimmed_lines(strings_v(ins@)) =~= trimmed_lines(
                        new_tokens(ov.take(i + 1)),
                    ));
                }
            },
            ChangeKind::Delete => {
                dels.push(op.value.clone());
                proof {
                    assert(strings_v(dels@) =~= dv.push(ov[i as int].1));
                    lemma_trimmed_lines_push(dv, ov[i as int].1);
                    assert(shown(rows_v(rows@), "added"@) + trimmed_lines(strings_v(dels@)) =~= trimmed_lines(
                        old_tokens(ov.take(i + 1)),
                    ));
                }
            },
            ChangeKind::Insert => {
                ins.push(op.value.clone());
                proof {
                    assert(strings_v(ins@) =~= iv.push(ov[i as int].1));
                    lemma_trimmed_lines_push(iv, ov[i as int].1);
                    assert(shown(rows_v(rows@), "removed"@) + trimmed_lines(strings_v(ins@)) =~= trimmed_lines(
                        new_tokens(ov.take(i + 1)),
                    ));
                }
            },
        }
        i = i + 1;
    }
    push_hunk(&mut rows, &dels, &ins);
    proof {
        assert(ov.take(ops@.len() as int) =~= ov);
    }
    rows
}

/// GitHub-style structured diff of two texts: one row per line; a changed
/// line pair gets word segments so only the edited words are flagged.
///
/// Nothing is lost: the equal and removed rows show the lines of the old
/// text in order, the equal and added rows the lines of the new one, each
/// without its line ending. Two equal texts give one "equal" row per line.
pub fn rich_diff(old: &str, new: &str) -> (r: Vec<DiffRow>)
    ensures
        old@ == new@ ==> rows_v(r@) == line_tokens(old@).map_values(
            |t: Seq<char>| equal_row(t),
        ),
        rows_v(r@) == rich_diff_spec(old@, new@),
        shown(rows_v(r@), "added"@) == trimmed_lines(line_tokens(old@)),
        shown(rows_v(r@), "removed"@) == trimmed_lines(line_tokens(new@)),
{
    let ops = line_changes(old, new);
    proof {
        let ov = changes_view(ops@);
        if old@ == new@ {
            assert forall|k: int| 0 <= k < ov.len() implies (#[trigger] ov[k]).0
                == ChangeKind::Equal by {
                assert(ops@[k].tag == ChangeKind::Equal);
            }
            lemma_rows_all_equal(ov, 0);
            lemma_old_tokens_all_equal(ov);
            assert(ov.subrange(0, ov.len() as int) =~= ov);
        }
    }
    rows_of_changes(&ops)
}

// ---------- plain rendering ----------
/// The leading character of a rendered row.
pub open spec fn row_prefix(kind: Seq<char>) -> char {
    if kind == "removed"@ {
        '-'
    } else if kind == "added"@ {
        '+'
    } else {
        ' '
    }
}

/// The texts of the segments, concatenated.
pub open spec fn seg_texts(segs: Seq<SegV>) -> Seq<char>
    decreases segs.len(),
{
    if segs.len() == 0 {
        seq![]
    } else {
        seg_texts(segs.drop_last()) + segs.last().1
    }
}

/// Each row as its prefix ('-', '+' or ' '), its text, and a newline.
pub open spec fn render_rows(rows: Seq<RowV>) -> Seq<char>
    decreases rows.len(),
{
    if rows.len() == 0 {
        seq![]
    } else {
        render_rows(rows.drop_last()) + seq![row_prefix(rows.last().0)] + seg_texts(rows.last().1)
            + seq!['\n']
    }
}

/// The prefix of a row kind.
fn prefix_of(kind: &str) -> (c: char)
    ensures
        c == row_prefix(kind@),
{
    if str_eq(kind, "removed") {
        '-'
    } else if str_eq(kind, "added") {
        '+'
    } else {
        ' '
    }
}

/// Appends the texts of `segs` to `out`.
fn push_seg_texts(out: &mut String, segs: &Vec<DiffSegment>)
    ensures
        final(out)@ == old(out)@ + seg_texts(segs_v(segs@)),
{
    let ghost sv = segs_v(segs@);
    let ghost start = out@;
    let mut i: usize = 0;
    while i < segs.len()
        invariant
            sv == segs_v(segs@),
            i <= segs@.len(),
            out@ == start + seg_texts(sv.take(i as int)),
        decreases segs@.len() - i,
    {
        out.append(segs[i].text.as_str());
        proof {
            assert(sv.take(i + 1).drop_last() =~= sv.take(i as int));
        }
        i = i + 1;
    }
    assert(sv.take(segs@.len() as int) =~= sv);
}

/// Flattens structured rows back to a plain unified diff.
pub fn render_diff_plain(rows: &[DiffRow]) -> (r: String)
    ensures
        r@ == render_rows(rows_v(rows@)),
{
    let ghost rv = rows_v(rows@);
    let mut out = String::new();
    let mut i: usize = 0;
    while i < rows.len()
        invariant
            rv == rows_v(rows@),
            i <= rows@.len(),
            out@ == render_rows(rv.take(i as int)),
        decreases rows@.len() - i,
    {
        let r = &rows[i];
        push_char(&mut out, prefix_of(r.kind.as_str()));
        push_seg_texts(&mut out, &r.segments);
        push_char(&mut out, '\n');
        proof {
            assert(rv.take(i + 1).drop_last() =~= rv.take(i as int));
        }
        i = i + 1;
    }
    assert(rv.take(rows@.len() as int) =~= rv);
    out
}

/// Plain unified-diff text of two texts.
pub fn unified_diff(old: &str, new: &str) -> (r: String)
    ensures
        r@ == render_rows(rich_diff_spec(old@, new@)),
{
    let rows = rich_diff(old, new);
    render_diff_plain(rows.as_slice())
}

// ---------- sentence-level diff ----------
/// Whether `c` ends a sentence.
pub open spec fn is_terminator(c: char) -> bool {
    c == '.' || c == '!' || c == '?'
}

/// Sentence splitting after reading `i` characters: the finished sentences,
/// the sentence being read, and where the reader stands in it (0: inside
/// the sentence; 1: just after '.', '!' or '?'; 2: in the white space after
/// such punctuation). A sentence keeps its punctuation and the white space
/// after it; the next one starts at the first character that is not white
/// space.
pub open spec fn sentence_state(s: Seq<char>, i: nat) -> (Seq<Seq<char>>, Seq<char>, int)
    decreases i,
{
    if i == 0 {
        (seq![], seq![], 0)
    } else {
        let (done, cur, at) = sentence_state(s, (i - 1) as nat);
        let c = s[i - 1];
        let next_at = if is_terminator(c) {
            1int
        } else if is_white_space(c) && at != 0 {
            2int
        } else {
            0int
        };
        if at == 2 && !is_white_space(c) {
            (done.push(cur), seq![c], next_at)
        } else {
            (done, cur.push(c), next_at)
        }
    }
}

/// The sentences of `s`.
pub open spec fn sentences(s: Seq<char>) -> Seq<Seq<char>> {
    let (done, cur, _) = sentence_state(s, s.len());
    if cur.len() > 0 {
        done.push(cur)
    } else {
        done
    }
}

/// Splits `text` into sentences, each keeping its trailing punctuation and
/// the white space after it.
pub fn split_sentences(text: &str) -> (r: Vec<String>)
    ensures
        strings_v(r@) == sentences(text@),
{
    let cs = chars_of(text);
    let mut result: Vec<String> = Vec::new();
    let mut current = String::new();
    let mut at: u8 = 0;
    let mut i: usize = 0;
    while i < cs.len()
        invariant
            cs@ == text@,
            i <= cs@.len(),
            strings_v(result@) == sentence_state(text@, i as nat).0,
            current@ == sentence_state(text@, i as nat).1,
            at as int == sentence_state(text@, i as nat).2,
        decreases cs@.len() - i,
    {
        let c = cs[i];
        let white = is_white_space_char(c);
        if at == 2 && !white {
            let done = current;
            result.push(done);
            current = String::new();
        }
        push_char(&mut current, c);
        at = if c == '.' || c == '!' || c == '?' {
            1
        } else if white && at != 0 {
            2
        } else {
            0
        };
        proof {
            assert(strings_v(result@) =~= sentence_state(text@, (i + 1) as nat).0);
            assert(current@ =~= sentence_state(text@, (i + 1) as nat).1);
        }
        i = i + 1;
    }
    if current.unicode_len() > 0 {
        result.push(current);
    }
    proof {
        assert(strings_v(result@) =~= sentences(text@));
    }
    result
}

/// The text a sentence diff compares: the sentences, one per line.
pub open spec fn sentence_lines(s: Seq<char>) -> Seq<char> {
    join(sentences(s), seq!['\n'])
}

/// Sentence-level diff: the same rows as `rich_diff`, over the texts with
/// one sentence per line.
pub fn rich_diff_sentences(old: &str, new: &str) -> (r: Vec<DiffRow>)
    ensures
        rows_v(r@) == rich_diff_spec(sentence_lines(old@), sentence_lines(new@)),
        shown(rows_v(r@), "added"@) == trimmed_lines(line_tokens(sentence_lines(old@))),
        shown(rows_v(r@), "removed"@) == trimmed_lines(line_tokens(sentence_lines(new@))),
{
    let o = split_sentences(old);
    let n = split_sentences(new);
    let os = join_strings(&o, "\n");
    let ns = join_strings(&n, "\n");
    proof {
        reveal_strlit("\n");
        assert("\n"@ =~= seq!['\n']);
    }
    rich_diff(os.as_str(), ns.as_str())
}

/// The rows for the desktop diff view: sentence rows when `mode` is
/// "sentences", line rows otherwise.
pub fn compute_diff(old: &str, new: &str, mode: Option<&str>) -> (r: Vec<DiffRow>)
    ensures
        rows_v(r@) == (if mode is Some && mode->0@ == "sentences"@ {
            rich_diff_spec(sentence_lines(old@), sentence_lines(new@))
        } else {
            rich_diff_spec(old@, new@)
        }),
{
    let sentence_mode = match mode {
        Some(m) => str_eq(m, "sentences"),
        None => false,
    };
    if sentence_mode {
        rich_diff_sentences(old, new)
    } else {
        rich_diff(old, new)
    }
}

} // verus!

verus! {

/// A copy of a segment list.
pub fn clone_segments(s: &Vec<DiffSegment>) -> (r: Vec<DiffSegment>)
    ensures
        segs_v(r@) == segs_v(s@),
{
    let mut r: Vec<DiffSegment> = Vec::new();
    let mut i: usize = 0;
    while i < s.len()
        invariant
            i <= s@.len(),
            r@.len() == i,
            forall|k: int| 0 <= k < i ==> seg_v(#[trigger] r@[k]) == seg_v(s@[k]),
        decreases s@.len() - i,
    {
        let seg = DiffSegment { tag: s[i].tag.clone(), text: s[i].text.clone() };
        r.push(seg);
        i = i + 1;
    }
    assert(segs_v(r@) =~= segs_v(s@));
    r
}

/// A copy of a row list.
pub fn clone_rows(s: &Vec<DiffRow>) -> (r: Vec<DiffRow>)
    ensures
        rows_v(r@) == rows_v(s@),
{
    let mut r: Vec<DiffRow> = Vec::new();
    let mut i: usize = 0;
    while i < s.len()
        invariant
            i <= s@.len(),
            r@.len() == i,
            forall|k: int| 0 <= k < i ==> row_v(#[trigger] r@[k]) == row_v(s@[k]),
        decreases s@.len() - i,
    {
        let rw = DiffRow { kind: s[i].kind.clone(), segments: clone_segments(&s[i].segments) };
        r.push(rw);
        i = i + 1;
    }
    assert(rows_v(r@) =~= rows_v(s@));
    r
}

} // verus!
