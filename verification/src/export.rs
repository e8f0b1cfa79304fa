//! The whole library (lessons, then pairs with their diffs) as one markdown
//! document.
use vstd::prelude::*;

use crate::diff::{render_diff_plain, render_rows, rich_diff, rich_diff_spec};
use crate::pairs::{
    all_pairs_asc, all_pairs_asc_spec, lesson_outs_v, lessons, lessons_spec, pair_outs_v, Lesson,
    LessonOut, Pair, PairOut,
};
use crate::prompt::{nl_end, push_nl_end};
use crate::store::{Store, StoreV};
use crate::tags::strs_v;
use crate::text::{decimal, i64_to_string, join, join_strings, push_char, push_str};

verus! {

/// One lesson's line: id, source pair (or a dash), tags, text and date.
pub open spec fn lesson_md(l: LessonOut) -> Seq<char> {
    "- **L"@ + decimal(l.id as int) + "** (pair #"@ + (match l.pair_id {
        Some(p) => decimal(p as int),
        None => "\u{2014}"@,
    }) + ") "@ + join(l.tags, ","@) + ": "@ + l.lesson + "  _"@ + l.created_at + "_\n"@
}

pub open spec fn lessons_md(ls: Seq<LessonOut>) -> Seq<char>
    decreases ls.len(),
{
    if ls.len() == 0 {
        seq![]
    } else {
        lessons_md(ls.drop_last()) + lesson_md(ls.last())
    }
}

/// One pair's section: heading, context and tags when present, the draft,
/// the final and their diff, each in a fenced block.
pub open spec fn pair_md(p: PairOut) -> Seq<char> {
    "### Pair #"@ + decimal(p.id as int) + " \u{2014} "@ + p.created_at + "\n"@ + (match p.context {
        Some(c) => "context: "@ + c + "\n"@,
        None => seq![],
    }) + (if p.tags.len() > 0 {
        "tags: "@ + join(p.tags, ", "@) + "\n"@
    } else {
        seq![]
    }) + "\n#### Draft\n```\n"@ + nl_end(p.draft) + "```\n#### Final\n```\n"@ + nl_end(p.final_)
        + "```\n#### Diff\n```diff\n"@ + nl_end(render_rows(rich_diff_spec(p.draft, p.final_)))
        + "```\n\n"@
}

pub open spec fn pairs_md(ps: Seq<PairOut>) -> Seq<char>
    decreases ps.len(),
{
    if ps.len() == 0 {
        seq![]
    } else {
        pairs_md(ps.drop_last()) + pair_md(ps.last())
    }
}

/// The exported document: every lesson (newest first, or a note that
/// there are none), then every pair (oldest first).
pub open spec fn export_spec(s: StoreV) -> Seq<char> {
    let ls = lessons_spec(s, seq![]);
    "# Voice Lessons (exported)\n\n"@ + "## Lessons\n\n"@ + (if ls.len() == 0 {
        "_(none yet)_\n\n"@
    } else {
        seq![]
    }) + lessons_md(ls) + "\n## Pairs\n\n"@ + pairs_md(all_pairs_asc_spec(s))
}

fn lesson_line(l: &Lesson) -> (r: String)
    ensures
        r@ == lesson_md(crate::pairs::lesson_out_v(*l)),
{
    let mut m = String::new();
    push_str(&mut m, "- **L");
    push_str(&mut m, i64_to_string(l.id).as_str());
    push_str(&mut m, "** (pair #");
    match l.pair_id {
        Some(p) => push_str(&mut m, i64_to_string(p).as_str()),
        None => push_str(&mut m, "\u{2014}"),
    }
    push_str(&mut m, ") ");
    let tags = join_strings(&l.tags, ",");
    push_str(&mut m, tags.as_str());
    push_str(&mut m, ": ");
    push_str(&mut m, l.lesson.as_str());
    push_str(&mut m, "  _");
    push_str(&mut m, l.created_at.as_str());
    push_str(&mut m, "_\n");
    proof {
        assert(l.tags@.map_values(|x: String| x@) =~= strs_v(l.tags@));
        assert(m@ =~= lesson_md(crate::pairs::lesson_out_v(*l)));
    }
    m
}

fn pair_section(p: &Pair) -> (r: String)
    ensures
        r@ == pair_md(crate::pairs::pair_out_v(*p)),
{
    let ghost po = crate::pairs::pair_out_v(*p);
    let mut m = String::new();
    push_str(&mut m, "### Pair #");
    push_str(&mut m, i64_to_string(p.id).as_str());
    push_str(&mut m, " \u{2014} ");
    push_str(&mut m, p.created_at.as_str());
    push_str(&mut m, "\n");
    if let Some(c) = &p.context {
        push_str(&mut m, "context: ");
        push_str(&mut m, c.as_str());
        push_str(&mut m, "\n");
    }
    let ghost m1 = m@;
    if p.tags.len() > 0 {
        push_str(&mut m, "tags: ");
        let j = join_strings(&p.tags, ", ");
        push_str(&mut m, j.as_str());
        push_str(&mut m, "\n");
        proof {
            assert(p.tags@.map_values(|x: String| x@) =~= strs_v(p.tags@));
        }
    }
    proof {
        assert(po.tags.len() == p.tags@.len());
    }
    let ghost m2 = m@;
    push_str(&mut m, "\n#### Draft\n```\n");
    push_nl_end(&mut m, p.draft.as_str());
    push_str(&mut m, "```\n#### Final\n```\n");
    push_nl_end(&mut m, p.final_.as_str());
    push_str(&mut m, "```\n#### Diff\n```diff\n");
    let rows = rich_diff(p.draft.as_str(), p.final_.as_str());
    let plain = render_diff_plain(rows.as_slice());
    push_nl_end(&mut m, plain.as_str());
    push_str(&mut m, "```\n\n");
    proof {
        assert(m@ =~= pair_md(po));
    }
    m
}

/// Dumps every lesson (newest first) and every pair (oldest first, with
/// draft, final and diff) as one markdown document.
pub fn export_md(store: &Store) -> (r: String)
    ensures
        r@ == export_spec(store@),
{
    let ps = all_pairs_asc(store);
    let ls = lessons(store, &[]);
    proof {
        assert(strs_v(Seq::<String>::empty()) =~= Seq::<Seq<char>>::empty());
    }
    let ghost lv = lesson_outs_v(ls@);
    let ghost pv = pair_outs_v(ps@);
    let mut md = String::new();
    push_str(&mut md, "# Voice Lessons (exported)\n\n");
    push_str(&mut md, "## Lessons\n\n");
    if ls.len() == 0 {
        push_str(&mut md, "_(none yet)_\n\n");
    }
    let ghost m0 = md@;
    let mut i: usize = 0;
    while i < ls.len()
        invariant
            lv == lesson_outs_v(ls@),
            lv.len() == ls@.len(),
            i <= ls@.len(),
            md@ == m0 + lessons_md(lv.take(i as int)),
        decreases ls@.len() - i,
    {
        let line = lesson_line(&ls[i]);
        push_str(&mut md, line.as_str());
        proof {
            crate::seqs::lemma_take_succ(lv, i as int);
            assert(md@ =~= m0 + lessons_md(lv.take(i + 1)));
        }
        i = i + 1;
    }
    proof {
        crate::seqs::lemma_take_all(lv);
    }
    push_str(&mut md, "\n## Pairs\n\n");
    let ghost m1 = md@;
    let mut j: usize = 0;
    while j < ps.len()
        invariant
            pv == pair_outs_v(ps@),
            pv.len() == ps@.len(),
            j <= ps@.len(),
            md@ == m1 + pairs_md(pv.take(j as int)),
        decreases ps@.len() - j,
    {
        let sec = pair_section(&ps[j]);
        push_str(&mut md, sec.as_str());
        proof {
            crate::seqs::lemma_take_succ(pv, j as int);
            assert(md@ =~= m1 + pairs_md(pv.take(j + 1)));
        }
        j = j + 1;
    }
    proof {
        crate::seqs::lemma_take_all(pv);
        assert(md@ =~= export_spec(store@));
    }
    md
}

} // verus!
