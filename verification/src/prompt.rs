//! The texts a lesson-deriving model is given: the system prompt, and a
//! message describing one pair, its diff analysis, the lessons already
//! stored and, when there is one, the agent conversation behind the draft.
use vstd::prelude::*;

use crate::analysis::{analysis_v, analyze_diff, analyze_spec, AnalysisV, CatV, CategorizedChange, DiffAnalysis, cats_v, strs_of, swaps_v};
use crate::pairs::{lesson_outs_v, lessons, lessons_spec, pair_out_v, show_pair, show_pair_spec, Lesson, LessonOut, PairOut};
use crate::store::{LearnError, Store, StoreV};
use crate::tags::strs_v;
use crate::text::{join, join_strings, owned, push_char, push_str};

verus! {

/// The system prompt for lesson derivation.
pub open spec fn system_prompt_text() -> Seq<char> {
    "You are a writing voice analyzer for redline, a system that learns how \
     a user writes by studying their edits.\n\
     \nYou will be given a draft that an AI assistant wrote, the final version \
     after the user edited it, and a structured diff analysis showing what \
     changed.\n\
     \nYour task: derive concrete, specific voice lessons from the edits. \
     Focus on:\n\
     - Deletions (what got cut \u{2014} strongest signal)\n\
     - Word swaps (specific before\u{2192}after replacements)\n\
     - Categorized changes (structural, stylistic, factual, punctuation)\n\
     \nUse the provided tools to store each lesson and create lint patterns.\n\
     A good lesson is specific and actionable:\n\
     \u{2705} \"Use 'Quick note' instead of 'I wanted to reach out'\"\n\
     \u{2705} \"No em-dashes \u{2014} use periods\"\n\
     \u{274c} \"Be clear and concise\" (too generic)\n\
     \nStore 1-3 lessons per pair. Always create a pattern alongside each \
     lesson \u{2014} patterns are what the lint engine uses to catch issues in \
     future drafts. Don't store a lesson if you can't name what specifically \
     changed. Don't duplicate existing lessons."@
}

/// The system prompt for lesson derivation.
pub fn system_prompt() -> (r: String)
    ensures
        r@ == system_prompt_text(),
{
    owned(
        "You are a writing voice analyzer for redline, a system that learns how \
         a user writes by studying their edits.\n\
         \nYou will be given a draft that an AI assistant wrote, the final version \
         after the user edited it, and a structured diff analysis showing what \
         changed.\n\
         \nYour task: derive concrete, specific voice lessons from the edits. \
         Focus on:\n\
         - Deletions (what got cut \u{2014} strongest signal)\n\
         - Word swaps (specific before\u{2192}after replacements)\n\
         - Categorized changes (structural, stylistic, factual, punctuation)\n\
         \nUse the provided tools to store each lesson and create lint patterns.\n\
         A good lesson is specific and actionable:\n\
         \u{2705} \"Use 'Quick note' instead of 'I wanted to reach out'\"\n\
         \u{2705} \"No em-dashes \u{2014} use periods\"\n\
         \u{274c} \"Be clear and concise\" (too generic)\n\
         \nStore 1-3 lessons per pair. Always create a pattern alongside each \
         lesson \u{2014} patterns are what the lint engine uses to catch issues in \
         future drafts. Don't store a lesson if you can't name what specifically \
         changed. Don't duplicate existing lessons.",
    )
}

/// `t`, ending in a line feed (one is added when it does not).
pub open spec fn nl_end(t: Seq<char>) -> Seq<char> {
    if t.len() > 0 && t.last() == '\n' {
        t
    } else {
        t.push('\n')
    }
}

/// Each item as a line `- "item"`.
pub open spec fn quoted_lines(items: Seq<Seq<char>>) -> Seq<char>
    decreases items.len(),
{
    if items.len() == 0 {
        seq![]
    } else {
        quoted_lines(items.drop_last()) + "- \""@ + items.last() + "\"\n"@
    }
}

/// Each swap as a line `- "old" → "new"`.
pub open spec fn swap_lines(items: Seq<(Seq<char>, Seq<char>)>) -> Seq<char>
    decreases items.len(),
{
    if items.len() == 0 {
        seq![]
    } else {
        swap_lines(items.drop_last()) + "- \""@ + items.last().0 + "\" \u{2192} \""@
            + items.last().1 + "\"\n"@
    }
}

/// Each change as a line `- [category] description`.
pub open spec fn cat_lines(items: Seq<CatV>) -> Seq<char>
    decreases items.len(),
{
    if items.len() == 0 {
        seq![]
    } else {
        cat_lines(items.drop_last()) + "- ["@ + items.last().category + "] "@
            + items.last().description + "\n"@
    }
}

/// Each lesson as a line `- lesson`.
pub open spec fn lesson_lines(items: Seq<LessonOut>) -> Seq<char>
    decreases items.len(),
{
    if items.len() == 0 {
        seq![]
    } else {
        lesson_lines(items.drop_last()) + "- "@ + items.last().lesson + "\n"@
    }
}

/// The diff-analysis part of the message; a list is left out when empty.
pub open spec fn analysis_section(a: AnalysisV) -> Seq<char> {
    "\n## Diff Analysis:\n"@ + (if a.deletions.len() > 0 {
        "\n### Deletions:\n"@ + quoted_lines(a.deletions)
    } else {
        seq![]
    }) + (if a.word_swaps.len() > 0 {
        "\n### Word swaps:\n"@ + swap_lines(a.word_swaps)
    } else {
        seq![]
    }) + (if a.categorized.len() > 0 {
        "\n### Categorized changes:\n"@ + cat_lines(a.categorized)
    } else {
        seq![]
    })
}

/// The start of the message: context and tags when present, then the
/// draft and the final.
pub open spec fn head_text(p: PairOut) -> Seq<char> {
    (match p.context {
        Some(c) => "Context: "@ + c + "\n"@,
        None => seq![],
    }) + (if p.tags.len() > 0 {
        "Tags: "@ + join(p.tags, ", "@) + "\n"@
    } else {
        seq![]
    }) + "\n## Draft (AI wrote this):\n"@ + nl_end(p.draft) + "\n## Final (user edited to this):\n"@
        + nl_end(p.final_)
}

/// The existing lessons, when there are some.
pub open spec fn lessons_part(existing: Seq<LessonOut>) -> Seq<char> {
    if existing.len() > 0 {
        "\n## Existing lessons (don't duplicate):\n"@ + lesson_lines(existing)
    } else {
        seq![]
    }
}

/// The agent conversation, when there is one.
pub open spec fn transcript_part(transcript: Option<Seq<char>>) -> Seq<char> {
    match transcript {
        Some(t) => "\n## Agent context (conversation that produced the draft):\n"@ + nl_end(t)
            + "\nUse this context to understand WHY the draft was written this way.\n"@
            + "Edits may correct the agent's understanding (intent) or refine its execution (style).\n"@,
        None => seq![],
    }
}

/// The message for pair `p`: its head, the analysis when there is one, the
/// existing lessons when there are some, and the agent conversation when
/// there is one.
pub open spec fn message_text(
    p: PairOut,
    analysis: Option<AnalysisV>,
    existing: Seq<LessonOut>,
    transcript: Option<Seq<char>>,
) -> Seq<char> {
    head_text(p) + (match analysis {
        Some(a) => analysis_section(a),
        None => seq![],
    }) + lessons_part(existing) + transcript_part(transcript)
}

/// What `user_message` returns: no such pair is refused; otherwise the
/// message. `None` where the pair's analysis cannot be made.
pub open spec fn user_message_spec(s: StoreV, pair_id: i64, transcript: Option<Seq<char>>) -> Option<
    Result<Seq<char>, LearnError>,
> {
    match show_pair_spec(s, pair_id) {
        None => Some(Err(LearnError::NoRows)),
        Some(p) => match analyze_spec(s, pair_id) {
            None => None,
            Some(a) => Some(Ok(message_text(p, a, lessons_spec(s, seq![]), transcript))),
        },
    }
}

/// Appends `t` and a line feed when `t` does not end in one.
pub(crate) fn push_nl_end(m: &mut String, t: &str)
    ensures
        final(m)@ == old(m)@ + nl_end(t@),
{
    push_str(m, t);
    let n = t.unicode_len();
    let ends = n > 0 && t.get_char(n - 1) == '\n';
    if !ends {
        push_char(m, '\n');
    }
    proof {
        assert(final(m)@ =~= old(m)@ + nl_end(t@));
    }
}

fn push_quoted_lines(m: &mut String, items: &Vec<String>)
    ensures
        final(m)@ == old(m)@ + quoted_lines(strs_of(items@)),
{
    let ghost iv = strs_of(items@);
    let ghost m0 = m@;
    let mut i: usize = 0;
    while i < items.len()
        invariant
            iv == strs_of(items@),
            iv.len() == items@.len(),
            i <= items@.len(),
            m@ == m0 + quoted_lines(iv.take(i as int)),
        decreases items@.len() - i,
    {
        push_str(m, "- \"");
        push_str(m, items[i].as_str());
        push_str(m, "\"\n");
        proof {
            crate::seqs::lemma_take_succ(iv, i as int);
            assert(m@ =~= m0 + quoted_lines(iv.take(i + 1)));
        }
        i = i + 1;
    }
    proof {
        crate::seqs::lemma_take_all(iv);
    }
}

fn push_swap_lines(m: &mut String, items: &Vec<(String, String)>)
    ensures
        final(m)@ == old(m)@ + swap_lines(swaps_v(items@)),
{
    let ghost iv = swaps_v(items@);
    let ghost m0 = m@;
    let mut i: usize = 0;
    while i < items.len()
        invariant
            iv == swaps_v(items@),
            iv.len() == items@.len(),
            i <= items@.len(),
            m@ == m0 + swap_lines(iv.take(i as int)),
        decreases items@.len() - i,
    {
        push_str(m, "- \"");
        push_str(m, items[i].0.as_str());
        push_str(m, "\" \u{2192} \"");
        push_str(m, items[i].1.as_str());
        push_str(m, "\"\n");
        proof {
            crate::seqs::lemma_take_succ(iv, i as int);
            assert(m@ =~= m0 + swap_lines(iv.take(i + 1)));
        }
        i = i + 1;
    }
    proof {
        crate::seqs::lemma_take_all(iv);
    }
}

fn push_cat_lines(m: &mut String, items: &Vec<CategorizedChange>)
    ensures
        final(m)@ == old(m)@ + cat_lines(cats_v(items@)),
{
    let ghost iv = cats_v(items@);
    let ghost m0 = m@;
    let mut i: usize = 0;
    while i < items.len()
        invariant
            iv == cats_v(items@),
            iv.len() == items@.len(),
            i <= items@.len(),
            m@ == m0 + cat_lines(iv.take(i as int)),
        decreases items@.len() - i,
    {
        push_str(m, "- [");
        push_str(m, items[i].category.as_str());
        push_str(m, "] ");
        push_str(m, items[i].description.as_str());
        push_str(m, "\n");
        proof {
            crate::seqs::lemma_take_succ(iv, i as int);
            assert(m@ =~= m0 + cat_lines(iv.take(i + 1)));
        }
        i = i + 1;
    }
    proof {
        crate::seqs::lemma_take_all(iv);
    }
}

fn push_lesson_lines(m: &mut String, items: &Vec<Lesson>)
    ensures
        final(m)@ == old(m)@ + lesson_lines(lesson_outs_v(items@)),
{
    let ghost iv = lesson_outs_v(items@);
    let ghost m0 = m@;
    let mut i: usize = 0;
    while i < items.len()
        invariant
            iv == lesson_outs_v(items@),
            iv.len() == items@.len(),
            i <= items@.len(),
            m@ == m0 + lesson_lines(iv.take(i as int)),
        decreases items@.len() - i,
    {
        push_str(m, "- ");
        push_str(m, items[i].lesson.as_str());
        push_str(m, "\n");
        proof {
            crate::seqs::lemma_take_succ(iv, i as int);
            assert(m@ =~= m0 + lesson_lines(iv.take(i + 1)));
        }
        i = i + 1;
    }
    proof {
        crate::seqs::lemma_take_all(iv);
    }
}

fn push_analysis(m: &mut String, a: &DiffAnalysis)
    ensures
        final(m)@ == old(m)@ + analysis_section(analysis_v(*a)),
{
    let ghost m0 = m@;
    let ghost av = analysis_v(*a);
    push_str(m, "\n## Diff Analysis:\n");
    let ghost m1 = m@;
    if a.deletions.len() > 0 {
        push_str(m, "\n### Deletions:\n");
        push_quoted_lines(m, &a.deletions);
    }
    let ghost m2 = m@;
    if a.word_swaps.len() > 0 {
        push_str(m, "\n### Word swaps:\n");
        push_swap_lines(m, &a.word_swaps);
    }
    let ghost m3 = m@;
    if a.categorized.len() > 0 {
        push_str(m, "\n### Categorized changes:\n");
        push_cat_lines(m, &a.categorized);
    }
    proof {
        assert(av.deletions.len() == a.deletions@.len());
        assert(av.word_swaps.len() == a.word_swaps@.len());
        assert(av.categorized.len() == a.categorized@.len());
        assert(m@ =~= m0 + analysis_section(av));
    }
}

fn head_of(pair: &crate::pairs::Pair) -> (r: String)
    ensures
        r@ == head_text(pair_out_v(*pair)),
{
    let ghost po = pair_out_v(*pair);
    let mut m = String::new();
    if let Some(c) = &pair.context {
        push_str(&mut m, "Context: ");
        push_str(&mut m, c.as_str());
        push_str(&mut m, "\n");
    }
    let ghost m1 = m@;
    proof {
        assert(m1 =~= match po.context {
            Some(c) => "Context: "@ + c + "\n"@,
            None => seq![],
        });
    }
    if pair.tags.len() > 0 {
        push_str(&mut m, "Tags: ");
        let j = join_strings(&pair.tags, ", ");
        push_str(&mut m, j.as_str());
        push_str(&mut m, "\n");
        proof {
            assert(pair.tags@.map_values(|x: String| x@) =~= strs_v(pair.tags@));
        }
    }
    proof {
        assert(po.tags.len() == pair.tags@.len());
    }
    push_str(&mut m, "\n## Draft (AI wrote this):\n");
    push_nl_end(&mut m, pair.draft.as_str());
    push_str(&mut m, "\n## Final (user edited to this):\n");
    push_nl_end(&mut m, pair.final_.as_str());
    proof {
        assert(m@ =~= head_text(po));
    }
    m
}

fn push_lessons_part(m: &mut String, existing: &Vec<Lesson>)
    ensures
        final(m)@ == old(m)@ + lessons_part(lesson_outs_v(existing@)),
{
    proof {
        assert(lesson_outs_v(existing@).len() == existing@.len());
    }
    if existing.len() > 0 {
        push_str(m, "\n## Existing lessons (don't duplicate):\n");
        push_lesson_lines(m, existing);
    }
    proof {
        assert(final(m)@ =~= old(m)@ + lessons_part(lesson_outs_v(existing@)));
    }
}

fn push_transcript_part(m: &mut String, transcript: Option<&str>)
    ensures
        final(m)@ == old(m)@ + transcript_part(match transcript {
            Some(t) => Some(t@),
            None => None,
        }),
{
    if let Some(t) = transcript {
        push_str(m, "\n## Agent context (conversation that produced the draft):\n");
        push_nl_end(m, t);
        push_str(m, "\nUse this context to understand WHY the draft was written this way.\n");
        push_str(
            m,
            "Edits may correct the agent's understanding (intent) or refine its execution (style).\n",
        );
    }
    proof {
        assert(final(m)@ =~= old(m)@ + transcript_part(match transcript {
            Some(t) => Some(t@),
            None => None,
        }));
    }
}

/// The message for a pair, from its parts.
fn message_of(
    pair: &crate::pairs::Pair,
    analysis: &Option<DiffAnalysis>,
    existing: &Vec<Lesson>,
    transcript: Option<&str>,
) -> (r: String)
    ensures
        r@ == message_text(
            pair_out_v(*pair),
            match analysis {
                Some(a) => Some(analysis_v(*a)),
                None => None,
            },
            lesson_outs_v(existing@),
            match transcript {
                Some(t) => Some(t@),
                None => None,
            },
        ),
{
    let mut m = head_of(pair);
    let ghost m1 = m@;
    if let Some(a) = analysis {
        push_analysis(&mut m, a);
    }
    let ghost m2 = m@;
    push_lessons_part(&mut m, existing);
    push_transcript_part(&mut m, transcript);
    proof {
        assert(m@ =~= message_text(
            pair_out_v(*pair),
            match analysis {
                Some(a) => Some(analysis_v(*a)),
                None => None,
            },
            lesson_outs_v(existing@),
            match transcript {
                Some(t) => Some(t@),
                None => None,
            },
        ));
    }
    m
}

/// The message describing pair `pair_id` to the deriving model: context,
/// tags, draft, final, diff analysis, the lessons already stored (so they
/// are not repeated) and the agent conversation behind the draft when one
/// is given. Refused when there is no such pair.
pub fn user_message(store: &Store, pair_id: i64, transcript: Option<&str>) -> (r: Result<
    String,
    LearnError,
>)
    requires
        analyze_spec(store@, pair_id) is Some,
    ensures
        user_message_spec(store@, pair_id, match transcript {
            Some(t) => Some(t@),
            None => None,
        }) == Some(
            match r {
                Ok(m) => Ok::<Seq<char>, LearnError>(m@),
                Err(e) => Err::<Seq<char>, LearnError>(e),
            },
        ),
{
    let pair = match show_pair(store, pair_id) {
        None => {
            return Err(LearnError::NoRows);
        },
        Some(p) => p,
    };
    let analysis = analyze_diff(store, pair_id);
    let existing = lessons(store, &[]);
    proof {
        assert(strs_v(Seq::<String>::empty()) =~= Seq::<Seq<char>>::empty());
    }
    Ok(message_of(&pair, &analysis, &existing, transcript))
}

/// `user_message` where the pair's analysis can be made; `None` where a
/// change of the pair cannot be categorized.
pub fn try_user_message(store: &Store, pair_id: i64, transcript: Option<&str>) -> (r: Option<
    Result<String, LearnError>,
>)
    ensures
        match r {
            Some(x) => user_message_spec(store@, pair_id, match transcript {
                Some(t) => Some(t@),
                None => None,
            }) == Some(
                match x {
                    Ok(m) => Ok::<Seq<char>, LearnError>(m@),
                    Err(e) => Err::<Seq<char>, LearnError>(e),
                },
            ),
            None => analyze_spec(store@, pair_id) is None,
        },
{
    match crate::analysis::try_analyze_diff(store, pair_id) {
        None => None,
        Some(_) => Some(user_message(store, pair_id, transcript)),
    }
}

} // verus!
