//! Feedback entries that agents and people leave about the tool.
use vstd::prelude::*;

use crate::seqs::{lemma_take_all, lemma_take_succ};
use crate::store::{
    feedback_list_v, feedback_v, lemma_ids_push, now_iso, Feedback, FeedbackV, LearnError, Store,
    StoreV,
};
use crate::text::{clone_opt, opt_str_chars, owned, owned_opt};

verus! {

/// `s` with a feedback entry added, stamped `now`.
pub open spec fn with_feedback(
    s: StoreV,
    tool_name: Option<Seq<char>>,
    message: Seq<char>,
    severity: Seq<char>,
    rating: Option<i64>,
    agent_id: Option<Seq<char>>,
    now: Seq<char>,
) -> StoreV {
    StoreV {
        feedback: s.feedback.push(
            FeedbackV {
                id: s.next_feedback,
                tool_name,
                message,
                severity,
                rating,
                agent_id,
                created_at: now,
            },
        ),
        next_feedback: (s.next_feedback + 1) as i64,
        ..s
    }
}

/// Records a feedback entry stamped `now`. Returns its id.
pub fn add_feedback_at(
    store: &mut Store,
    tool_name: Option<&str>,
    message: &str,
    severity: &str,
    rating: Option<i64>,
    agent_id: Option<&str>,
    now: &str,
) -> (r: Result<i64, LearnError>)
    requires
        old(store)@.wf(),
    ensures
        final(store)@.wf(),
        old(store)@.next_feedback == i64::MAX ==> r == Err::<i64, LearnError>(LearnError::Full)
            && final(store)@ == old(store)@,
        old(store)@.next_feedback < i64::MAX ==> r == Ok::<i64, LearnError>(
            old(store)@.next_feedback,
        ) && final(store)@ == with_feedback(
            old(store)@,
            opt_str_chars(tool_name),
            message@,
            severity@,
            rating,
            opt_str_chars(agent_id),
            now@,
        ),
{
    if store.next_feedback == i64::MAX {
        return Err(LearnError::Full);
    }
    let id = store.next_feedback;
    let rec = Feedback {
        id,
        tool_name: owned_opt(tool_name),
        message: owned(message),
        severity: owned(severity),
        rating,
        agent_id: owned_opt(agent_id),
        created_at: owned(now),
    };
    let ghost before = store@;
    store.feedback.push(rec);
    store.next_feedback = id + 1;
    proof {
        assert(store@.feedback =~= before.feedback.push(feedback_v(rec)));
        assert(store@.feedback.map_values(|x: FeedbackV| x.id) =~= before.feedback.map_values(
            |x: FeedbackV| x.id,
        ).push(id));
        lemma_ids_push(before.feedback.map_values(|x: FeedbackV| x.id), id);
    }
    Ok(id)
}

/// Records a feedback entry stamped with the current time. Returns its id.
pub fn add_feedback(
    store: &mut Store,
    tool_name: Option<&str>,
    message: &str,
    severity: &str,
    rating: Option<i64>,
    agent_id: Option<&str>,
) -> (r: Result<i64, LearnError>)
    requires
        old(store)@.wf(),
    ensures
        final(store)@.wf(),
        old(store)@.next_feedback == i64::MAX ==> r == Err::<i64, LearnError>(LearnError::Full)
            && final(store)@ == old(store)@,
        old(store)@.next_feedback < i64::MAX ==> r == Ok::<i64, LearnError>(
            old(store)@.next_feedback,
        ) && exists|now: Seq<char>|
            final(store)@ == with_feedback(
                old(store)@,
                opt_str_chars(tool_name),
                message@,
                severity@,
                rating,
                opt_str_chars(agent_id),
                now,
            ),
{
    let now = now_iso();
    add_feedback_at(store, tool_name, message, severity, rating, agent_id, now.as_str())
}

/// A copy of a feedback entry.
pub fn clone_feedback(f: &Feedback) -> (r: Feedback)
    ensures
        feedback_v(r) == feedback_v(*f),
{
    Feedback {
        id: f.id,
        tool_name: clone_opt(&f.tool_name),
        message: f.message.clone(),
        severity: f.severity.clone(),
        rating: f.rating,
        agent_id: clone_opt(&f.agent_id),
        created_at: f.created_at.clone(),
    }
}

/// Every feedback entry, newest first.
pub fn list_feedback(store: &Store) -> (r: Vec<Feedback>)
    ensures
        feedback_list_v(r@) == store@.feedback.reverse(),
{
    let ghost fs = store@.feedback;
    let mut out: Vec<Feedback> = Vec::new();
    let mut i: usize = store.feedback.len();
    while i > 0
        invariant
            fs == store@.feedback,
            fs.len() == store.feedback@.len(),
            i <= fs.len(),
            feedback_list_v(out@) == fs.skip(i as int).reverse(),
        decreases i,
    {
        let j = i - 1;
        let ghost before = out@;
        out.push(clone_feedback(&store.feedback[j]));
        proof {
            assert(fs[j as int] == feedback_v(store.feedback@[j as int]));
            assert(fs.skip(j as int).reverse() =~= fs.skip(i as int).reverse().push(fs[j as int]));
            assert(feedback_list_v(out@) =~= feedback_list_v(before).push(fs[j as int]));
        }
        i = j;
    }
    proof {
        assert(fs.skip(0) =~= fs);
    }
    out
}

} // verus!
