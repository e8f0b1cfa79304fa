//! The optional summarization seam over stored lessons. Lesson derivation
//! stays with the agent; a summarizer only distils what is already stored.
//! The one provided is a stub that reports that summarization is off.
use vstd::prelude::*;

use crate::pairs::{lessons, Lesson};
use crate::store::Store;
use crate::text::owned;

verus! {

/// Summarizes or audits a set of stored lessons.
pub trait LessonSummarizer: Send + Sync {
    fn summarize(&self, lessons: &[Lesson]) -> Result<String, String>;
}

/// The summarizer used while no provider is configured.
pub struct NoopSummarizer;

/// What the stub summarizer answers.
pub open spec fn noop_summary() -> Seq<char> {
    "LLM summarization disabled. Set EMAIL_LEARN_LLM to enable \
     (future: ollama | openai | mcp). Derivation stays in the agent session."@
}

impl LessonSummarizer for NoopSummarizer {
    fn summarize(&self, lessons: &[Lesson]) -> (r: Result<String, String>)
        ensures
            r matches Ok(s) && s@ == noop_summary(),
    {
        Ok(
            owned(
                "LLM summarization disabled. Set EMAIL_LEARN_LLM to enable \
                 (future: ollama | openai | mcp). Derivation stays in the agent session.",
            ),
        )
    }
}

/// The configured summarizer: the stub, as no provider is wired yet.
pub fn summarizer_from_env() -> (r: NoopSummarizer) {
    NoopSummarizer
}

/// Summarizes every stored lesson with the configured summarizer.
pub fn summarize_lessons(store: &Store) -> (r: Result<String, String>)
    ensures
        r matches Ok(s) && s@ == noop_summary(),
{
    let ls = lessons(store, &[]);
    summarizer_from_env().summarize(ls.as_slice())
}

} // verus!
