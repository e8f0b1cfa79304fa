//! redline: learn a writer's voice from (draft, final) revision pairs.
pub mod text;
pub mod diff;
pub mod tags;
pub mod like;
pub mod store;
pub mod seqs;
pub mod pairs;
pub mod order;
pub mod drafts;
pub mod bytes;
pub mod patterns;
pub mod lint;
pub mod promote;
pub mod analysis;
pub mod finalize;
pub mod feedback;
pub mod deriver;
pub mod prompt;
pub mod search;
pub mod export;
pub mod summarize;
pub mod pi;
pub mod laws;
pub mod result_laws;
