//! The voice database: pairs, lessons, drafts with their append-only
//! revisions, lint patterns, feedback and derivation jobs. Each table keeps
//! its rows in id order; ids are handed out by per-table counters and never
//! reused, as an AUTOINCREMENT key is.
use vstd::prelude::*;

use crate::diff::{rows_v, DiffRow, RowV};
use crate::text::opt_chars;

verus! {

/// Why a database operation was refused.
#[derive(Clone, Copy, Debug, PartialEq, Eq, Structural)]
pub enum LearnError {
    /// The table's id counter is exhausted.
    Full,
    /// A referenced pair, draft or lesson does not exist.
    ForeignKey,
    /// The requested row does not exist.
    NoRows,
    /// No draft with this id.
    NoDraft(i64),
    /// The draft has no revisions.
    NoRevisions(i64),
}

/// The diff column of a pair: structured rows, or text that does not read
/// as rows (written before rows were stored).
pub enum StoredDiff {
    Rows(Vec<DiffRow>),
    Text(String),
}

/// A row of the `pairs` table.
pub struct PairRecord {
    pub id: i64,
    pub draft: String,
    pub final_: String,
    pub diff: StoredDiff,
    pub context: Option<String>,
    pub tags: Option<String>,
    pub created_at: String,
}

/// A row of the `lessons` table.
pub struct LessonRecord {
    pub id: i64,
    pub pair_id: Option<i64>,
    pub lesson: String,
    pub tags: Option<String>,
    pub created_at: String,
}

/// A row of the `drafts` table.
pub struct DraftRecord {
    pub id: i64,
    pub context: Option<String>,
    pub tags: Option<String>,
    pub status: String,
    pub finalized_pair_id: Option<i64>,
    pub created_at: String,
    pub updated_at: String,
}

/// One saved version of a draft's content (a row of `draft_revisions`).
#[derive(Clone, Debug)]
pub struct DraftRevision {
    pub id: i64,
    pub draft_id: i64,
    pub content: String,
    pub source: String,
    pub created_at: String,
}

/// A matchable voice rule (a row of `patterns`). `pattern` is what the lint
/// engine tests against draft content; `before_text`/`after_text` are
/// examples of the rule's intent.
#[derive(Clone, Debug)]
pub struct Pattern {
    pub id: i64,
    pub lesson_id: Option<i64>,
    pub rule: String,
    pub pattern: String,
    pub pattern_type: String,
    pub direction: String,
    pub category: String,
    pub before_text: Option<String>,
    pub after_text: Option<String>,
    pub confidence: String,
    pub created_at: String,
}

/// A feedback entry (a row of `feedback`).
#[derive(Clone, Debug)]
pub struct Feedback {
    pub id: i64,
    pub tool_name: Option<String>,
    pub message: String,
    pub severity: String,
    pub rating: Option<i64>,
    pub agent_id: Option<String>,
    pub created_at: String,
}

/// A lesson-derivation job for a finalized pair (a row of
/// `derivation_jobs`; one job per pair).
#[derive(Clone, Debug)]
pub struct DerivationJob {
    pub id: i64,
    pub pair_id: i64,
    pub status: String,
    pub attempts: i64,
    pub error: Option<String>,
    pub created_at: String,
    pub updated_at: String,
}

// ---------- plain-value views ----------
pub enum DiffV {
    Rows(Seq<RowV>),
    Text(Seq<char>),
}

pub struct PairV {
    pub id: i64,
    pub draft: Seq<char>,
    pub final_: Seq<char>,
    pub diff: DiffV,
    pub context: Option<Seq<char>>,
    pub tags: Option<Seq<char>>,
    pub created_at: Seq<char>,
}

pub struct LessonV {
    pub id: i64,
    pub pair_id: Option<i64>,
    pub lesson: Seq<char>,
    pub tags: Option<Seq<char>>,
    pub created_at: Seq<char>,
}

pub struct DraftV {
    pub id: i64,
    pub context: Option<Seq<char>>,
    pub tags: Option<Seq<char>>,
    pub status: Seq<char>,
    pub finalized_pair_id: Option<i64>,
    pub created_at: Seq<char>,
    pub updated_at: Seq<char>,
}

pub struct RevisionV {
    pub id: i64,
    pub draft_id: i64,
    pub content: Seq<char>,
    pub source: Seq<char>,
    pub created_at: Seq<char>,
}

pub struct PatternV {
    pub id: i64,
    pub lesson_id: Option<i64>,
    pub rule: Seq<char>,
    pub pattern: Seq<char>,
    pub pattern_type: Seq<char>,
    pub direction: Seq<char>,
    pub category: Seq<char>,
    pub before_text: Option<Seq<char>>,
    pub after_text: Option<Seq<char>>,
    pub confidence: Seq<char>,
    pub created_at: Seq<char>,
}

pub struct FeedbackV {
    pub id: i64,
    pub tool_name: Option<Seq<char>>,
    pub message: Seq<char>,
    pub severity: Seq<char>,
    pub rating: Option<i64>,
    pub agent_id: Option<Seq<char>>,
    pub created_at: Seq<char>,
}

pub struct JobV {
    pub id: i64,
    pub pair_id: i64,
    pub status: Seq<char>,
    pub attempts: i64,
    pub error: Option<Seq<char>>,
    pub created_at: Seq<char>,
    pub updated_at: Seq<char>,
}

pub open spec fn diff_v(d: StoredDiff) -> DiffV {
    match d {
        StoredDiff::Rows(r) => DiffV::Rows(rows_v(r@)),
        StoredDiff::Text(t) => DiffV::Text(t@),
    }
}

pub open spec fn pair_v(r: PairRecord) -> PairV {
    PairV {
        id: r.id,
        draft: r.draft@,
        final_: r.final_@,
        diff: diff_v(r.diff),
        context: opt_chars(r.context),
        tags: opt_chars(r.tags),
        created_at: r.created_at@,
    }
}

pub open spec fn lesson_v(r: LessonRecord) -> LessonV {
    LessonV {
        id: r.id,
        pair_id: r.pair_id,
        lesson: r.lesson@,
        tags: opt_chars(r.tags),
        created_at: r.created_at@,
    }
}

pub open spec fn draft_v(r: DraftRecord) -> DraftV {
    DraftV {
        id: r.id,
        context: opt_chars(r.context),
        tags: opt_chars(r.tags),
        status: r.status@,
        finalized_pair_id: r.finalized_pair_id,
        created_at: r.created_at@,
        updated_at: r.updated_at@,
    }
}

pub open spec fn revision_v(r: DraftRevision) -> RevisionV {
    RevisionV {
        id: r.id,
        draft_id: r.draft_id,
        content: r.content@,
        source: r.source@,
        created_at: r.created_at@,
    }
}

pub open spec fn pattern_v(r: Pattern) -> PatternV {
    PatternV {
        id: r.id,
        lesson_id: r.lesson_id,
        rule: r.rule@,
        pattern: r.pattern@,
        pattern_type: r.pattern_type@,
        direction: r.direction@,
        category: r.category@,
        before_text: opt_chars(r.before_text),
        after_text: opt_chars(r.after_text),
        confidence: r.confidence@,
        created_at: r.created_at@,
    }
}

pub open spec fn feedback_v(r: Feedback) -> FeedbackV {
    FeedbackV {
        id: r.id,
        tool_name: opt_chars(r.tool_name),
        message: r.message@,
        severity: r.severity@,
        rating: r.rating,
        agent_id: opt_chars(r.agent_id),
        created_at: r.created_at@,
    }
}

pub open spec fn job_v(r: DerivationJob) -> JobV {
    JobV {
        id: r.id,
        pair_id: r.pair_id,
        status: r.status@,
        attempts: r.attempts,
        error: opt_chars(r.error),
        created_at: r.created_at@,
        updated_at: r.updated_at@,
    }
}

pub open spec fn pairs_v(s: Seq<PairRecord>) -> Seq<PairV> {
    s.map_values(|r: PairRecord| pair_v(r))
}

pub open spec fn lessons_v(s: Seq<LessonRecord>) -> Seq<LessonV> {
    s.map_values(|r: LessonRecord| lesson_v(r))
}

pub open spec fn drafts_v(s: Seq<DraftRecord>) -> Seq<DraftV> {
    s.map_values(|r: DraftRecord| draft_v(r))
}

pub open spec fn revisions_v(s: Seq<DraftRevision>) -> Seq<RevisionV> {
    s.map_values(|r: DraftRevision| revision_v(r))
}

pub open spec fn patterns_v(s: Seq<Pattern>) -> Seq<PatternV> {
    s.map_values(|r: Pattern| pattern_v(r))
}

pub open spec fn feedback_list_v(s: Seq<Feedback>) -> Seq<FeedbackV> {
    s.map_values(|r: Feedback| feedback_v(r))
}

pub open spec fn jobs_v(s: Seq<DerivationJob>) -> Seq<JobV> {
    s.map_values(|r: DerivationJob| job_v(r))
}

/// The whole database as plain values.
pub struct StoreV {
    pub pairs: Seq<PairV>,
    pub lessons: Seq<LessonV>,
    pub drafts: Seq<DraftV>,
    pub revisions: Seq<RevisionV>,
    pub patterns: Seq<PatternV>,
    pub feedback: Seq<FeedbackV>,
    pub jobs: Seq<JobV>,
    pub next_pair: i64,
    pub next_lesson: i64,
    pub next_draft: i64,
    pub next_revision: i64,
    pub next_pattern: i64,
    pub next_feedback: i64,
    pub next_job: i64,
}

/// The voice database. Each table holds its rows in increasing id order;
/// `next_*` is the id the next inserted row of that table gets.
pub struct Store {
    pub pairs: Vec<PairRecord>,
    pub lessons: Vec<LessonRecord>,
    pub drafts: Vec<DraftRecord>,
    pub revisions: Vec<DraftRevision>,
    pub patterns: Vec<Pattern>,
    pub feedback: Vec<Feedback>,
    pub jobs: Vec<DerivationJob>,
    pub next_pair: i64,
    pub next_lesson: i64,
    pub next_draft: i64,
    pub next_revision: i64,
    pub next_pattern: i64,
    pub next_feedback: i64,
    pub next_job: i64,
}

impl View for Store {
    type V = StoreV;

    open spec fn view(&self) -> StoreV {
        StoreV {
            pairs: pairs_v(self.pairs@),
            lessons: lessons_v(self.lessons@),
            drafts: drafts_v(self.drafts@),
            revisions: revisions_v(self.revisions@),
            patterns: patterns_v(self.patterns@),
            feedback: feedback_list_v(self.feedback@),
            jobs: jobs_v(self.jobs@),
            next_pair: self.next_pair,
            next_lesson: self.next_lesson,
            next_draft: self.next_draft,
            next_revision: self.next_revision,
            next_pattern: self.next_pattern,
            next_feedback: self.next_feedback,
            next_job: self.next_job,
        }
    }
}

/// Ids strictly increasing, at least 1 and below the table's counter.
pub open spec fn ids_ok(ids: Seq<i64>, next: i64) -> bool {
    &&& 1 <= next
    &&& forall|i: int, j: int| 0 <= i < j < ids.len() ==> ids[i] < ids[j]
    &&& forall|i: int| 0 <= i < ids.len() ==> 1 <= #[trigger] ids[i] < next
}

impl StoreV {
    /// Every table is in id order with ids below its counter.
    pub open spec fn wf(self) -> bool {
        &&& ids_ok(self.pairs.map_values(|r: PairV| r.id), self.next_pair)
        &&& ids_ok(self.lessons.map_values(|r: LessonV| r.id), self.next_lesson)
        &&& ids_ok(self.drafts.map_values(|r: DraftV| r.id), self.next_draft)
        &&& ids_ok(self.revisions.map_values(|r: RevisionV| r.id), self.next_revision)
        &&& ids_ok(self.patterns.map_values(|r: PatternV| r.id), self.next_pattern)
        &&& ids_ok(self.feedback.map_values(|r: FeedbackV| r.id), self.next_feedback)
        &&& ids_ok(self.jobs.map_values(|r: JobV| r.id), self.next_job)
    }
}

impl Store {
    /// An empty database.
    pub fn new() -> (r: Store)
        ensures
            r@.wf(),
            r@.pairs.len() == 0,
            r@.lessons.len() == 0,
            r@.drafts.len() == 0,
            r@.revisions.len() == 0,
            r@.patterns.len() == 0,
            r@.feedback.len() == 0,
            r@.jobs.len() == 0,
            r@.next_pair == 1,
            r@.next_lesson == 1,
            r@.next_draft == 1,
            r@.next_revision == 1,
            r@.next_pattern == 1,
            r@.next_feedback == 1,
            r@.next_job == 1,
    {
        let r = Store {
            pairs: Vec::new(),
            lessons: Vec::new(),
            drafts: Vec::new(),
            revisions: Vec::new(),
            patterns: Vec::new(),
            feedback: Vec::new(),
            jobs: Vec::new(),
            next_pair: 1,
            next_lesson: 1,
            next_draft: 1,
            next_revision: 1,
            next_pattern: 1,
            next_feedback: 1,
            next_job: 1,
        };
        proof {
            assert(r@.pairs.map_values(|x: PairV| x.id) =~= seq![]);
            assert(r@.lessons.map_values(|x: LessonV| x.id) =~= seq![]);
            assert(r@.drafts.map_values(|x: DraftV| x.id) =~= seq![]);
            assert(r@.revisions.map_values(|x: RevisionV| x.id) =~= seq![]);
            assert(r@.patterns.map_values(|x: PatternV| x.id) =~= seq![]);
            assert(r@.feedback.map_values(|x: FeedbackV| x.id) =~= seq![]);
            assert(r@.jobs.map_values(|x: JobV| x.id) =~= seq![]);
        }
        r
    }

    /// Whether the tables are in id order with ids below their counters
    /// (used to accept tables read back from disk).
    pub fn is_well_formed(&self) -> (r: bool)
        ensures
            r == self@.wf(),
    {
        let a = ids_ok_exec(&ids_of_pairs(&self.pairs), self.next_pair);
        let b = ids_ok_exec(&ids_of_lessons(&self.lessons), self.next_lesson);
        let c = ids_ok_exec(&ids_of_drafts(&self.drafts), self.next_draft);
        let d = ids_ok_exec(&ids_of_revisions(&self.revisions), self.next_revision);
        let e = ids_ok_exec(&ids_of_patterns(&self.patterns), self.next_pattern);
        let f = ids_ok_exec(&ids_of_feedback(&self.feedback), self.next_feedback);
        let g = ids_ok_exec(&ids_of_jobs(&self.jobs), self.next_job);
        a && b && c && d && e && f && g
    }
}

fn ids_ok_exec(ids: &Vec<i64>, next: i64) -> (r: bool)
    ensures
        r == ids_ok(ids@, next),
{
    if next < 1 {
        return false;
    }
    let mut i: usize = 0;
    while i < ids.len()
        invariant
            1 <= next,
            i <= ids@.len(),
            forall|a: int, b: int| 0 <= a < b < i ==> ids@[a] < ids@[b],
            forall|a: int| 0 <= a < i ==> 1 <= #[trigger] ids@[a] < next,
        decreases ids@.len() - i,
    {
        if ids[i] < 1 || ids[i] >= next {
            return false;
        }
        if i > 0 && ids[i - 1] >= ids[i] {
            return false;
        }
        proof {
            assert forall|a: int, b: int| 0 <= a < b < i + 1 implies ids@[a] < ids@[b] by {
                if b == i && a < i - 1 {
                    assert(ids@[a] < ids@[i - 1]);
                }
            }
        }
        i = i + 1;
    }
    true
}

fn ids_of_pairs(t: &Vec<PairRecord>) -> (r: Vec<i64>)
    ensures
        r@ == pairs_v(t@).map_values(|x: PairV| x.id),
{
    let mut r = Vec::new();
    let mut i: usize = 0;
    while i < t.len()
        invariant
            i <= t@.len(),
            r@.len() == i,
            forall|k: int| 0 <= k < i ==> r@[k] == t@[k].id,
        decreases t@.len() - i,
    {
        r.push(t[i].id);
        i = i + 1;
    }
    assert(r@ =~= pairs_v(t@).map_values(|x: PairV| x.id));
    r
}

fn ids_of_lessons(t: &Vec<LessonRecord>) -> (r: Vec<i64>)
    ensures
        r@ == lessons_v(t@).map_values(|x: LessonV| x.id),
{
    let mut r = Vec::new();
    let mut i: usize = 0;
    while i < t.len()
        invariant
            i <= t@.len(),
            r@.len() == i,
            forall|k: int| 0 <= k < i ==> r@[k] == t@[k].id,
        decreases t@.len() - i,
    {
        r.push(t[i].id);
        i = i + 1;
    }
    assert(r@ =~= lessons_v(t@).map_values(|x: LessonV| x.id));
    r
}

fn ids_of_drafts(t: &Vec<DraftRecord>) -> (r: Vec<i64>)
    ensures
        r@ == drafts_v(t@).map_values(|x: DraftV| x.id),
{
    let mut r = Vec::new();
    let mut i: usize = 0;
    while i < t.len()
        invariant
            i <= t@.len(),
            r@.len() == i,
            forall|k: int| 0 <= k < i ==> r@[k] == t@[k].id,
        decreases t@.len() - i,
    {
        r.push(t[i].id);
        i = i + 1;
    }
    assert(r@ =~= drafts_v(t@).map_values(|x: DraftV| x.id));
    r
}

fn ids_of_revisions(t: &Vec<DraftRevision>) -> (r: Vec<i64>)
    ensures
        r@ == revisions_v(t@).map_values(|x: RevisionV| x.id),
{
    let mut r = Vec::new();
    let mut i: usize = 0;
    while i < t.len()
        invariant
            i <= t@.len(),
            r@.len() == i,
            forall|k: int| 0 <= k < i ==> r@[k] == t@[k].id,
        decreases t@.len() - i,
    {
        r.push(t[i].id);
        i = i + 1;
    }
    assert(r@ =~= revisions_v(t@).map_values(|x: RevisionV| x.id));
    r
}

fn ids_of_patterns(t: &Vec<Pattern>) -> (r: Vec<i64>)
    ensures
        r@ == patterns_v(t@).map_values(|x: PatternV| x.id),
{
    let mut r = Vec::new();
    let mut i: usize = 0;
    while i < t.len()
        invariant
            i <= t@.len(),
            r@.len() == i,
            forall|k: int| 0 <= k < i ==> r@[k] == t@[k].id,
        decreases t@.len() - i,
    {
        r.push(t[i].id);
        i = i + 1;
    }
    assert(r@ =~= patterns_v(t@).map_values(|x: PatternV| x.id));
    r
}

fn ids_of_feedback(t: &Vec<Feedback>) -> (r: Vec<i64>)
    ensures
        r@ == feedback_list_v(t@).map_values(|x: FeedbackV| x.id),
{
    let mut r = Vec::new();
    let mut i: usize = 0;
    while i < t.len()
        invariant
            i <= t@.len(),
            r@.len() == i,
            forall|k: int| 0 <= k < i ==> r@[k] == t@[k].id,
        decreases t@.len() - i,
    {
        r.push(t[i].id);
        i = i + 1;
    }
    assert(r@ =~= feedback_list_v(t@).map_values(|x: FeedbackV| x.id));
    r
}

fn ids_of_jobs(t: &Vec<DerivationJob>) -> (r: Vec<i64>)
    ensures
        r@ == jobs_v(t@).map_values(|x: JobV| x.id),
{
    let mut r = Vec::new();
    let mut i: usize = 0;
    while i < t.len()
        invariant
            i <= t@.len(),
            r@.len() == i,
            forall|k: int| 0 <= k < i ==> r@[k] == t@[k].id,
        decreases t@.len() - i,
    {
        r.push(t[i].id);
        i = i + 1;
    }
    assert(r@ =~= jobs_v(t@).map_values(|x: JobV| x.id));
    r
}

/// Whether every character of `s` is an ASCII digit.
pub open spec fn all_digits(s: Seq<char>) -> bool {
    forall|i: int| 0 <= i < s.len() ==> '0' <= #[trigger] s[i] <= '9'
}

/// Whether `s` is two ASCII digits.
pub open spec fn two_digits(s: Seq<char>) -> bool {
    s.len() == 2 && all_digits(s)
}

/// The text of an RFC 3339 time in UTC from its parts: year, month, day,
/// hour, minute, second, the fraction of a second (with its '.', or empty)
/// and the offset "+00:00".
pub open spec fn stamp_of(
    year: Seq<char>,
    month: Seq<char>,
    day: Seq<char>,
    hour: Seq<char>,
    minute: Seq<char>,
    second: Seq<char>,
    fraction: Seq<char>,
) -> Seq<char> {
    year + seq!['-'] + month + seq!['-'] + day + seq!['T'] + hour + seq![':'] + minute + seq![':']
        + second + fraction + seq!['+', '0', '0', ':', '0', '0']
}

/// Whether the parts are those chrono writes: a four-digit year (or a sign
/// and at least four digits outside 0..=9999), two digits for each other
/// field, and a fraction that is empty or a '.' and 3, 6 or 9 digits.
pub open spec fn stamp_parts_ok(
    year: Seq<char>,
    month: Seq<char>,
    day: Seq<char>,
    hour: Seq<char>,
    minute: Seq<char>,
    second: Seq<char>,
    fraction: Seq<char>,
) -> bool {
    &&& (year.len() == 4 && all_digits(year)) || (year.len() >= 5 && (year[0] == '+' || year[0]
        == '-') && all_digits(year.drop_first()))
    &&& two_digits(month)
    &&& two_digits(day)
    &&& two_digits(hour)
    &&& two_digits(minute)
    &&& two_digits(second)
    &&& fraction.len() == 0 || ((fraction.len() == 4 || fraction.len() == 7 || fraction.len() == 10)
        && fraction[0] == '.' && all_digits(fraction.drop_first()))
}

/// Whether `s` is a UTC time as `DateTime<Utc>::to_rfc3339` writes it, such
/// as "2024-05-01T09:30:00.123+00:00".
pub open spec fn is_utc_stamp(s: Seq<char>) -> bool {
    exists|
        year: Seq<char>,
        month: Seq<char>,
        day: Seq<char>,
        hour: Seq<char>,
        minute: Seq<char>,
        second: Seq<char>,
        fraction: Seq<char>,
    |
        #[trigger] stamp_of(year, month, day, hour, minute, second, fraction) == s
            && stamp_parts_ok(year, month, day, hour, minute, second, fraction)
}

/// `chrono::Utc::now().to_rfc3339()`. Which time it gives depends on the
/// clock and is not stated; what holds of every outcome, as chrono's
/// `write_rfc3339` shows, is its shape: date, 'T', time with the fraction
/// of a second in 0, 3, 6 or 9 digits, and the UTC offset "+00:00".
#[verifier::external_body]
fn clock_now() -> (r: String)
    ensures
        is_utc_stamp(r@),
{
    chrono::Utc::now().to_rfc3339()
}

/// The current time, RFC 3339 in UTC, as stamped on new and updated rows.
pub fn now_iso() -> (r: String)
    ensures
        is_utc_stamp(r@),
{
    clock_now()
}

} // verus!

verus! {

/// Keeping some rows of a table keeps it in id order.
pub proof fn lemma_select_ids<T>(
    s: Seq<T>,
    keep: spec_fn(T) -> bool,
    idf: spec_fn(T) -> i64,
    next: i64,
)
    requires
        ids_ok(s.map_values(idf), next),
    ensures
        ids_ok(crate::seqs::select_asc(s, keep).map_values(idf), next),
    decreases s.len(),
{
    if s.len() > 0 {
        let dl = s.drop_last();
        assert(dl.map_values(idf) =~= s.map_values(idf).drop_last());
        lemma_select_ids(dl, keep, idf, next);
        crate::seqs::lemma_select_asc_members(dl, keep);
        let q = crate::seqs::select_asc(dl, keep);
        assert forall|a: int| 0 <= a < q.len() implies idf(#[trigger] q[a]) < idf(s.last()) by {
            let w = choose|w: int| 0 <= w < dl.len() && dl[w] == q[a];
            assert(s.map_values(idf)[w] == idf(q[a]));
            assert(s.map_values(idf)[s.len() - 1] == idf(s.last()));
        }
        if keep(s.last()) {
            assert(crate::seqs::select_asc(s, keep).map_values(idf) =~= q.map_values(idf).push(
                idf(s.last()),
            ));
            assert(s.map_values(idf)[s.len() - 1] == idf(s.last()));
        }
    }
}

/// Appending a row with the table's next id keeps it in id order.
pub proof fn lemma_ids_push(ids: Seq<i64>, next: i64)
    requires
        ids_ok(ids, next),
        next < i64::MAX,
    ensures
        ids_ok(ids.push(next), (next + 1) as i64),
{
}

/// The id at position `k` of a table is at least `k + 1`.
proof fn lemma_ids_lower(ids: Seq<i64>, next: i64, k: int)
    requires
        ids_ok(ids, next),
        0 <= k < ids.len(),
    ensures
        ids[k] >= k + 1,
    decreases k,
{
    if k > 0 {
        lemma_ids_lower(ids, next, k - 1);
        assert(ids[k - 1] < ids[k]);
    }
}

/// A table holds fewer rows than its counter.
pub proof fn lemma_ids_len(ids: Seq<i64>, next: i64)
    requires
        ids_ok(ids, next),
    ensures
        ids.len() < next,
{
    if ids.len() > 0 {
        lemma_ids_lower(ids, next, ids.len() - 1);
    }
}

} // verus!
