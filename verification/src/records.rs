//! The values that are stored and handed out: question sets, vote batches,
//! sessions and counts.

use vstd::prelude::*;
use crate::keys::{generate, is_key};
use crate::tally::{tally_of, Tally};

verus! {

/// What an `Answer` holds, as plain values.
pub struct AnswerView {
    pub answer: Seq<char>,
    pub key: Seq<char>,
}

/// One answer option of a question: its text and its identifier.
#[derive(Debug, Clone, PartialEq, Eq)]
pub struct Answer {
    answer: String,
    key: String,
}

impl View for Answer {
    type V = AnswerView;

    closed spec fn view(&self) -> AnswerView {
        AnswerView { answer: self.answer@, key: self.key@ }
    }
}

impl DeepView for Answer {
    type V = AnswerView;

    open spec fn deep_view(&self) -> AnswerView {
        self@
    }
}

impl Answer {
    /// An answer option with the given text and a fresh random identifier.
    pub fn new(answer: String) -> (a: Answer)
        ensures
            a@.answer == answer@,
            is_key(a@.key),
    {
        Answer { answer, key: generate() }
    }

    /// An answer option with the given text and identifier.
    pub fn from_parts(answer: String, key: String) -> (a: Answer)
        ensures
            a@ == (AnswerView { answer: answer@, key: key@ }),
    {
        Answer { answer, key }
    }

    /// The text of this answer option.
    pub fn answer(&self) -> (text: &String)
        ensures
            text@ == self@.answer,
    {
        &self.answer
    }

    /// The identifier of this answer option.
    pub fn key(&self) -> (key: &String)
        ensures
            key@ == self@.key,
    {
        &self.key
    }
}

/// What a `Question` holds, as plain values.
pub struct QuestionView {
    pub question: Seq<char>,
    pub answers: Seq<AnswerView>,
    pub key: Seq<char>,
}

/// One question of a question set: its text, its answer options and its
/// identifier.
#[derive(Debug, Clone, PartialEq, Eq)]
pub struct Question {
    question: String,
    answers: Vec<Answer>,
    key: String,
}

impl View for Question {
    type V = QuestionView;

    closed spec fn view(&self) -> QuestionView {
        QuestionView {
            question: self.question@,
            answers: self.answers.deep_view(),
            key: self.key@,
        }
    }
}

impl DeepView for Question {
    type V = QuestionView;

    open spec fn deep_view(&self) -> QuestionView {
        self@
    }
}

impl Question {
    /// A question with the given text and answer options and a fresh random
    /// identifier.
    pub fn new(question: String, answers: Vec<Answer>) -> (q: Question)
        ensures
            q@.question == question@,
            q@.answers == answers.deep_view(),
            is_key(q@.key),
    {
        Question { question, answers, key: generate() }
    }

    /// A question with the given text, answer options and identifier.
    pub fn from_parts(question: String, answers: Vec<Answer>, key: String) -> (q: Question)
        ensures
            q@ == (QuestionView {
                question: question@,
                answers: answers.deep_view(),
                key: key@,
            }),
    {
        Question { question, answers, key }
    }

    /// The text of this question.
    pub fn question(&self) -> (text: &String)
        ensures
            text@ == self@.question,
    {
        &self.question
    }

    /// The answer options of this question, in their order.
    pub fn answers(&self) -> (answers: &Vec<Answer>)
        ensures
            answers.deep_view() == self@.answers,
    {
        &self.answers
    }

    /// The identifier of this question.
    pub fn key(&self) -> (key: &String)
        ensures
            key@ == self@.key,
    {
        &self.key
    }
}

/// What a `Vote` holds, as plain values.
pub struct VoteView {
    pub vote: Seq<char>,
    pub answer_key: Option<Seq<char>>,
    pub question_key: Option<Seq<char>>,
}

/// One entry of a vote batch: the value that the respondent chose, and the
/// identifiers of the answer and of the question that it is cast on.
#[derive(Debug, Clone, PartialEq, Eq)]
pub struct Vote {
    pub vote: String,
    pub answer_key: Option<String>,
    pub question_key: Option<String>,
}

impl View for Vote {
    type V = VoteView;

    open spec fn view(&self) -> VoteView {
        VoteView {
            vote: self.vote@,
            answer_key: self.answer_key.deep_view(),
            question_key: self.question_key.deep_view(),
        }
    }
}

impl DeepView for Vote {
    type V = VoteView;

    open spec fn deep_view(&self) -> VoteView {
        self@
    }
}

impl Vote {
    /// A vote of the given value, cast on the answer with the given
    /// identifier. It names no question.
    pub fn new(answer: String, vote: String) -> (v: Vote)
        ensures
            v@ == (VoteView { vote: vote@, answer_key: Some(answer@), question_key: None }),
    {
        Vote { vote, answer_key: Some(answer), question_key: None }
    }
}

/// What a `Count` holds, as plain values.
pub struct CountView {
    pub answer: Seq<char>,
    pub count: u16,
}

/// How often one answer was chosen, for as many choices as sixteen bits
/// hold. A tally counts further than that and keeps counts of its own.
#[derive(Debug, Clone, PartialEq, Eq)]
pub struct Count {
    answer: String,
    count: u16,
}

impl View for Count {
    type V = CountView;

    closed spec fn view(&self) -> CountView {
        CountView { answer: self.answer@, count: self.count }
    }
}

impl Count {
    /// The statement that `answer` was chosen `count` times.
    pub fn new(answer: String, count: u16) -> (c: Count)
        ensures
            c@ == (CountView { answer: answer@, count }),
    {
        Count { answer, count }
    }

    /// The answer that was chosen.
    pub fn answer(&self) -> (answer: &String)
        ensures
            answer@ == self@.answer,
    {
        &self.answer
    }

    /// How often it was chosen.
    pub fn count(&self) -> (count: u16)
        ensures
            count == self@.count,
    {
        self.count
    }
}

/// What a `Session` holds, as plain values.
pub struct SessionView {
    pub session: Seq<char>,
    pub lifetime: u64,
}

/// The handle that a client gets for a stored record: the key of the record
/// and, where it is known, the Unix time in seconds at which the store will
/// have dropped it. The time is information for the client only: expiry is
/// the store's business, and nothing in this library decides by it.
#[derive(Debug, Clone, PartialEq, Eq)]
pub struct Session {
    session: String,
    lifetime: u64,
}

impl View for Session {
    type V = SessionView;

    closed spec fn view(&self) -> SessionView {
        SessionView { session: self.session@, lifetime: self.lifetime }
    }
}

impl DeepView for Session {
    type V = SessionView;

    open spec fn deep_view(&self) -> SessionView {
        self@
    }
}

/// The Unix time at which a record written at `now` with a time to live of
/// `ttl` seconds expires. A clock before 1970 counts as 1970, and a sum that
/// does not fit stops at the largest number.
pub open spec fn expiry_spec(now: i64, ttl: u64) -> u64 {
    let base: int = if now < 0 { 0 } else { now as int };
    if base + ttl > u64::MAX {
        u64::MAX
    } else {
        (base + ttl) as u64
    }
}

/// Reads the clock with `chrono::Utc::now` and takes its `timestamp`: the
/// whole seconds since 1970-01-01 00:00:00 UTC. Nothing is claimed of the
/// number. On a native target the call panics where the system clock stands
/// before 1970.
#[verifier::external_body]
pub(crate) fn unix_now() -> (now: i64) {
    chrono::Utc::now().timestamp()
}

impl Session {
    /// The handle of a record written under `key` at the Unix time `now` with
    /// a time to live of `ttl` seconds.
    pub fn new(key: String, now: i64, ttl: u64) -> (s: Session)
        ensures
            s@ == (SessionView { session: key@, lifetime: expiry_spec(now, ttl) }),
    {
        let base: u64 = if now < 0 { 0 } else { now as u64 };
        let lifetime: u64 = if ttl > u64::MAX - base { u64::MAX } else { base + ttl };
        Session { session: key, lifetime }
    }

    /// The handle of a record under `key` whose expiry is not tracked.
    pub fn untimed(key: String) -> (s: Session)
        ensures
            s@ == (SessionView { session: key@, lifetime: 0 }),
    {
        Session { session: key, lifetime: 0 }
    }

    /// The key of the record.
    pub fn session(&self) -> (key: &String)
        ensures
            key@ == self@.session,
    {
        &self.session
    }

    /// The Unix time in seconds at which the record expires, or 0 where that
    /// is not tracked.
    pub fn lifetime(&self) -> (lifetime: u64)
        ensures
            lifetime == self@.lifetime,
    {
        self.lifetime
    }
}

/// What a `Score` holds, as plain values.
pub struct ScoreContent {
    pub questions: Seq<QuestionView>,
    pub votes: Seq<VoteView>,
}

/// A question set together with every vote entry that was found for it.
#[derive(Debug, Clone, PartialEq, Eq)]
pub struct Score {
    pub questions: Vec<Question>,
    pub votes: Vec<Vote>,
}

impl View for Score {
    type V = ScoreContent;

    open spec fn view(&self) -> ScoreContent {
        ScoreContent { questions: self.questions.deep_view(), votes: self.votes.deep_view() }
    }
}

impl Score {
    /// The counts of the votes that were found: for each answer, how often
    /// each value was chosen.
    pub fn tally(&self) -> (tally: Tally)
        ensures
            tally@ == tally_of(self@.votes),
    {
        Tally::of(&self.votes)
    }
}

/// The two kinds of stored record.
#[derive(Debug, Clone, PartialEq, Eq)]
pub enum Type {
    /// A question of a question set.
    Question { q: Question },
    /// A vote batch.
    Vote,
}

} // verus!
