//! What the library asks of the record store and what the store answers.
//!
//! The store is a flat key-value store with expiry, reached over the network.
//! The library never talks to it. Each operation is a small machine: it hands
//! out one request at a time, the caller performs it against the store and
//! hands back the reply, and the machine decides what comes next.

use vstd::prelude::*;
use crate::error::PollError;
use crate::records::{Question, QuestionView, Vote, VoteView};

verus! {

/// Seconds that a record lives where nothing else is asked for: 30 days.
pub const KV_TTL: u64 = 2592000;

/// Candidate keys that are tried for one new root key where nothing else is
/// asked for.
pub const KEY_ATTEMPTS: u32 = 32;

/// The settings of the operations that write.
#[derive(Debug, Clone, Copy, PartialEq, Eq, Structural)]
pub struct Policy {
    /// Seconds after which the store drops a record that is written.
    pub ttl: u64,
    /// The largest number of candidate keys that are tried for one new root
    /// key.
    pub attempts: u32,
}

impl Default for Policy {
    fn default() -> (policy: Policy)
        ensures
            policy == (Policy { ttl: KV_TTL, attempts: KEY_ATTEMPTS }),
    {
        Policy { ttl: KV_TTL, attempts: KEY_ATTEMPTS }
    }
}

/// What a `Request` holds, as plain values.
pub enum RequestView {
    Probe { key: Seq<char> },
    ReadQuestions { key: Seq<char> },
    ReadVotes { key: Seq<char> },
    WriteQuestions { key: Seq<char>, questions: Seq<QuestionView>, ttl: u64 },
    WriteVotes { key: Seq<char>, votes: Seq<VoteView>, ttl: u64 },
    ListKeys { prefix: Seq<char>, cursor: Option<Seq<char>> },
}

/// One thing to do against the store.
#[derive(Debug, Clone, PartialEq, Eq)]
pub enum Request {
    /// Say whether any record is stored under `key`.
    Probe { key: String },
    /// Read the question set that is stored under `key`.
    ReadQuestions { key: String },
    /// Read the vote batch that is stored under `key`.
    ReadVotes { key: String },
    /// Store a question set under `key`, to be dropped after `ttl` seconds.
    WriteQuestions { key: String, questions: Vec<Question>, ttl: u64 },
    /// Store a vote batch under `key`, to be dropped after `ttl` seconds.
    WriteVotes { key: String, votes: Vec<Vote>, ttl: u64 },
    /// List one page of the keys that start with `prefix`: the first page
    /// where `cursor` is `None`, else the page that the cursor stands for.
    ListKeys { prefix: String, cursor: Option<String> },
}

impl DeepView for Request {
    type V = RequestView;

    open spec fn deep_view(&self) -> RequestView {
        match self {
            Request::Probe { key } => RequestView::Probe { key: key@ },
            Request::ReadQuestions { key } => RequestView::ReadQuestions { key: key@ },
            Request::ReadVotes { key } => RequestView::ReadVotes { key: key@ },
            Request::WriteQuestions { key, questions, ttl } => RequestView::WriteQuestions {
                key: key@,
                questions: questions.deep_view(),
                ttl: *ttl,
            },
            Request::WriteVotes { key, votes, ttl } => RequestView::WriteVotes {
                key: key@,
                votes: votes.deep_view(),
                ttl: *ttl,
            },
            Request::ListKeys { prefix, cursor } => RequestView::ListKeys {
                prefix: prefix@,
                cursor: cursor.deep_view(),
            },
        }
    }
}

/// What a `Reply` holds, as plain values.
pub enum ReplyView {
    Missing,
    Present,
    Questions(Seq<QuestionView>),
    Votes(Seq<VoteView>),
    Malformed,
    Stored,
    Page { keys: Seq<Seq<char>>, list_complete: bool, cursor: Option<Seq<char>> },
    Unavailable,
}

/// What came of one request.
#[derive(Debug, Clone, PartialEq, Eq)]
pub enum Reply {
    /// No record is stored under the key: it never was, or it has expired.
    Missing,
    /// A record is stored under the key that was probed.
    Present,
    /// The question set that is stored under the key.
    Questions(Vec<Question>),
    /// The vote batch that is stored under the key.
    Votes(Vec<Vote>),
    /// A record is stored under the key, and it is neither a question set nor
    /// a vote batch.
    Malformed,
    /// The record was written.
    Stored,
    /// One page of a listing. More pages follow unless `list_complete` holds,
    /// and `cursor` stands for the next one.
    Page { keys: Vec<String>, list_complete: bool, cursor: Option<String> },
    /// The store could not be reached, or it failed.
    Unavailable,
}

impl DeepView for Reply {
    type V = ReplyView;

    open spec fn deep_view(&self) -> ReplyView {
        match self {
            Reply::Missing => ReplyView::Missing,
            Reply::Present => ReplyView::Present,
            Reply::Questions(questions) => ReplyView::Questions(questions.deep_view()),
            Reply::Votes(votes) => ReplyView::Votes(votes.deep_view()),
            Reply::Malformed => ReplyView::Malformed,
            Reply::Stored => ReplyView::Stored,
            Reply::Page { keys, list_complete, cursor } => ReplyView::Page {
                keys: keys.deep_view(),
                list_complete: *list_complete,
                cursor: cursor.deep_view(),
            },
            Reply::Unavailable => ReplyView::Unavailable,
        }
    }
}

/// What a machine says after a reply: the next request, with the machine as
/// it goes on, or the end of the operation.
#[derive(Debug)]
pub enum Step<M, Q, T> {
    /// Perform the request and hand its reply to the machine.
    Ask(M, Q),
    /// The operation is over.
    Done(Result<T, PollError>),
}

impl<M: DeepView, Q: DeepView, T: DeepView> DeepView for Step<M, Q, T> {
    type V = Step<M::V, Q::V, T::V>;

    open spec fn deep_view(&self) -> Step<M::V, Q::V, T::V> {
        match self {
            Step::Ask(machine, request) => Step::Ask(machine.deep_view(), request.deep_view()),
            Step::Done(Ok(result)) => Step::Done(Ok(result.deep_view())),
            Step::Done(Err(error)) => Step::Done(Err(*error)),
        }
    }
}

} // verus!
