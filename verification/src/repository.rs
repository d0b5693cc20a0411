//! Storing and reading question sets, and storing vote batches.

use vstd::prelude::*;
use crate::error::PollError;
use crate::keys::{composite, composite_spec, generate, is_key, lemma_keys_exist};
use crate::records::{Question, QuestionView, Session, SessionView, Vote, VoteView};
use crate::search::{keeps_to_keys, lemma_search_keeps_to_keys, KeySearch, KeySearchView};
use crate::store::{Policy, Reply, ReplyView, Request, RequestView, Step};

verus! {

/// Where the creation of a question set stands, as plain values: a key is
/// searched for, or the question set is being written for the session.
pub enum CreationStage {
    Searching(KeySearchView),
    Writing(SessionView),
}

/// What a `CreateQuestionSet` holds, as plain values.
pub struct CreateQuestionSetView {
    pub stage: CreationStage,
    pub questions: Seq<QuestionView>,
    pub ttl: u64,
}

impl CreateQuestionSetView {
    /// What the creation does with what the key search has come to: while
    /// the search goes on, the creation passes its probe on; once the search
    /// has accepted a key, the question set is written under it with the
    /// time to live `ttl`; where the search has failed, so has the creation.
    pub open spec fn follow(
        found: Step<KeySearchView, RequestView, SessionView>,
        questions: Seq<QuestionView>,
        ttl: u64,
    ) -> Step<CreateQuestionSetView, RequestView, SessionView> {
        match found {
            Step::Ask(search, request) => Step::Ask(
                CreateQuestionSetView { stage: CreationStage::Searching(search), questions, ttl },
                request,
            ),
            Step::Done(Ok(session)) => Step::Ask(
                CreateQuestionSetView {
                    stage: CreationStage::Writing(session),
                    questions: Seq::empty(),
                    ttl,
                },
                RequestView::WriteQuestions { key: session.session, questions, ttl },
            ),
            Step::Done(Err(error)) => Step::Done(Err(error)),
        }
    }

    /// The key that the creation holds is a key: the candidate while a key
    /// is searched for, the key of the session after that.
    pub open spec fn keeps_to_keys(self) -> bool {
        match self.stage {
            CreationStage::Searching(search) => is_key(search.candidate),
            CreationStage::Writing(session) => is_key(session.session),
        }
    }

    /// The creation before any reply, with `fresh` as the first candidate
    /// key: the key search begins.
    pub open spec fn start(questions: Seq<QuestionView>, policy: Policy, fresh: Seq<char>) -> Step<
        CreateQuestionSetView,
        RequestView,
        SessionView,
    > {
        Self::follow(KeySearchView::start(policy, fresh), questions, policy.ttl)
    }

    /// What the creation does with a reply, where `fresh` is the candidate
    /// key that would be tried next and `now` is the Unix time.
    ///
    /// While a key is searched for, the search decides. After the write, the
    /// creation ends with the session when the store says that the record is
    /// written, and with `StoreUnavailable` on any other reply.
    pub open spec fn next(self, reply: ReplyView, fresh: Seq<char>, now: i64) -> Step<
        CreateQuestionSetView,
        RequestView,
        SessionView,
    > {
        match self.stage {
            CreationStage::Searching(search) => Self::follow(
                search.next(reply, fresh, now),
                self.questions,
                self.ttl,
            ),
            CreationStage::Writing(session) => match reply {
                ReplyView::Stored => Step::Done(Ok(session)),
                _ => Step::Done(Err(PollError::StoreUnavailable)),
            },
        }
    }
}

/// The creation keeps to keys as far as `step` shows: a candidate that is
/// held is a key and is the one that is probed, the question set is written
/// under a key and for the session of that key, and a session that is
/// handed out has a key for its key.
pub open spec fn creation_keeps_to_keys(
    step: Step<CreateQuestionSetView, RequestView, SessionView>,
) -> bool {
    match step {
        Step::Ask(creation, request) => match creation.stage {
            CreationStage::Searching(search) => is_key(search.candidate) && request
                == (RequestView::Probe { key: search.candidate }),
            CreationStage::Writing(session) => is_key(session.session) && (request
                matches RequestView::WriteQuestions { key, .. } && key == session.session),
        },
        Step::Done(Ok(session)) => is_key(session.session),
        Step::Done(Err(_)) => true,
    }
}

/// What the creation makes of a key search that keeps to keys keeps to keys.
pub proof fn lemma_follow_keeps_to_keys(
    found: Step<KeySearchView, RequestView, SessionView>,
    questions: Seq<QuestionView>,
    ttl: u64,
)
    requires
        keeps_to_keys(found),
    ensures
        creation_keeps_to_keys(CreateQuestionSetView::follow(found, questions, ttl)),
{
}

/// A creation that keeps to keys goes on keeping to keys, as long as the
/// candidate that it would try next is a key: the root key under which the
/// question set is written, and which the session names, is a key.
pub proof fn lemma_creation_keeps_to_keys(
    creation: CreateQuestionSetView,
    request: RequestView,
    reply: ReplyView,
    fresh: Seq<char>,
    now: i64,
)
    requires
        creation_keeps_to_keys(Step::Ask(creation, request)),
        is_key(fresh),
    ensures
        creation_keeps_to_keys(creation.next(reply, fresh, now)),
{
    if let CreationStage::Searching(search) = creation.stage {
        lemma_search_keeps_to_keys(search, reply, fresh, now);
        lemma_follow_keeps_to_keys(
            search.next(reply, fresh, now),
            creation.questions,
            creation.ttl,
        );
    }
}

/// Where the creation of a question set stands.
#[derive(Debug)]
enum Stage {
    Searching(KeySearch),
    Writing(Session),
}

/// The creation of a question set in progress.
#[derive(Debug)]
pub struct CreateQuestionSet {
    stage: Stage,
    questions: Vec<Question>,
    ttl: u64,
}

impl DeepView for CreateQuestionSet {
    type V = CreateQuestionSetView;

    closed spec fn deep_view(&self) -> CreateQuestionSetView {
        CreateQuestionSetView {
            stage: match self.stage {
                Stage::Searching(search) => CreationStage::Searching(search.deep_view()),
                Stage::Writing(session) => CreationStage::Writing(session@),
            },
            questions: self.questions.deep_view(),
            ttl: self.ttl,
        }
    }
}

impl CreateQuestionSet {
    /// Goes on from what the key search has come to.
    fn searching(
        found: Step<KeySearch, Request, Session>,
        questions: Vec<Question>,
        ttl: u64,
    ) -> (step: Step<CreateQuestionSet, Request, Session>)
        ensures
            step.deep_view() == CreateQuestionSetView::follow(
                found.deep_view(),
                questions.deep_view(),
                ttl,
            ),
    {
        match found {
            Step::Ask(search, request) => Step::Ask(
                CreateQuestionSet { stage: Stage::Searching(search), questions, ttl },
                request,
            ),
            Step::Done(Ok(session)) => {
                let key = session.session().clone();
                let held: Vec<Question> = Vec::new();
                assert(held.deep_view() =~= Seq::<QuestionView>::empty());
                Step::Ask(
                    CreateQuestionSet { stage: Stage::Writing(session), questions: held, ttl },
                    Request::WriteQuestions { key, questions, ttl },
                )
            },
            Step::Done(Err(error)) => Step::Done(Err(error)),
        }
    }

    /// Begins the creation of a question set with `fresh` as the first
    /// candidate key.
    pub fn start_with(questions: Vec<Question>, policy: Policy, fresh: String) -> (step: Step<
        CreateQuestionSet,
        Request,
        Session,
    >)
        ensures
            step.deep_view() == CreateQuestionSetView::start(
                questions.deep_view(),
                policy,
                fresh@,
            ),
    {
        CreateQuestionSet::searching(KeySearch::start_with(policy, fresh), questions, policy.ttl)
    }

    /// Begins the creation of a question set with a random first candidate
    /// key. Where the policy allows no attempt, none is drawn.
    pub fn start(questions: Vec<Question>, policy: Policy) -> (step: Step<
        CreateQuestionSet,
        Request,
        Session,
    >)
        ensures
            exists|fresh: Seq<char>|
                is_key(fresh) && step.deep_view() == #[trigger] CreateQuestionSetView::start(
                    questions.deep_view(),
                    policy,
                    fresh,
                ),
            creation_keeps_to_keys(step.deep_view()),
    {
        let found = KeySearch::start(policy);
        proof {
            let fresh = choose|fresh: Seq<char>|
                is_key(fresh) && found.deep_view() == #[trigger] KeySearchView::start(
                    policy,
                    fresh,
                );
            assert(CreateQuestionSetView::start(questions.deep_view(), policy, fresh)
                == CreateQuestionSetView::follow(
                found.deep_view(),
                questions.deep_view(),
                policy.ttl,
            ));
            lemma_follow_keeps_to_keys(found.deep_view(), questions.deep_view(), policy.ttl);
        }
        CreateQuestionSet::searching(found, questions, policy.ttl)
    }

    /// Takes the reply to the request that is out and says what comes next,
    /// where `fresh` is the candidate key to try next and `now` is the Unix
    /// time.
    pub fn advance(self, reply: Reply, fresh: String, now: i64) -> (step: Step<
        CreateQuestionSet,
        Request,
        Session,
    >)
        ensures
            step.deep_view() == self.deep_view().next(reply.deep_view(), fresh@, now),
    {
        let CreateQuestionSet { stage, questions, ttl } = self;
        match stage {
            Stage::Searching(search) => CreateQuestionSet::searching(
                search.advance(reply, fresh, now),
                questions,
                ttl,
            ),
            Stage::Writing(session) => match reply {
                Reply::Stored => Step::Done(Ok(session)),
                _ => Step::Done(Err(PollError::StoreUnavailable)),
            },
        }
    }

    /// Takes the reply to the request that is out and says what comes next.
    /// While a key is searched for, the search draws the candidate to try
    /// next and reads the clock as it needs them; after the write neither is
    /// done.
    pub fn step(self, reply: Reply) -> (step: Step<CreateQuestionSet, Request, Session>)
        ensures
            exists|fresh: Seq<char>, now: i64|
                is_key(fresh) && step.deep_view() == #[trigger] self.deep_view().next(
                    reply.deep_view(),
                    fresh,
                    now,
                ),
            self.deep_view().keeps_to_keys() ==> creation_keeps_to_keys(step.deep_view()),
    {
        let ghost before = self.deep_view();
        let ghost given = reply.deep_view();
        let CreateQuestionSet { stage, questions, ttl } = self;
        match stage {
            Stage::Searching(search) => {
                let found = search.step(reply);
                proof {
                    let (fresh, now) = choose|fresh: Seq<char>, now: i64|
                        is_key(fresh) && found.deep_view() == #[trigger] search.deep_view().next(
                            given,
                            fresh,
                            now,
                        );
                    assert(before.next(given, fresh, now) == CreateQuestionSetView::follow(
                        found.deep_view(),
                        questions.deep_view(),
                        ttl,
                    ));
                    if before.keeps_to_keys() {
                        lemma_follow_keeps_to_keys(found.deep_view(), questions.deep_view(), ttl);
                    }
                }
                CreateQuestionSet::searching(found, questions, ttl)
            },
            Stage::Writing(session) => {
                proof {
                    lemma_keys_exist();
                    let spare = choose|key: Seq<char>| is_key(key);
                    assert(before.next(given, spare, 0) == match given {
                        ReplyView::Stored => Step::<
                            CreateQuestionSetView,
                            RequestView,
                            SessionView,
                        >::Done(Ok(session@)),
                        _ => Step::Done(Err(PollError::StoreUnavailable)),
                    });
                }
                match reply {
                    Reply::Stored => Step::Done(Ok(session)),
                    _ => Step::Done(Err(PollError::StoreUnavailable)),
                }
            },
        }
    }
}

/// What a `GetQuestionSet` holds, as plain values: nothing.
pub struct GetQuestionSetView {}

impl GetQuestionSetView {
    /// The lookup before any reply: the question set under `key` is asked
    /// for.
    pub open spec fn start(key: Seq<char>) -> Step<
        GetQuestionSetView,
        RequestView,
        Option<Seq<QuestionView>>,
    > {
        Step::Ask(GetQuestionSetView {  }, RequestView::ReadQuestions { key })
    }

    /// What the lookup does with the reply: it ends with the question set,
    /// or with none where nothing is stored under the key, with
    /// `MalformedPayload` where the record is no question set, and with
    /// `StoreUnavailable` on any other reply.
    pub open spec fn next(self, reply: ReplyView) -> Step<
        GetQuestionSetView,
        RequestView,
        Option<Seq<QuestionView>>,
    > {
        match reply {
            ReplyView::Questions(questions) => Step::Done(Ok(Some(questions))),
            ReplyView::Missing => Step::Done(Ok(None)),
            ReplyView::Votes(_) | ReplyView::Malformed => Step::Done(
                Err(PollError::MalformedPayload),
            ),
            _ => Step::Done(Err(PollError::StoreUnavailable)),
        }
    }
}

/// The lookup of a question set in progress.
#[derive(Debug)]
pub struct GetQuestionSet {}

impl DeepView for GetQuestionSet {
    type V = GetQuestionSetView;

    open spec fn deep_view(&self) -> GetQuestionSetView {
        GetQuestionSetView {  }
    }
}

impl GetQuestionSet {
    /// Begins the lookup of the question set under `key`.
    pub fn start(key: &str) -> (step: Step<GetQuestionSet, Request, Option<Vec<Question>>>)
        ensures
            step.deep_view() == GetQuestionSetView::start(key@),
    {
        Step::Ask(GetQuestionSet {  }, Request::ReadQuestions { key: key.to_owned() })
    }

    /// Takes the reply to the request that is out and says how the lookup
    /// ends.
    pub fn step(self, reply: Reply) -> (step: Step<GetQuestionSet, Request, Option<Vec<Question>>>)
        ensures
            step.deep_view() == self.deep_view().next(reply.deep_view()),
    {
        match reply {
            Reply::Questions(questions) => Step::Done(Ok(Some(questions))),
            Reply::Missing => Step::Done(Ok(None)),
            Reply::Votes(_) => Step::Done(Err(PollError::MalformedPayload)),
            Reply::Malformed => Step::Done(Err(PollError::MalformedPayload)),
            _ => Step::Done(Err(PollError::StoreUnavailable)),
        }
    }
}

/// What a `SubmitVotes` holds, as plain values.
pub struct SubmitVotesView {
    pub session: SessionView,
}

impl SubmitVotesView {
    /// The submission before any reply: the batch is written under the
    /// composite key of `root` and `suffix`, with the time to live of the
    /// policy. Whether a question set is stored under `root` is not asked.
    pub open spec fn start(
        root: Seq<char>,
        votes: Seq<VoteView>,
        policy: Policy,
        suffix: Seq<char>,
    ) -> Step<SubmitVotesView, RequestView, SessionView> {
        let key = composite_spec(root, suffix);
        Step::Ask(
            SubmitVotesView { session: SessionView { session: key, lifetime: 0 } },
            RequestView::WriteVotes { key, votes, ttl: policy.ttl },
        )
    }

    /// What the submission does with the reply: it ends with the session of
    /// the batch when the store says that the record is written, and with
    /// `StoreUnavailable` on any other reply.
    pub open spec fn next(self, reply: ReplyView) -> Step<
        SubmitVotesView,
        RequestView,
        SessionView,
    > {
        match reply {
            ReplyView::Stored => Step::Done(Ok(self.session)),
            _ => Step::Done(Err(PollError::StoreUnavailable)),
        }
    }
}

/// The submission of a vote batch in progress.
#[derive(Debug)]
pub struct SubmitVotes {
    session: Session,
}

impl DeepView for SubmitVotes {
    type V = SubmitVotesView;

    closed spec fn deep_view(&self) -> SubmitVotesView {
        SubmitVotesView { session: self.session@ }
    }
}

impl SubmitVotes {
    /// Begins the submission of `votes` for the question set under `root`,
    /// with `suffix` as the second part of the batch's key.
    pub fn start_with(root: &str, votes: Vec<Vote>, policy: Policy, suffix: &str) -> (step: Step<
        SubmitVotes,
        Request,
        Session,
    >)
        ensures
            step.deep_view() == SubmitVotesView::start(root@, votes.deep_view(), policy, suffix@),
    {
        let key = composite(root, suffix);
        let session = Session::untimed(key.clone());
        Step::Ask(SubmitVotes { session }, Request::WriteVotes { key, votes, ttl: policy.ttl })
    }

    /// Begins the submission of `votes` for the question set under `root`,
    /// with a random suffix.
    pub fn start(root: &str, votes: Vec<Vote>, policy: Policy) -> (step: Step<
        SubmitVotes,
        Request,
        Session,
    >)
        ensures
            exists|suffix: Seq<char>|
                is_key(suffix) && step.deep_view() == #[trigger] SubmitVotesView::start(
                    root@,
                    votes.deep_view(),
                    policy,
                    suffix,
                ),
    {
        let suffix = generate();
        SubmitVotes::start_with(root, votes, policy, suffix.as_str())
    }

    /// Takes the reply to the write that is out and says how the submission
    /// ends.
    pub fn step(self, reply: Reply) -> (step: Step<SubmitVotes, Request, Session>)
        ensures
            step.deep_view() == self.deep_view().next(reply.deep_view()),
    {
        match reply {
            Reply::Stored => Step::Done(Ok(self.session)),
            _ => Step::Done(Err(PollError::StoreUnavailable)),
        }
    }
}

} // verus!
