//! The search for a root key that is not in use: candidates are drawn at
//! random and probed in the store, one after another, up to a limit.

use vstd::prelude::*;
use crate::error::PollError;
use crate::keys::{generate, is_key, lemma_key_is_separator_free, lemma_keys_exist, separator_free};
use crate::records::{expiry_spec, unix_now, Session, SessionView};
use crate::store::{Policy, Reply, ReplyView, Request, RequestView, Step};

verus! {

/// What a `KeySearch` holds, as plain values.
pub struct KeySearchView {
    pub candidate: Seq<char>,
    pub tried: nat,
    pub limit: nat,
    pub ttl: u64,
}

impl KeySearchView {
    /// The search before any reply, with `fresh` as its first candidate.
    /// Where the policy allows no attempt, the search is over at once.
    pub open spec fn start(policy: Policy, fresh: Seq<char>) -> Step<
        KeySearchView,
        RequestView,
        SessionView,
    > {
        if policy.attempts == 0 {
            Step::Done(Err(PollError::KeySpaceExhausted))
        } else {
            Step::Ask(
                KeySearchView {
                    candidate: fresh,
                    tried: 1,
                    limit: policy.attempts as nat,
                    ttl: policy.ttl,
                },
                RequestView::Probe { key: fresh },
            )
        }
    }

    /// What the search does with the reply to its probe, where `fresh` is the
    /// candidate that would be tried next and `now` is the Unix time.
    ///
    /// A candidate under which nothing is stored is accepted. One that is in
    /// use is given up for `fresh`, unless the limit is reached: then the
    /// search ends with `KeySpaceExhausted`. Any reply that does not answer
    /// the probe ends it with `StoreUnavailable`.
    pub open spec fn next(self, reply: ReplyView, fresh: Seq<char>, now: i64) -> Step<
        KeySearchView,
        RequestView,
        SessionView,
    > {
        match reply {
            ReplyView::Missing => Step::Done(
                Ok(
                    SessionView {
                        session: self.candidate,
                        lifetime: expiry_spec(now, self.ttl),
                    },
                ),
            ),
            ReplyView::Present | ReplyView::Questions(_) | ReplyView::Votes(_)
            | ReplyView::Malformed => {
                if self.tried < self.limit {
                    Step::Ask(
                        KeySearchView { candidate: fresh, tried: self.tried + 1, ..self },
                        RequestView::Probe { key: fresh },
                    )
                } else {
                    Step::Done(Err(PollError::KeySpaceExhausted))
                }
            },
            _ => Step::Done(Err(PollError::StoreUnavailable)),
        }
    }
}

/// The search keeps to keys as far as `step` shows: a candidate that is
/// held is a key and is the one that is probed, and a session that is handed
/// out has a key for its key.
pub open spec fn keeps_to_keys(step: Step<KeySearchView, RequestView, SessionView>) -> bool {
    match step {
        Step::Ask(search, request) => is_key(search.candidate) && request == (RequestView::Probe {
            key: search.candidate,
        }),
        Step::Done(Ok(session)) => is_key(session.session),
        Step::Done(Err(_)) => true,
    }
}

/// A search that begins with a key keeps to keys.
pub proof fn lemma_search_begins_with_key(policy: Policy, fresh: Seq<char>)
    requires
        is_key(fresh),
    ensures
        keeps_to_keys(KeySearchView::start(policy, fresh)),
{
}

/// A search whose candidate is a key goes on keeping to keys, as long as
/// the candidate that it would try next is a key: the key of the session
/// that it hands out is the candidate, and the next candidate is `fresh`.
pub proof fn lemma_search_keeps_to_keys(
    search: KeySearchView,
    reply: ReplyView,
    fresh: Seq<char>,
    now: i64,
)
    requires
        is_key(search.candidate),
        is_key(fresh),
    ensures
        keeps_to_keys(search.next(reply, fresh, now)),
{
}

/// What a store that holds records under the keys `taken` answers to a
/// probe of `key`.
pub open spec fn answer_probe(taken: Set<Seq<char>>, key: Seq<char>) -> ReplyView {
    if taken.contains(key) {
        ReplyView::Present
    } else {
        ReplyView::Missing
    }
}

/// Where a search stands after it has gone on against a store that holds
/// records under the keys `taken`, for as long as `supply` had a candidate
/// for it to try next. `now` is the Unix time.
pub open spec fn search_against(
    step: Step<KeySearchView, RequestView, SessionView>,
    taken: Set<Seq<char>>,
    supply: Seq<Seq<char>>,
    now: i64,
) -> Step<KeySearchView, RequestView, SessionView>
    decreases supply.len(),
{
    match step {
        Step::Ask(search, RequestView::Probe { key }) => {
            if supply.len() == 0 {
                step
            } else {
                search_against(
                    search.next(answer_probe(taken, key), supply.first(), now),
                    taken,
                    supply.drop_first(),
                    now,
                )
            }
        },
        _ => step,
    }
}

/// The whole of one unique-key generation against a store that holds records
/// under the keys `taken`: the search starts with the first candidate of
/// `supply` and takes each next one from it.
pub open spec fn unique_key(
    policy: Policy,
    taken: Set<Seq<char>>,
    supply: Seq<Seq<char>>,
    now: i64,
) -> Step<KeySearchView, RequestView, SessionView> {
    search_against(KeySearchView::start(policy, supply.first()), taken, supply.drop_first(), now)
}

proof fn lemma_search_accepts_free_key(
    step: Step<KeySearchView, RequestView, SessionView>,
    taken: Set<Seq<char>>,
    supply: Seq<Seq<char>>,
    now: i64,
)
    requires
        step matches Step::Ask(search, request) ==> request == (RequestView::Probe {
            key: search.candidate,
        }),
        step !is Done,
    ensures
        search_against(step, taken, supply, now) matches Step::Done(Ok(session))
            ==> !taken.contains(session.session),
    decreases supply.len(),
{
    if supply.len() > 0 {
        let search = step->Ask_0;
        let after = search.next(answer_probe(taken, search.candidate), supply.first(), now);
        if after is Done {
            assert(search_against(after, taken, supply.drop_first(), now) == after);
        } else {
            lemma_search_accepts_free_key(after, taken, supply.drop_first(), now);
        }
    }
}

proof fn lemma_search_against_keeps_to_keys(
    step: Step<KeySearchView, RequestView, SessionView>,
    taken: Set<Seq<char>>,
    supply: Seq<Seq<char>>,
    now: i64,
)
    requires
        keeps_to_keys(step),
        forall|i: int| 0 <= i < supply.len() ==> is_key(#[trigger] supply[i]),
    ensures
        keeps_to_keys(search_against(step, taken, supply, now)),
    decreases supply.len(),
{
    if supply.len() > 0 {
        if let Step::Ask(search, _) = step {
            let after = search.next(answer_probe(taken, search.candidate), supply.first(), now);
            lemma_search_keeps_to_keys(
                search,
                answer_probe(taken, search.candidate),
                supply.first(),
                now,
            );
            assert forall|i: int| 0 <= i < supply.drop_first().len() implies is_key(
                #[trigger] supply.drop_first()[i],
            ) by {
                assert(supply.drop_first()[i] == supply[i + 1]);
            }
            lemma_search_against_keeps_to_keys(after, taken, supply.drop_first(), now);
        }
    }
}

/// A unique-key generation whose candidates are keys ends, where it ends
/// with a session, with a root key: six characters of the alphabet, none of
/// them the separator.
pub proof fn lemma_unique_key_is_key(
    policy: Policy,
    taken: Set<Seq<char>>,
    supply: Seq<Seq<char>>,
    now: i64,
)
    requires
        supply.len() > 0,
        forall|i: int| 0 <= i < supply.len() ==> is_key(#[trigger] supply[i]),
    ensures
        unique_key(policy, taken, supply, now) matches Step::Done(Ok(session)) ==> is_key(
            session.session,
        ) && separator_free(session.session),
{
    lemma_search_begins_with_key(policy, supply.first());
    assert forall|i: int| 0 <= i < supply.drop_first().len() implies is_key(
        #[trigger] supply.drop_first()[i],
    ) by {
        assert(supply.drop_first()[i] == supply[i + 1]);
    }
    lemma_search_against_keeps_to_keys(
        KeySearchView::start(policy, supply.first()),
        taken,
        supply.drop_first(),
        now,
    );
    if let Step::Done(Ok(session)) = unique_key(policy, taken, supply, now) {
        lemma_key_is_separator_free(session.session);
    }
}

/// A unique-key generation that ends with a session ends with a key under
/// which the store holds nothing.
pub proof fn lemma_unique_key_is_free(
    policy: Policy,
    taken: Set<Seq<char>>,
    supply: Seq<Seq<char>>,
    now: i64,
)
    ensures
        unique_key(policy, taken, supply, now) matches Step::Done(Ok(session))
            ==> !taken.contains(session.session),
{
    let begun = KeySearchView::start(policy, supply.first());
    if begun !is Done {
        lemma_search_accepts_free_key(begun, taken, supply.drop_first(), now);
    }
}

/// The keys of the first `done` of `sessions`.
pub open spec fn keys_before(sessions: Seq<SessionView>, done: int) -> Set<Seq<char>> {
    Set::new(|key: Seq<char>| exists|i: int| 0 <= i < done && #[trigger] sessions[i].session == key)
}

/// Unique-key generations that follow one another against a store that was
/// empty at first give pairwise distinct keys, as long as each key is
/// written to the store before the next generation begins and no record
/// leaves the store in between.
pub proof fn lemma_unique_keys_differ(
    policy: Policy,
    supplies: Seq<Seq<Seq<char>>>,
    clocks: Seq<i64>,
    sessions: Seq<SessionView>,
)
    requires
        supplies.len() == sessions.len(),
        clocks.len() == sessions.len(),
        forall|i: int|
            0 <= i < sessions.len() ==> #[trigger] unique_key(
                policy,
                keys_before(sessions, i),
                supplies[i],
                clocks[i],
            ) == Step::<KeySearchView, RequestView, SessionView>::Done(Ok(sessions[i])),
    ensures
        forall|i: int, j: int|
            0 <= i < j < sessions.len() ==> sessions[i].session != sessions[j].session,
{
    assert forall|i: int, j: int| 0 <= i < j < sessions.len() implies sessions[i].session
        != sessions[j].session by {
        let taken = keys_before(sessions, j);
        lemma_unique_key_is_free(policy, taken, supplies[j], clocks[j]);
        assert(unique_key(policy, taken, supplies[j], clocks[j]) == Step::<
            KeySearchView,
            RequestView,
            SessionView,
        >::Done(Ok(sessions[j])));
    }
}

/// A search for a free root key in progress.
#[derive(Debug)]
pub struct KeySearch {
    candidate: String,
    tried: u32,
    limit: u32,
    ttl: u64,
}

impl DeepView for KeySearch {
    type V = KeySearchView;

    closed spec fn deep_view(&self) -> KeySearchView {
        KeySearchView {
            candidate: self.candidate@,
            tried: self.tried as nat,
            limit: self.limit as nat,
            ttl: self.ttl,
        }
    }
}

impl KeySearch {
    /// Begins a search with `fresh` as its first candidate.
    pub fn start_with(policy: Policy, fresh: String) -> (step: Step<KeySearch, Request, Session>)
        ensures
            step.deep_view() == KeySearchView::start(policy, fresh@),
    {
        if policy.attempts == 0 {
            Step::Done(Err(PollError::KeySpaceExhausted))
        } else {
            let key = fresh.clone();
            Step::Ask(
                KeySearch { candidate: fresh, tried: 1, limit: policy.attempts, ttl: policy.ttl },
                Request::Probe { key },
            )
        }
    }

    /// Begins a search with a random first candidate. Where the policy
    /// allows no attempt, none is drawn.
    pub fn start(policy: Policy) -> (step: Step<KeySearch, Request, Session>)
        ensures
            exists|fresh: Seq<char>|
                is_key(fresh) && step.deep_view() == #[trigger] KeySearchView::start(policy, fresh),
            keeps_to_keys(step.deep_view()),
    {
        if policy.attempts == 0 {
            proof {
                lemma_keys_exist();
                let spare = choose|key: Seq<char>| is_key(key);
                assert(KeySearchView::start(policy, spare) == Step::<
                    KeySearchView,
                    RequestView,
                    SessionView,
                >::Done(Err(PollError::KeySpaceExhausted)));
            }
            Step::Done(Err(PollError::KeySpaceExhausted))
        } else {
            KeySearch::start_with(policy, generate())
        }
    }

    /// Gives up the candidate for `fresh` and probes that.
    fn try_next(self, fresh: String) -> (step: Step<KeySearch, Request, Session>)
        requires
            self.deep_view().tried < self.deep_view().limit,
        ensures
            step.deep_view() == Step::<KeySearchView, RequestView, SessionView>::Ask(
                KeySearchView {
                    candidate: fresh@,
                    tried: self.deep_view().tried + 1,
                    ..self.deep_view()
                },
                RequestView::Probe { key: fresh@ },
            ),
    {
        let key = fresh.clone();
        Step::Ask(
            KeySearch {
                candidate: fresh,
                tried: self.tried + 1,
                limit: self.limit,
                ttl: self.ttl,
            },
            Request::Probe { key },
        )
    }

    /// Takes the reply to the probe that is out and says what comes next,
    /// where `fresh` is the candidate to try next and `now` is the Unix time.
    pub fn advance(self, reply: Reply, fresh: String, now: i64) -> (step: Step<
        KeySearch,
        Request,
        Session,
    >)
        ensures
            step.deep_view() == self.deep_view().next(reply.deep_view(), fresh@, now),
    {
        match reply {
            Reply::Missing => Step::Done(Ok(Session::new(self.candidate, now, self.ttl))),
            Reply::Present | Reply::Questions(_) | Reply::Votes(_) | Reply::Malformed => {
                if self.tried < self.limit {
                    self.try_next(fresh)
                } else {
                    Step::Done(Err(PollError::KeySpaceExhausted))
                }
            },
            _ => Step::Done(Err(PollError::StoreUnavailable)),
        }
    }

    /// Takes the reply to the probe that is out and says what comes next. A
    /// candidate to try next is drawn at random where the one that was probed
    /// is in use and the limit allows another, and the time is read from the
    /// clock where the one that was probed is accepted.
    pub fn step(self, reply: Reply) -> (step: Step<KeySearch, Request, Session>)
        ensures
            exists|fresh: Seq<char>, now: i64|
                is_key(fresh) && step.deep_view() == #[trigger] self.deep_view().next(
                    reply.deep_view(),
                    fresh,
                    now,
                ),
            is_key(self.deep_view().candidate) ==> keeps_to_keys(step.deep_view()),
    {
        let ghost before = self.deep_view();
        let ghost given = reply.deep_view();
        let ghost spare = choose|key: Seq<char>| is_key(key);
        proof {
            lemma_keys_exist();
        }
        match reply {
            Reply::Missing => {
                let now = unix_now();
                let step = Step::Done(Ok(Session::new(self.candidate, now, self.ttl)));
                assert(step.deep_view() == before.next(given, spare, now));
                step
            },
            Reply::Present | Reply::Questions(_) | Reply::Votes(_) | Reply::Malformed => {
                if self.tried < self.limit {
                    let fresh = generate();
                    let step = self.try_next(fresh);
                    assert(step.deep_view() == before.next(given, fresh@, 0));
                    step
                } else {
                    assert(before.next(given, spare, 0) == Step::<
                        KeySearchView,
                        RequestView,
                        SessionView,
                    >::Done(Err(PollError::KeySpaceExhausted)));
                    Step::Done(Err(PollError::KeySpaceExhausted))
                }
            },
            _ => {
                assert(before.next(given, spare, 0) == Step::<
                    KeySearchView,
                    RequestView,
                    SessionView,
                >::Done(Err(PollError::StoreUnavailable)));
                Step::Done(Err(PollError::StoreUnavailable))
            },
        }
    }
}

} // verus!
