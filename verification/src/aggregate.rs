//! The tally of one question set: read the question set, list every vote
//! batch that is named after it, read each batch, and count.

use vstd::prelude::*;
use crate::error::PollError;
use crate::keys::{prefix_of, prefix_of_spec};
use crate::records::{Question, QuestionView, Score, VoteView};
use crate::store::{Reply, ReplyView, Request, RequestView, Step};
use crate::tally::{cast_counts, count_votes, lemma_count_votes_concat, tally_of, Tally};

verus! {

/// What a `TallyResult` holds, as plain values.
pub struct TallyResultView {
    pub questions: Seq<QuestionView>,
    pub tally: Map<Seq<char>, Map<Seq<char>, nat>>,
}

/// A question set and the counts of the votes that were cast on its answers.
#[derive(Debug, PartialEq, Eq)]
pub struct TallyResult {
    pub questions: Vec<Question>,
    pub tally: Tally,
}

impl DeepView for TallyResult {
    type V = TallyResultView;

    open spec fn deep_view(&self) -> TallyResultView {
        TallyResultView { questions: self.questions.deep_view(), tally: self.tally@ }
    }
}

/// Where a tally run stands.
#[derive(Debug, Clone, Copy, PartialEq, Eq, Structural)]
pub enum Phase {
    /// The question set was asked for.
    Root,
    /// A page of the listing was asked for.
    Listing,
    /// A vote batch was asked for.
    Reading,
}

/// What a `ComputeTally` holds, as plain values.
pub struct ComputeTallyView {
    pub root: Seq<char>,
    pub phase: Phase,
    pub questions: Seq<QuestionView>,
    pub keys: Seq<Seq<char>>,
    pub read: nat,
    pub votes: Seq<VoteView>,
}

impl ComputeTallyView {
    /// The run before any reply: the question set of `root` is asked for.
    pub open spec fn start(root: Seq<char>) -> Step<ComputeTallyView, RequestView, TallyResultView> {
        Step::Ask(
            ComputeTallyView {
                root,
                phase: Phase::Root,
                questions: Seq::empty(),
                keys: Seq::empty(),
                read: 0,
                votes: Seq::empty(),
            },
            RequestView::ReadQuestions { key: root },
        )
    }

    /// What follows once `read` of the listed keys are dealt with: the next
    /// listed key is read, or, where none is left, the run ends with the
    /// tally of the votes that were found.
    pub open spec fn proceed(self) -> Step<ComputeTallyView, RequestView, TallyResultView> {
        if self.read < self.keys.len() {
            Step::Ask(self, RequestView::ReadVotes { key: self.keys[self.read as int] })
        } else {
            Step::Done(
                Ok(TallyResultView { questions: self.questions, tally: tally_of(self.votes) }),
            )
        }
    }

    /// What the run does with a reply.
    ///
    /// A missing question set ends the run with `NotFound`. A page that is
    /// not the last is followed by the page of its cursor, so the run never
    /// reads a batch before the listing is complete. A vote batch that is
    /// missing when it is read is passed over. A record of the wrong kind ends
    /// the run with `MalformedPayload`, and any other reply that does not
    /// answer the request ends it with `StoreUnavailable`.
    ///
    /// Every vote of every batch is counted under the answer that it names,
    /// whether the question set holds such an answer or not.
    pub open spec fn next(self, reply: ReplyView) -> Step<
        ComputeTallyView,
        RequestView,
        TallyResultView,
    > {
        match self.phase {
            Phase::Root => match reply {
                ReplyView::Questions(questions) => Step::Ask(
                    ComputeTallyView { phase: Phase::Listing, questions, ..self },
                    RequestView::ListKeys { prefix: prefix_of_spec(self.root), cursor: None },
                ),
                ReplyView::Missing => Step::Done(Err(PollError::NotFound)),
                ReplyView::Votes(_) | ReplyView::Malformed => Step::Done(
                    Err(PollError::MalformedPayload),
                ),
                _ => Step::Done(Err(PollError::StoreUnavailable)),
            },
            Phase::Listing => match reply {
                ReplyView::Page { keys, list_complete, cursor } => {
                    let listed = self.keys + keys;
                    if list_complete {
                        ComputeTallyView { phase: Phase::Reading, keys: listed, ..self }.proceed()
                    } else {
                        match cursor {
                            Some(cursor) => Step::Ask(
                                ComputeTallyView { keys: listed, ..self },
                                RequestView::ListKeys {
                                    prefix: prefix_of_spec(self.root),
                                    cursor: Some(cursor),
                                },
                            ),
                            None => Step::Done(Err(PollError::StoreUnavailable)),
                        }
                    }
                },
                _ => Step::Done(Err(PollError::StoreUnavailable)),
            },
            Phase::Reading => match reply {
                ReplyView::Votes(batch) => ComputeTallyView {
                    votes: self.votes + batch,
                    read: self.read + 1,
                    ..self
                }.proceed(),
                ReplyView::Missing => ComputeTallyView { read: self.read + 1, ..self }.proceed(),
                ReplyView::Questions(_) | ReplyView::Malformed => Step::Done(
                    Err(PollError::MalformedPayload),
                ),
                _ => Step::Done(Err(PollError::StoreUnavailable)),
            },
        }
    }
}

/// The request that is out at a step, if the operation is not over.
pub open spec fn asked<M, T>(step: Step<M, RequestView, T>) -> Option<RequestView> {
    match step {
        Step::Ask(_, request) => Some(request),
        Step::Done(_) => None,
    }
}

/// Where a run stands after `replies` were handed to it one after another,
/// each to the step that the one before led to. Replies that come after the
/// end change nothing.
pub open spec fn after_replies(
    step: Step<ComputeTallyView, RequestView, TallyResultView>,
    replies: Seq<ReplyView>,
) -> Step<ComputeTallyView, RequestView, TallyResultView>
    decreases replies.len(),
{
    if replies.len() == 0 {
        step
    } else {
        match step {
            Step::Ask(run, _) => after_replies(run.next(replies.first()), replies.drop_first()),
            Step::Done(_) => step,
        }
    }
}

/// The keys that a reply lists: those of a page, and none for any other
/// reply.
pub open spec fn keys_of(reply: ReplyView) -> Seq<Seq<char>> {
    match reply {
        ReplyView::Page { keys, .. } => keys,
        _ => Seq::empty(),
    }
}

/// The cursor that a reply hands on: that of a page, and none for any other
/// reply.
pub open spec fn cursor_of(reply: ReplyView) -> Option<Seq<char>> {
    match reply {
        ReplyView::Page { cursor, .. } => cursor,
        _ => None,
    }
}

/// The votes that a reply holds: those of a vote batch, and none for any
/// other reply.
pub open spec fn votes_of(reply: ReplyView) -> Seq<VoteView> {
    match reply {
        ReplyView::Votes(votes) => votes,
        _ => Seq::empty(),
    }
}

/// All keys of a sequence of pages, in the order in which they were listed.
pub open spec fn listed_keys(pages: Seq<ReplyView>) -> Seq<Seq<char>> {
    pages.map_values(|page: ReplyView| keys_of(page)).flatten()
}

/// All votes of a sequence of replies to reads, in the order in which they
/// were read.
pub open spec fn votes_found(reads: Seq<ReplyView>) -> Seq<VoteView> {
    reads.map_values(|read: ReplyView| votes_of(read)).flatten()
}

/// Every reply is a page that is not the last of its listing and hands on a
/// cursor.
pub open spec fn pages_go_on(pages: Seq<ReplyView>) -> bool {
    forall|i: int|
        0 <= i < pages.len() ==> (#[trigger] pages[i] matches ReplyView::Page {
            list_complete,
            cursor,
            ..
        } && !list_complete && cursor is Some)
}

/// The replies are the pages of one whole listing: each but the last hands on
/// a cursor, and the last says that the listing is complete.
pub open spec fn whole_listing(pages: Seq<ReplyView>) -> bool {
    &&& pages.len() > 0
    &&& pages_go_on(pages.drop_last())
    &&& pages.last() matches ReplyView::Page { list_complete, .. } && list_complete
}

/// Every reply is a vote batch or says that the batch is missing.
pub open spec fn reads_answered(reads: Seq<ReplyView>) -> bool {
    forall|i: int|
        0 <= i < reads.len() ==> (#[trigger] reads[i] is Votes || reads[i] is Missing)
}

/// The replies of one whole run: the question set, then the pages of the
/// listing, then one reply for each listed key.
pub open spec fn whole_run(
    questions: Seq<QuestionView>,
    pages: Seq<ReplyView>,
    reads: Seq<ReplyView>,
) -> Seq<ReplyView> {
    seq![ReplyView::Questions(questions)] + pages + reads
}

/// The request that a whole run makes after `done` of its replies: first for
/// the question set, then for each page by the cursor of the page before it,
/// then for each listed key in the order of the listing.
pub open spec fn request_after(root: Seq<char>, pages: Seq<ReplyView>, done: int) -> RequestView {
    if done == 0 {
        RequestView::ReadQuestions { key: root }
    } else if done == 1 {
        RequestView::ListKeys { prefix: prefix_of_spec(root), cursor: None }
    } else if done <= pages.len() {
        RequestView::ListKeys { prefix: prefix_of_spec(root), cursor: cursor_of(pages[done - 2]) }
    } else {
        RequestView::ReadVotes { key: listed_keys(pages)[done - 1 - pages.len()] }
    }
}

proof fn lemma_after_replies_concat(
    step: Step<ComputeTallyView, RequestView, TallyResultView>,
    first: Seq<ReplyView>,
    second: Seq<ReplyView>,
)
    ensures
        after_replies(step, first + second) == after_replies(after_replies(step, first), second),
    decreases first.len(),
{
    if first.len() > 0 {
        if let Step::Ask(run, _) = step {
            assert((first + second).drop_first() =~= first.drop_first() + second);
            lemma_after_replies_concat(run.next(first.first()), first.drop_first(), second);
        }
    }
}

proof fn lemma_after_one_reply(run: ComputeTallyView, request: RequestView, reply: ReplyView)
    ensures
        after_replies(Step::Ask(run, request), seq![reply]) == run.next(reply),
{
    reveal_with_fuel(after_replies, 2);
}

proof fn lemma_listed_keys_push(pages: Seq<ReplyView>, page: ReplyView)
    ensures
        listed_keys(pages.push(page)) == listed_keys(pages) + keys_of(page),
{
    let keys = |page: ReplyView| keys_of(page);
    assert(pages.push(page).map_values(keys) =~= pages.map_values(keys).push(keys_of(page)));
    pages.map_values(keys).lemma_flatten_push(keys_of(page));
}

proof fn lemma_votes_found_push(reads: Seq<ReplyView>, read: ReplyView)
    ensures
        votes_found(reads.push(read)) == votes_found(reads) + votes_of(read),
{
    let votes = |read: ReplyView| votes_of(read);
    assert(reads.push(read).map_values(votes) =~= reads.map_values(votes).push(votes_of(read)));
    reads.map_values(votes).lemma_flatten_push(votes_of(read));
}

/// While pages hand on cursors, the run keeps listing: it gathers their keys
/// and asks for the page of the last cursor.
proof fn lemma_listing_goes_on(run: ComputeTallyView, request: RequestView, pages: Seq<ReplyView>)
    requires
        run.phase == Phase::Listing,
        pages_go_on(pages),
    ensures
        after_replies(Step::Ask(run, request), pages) == Step::<
            ComputeTallyView,
            RequestView,
            TallyResultView,
        >::Ask(
            ComputeTallyView { keys: run.keys + listed_keys(pages), ..run },
            if pages.len() == 0 {
                request
            } else {
                RequestView::ListKeys {
                    prefix: prefix_of_spec(run.root),
                    cursor: cursor_of(pages.last()),
                }
            },
        ),
    decreases pages.len(),
{
    if pages.len() > 0 {
        let step = Step::<ComputeTallyView, RequestView, TallyResultView>::Ask(run, request);
        let front = pages.drop_last();
        let last = pages.last();
        assert(pages =~= front + seq![last]);
        assert(pages_go_on(front));
        lemma_listing_goes_on(run, request, front);
        lemma_after_replies_concat(step, front, seq![last]);
        assert(front.push(last) =~= pages);
        lemma_listed_keys_push(front, last);
        let gathered = ComputeTallyView { keys: run.keys + listed_keys(front), ..run };
        let middle = after_replies(step, front);
        lemma_after_one_reply(gathered, middle->Ask_1, last);
        assert(run.keys + listed_keys(front) + keys_of(last) =~= run.keys + (listed_keys(front)
            + keys_of(last)));
    }
}

/// While listed keys are left, each reply to a read moves the run on by one
/// key and adds the votes that the reply holds.
proof fn lemma_reading_goes_on(run: ComputeTallyView, reads: Seq<ReplyView>)
    requires
        run.phase == Phase::Reading,
        run.read + reads.len() <= run.keys.len(),
        reads_answered(reads),
    ensures
        after_replies(run.proceed(), reads) == (ComputeTallyView {
            read: run.read + reads.len(),
            votes: run.votes + votes_found(reads),
            ..run
        }).proceed(),
    decreases reads.len(),
{
    if reads.len() > 0 {
        let front = reads.drop_last();
        let last = reads.last();
        assert(reads =~= front + seq![last]);
        assert(reads_answered(front));
        lemma_reading_goes_on(run, front);
        lemma_after_replies_concat(run.proceed(), front, seq![last]);
        assert(front.push(last) =~= reads);
        lemma_votes_found_push(front, last);
        let gathered = ComputeTallyView {
            read: run.read + front.len(),
            votes: run.votes + votes_found(front),
            ..run
        };
        lemma_after_one_reply(gathered, gathered.proceed()->Ask_1, last);
        assert(run.votes + votes_found(front) + votes_of(last) =~= run.votes + (votes_found(front)
            + votes_of(last)));
    }
}

/// The run as it stands when the listing is complete and no key is read yet.
pub open spec fn listed(
    root: Seq<char>,
    questions: Seq<QuestionView>,
    keys: Seq<Seq<char>>,
) -> ComputeTallyView {
    ComputeTallyView {
        root,
        phase: Phase::Reading,
        questions,
        keys,
        read: 0,
        votes: Seq::empty(),
    }
}

proof fn lemma_after_questions(root: Seq<char>, questions: Seq<QuestionView>)
    ensures
        after_replies(ComputeTallyView::start(root), seq![ReplyView::Questions(questions)])
            == Step::<ComputeTallyView, RequestView, TallyResultView>::Ask(
            ComputeTallyView { phase: Phase::Listing, ..listed(root, questions, Seq::empty()) },
            RequestView::ListKeys { prefix: prefix_of_spec(root), cursor: None },
        ),
{
    let begun = ComputeTallyView::start(root);
    lemma_after_one_reply(begun->Ask_0, begun->Ask_1, ReplyView::Questions(questions));
}

proof fn lemma_after_listing(
    root: Seq<char>,
    questions: Seq<QuestionView>,
    pages: Seq<ReplyView>,
)
    requires
        whole_listing(pages),
    ensures
        after_replies(ComputeTallyView::start(root), seq![ReplyView::Questions(questions)] + pages)
            == listed(root, questions, listed_keys(pages)).proceed(),
{
    let begun = ComputeTallyView::start(root);
    let first = seq![ReplyView::Questions(questions)];
    let front = pages.drop_last();
    let last = pages.last();
    let listing = ComputeTallyView {
        phase: Phase::Listing,
        ..listed(root, questions, Seq::empty())
    };
    let request = RequestView::ListKeys { prefix: prefix_of_spec(root), cursor: None };
    lemma_after_questions(root, questions);
    lemma_after_replies_concat(begun, first, pages);
    assert(pages =~= front + seq![last]);
    lemma_after_replies_concat(Step::Ask(listing, request), front, seq![last]);
    lemma_listing_goes_on(listing, request, front);
    let gathered = ComputeTallyView { keys: listing.keys + listed_keys(front), ..listing };
    let middle = after_replies(Step::Ask(listing, request), front);
    lemma_after_one_reply(gathered, middle->Ask_1, last);
    assert(front.push(last) =~= pages);
    lemma_listed_keys_push(front, last);
}

/// A whole run ends well, with the question set that it read and the tally
/// of every vote of every batch that was found under a listed key, whatever
/// the number of pages that the listing took.
pub proof fn lemma_whole_run_counts_every_batch(
    root: Seq<char>,
    questions: Seq<QuestionView>,
    pages: Seq<ReplyView>,
    reads: Seq<ReplyView>,
)
    requires
        whole_listing(pages),
        reads.len() == listed_keys(pages).len(),
        reads_answered(reads),
    ensures
        after_replies(ComputeTallyView::start(root), whole_run(questions, pages, reads))
            == Step::<ComputeTallyView, RequestView, TallyResultView>::Done(
            Ok(TallyResultView { questions, tally: tally_of(votes_found(reads)) }),
        ),
{
    let begun = ComputeTallyView::start(root);
    let first = seq![ReplyView::Questions(questions)];
    let run = listed(root, questions, listed_keys(pages));
    lemma_after_listing(root, questions, pages);
    lemma_after_replies_concat(begun, first + pages, reads);
    lemma_reading_goes_on(run, reads);
}

/// In a whole run every request is the one that the replies before it call
/// for: the question set of the root, then each page of the listing under
/// the root's prefix by the cursor that the page before it handed on, then
/// each listed key, one after another.
pub proof fn lemma_whole_run_requests(
    root: Seq<char>,
    questions: Seq<QuestionView>,
    pages: Seq<ReplyView>,
    reads: Seq<ReplyView>,
    done: int,
)
    requires
        whole_listing(pages),
        reads.len() == listed_keys(pages).len(),
        reads_answered(reads),
        0 <= done < whole_run(questions, pages, reads).len(),
    ensures
        asked(
            after_replies(
                ComputeTallyView::start(root),
                whole_run(questions, pages, reads).take(done),
            ),
        ) == Some(request_after(root, pages, done)),
{
    let begun = ComputeTallyView::start(root);
    let first = seq![ReplyView::Questions(questions)];
    let replies = whole_run(questions, pages, reads);
    if 0 < done <= pages.len() {
        let some = pages.take(done - 1);
        assert(replies.take(done) =~= first + some);
        let listing = ComputeTallyView {
            phase: Phase::Listing,
            ..listed(root, questions, Seq::empty())
        };
        let request = RequestView::ListKeys { prefix: prefix_of_spec(root), cursor: None };
        lemma_after_questions(root, questions);
        lemma_after_replies_concat(begun, first, some);
        assert(pages_go_on(some));
        lemma_listing_goes_on(listing, request, some);
    } else if done > pages.len() {
        let some = reads.take(done - 1 - pages.len());
        let run = listed(root, questions, listed_keys(pages));
        assert(replies.take(done) =~= first + pages + some);
        lemma_after_listing(root, questions, pages);
        lemma_after_replies_concat(begun, first + pages, some);
        assert(reads_answered(some));
        lemma_reading_goes_on(run, some);
    }
}

/// A run never ends well on a failure of the store: whatever was gathered
/// before is given up, and the run ends with `StoreUnavailable`.
pub proof fn lemma_store_failure_ends_run(run: ComputeTallyView)
    ensures
        run.next(ReplyView::Unavailable) == Step::<
            ComputeTallyView,
            RequestView,
            TallyResultView,
        >::Done(Err(PollError::StoreUnavailable)),
{
}

/// A run ends well only when nothing is left to ask for: on the last page of
/// a listing that named no key that is still to be read, or on the reply to
/// the read of the last listed key.
pub proof fn lemma_run_ends_well_only_when_all_is_read(run: ComputeTallyView, reply: ReplyView)
    requires
        run.next(reply) matches Step::Done(Ok(_)),
    ensures
        match run.phase {
            Phase::Root => false,
            Phase::Listing => reply matches ReplyView::Page { keys, list_complete, .. }
                && list_complete && run.read >= run.keys.len() + keys.len(),
            Phase::Reading => (reply is Votes || reply is Missing) && run.read + 1
                >= run.keys.len(),
        },
{
}

/// What a store that holds the vote batches `stored` answers when the batch
/// under `key` is read.
pub open spec fn answer_read(stored: Map<Seq<char>, Seq<VoteView>>, key: Seq<char>) -> ReplyView {
    if stored.dom().contains(key) {
        ReplyView::Votes(stored[key])
    } else {
        ReplyView::Missing
    }
}

/// What a store that holds the vote batches `stored` answers when the
/// batches under `keys` are read one after another.
pub open spec fn reads_from(
    stored: Map<Seq<char>, Seq<VoteView>>,
    keys: Seq<Seq<char>>,
) -> Seq<ReplyView> {
    keys.map_values(|key: Seq<char>| answer_read(stored, key))
}

/// One step of counting, key by key, the stored entries that are cast on
/// `answer` and choose `value`.
pub open spec fn key_step(
    stored: Map<Seq<char>, Seq<VoteView>>,
    answer: Seq<char>,
    value: Seq<char>,
) -> spec_fn(nat, Seq<char>) -> nat {
    |so_far: nat, key: Seq<char>|
        so_far + count_votes(votes_of(answer_read(stored, key)), answer, value)
}

proof fn lemma_count_votes_by_key(
    stored: Map<Seq<char>, Seq<VoteView>>,
    keys: Seq<Seq<char>>,
    answer: Seq<char>,
    value: Seq<char>,
)
    ensures
        count_votes(votes_found(reads_from(stored, keys)), answer, value) == keys.fold_left(
            0nat,
            key_step(stored, answer, value),
        ),
    decreases keys.len(),
{
    if keys.len() == 0 {
    } else {
        let front = keys.drop_last();
        let last = answer_read(stored, keys.last());
        lemma_count_votes_by_key(stored, front, answer, value);
        assert(reads_from(stored, keys) =~= reads_from(stored, front).push(last));
        lemma_votes_found_push(reads_from(stored, front), last);
        lemma_count_votes_concat(
            votes_found(reads_from(stored, front)),
            votes_of(last),
            answer,
            value,
        );
    }
}

proof fn lemma_same_keys_same_multiset(first: Seq<Seq<char>>, second: Seq<Seq<char>>)
    requires
        first.no_duplicates(),
        second.no_duplicates(),
        first.to_set() == second.to_set(),
    ensures
        first.to_multiset() == second.to_multiset(),
{
    first.lemma_multiset_has_no_duplicates();
    second.lemma_multiset_has_no_duplicates();
    assert forall|key: Seq<char>|
        first.to_multiset().count(key) == second.to_multiset().count(key) by {
        vstd::seq_lib::to_multiset_contains(first, key);
        vstd::seq_lib::to_multiset_contains(second, key);
        assert(first.contains(key) == first.to_set().contains(key));
        assert(second.contains(key) == second.to_set().contains(key));
    }
}

/// The tally depends on what is stored, not on how the store lists it: two
/// listings that name the same keys, each once, in whatever order, lead to
/// the same tally when the batches are read from the same store.
pub proof fn lemma_same_store_same_tally(
    stored: Map<Seq<char>, Seq<VoteView>>,
    first: Seq<Seq<char>>,
    second: Seq<Seq<char>>,
)
    requires
        first.no_duplicates(),
        second.no_duplicates(),
        first.to_set() == second.to_set(),
    ensures
        tally_of(votes_found(reads_from(stored, first))) == tally_of(
            votes_found(reads_from(stored, second)),
        ),
{
    let one = cast_counts(votes_found(reads_from(stored, first)));
    let other = cast_counts(votes_found(reads_from(stored, second)));
    lemma_same_keys_same_multiset(first, second);
    assert forall|a: Seq<char>, v: Seq<char>| #[trigger] one(a, v) == other(a, v) by {
        lemma_count_votes_by_key(stored, first, a, v);
        lemma_count_votes_by_key(stored, second, a, v);
        vstd::seq_lib::lemma_fold_left_permutation(first, second, key_step(stored, a, v), 0nat);
    }
    assert(one =~= other);
}

/// Two whole runs for one root over the same stored question set and vote
/// batches end with the same result, whatever the pages that each listing
/// came in and whatever the order in which each named the keys.
pub proof fn lemma_runs_over_same_store_agree(
    root: Seq<char>,
    questions: Seq<QuestionView>,
    stored: Map<Seq<char>, Seq<VoteView>>,
    first: Seq<ReplyView>,
    second: Seq<ReplyView>,
)
    requires
        whole_listing(first),
        whole_listing(second),
        listed_keys(first).no_duplicates(),
        listed_keys(second).no_duplicates(),
        listed_keys(first).to_set() == listed_keys(second).to_set(),
    ensures
        after_replies(
            ComputeTallyView::start(root),
            whole_run(questions, first, reads_from(stored, listed_keys(first))),
        ) == after_replies(
            ComputeTallyView::start(root),
            whole_run(questions, second, reads_from(stored, listed_keys(second))),
        ),
{
    lemma_whole_run_counts_every_batch(
        root,
        questions,
        first,
        reads_from(stored, listed_keys(first)),
    );
    lemma_whole_run_counts_every_batch(
        root,
        questions,
        second,
        reads_from(stored, listed_keys(second)),
    );
    lemma_same_store_same_tally(stored, listed_keys(first), listed_keys(second));
}

/// A tally in progress.
#[derive(Debug)]
pub struct ComputeTally {
    root: String,
    phase: Phase,
    score: Score,
    keys: Vec<String>,
    read: usize,
}

impl DeepView for ComputeTally {
    type V = ComputeTallyView;

    closed spec fn deep_view(&self) -> ComputeTallyView {
        ComputeTallyView {
            root: self.root@,
            phase: self.phase,
            questions: self.score.questions.deep_view(),
            keys: self.keys.deep_view(),
            read: self.read as nat,
            votes: self.score.votes.deep_view(),
        }
    }
}

impl ComputeTally {
    #[verifier::type_invariant]
    spec fn in_step(self) -> bool {
        if self.phase == Phase::Reading {
            self.read < self.keys@.len()
        } else {
            self.read == 0
        }
    }

    /// Begins the tally of the question set under `root`.
    pub fn start(root: &str) -> (step: Step<ComputeTally, Request, TallyResult>)
        ensures
            step.deep_view() == ComputeTallyView::start(root@),
    {
        let run = ComputeTally {
            root: root.to_owned(),
            phase: Phase::Root,
            score: Score { questions: Vec::new(), votes: Vec::new() },
            keys: Vec::new(),
            read: 0,
        };
        proof {
            assert(run.score.questions.deep_view() =~= Seq::<QuestionView>::empty());
            assert(run.score.votes.deep_view() =~= Seq::<VoteView>::empty());
            assert(run.keys.deep_view() =~= Seq::<Seq<char>>::empty());
        }
        Step::Ask(run, Request::ReadQuestions { key: root.to_owned() })
    }

    /// Goes on once `read` of the listed keys are dealt with.
    fn proceed(root: String, score: Score, keys: Vec<String>, read: usize) -> (step: Step<
        ComputeTally,
        Request,
        TallyResult,
    >)
        requires
            read <= keys@.len(),
        ensures
            step.deep_view() == (ComputeTallyView {
                root: root@,
                phase: Phase::Reading,
                questions: score.questions.deep_view(),
                keys: keys.deep_view(),
                read: read as nat,
                votes: score.votes.deep_view(),
            }).proceed(),
    {
        if read < keys.len() {
            let key = keys[read].clone();
            Step::Ask(
                ComputeTally { root, phase: Phase::Reading, score, keys, read },
                Request::ReadVotes { key },
            )
        } else {
            let tally = score.tally();
            Step::Done(Ok(TallyResult { questions: score.questions, tally }))
        }
    }

    /// Takes the reply to the request that is out and says what comes next.
    pub fn step(self, reply: Reply) -> (step: Step<ComputeTally, Request, TallyResult>)
        ensures
            step.deep_view() == self.deep_view().next(reply.deep_view()),
    {
        proof {
            use_type_invariant(&self);
        }
        let ComputeTally { root, phase, mut score, mut keys, read } = self;
        assert(phase == Phase::Reading ==> read < keys.len());
        match phase {
            Phase::Root => match reply {
                Reply::Questions(questions) => {
                    score.questions = questions;
                    let prefix = prefix_of(root.as_str());
                    Step::Ask(
                        ComputeTally { root, phase: Phase::Listing, score, keys, read },
                        Request::ListKeys { prefix, cursor: None },
                    )
                },
                Reply::Missing => Step::Done(Err(PollError::NotFound)),
                Reply::Votes(_) => Step::Done(Err(PollError::MalformedPayload)),
                Reply::Malformed => Step::Done(Err(PollError::MalformedPayload)),
                _ => Step::Done(Err(PollError::StoreUnavailable)),
            },
            Phase::Listing => match reply {
                Reply::Page { keys: mut page, list_complete, cursor } => {
                    let ghost before = keys.deep_view();
                    let ghost added = page.deep_view();
                    keys.append(&mut page);
                    assert(keys.deep_view() =~= before + added);
                    if list_complete {
                        ComputeTally::proceed(root, score, keys, read)
                    } else {
                        match cursor {
                            Some(cursor) => {
                                let prefix = prefix_of(root.as_str());
                                Step::Ask(
                                    ComputeTally { root, phase: Phase::Listing, score, keys, read },
                                    Request::ListKeys { prefix, cursor: Some(cursor) },
                                )
                            },
                            None => Step::Done(Err(PollError::StoreUnavailable)),
                        }
                    }
                },
                _ => Step::Done(Err(PollError::StoreUnavailable)),
            },
            Phase::Reading => match reply {
                Reply::Votes(mut batch) => {
                    let ghost before = score.votes.deep_view();
                    let ghost added = batch.deep_view();
                    score.votes.append(&mut batch);
                    assert(score.votes.deep_view() =~= before + added);
                    ComputeTally::proceed(root, score, keys, read + 1)
                },
                Reply::Missing => ComputeTally::proceed(root, score, keys, read + 1),
                Reply::Questions(_) => Step::Done(Err(PollError::MalformedPayload)),
                Reply::Malformed => Step::Done(Err(PollError::MalformedPayload)),
                _ => Step::Done(Err(PollError::StoreUnavailable)),
            },
        }
    }
}

} // verus!
