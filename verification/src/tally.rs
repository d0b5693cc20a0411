//! Folding vote entries into counts: for each answer, how often each value
//! was chosen.

use vstd::prelude::*;
use crate::records::{Vote, VoteView};

verus! {

/// The identity of the answer that a vote is cast on: its answer key, or the
/// empty identity where it names none.
pub open spec fn target_of(vote: VoteView) -> Seq<char> {
    match vote.answer_key {
        Some(key) => key,
        None => Seq::empty(),
    }
}

/// The vote is cast on `answer` and chooses `value`.
pub open spec fn is_cast_on(vote: VoteView, answer: Seq<char>, value: Seq<char>) -> bool {
    target_of(vote) == answer && vote.vote == value
}

/// The number of entries of `votes` that are cast on `answer` and choose
/// `value`.
pub open spec fn count_votes(votes: Seq<VoteView>, answer: Seq<char>, value: Seq<char>) -> nat
    decreases votes.len(),
{
    if votes.len() == 0 {
        0
    } else {
        count_votes(votes.drop_last(), answer, value) + if is_cast_on(
            votes.last(),
            answer,
            value,
        ) {
            1nat
        } else {
            0nat
        }
    }
}

/// The nested mapping that holds every positive count: an answer is in it
/// where some value was chosen for it, and a value is under an answer where
/// it was chosen at least once.
pub open spec fn counts_as_map(count: spec_fn(Seq<char>, Seq<char>) -> nat) -> Map<
    Seq<char>,
    Map<Seq<char>, nat>,
> {
    Map::new(
        |answer: Seq<char>| exists|value: Seq<char>| #[trigger] count(answer, value) > 0,
        |answer: Seq<char>|
            Map::new(
                |value: Seq<char>| count(answer, value) > 0,
                |value: Seq<char>| count(answer, value),
            ),
    )
}

/// The counts of a sequence of vote entries, as a function of answer and
/// value.
pub open spec fn cast_counts(votes: Seq<VoteView>) -> spec_fn(Seq<char>, Seq<char>) -> nat {
    |answer: Seq<char>, value: Seq<char>| count_votes(votes, answer, value)
}

/// The tally of a sequence of vote entries.
pub open spec fn tally_of(votes: Seq<VoteView>) -> Map<Seq<char>, Map<Seq<char>, nat>> {
    counts_as_map(cast_counts(votes))
}

/// The count that a tally holds for `value` under `answer`: 0 where it holds
/// none.
pub open spec fn count_in_map(
    tally: Map<Seq<char>, Map<Seq<char>, nat>>,
    answer: Seq<char>,
    value: Seq<char>,
) -> nat {
    if tally.dom().contains(answer) && tally[answer].dom().contains(value) {
        tally[answer][value]
    } else {
        0
    }
}

/// No more entries can match than there are.
pub proof fn lemma_count_votes_at_most_len(
    votes: Seq<VoteView>,
    answer: Seq<char>,
    value: Seq<char>,
)
    ensures
        count_votes(votes, answer, value) <= votes.len(),
    decreases votes.len(),
{
    if votes.len() > 0 {
        lemma_count_votes_at_most_len(votes.drop_last(), answer, value);
    }
}

/// Counting over a concatenation adds the counts of its two parts.
pub proof fn lemma_count_votes_concat(
    first: Seq<VoteView>,
    second: Seq<VoteView>,
    answer: Seq<char>,
    value: Seq<char>,
)
    ensures
        count_votes(first + second, answer, value) == count_votes(first, answer, value)
            + count_votes(second, answer, value),
    decreases second.len(),
{
    if second.len() == 0 {
    } else {
        assert((first + second).drop_last() =~= first + second.drop_last());
        lemma_count_votes_concat(first, second.drop_last(), answer, value);
    }
}

/// Reading a count back from the nested mapping gives the count it was made
/// from.
pub proof fn lemma_counts_as_map_reads(
    count: spec_fn(Seq<char>, Seq<char>) -> nat,
    answer: Seq<char>,
    value: Seq<char>,
)
    ensures
        count_in_map(counts_as_map(count), answer, value) == count(answer, value),
{
}

/// The tally of a sequence of votes holds, for each answer and value, the
/// number of entries that are cast on the answer and choose the value.
pub proof fn lemma_tally_of_counts(votes: Seq<VoteView>, answer: Seq<char>, value: Seq<char>)
    ensures
        count_in_map(tally_of(votes), answer, value) == count_votes(votes, answer, value),
{
    lemma_counts_as_map_reads(cast_counts(votes), answer, value);
}

/// Where no vote was cast, the tally holds no answer.
pub proof fn lemma_tally_of_nothing()
    ensures
        tally_of(Seq::empty()) == Map::<Seq<char>, Map<Seq<char>, nat>>::empty(),
{
}

/// Counting one more vote adds one to the count of the answer and value that
/// it is cast on, and changes no other count.
pub proof fn lemma_tally_of_push(votes: Seq<VoteView>, vote: VoteView)
    ensures
        tally_of(votes.push(vote)) == counts_as_map(counts_with(tally_of(votes), vote)),
{
    let longer = cast_counts(votes.push(vote));
    let stepped = counts_with(tally_of(votes), vote);
    assert forall|a: Seq<char>, v: Seq<char>| #[trigger] longer(a, v) == stepped(a, v) by {
        assert(votes.push(vote).drop_last() =~= votes);
        lemma_tally_of_counts(votes, a, v);
    }
    assert(longer =~= stepped);
}

/// One step of counting the entries that are cast on `answer` and choose
/// `value`.
pub open spec fn count_step(answer: Seq<char>, value: Seq<char>) -> spec_fn(nat, VoteView) -> nat {
    |so_far: nat, vote: VoteView|
        so_far + if is_cast_on(vote, answer, value) {
            1nat
        } else {
            0nat
        }
}

proof fn lemma_count_votes_is_fold(votes: Seq<VoteView>, answer: Seq<char>, value: Seq<char>)
    ensures
        count_votes(votes, answer, value) == votes.fold_left(0nat, count_step(answer, value)),
    decreases votes.len(),
{
    if votes.len() > 0 {
        lemma_count_votes_is_fold(votes.drop_last(), answer, value);
    }
}

/// The tally does not depend on the order of the vote entries: two sequences
/// that hold the same entries equally often have the same tally.
pub proof fn lemma_tally_ignores_entry_order(first: Seq<VoteView>, second: Seq<VoteView>)
    requires
        first.to_multiset() == second.to_multiset(),
    ensures
        tally_of(first) == tally_of(second),
{
    let one = cast_counts(first);
    let other = cast_counts(second);
    assert forall|a: Seq<char>, v: Seq<char>| #[trigger] one(a, v) == other(a, v) by {
        lemma_count_votes_is_fold(first, a, v);
        lemma_count_votes_is_fold(second, a, v);
        vstd::seq_lib::lemma_fold_left_permutation(first, second, count_step(a, v), 0nat);
    }
    assert(one =~= other);
}

/// One step of counting, batch by batch, the entries that are cast on
/// `answer` and choose `value`.
pub open spec fn batch_step(answer: Seq<char>, value: Seq<char>) -> spec_fn(
    nat,
    Seq<VoteView>,
) -> nat {
    |so_far: nat, batch: Seq<VoteView>| so_far + count_votes(batch, answer, value)
}

proof fn lemma_count_votes_by_batch(
    batches: Seq<Seq<VoteView>>,
    answer: Seq<char>,
    value: Seq<char>,
)
    ensures
        count_votes(batches.flatten(), answer, value) == batches.fold_left(
            0nat,
            batch_step(answer, value),
        ),
    decreases batches.len(),
{
    if batches.len() > 0 {
        let front = batches.drop_last();
        lemma_count_votes_by_batch(front, answer, value);
        front.lemma_flatten_push(batches.last());
        assert(front.push(batches.last()) =~= batches);
        lemma_count_votes_concat(front.flatten(), batches.last(), answer, value);
    }
}

/// The tally does not depend on the order in which vote batches are
/// processed: two sequences that hold the same batches equally often give the
/// same tally when their entries are counted batch after batch.
pub proof fn lemma_tally_ignores_batch_order(
    first: Seq<Seq<VoteView>>,
    second: Seq<Seq<VoteView>>,
)
    requires
        first.to_multiset() == second.to_multiset(),
    ensures
        tally_of(first.flatten()) == tally_of(second.flatten()),
{
    let one = cast_counts(first.flatten());
    let other = cast_counts(second.flatten());
    assert forall|a: Seq<char>, v: Seq<char>| #[trigger] one(a, v) == other(a, v) by {
        lemma_count_votes_by_batch(first, a, v);
        lemma_count_votes_by_batch(second, a, v);
        vstd::seq_lib::lemma_fold_left_permutation(first, second, batch_step(a, v), 0nat);
    }
    assert(one =~= other);
}

/// The index of the last element of `keys` that equals `key`, or -1 where
/// none does.
pub open spec fn position(keys: Seq<Seq<char>>, key: Seq<char>) -> int
    decreases keys.len(),
{
    if keys.len() == 0 {
        -1
    } else if keys.last() == key {
        keys.len() - 1
    } else {
        position(keys.drop_last(), key)
    }
}

/// No two elements of `keys` are equal.
pub open spec fn distinct(keys: Seq<Seq<char>>) -> bool {
    forall|i: int, j: int| 0 <= i < j < keys.len() ==> keys[i] != keys[j]
}

proof fn lemma_position_absent(keys: Seq<Seq<char>>, key: Seq<char>)
    requires
        forall|i: int| 0 <= i < keys.len() ==> keys[i] != key,
    ensures
        position(keys, key) == -1,
    decreases keys.len(),
{
    if keys.len() > 0 {
        lemma_position_absent(keys.drop_last(), key);
    }
}

proof fn lemma_position_found(keys: Seq<Seq<char>>, j: int)
    requires
        distinct(keys),
        0 <= j < keys.len(),
    ensures
        position(keys, keys[j]) == j,
    decreases keys.len(),
{
    if j < keys.len() - 1 {
        lemma_position_found(keys.drop_last(), j);
    }
}

proof fn lemma_position_range(keys: Seq<Seq<char>>, key: Seq<char>)
    ensures
        -1 <= position(keys, key) < keys.len(),
        position(keys, key) >= 0 ==> keys[position(keys, key)] == key,
    decreases keys.len(),
{
    if keys.len() > 0 && keys.last() != key {
        lemma_position_range(keys.drop_last(), key);
    }
}

proof fn lemma_position_push(keys: Seq<Seq<char>>, last: Seq<char>, key: Seq<char>)
    ensures
        position(keys.push(last), key) == if last == key {
            keys.len() as int
        } else {
            position(keys, key)
        },
{
    assert(keys.push(last).drop_last() =~= keys);
}

/// What a `ValueCount` holds, as plain values.
pub struct ValueCountView {
    pub value: Seq<char>,
    pub count: nat,
}

/// How often one value was chosen for one answer.
#[derive(Debug, Clone, PartialEq, Eq)]
pub struct ValueCount {
    value: String,
    count: u64,
}

impl View for ValueCount {
    type V = ValueCountView;

    closed spec fn view(&self) -> ValueCountView {
        ValueCountView { value: self.value@, count: self.count as nat }
    }
}

impl DeepView for ValueCount {
    type V = ValueCountView;

    open spec fn deep_view(&self) -> ValueCountView {
        self@
    }
}

impl ValueCount {
    /// The count of `value` after it was chosen once.
    fn first(value: String) -> (c: ValueCount)
        ensures
            c@ == (ValueCountView { value: value@, count: 1 }),
    {
        ValueCount { value, count: 1 }
    }

    /// Counts one more choice of the value.
    fn increment(&mut self)
        requires
            old(self)@.count < u64::MAX,
        ensures
            final(self)@ == (ValueCountView {
                value: old(self)@.value,
                count: old(self)@.count + 1,
            }),
    {
        self.count = self.count + 1;
    }

    /// The value that was chosen.
    pub fn value(&self) -> (value: &String)
        ensures
            value@ == self@.value,
    {
        &self.value
    }

    /// How often it was chosen.
    pub fn count(&self) -> (count: u64)
        ensures
            count == self@.count,
    {
        self.count
    }
}

/// The values that a sequence of counts speaks of, in its order.
pub open spec fn values_of(counts: Seq<ValueCountView>) -> Seq<Seq<char>> {
    Seq::new(counts.len(), |i: int| counts[i].value)
}

/// The count that `counts` holds for `value`: 0 where it holds none.
pub open spec fn count_in(counts: Seq<ValueCountView>, value: Seq<char>) -> nat {
    let at = position(values_of(counts), value);
    if at < 0 {
        0
    } else {
        counts[at].count
    }
}

/// What an `AnswerTally` holds, as plain values.
pub struct AnswerTallyView {
    pub answer: Seq<char>,
    pub counts: Seq<ValueCountView>,
}

/// The counts of one answer: for each value that was chosen for it, how
/// often. No value occurs twice, and no count is 0.
#[derive(Debug, Clone, PartialEq, Eq)]
pub struct AnswerTally {
    answer: String,
    counts: Vec<ValueCount>,
}

impl View for AnswerTally {
    type V = AnswerTallyView;

    closed spec fn view(&self) -> AnswerTallyView {
        AnswerTallyView { answer: self.answer@, counts: self.counts.deep_view() }
    }
}

impl DeepView for AnswerTally {
    type V = AnswerTallyView;

    open spec fn deep_view(&self) -> AnswerTallyView {
        self@
    }
}

/// The counts of one answer are in order: they speak of pairwise different
/// values, and each is positive.
pub open spec fn counts_in_order(counts: Seq<ValueCountView>) -> bool {
    &&& distinct(values_of(counts))
    &&& forall|i: int| 0 <= i < counts.len() ==> (#[trigger] counts[i]).count > 0
}

impl AnswerTally {
    /// The identity of the answer that these counts belong to.
    pub fn answer(&self) -> (answer: &String)
        ensures
            answer@ == self@.answer,
    {
        &self.answer
    }

    /// The counts, one for each value that was chosen.
    pub fn counts(&self) -> (counts: &Vec<ValueCount>)
        ensures
            counts.deep_view() == self@.counts,
    {
        &self.counts
    }

    /// How often `value` was chosen for this answer.
    fn count(&self, value: &String) -> (n: u64)
        requires
            counts_in_order(self@.counts),
        ensures
            n == count_in(self@.counts, value@),
    {
        let ghost counts = self.counts.deep_view();
        let mut i: usize = 0;
        while i < self.counts.len()
            invariant
                i <= self.counts.len(),
                counts == self.counts.deep_view(),
                counts_in_order(counts),
                forall|j: int| 0 <= j < i ==> values_of(counts)[j] != value@,
            decreases self.counts.len() - i,
        {
            if *self.counts[i].value() == *value {
                proof {
                    lemma_position_found(values_of(counts), i as int);
                }
                return self.counts[i].count();
            }
            i += 1;
        }
        proof {
            lemma_position_absent(values_of(counts), value@);
        }
        0
    }

    /// The counts of `answer` after one choice of `value`.
    fn first(answer: String, value: String) -> (t: AnswerTally)
        ensures
            t@.answer == answer@,
            counts_in_order(t@.counts),
            forall|v: Seq<char>| count_in(t@.counts, v) == if v == value@ {
                1nat
            } else {
                0nat
            },
    {
        let mut counts: Vec<ValueCount> = Vec::new();
        counts.push(ValueCount::first(value));
        proof {
            let views = counts.deep_view();
            assert forall|v: Seq<char>| count_in(views, v) == if v == value@ {
                1nat
            } else {
                0nat
            } by {
                assert(values_of(views) =~= Seq::<Seq<char>>::empty().push(value@));
                lemma_position_push(Seq::<Seq<char>>::empty(), value@, v);
            }
        }
        AnswerTally { answer, counts }
    }

    /// Counts one more choice of `value`.
    fn add(&mut self, value: &String)
        requires
            counts_in_order(old(self)@.counts),
            count_in(old(self)@.counts, value@) < u64::MAX,
        ensures
            final(self)@.answer == old(self)@.answer,
            counts_in_order(final(self)@.counts),
            forall|v: Seq<char>| count_in(final(self)@.counts, v) == count_in(old(self)@.counts, v)
                + if v == value@ {
                1nat
            } else {
                0nat
            },
    {
        let ghost before = self.counts.deep_view();
        let mut i: usize = 0;
        while i < self.counts.len()
            invariant
                i <= self.counts.len(),
                self.counts.deep_view() == before,
                before == old(self)@.counts,
                self.answer == old(self).answer,
                counts_in_order(before),
                count_in(before, value@) < u64::MAX,
                forall|j: int| 0 <= j < i ==> values_of(before)[j] != value@,
            decreases self.counts.len() - i,
        {
            if *self.counts[i].value() == *value {
                proof {
                    lemma_position_found(values_of(before), i as int);
                }
                self.counts[i].increment();
                proof {
                    let after = self.counts.deep_view();
                    assert(values_of(after) =~= values_of(before));
                    assert forall|j: int| 0 <= j < after.len() implies (#[trigger] after[j]).count
                        > 0 by {
                        if j != i {
                            assert(after[j] == before[j]);
                        }
                    }
                    assert forall|v: Seq<char>| count_in(after, v) == count_in(before, v) + if v
                        == value@ {
                        1nat
                    } else {
                        0nat
                    } by {
                        lemma_position_range(values_of(before), v);
                    }
                }
                return ;
            }
            i += 1;
        }
        self.counts.push(ValueCount::first(value.clone()));
        proof {
            let after = self.counts.deep_view();
            assert(values_of(after) =~= values_of(before).push(value@));
            lemma_position_absent(values_of(before), value@);
            assert forall|j: int| 0 <= j < after.len() implies (#[trigger] after[j]).count > 0 by {
                if j < before.len() {
                    assert(after[j] == before[j]);
                }
            }
            assert forall|v: Seq<char>| count_in(after, v) == count_in(before, v) + if v
                == value@ {
                1nat
            } else {
                0nat
            } by {
                lemma_position_push(values_of(before), value@, v);
                lemma_position_range(values_of(before), v);
            }
        }
    }
}

/// The answers that a sequence of per-answer counts speaks of, in its order.
pub open spec fn answers_of(entries: Seq<AnswerTallyView>) -> Seq<Seq<char>> {
    Seq::new(entries.len(), |i: int| entries[i].answer)
}

/// The count that `entries` hold for `value` under `answer`: 0 where they
/// hold none.
pub open spec fn count_at(entries: Seq<AnswerTallyView>, answer: Seq<char>, value: Seq<char>) -> nat {
    let at = position(answers_of(entries), answer);
    if at < 0 {
        0
    } else {
        count_in(entries[at].counts, value)
    }
}

/// The counts that `entries` hold, as a function of answer and value.
pub open spec fn held_counts(entries: Seq<AnswerTallyView>) -> spec_fn(Seq<char>, Seq<char>) -> nat {
    |answer: Seq<char>, value: Seq<char>| count_at(entries, answer, value)
}

/// The counts of `tally` with one more choice counted for each answer and
/// value that `vote` is cast on, as a function of answer and value.
pub open spec fn counts_with(
    tally: Map<Seq<char>, Map<Seq<char>, nat>>,
    vote: VoteView,
) -> spec_fn(Seq<char>, Seq<char>) -> nat {
    |answer: Seq<char>, value: Seq<char>|
        count_in_map(tally, answer, value) + if is_cast_on(vote, answer, value) {
            1nat
        } else {
            0nat
        }
}

/// The entries of a tally are in order: they speak of pairwise different
/// answers, and each holds at least one count and has its counts in order.
pub open spec fn entries_in_order(entries: Seq<AnswerTallyView>) -> bool {
    &&& distinct(answers_of(entries))
    &&& forall|i: int|
        0 <= i < entries.len() ==> counts_in_order((#[trigger] entries[i]).counts)
            && entries[i].counts.len() > 0
}

/// For each answer, how often each value was chosen for it.
#[derive(Debug, PartialEq, Eq)]
pub struct Tally {
    answers: Vec<AnswerTally>,
}

impl View for Tally {
    type V = Map<Seq<char>, Map<Seq<char>, nat>>;

    closed spec fn view(&self) -> Map<Seq<char>, Map<Seq<char>, nat>> {
        counts_as_map(held_counts(self.answers.deep_view()))
    }
}

impl Tally {
    #[verifier::type_invariant]
    spec fn in_order(self) -> bool {
        entries_in_order(self.answers.deep_view())
    }

    /// The tally of no votes.
    pub fn new() -> (t: Tally)
        ensures
            t@ == tally_of(Seq::empty()),
    {
        Tally { answers: Vec::new() }
    }

    /// The tally of `votes`: for each answer and value, the number of entries
    /// that are cast on the answer and choose the value.
    pub fn of(votes: &Vec<Vote>) -> (t: Tally)
        ensures
            t@ == tally_of(votes.deep_view()),
    {
        let ghost all = votes.deep_view();
        let mut tally = Tally::new();
        let mut i: usize = 0;
        while i < votes.len()
            invariant
                i <= votes.len(),
                all == votes.deep_view(),
                tally@ == tally_of(all.take(i as int)),
            decreases votes.len() - i,
        {
            proof {
                let seen = all.take(i as int);
                let vote = votes[i as int]@;
                lemma_tally_of_counts(seen, target_of(vote), vote.vote);
                lemma_count_votes_at_most_len(seen, target_of(vote), vote.vote);
                lemma_tally_of_push(seen, vote);
                assert(all.take(i + 1) =~= seen.push(vote));
            }
            tally = tally.record(&votes[i]);
            i += 1;
        }
        assert(all.take(i as int) =~= all);
        tally
    }

    /// How often `value` was chosen for `answer`.
    pub fn count(&self, answer: &str, value: &str) -> (n: u64)
        ensures
            n == count_in_map(self@, answer@, value@),
    {
        proof {
            use_type_invariant(self);
            lemma_counts_as_map_reads(held_counts(self.answers.deep_view()), answer@, value@);
        }
        let sought = answer.to_owned();
        let chosen = value.to_owned();
        let ghost entries = self.answers.deep_view();
        let mut i: usize = 0;
        while i < self.answers.len()
            invariant
                i <= self.answers.len(),
                entries == self.answers.deep_view(),
                entries_in_order(entries),
                sought@ == answer@,
                chosen@ == value@,
                count_in_map(self@, answer@, value@) == count_at(entries, answer@, value@),
                forall|j: int| 0 <= j < i ==> answers_of(entries)[j] != answer@,
            decreases self.answers.len() - i,
        {
            if *self.answers[i].answer() == sought {
                proof {
                    lemma_position_found(answers_of(entries), i as int);
                }
                return self.answers[i].count(&chosen);
            }
            i += 1;
        }
        proof {
            lemma_position_absent(answers_of(entries), answer@);
        }
        0
    }

    /// The counts as a list: one entry for each answer that a vote was cast
    /// on, each with one count for each value that was chosen for it.
    pub fn answers(&self) -> (entries: &Vec<AnswerTally>)
        ensures
            entries_in_order(entries.deep_view()),
            self@ == counts_as_map(held_counts(entries.deep_view())),
    {
        proof {
            use_type_invariant(self);
        }
        &self.answers
    }

    /// This tally with one more vote counted.
    pub fn record(self, vote: &Vote) -> (t: Tally)
        requires
            count_in_map(self@, target_of(vote@), vote@.vote) < u64::MAX,
        ensures
            t@ == counts_as_map(counts_with(self@, vote@)),
    {
        proof {
            use_type_invariant(&self);
        }
        let ghost before = self.answers.deep_view();
        let ghost wanted = counts_with(self@, vote@);
        proof {
            assert forall|a: Seq<char>, v: Seq<char>|
                count_in_map(self@, a, v) == #[trigger] count_at(before, a, v) by {
                lemma_counts_as_map_reads(held_counts(before), a, v);
            }
        }
        let empty = String::new();
        let target: &String = match &vote.answer_key {
            Some(key) => key,
            None => &empty,
        };
        let Tally { mut answers } = self;
        let mut i: usize = 0;
        while i < answers.len()
            invariant
                i <= answers.len(),
                answers.deep_view() == before,
                wanted == counts_with(self@, vote@),
                entries_in_order(before),
                target@ == target_of(vote@),
                count_at(before, target@, vote@.vote) < u64::MAX,
                forall|j: int| 0 <= j < i ==> answers_of(before)[j] != target@,
                forall|a: Seq<char>, v: Seq<char>|
                    wanted(a, v) == (#[trigger] count_at(before, a, v)) + if is_cast_on(
                        vote@,
                        a,
                        v,
                    ) {
                        1nat
                    } else {
                        0nat
                    },
            decreases answers.len() - i,
        {
            if *answers[i].answer() == *target {
                proof {
                    lemma_position_found(answers_of(before), i as int);
                }
                let ghost chosen = answers[i as int]@;
                answers[i].add(&vote.vote);
                proof {
                    let after = answers.deep_view();
                    assert(answers_of(after) =~= answers_of(before));
                    assert(count_in(after[i as int].counts, vote@.vote) > 0);
                    lemma_position_range(values_of(after[i as int].counts), vote@.vote);
                    assert forall|j: int| 0 <= j < after.len() implies counts_in_order(
                        (#[trigger] after[j]).counts,
                    ) && after[j].counts.len() > 0 by {
                        if j != i {
                            assert(after[j] == before[j]);
                        }
                    }
                    let now = held_counts(after);
                    assert forall|a: Seq<char>, v: Seq<char>| #[trigger] now(a, v) == wanted(
                        a,
                        v,
                    ) by {
                        lemma_position_range(answers_of(before), a);
                        let at = position(answers_of(before), a);
                        assert(wanted(a, v) == count_at(before, a, v) + if is_cast_on(vote@, a, v) {
                            1nat
                        } else {
                            0nat
                        });
                        if at == i {
                            assert(count_in(after[i as int].counts, v) == count_in(
                                chosen.counts,
                                v,
                            ) + if v == vote@.vote {
                                1nat
                            } else {
                                0nat
                            });
                        }
                    }
                    assert(now =~= wanted);
                }
                return Tally { answers };
            }
            i += 1;
        }
        answers.push(AnswerTally::first(target.clone(), vote.vote.clone()));
        proof {
            let after = answers.deep_view();
            assert(answers_of(after) =~= answers_of(before).push(target@));
            lemma_position_absent(answers_of(before), target@);
            let last = after[after.len() - 1];
            assert(count_in(last.counts, vote@.vote) > 0);
            lemma_position_range(values_of(last.counts), vote@.vote);
            assert forall|j: int| 0 <= j < after.len() implies counts_in_order(
                (#[trigger] after[j]).counts,
            ) && after[j].counts.len() > 0 by {
                if j < before.len() {
                    assert(after[j] == before[j]);
                }
            }
            let now = held_counts(after);
            assert forall|a: Seq<char>, v: Seq<char>| #[trigger] now(a, v) == wanted(a, v) by {
                lemma_position_push(answers_of(before), target@, a);
                lemma_position_range(answers_of(before), a);
                assert(wanted(a, v) == count_at(before, a, v) + if is_cast_on(vote@, a, v) {
                    1nat
                } else {
                    0nat
                });
            }
            assert(now =~= wanted);
        }
        Tally { answers }
    }
}

} // verus!
