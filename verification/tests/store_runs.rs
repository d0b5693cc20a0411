use std::collections::BTreeMap;

use poll_tally::aggregate::{ComputeTally, TallyResult};
use poll_tally::error::PollError;
use poll_tally::records::{Answer, Question, Session, Vote};
use poll_tally::repository::{CreateQuestionSet, GetQuestionSet, SubmitVotes};
use poll_tally::search::KeySearch;
use poll_tally::store::{Policy, Reply, Request, Step};

#[derive(Clone)]
enum Record {
    Questions(Vec<Question>),
    Votes(Vec<Vote>),
    Garbage,
}

/// A store in memory that lists in pages and takes a cursor for every page
/// but the first.
struct FakeStore {
    records: BTreeMap<String, Record>,
    ttls: BTreeMap<String, u64>,
    page_size: usize,
    down: bool,
    seen: Vec<Request>,
}

impl FakeStore {
    fn new(page_size: usize) -> FakeStore {
        FakeStore {
            records: BTreeMap::new(),
            ttls: BTreeMap::new(),
            page_size,
            down: false,
            seen: Vec::new(),
        }
    }

    fn read(&self, key: &str) -> Reply {
        match self.records.get(key) {
            None => Reply::Missing,
            Some(Record::Questions(questions)) => Reply::Questions(questions.clone()),
            Some(Record::Votes(votes)) => Reply::Votes(votes.clone()),
            Some(Record::Garbage) => Reply::Malformed,
        }
    }

    fn perform(&mut self, request: Request) -> Reply {
        self.seen.push(request.clone());
        if self.down {
            return Reply::Unavailable;
        }
        match request {
            Request::Probe { key } => {
                if self.records.contains_key(&key) {
                    Reply::Present
                } else {
                    Reply::Missing
                }
            }
            Request::ReadQuestions { key } => self.read(&key),
            Request::ReadVotes { key } => self.read(&key),
            Request::WriteQuestions { key, questions, ttl } => {
                self.records.insert(key.clone(), Record::Questions(questions));
                self.ttls.insert(key, ttl);
                Reply::Stored
            }
            Request::WriteVotes { key, votes, ttl } => {
                self.records.insert(key.clone(), Record::Votes(votes));
                self.ttls.insert(key, ttl);
                Reply::Stored
            }
            Request::ListKeys { prefix, cursor } => {
                let all: Vec<String> =
                    self.records.keys().filter(|k| k.starts_with(&prefix)).cloned().collect();
                let from = match cursor {
                    None => 0,
                    Some(token) => match all.iter().position(|k| *k == token) {
                        Some(at) => at + 1,
                        None => return Reply::Unavailable,
                    },
                };
                let to = usize::min(from + self.page_size, all.len());
                let keys: Vec<String> = all[from..to].to_vec();
                let list_complete = to == all.len();
                let cursor = if list_complete { None } else { keys.last().cloned() };
                Reply::Page { keys, list_complete, cursor }
            }
        }
    }
}

fn create(store: &mut FakeStore, questions: Vec<Question>, policy: Policy) -> Result<Session, PollError> {
    let mut step = CreateQuestionSet::start(questions, policy);
    loop {
        match step {
            Step::Done(result) => return result,
            Step::Ask(machine, request) => step = machine.step(store.perform(request)),
        }
    }
}

fn get(store: &mut FakeStore, key: &str) -> Result<Option<Vec<Question>>, PollError> {
    let mut step = GetQuestionSet::start(key);
    loop {
        match step {
            Step::Done(result) => return result,
            Step::Ask(machine, request) => step = machine.step(store.perform(request)),
        }
    }
}

fn submit(store: &mut FakeStore, root: &str, votes: Vec<Vote>, policy: Policy) -> Result<Session, PollError> {
    let mut step = SubmitVotes::start(root, votes, policy);
    loop {
        match step {
            Step::Done(result) => return result,
            Step::Ask(machine, request) => step = machine.step(store.perform(request)),
        }
    }
}

fn tally(store: &mut FakeStore, root: &str) -> Result<TallyResult, PollError> {
    let mut step = ComputeTally::start(root);
    loop {
        match step {
            Step::Done(result) => return result,
            Step::Ask(machine, request) => step = machine.step(store.perform(request)),
        }
    }
}

fn vote(answer: &str, value: &str) -> Vote {
    Vote::new(answer.to_string(), value.to_string())
}

fn cats_or_dogs() -> Vec<Question> {
    vec![Question::new(
        "Cats or dogs?".to_string(),
        vec![Answer::new("Cats".to_string()), Answer::new("Dogs".to_string())],
    )]
}

fn ask(step: Step<ComputeTally, Request, TallyResult>) -> (ComputeTally, Request) {
    match step {
        Step::Ask(machine, request) => (machine, request),
        Step::Done(result) => panic!("the run is over: {:?}", result),
    }
}

fn end(step: Step<ComputeTally, Request, TallyResult>) -> Result<TallyResult, PollError> {
    match step {
        Step::Done(result) => result,
        Step::Ask(_, request) => panic!("the run goes on: {:?}", request),
    }
}

#[test]
fn two_batches_for_cats_and_dogs_are_tallied() {
    let mut store = FakeStore::new(1000);
    let questions = cats_or_dogs();
    let session = create(&mut store, questions.clone(), Policy::default()).unwrap();
    let root = session.session().clone();
    submit(&mut store, &root, vec![vote("Cats", "yes")], Policy::default()).unwrap();
    submit(&mut store, &root, vec![vote("Cats", "yes"), vote("Dogs", "no")], Policy::default())
        .unwrap();
    let result = tally(&mut store, &root).unwrap();
    assert_eq!(result.questions, questions);
    assert_eq!(result.tally.count("Cats", "yes"), 2);
    assert_eq!(result.tally.count("Dogs", "no"), 1);
    assert_eq!(result.tally.count("Cats", "no"), 0);
    assert_eq!(result.tally.count("Dogs", "yes"), 0);
    let entries = result.tally.answers();
    assert_eq!(entries.len(), 2);
    for entry in entries.iter() {
        assert_eq!(entry.counts().len(), 1);
    }
}

#[test]
fn question_set_that_was_never_created_is_absent() {
    let mut store = FakeStore::new(1000);
    assert_eq!(get(&mut store, "nosuch"), Ok(None));
    assert_eq!(store.seen, vec![Request::ReadQuestions { key: "nosuch".to_string() }]);
}

#[test]
fn created_question_set_is_read_back() {
    let mut store = FakeStore::new(1000);
    let questions = cats_or_dogs();
    let session = create(&mut store, questions.clone(), Policy::default()).unwrap();
    assert_eq!(get(&mut store, session.session()), Ok(Some(questions)));
}

#[test]
fn tally_without_batches_is_empty_and_found() {
    let mut store = FakeStore::new(1000);
    let questions = cats_or_dogs();
    let session = create(&mut store, questions.clone(), Policy::default()).unwrap();
    let result = tally(&mut store, session.session()).unwrap();
    assert_eq!(result.questions, questions);
    assert!(result.tally.answers().is_empty());
    assert_eq!(result.tally.count("Cats", "yes"), 0);
}

#[test]
fn tally_of_missing_root_is_not_found() {
    let mut store = FakeStore::new(1000);
    assert_eq!(tally(&mut store, "nosuch"), Err(PollError::NotFound));
    assert_eq!(store.seen.len(), 1);
}

#[test]
fn tally_of_missing_root_with_votes_left_is_not_found() {
    let mut store = FakeStore::new(1000);
    submit(&mut store, "gone12", vec![vote("Cats", "yes")], Policy::default()).unwrap();
    assert_eq!(tally(&mut store, "gone12"), Err(PollError::NotFound));
}

#[test]
fn listing_over_several_pages_is_read_to_its_end() {
    let mut store = FakeStore::new(1);
    let session = create(&mut store, cats_or_dogs(), Policy::default()).unwrap();
    let root = session.session().clone();
    for _ in 0..5 {
        submit(&mut store, &root, vec![vote("Cats", "yes"), vote("Dogs", "no")], Policy::default())
            .unwrap();
    }
    let batches = store.records.len() - 1;
    store.seen.clear();
    let result = tally(&mut store, &root).unwrap();
    assert_eq!(result.tally.count("Cats", "yes"), batches as u64);
    assert_eq!(result.tally.count("Dogs", "no"), batches as u64);
    let lists: Vec<&Request> =
        store.seen.iter().filter(|r| matches!(r, Request::ListKeys { .. })).collect();
    assert_eq!(lists.len(), batches);
    assert_eq!(
        *lists[0],
        Request::ListKeys { prefix: format!("{}:", root), cursor: None }
    );
    for request in lists.iter().skip(1) {
        match request {
            Request::ListKeys { prefix, cursor } => {
                assert_eq!(*prefix, format!("{}:", root));
                assert!(cursor.is_some());
            }
            _ => unreachable!(),
        }
    }
    let reads = store.seen.iter().filter(|r| matches!(r, Request::ReadVotes { .. })).count();
    assert_eq!(reads, batches);
}

#[test]
fn second_page_is_asked_for_by_the_cursor_of_the_first() {
    let (run, request) = ask(ComputeTally::start("root01"));
    assert_eq!(request, Request::ReadQuestions { key: "root01".to_string() });
    let (run, request) = ask(run.step(Reply::Questions(Vec::new())));
    assert_eq!(request, Request::ListKeys { prefix: "root01:".to_string(), cursor: None });
    let (run, request) = ask(run.step(Reply::Page {
        keys: vec!["root01:aaaaaa".to_string()],
        list_complete: false,
        cursor: Some("token-2".to_string()),
    }));
    assert_eq!(
        request,
        Request::ListKeys { prefix: "root01:".to_string(), cursor: Some("token-2".to_string()) }
    );
    let (run, request) = ask(run.step(Reply::Page {
        keys: vec!["root01:bbbbbb".to_string(), "root01:cccccc".to_string()],
        list_complete: true,
        cursor: None,
    }));
    assert_eq!(request, Request::ReadVotes { key: "root01:aaaaaa".to_string() });
    let (run, request) = ask(run.step(Reply::Votes(vec![vote("Cats", "yes")])));
    assert_eq!(request, Request::ReadVotes { key: "root01:bbbbbb".to_string() });
    let (run, request) = ask(run.step(Reply::Votes(vec![vote("Cats", "yes")])));
    assert_eq!(request, Request::ReadVotes { key: "root01:cccccc".to_string() });
    let result = end(run.step(Reply::Votes(vec![vote("Dogs", "no")]))).unwrap();
    assert_eq!(result.tally.count("Cats", "yes"), 2);
    assert_eq!(result.tally.count("Dogs", "no"), 1);
}

#[test]
fn batch_that_expired_after_the_listing_is_passed_over() {
    let (run, _) = ask(ComputeTally::start("root01"));
    let (run, _) = ask(run.step(Reply::Questions(Vec::new())));
    let (run, _) = ask(run.step(Reply::Page {
        keys: vec!["root01:aaaaaa".to_string(), "root01:bbbbbb".to_string()],
        list_complete: true,
        cursor: None,
    }));
    let (run, request) = ask(run.step(Reply::Missing));
    assert_eq!(request, Request::ReadVotes { key: "root01:bbbbbb".to_string() });
    let result = end(run.step(Reply::Votes(vec![vote("Cats", "yes")]))).unwrap();
    assert_eq!(result.tally.count("Cats", "yes"), 1);
    assert_eq!(result.tally.answers().len(), 1);
}

#[test]
fn page_that_goes_on_without_a_cursor_fails_the_tally() {
    let (run, _) = ask(ComputeTally::start("root01"));
    let (run, _) = ask(run.step(Reply::Questions(Vec::new())));
    let result = end(run.step(Reply::Page {
        keys: vec!["root01:aaaaaa".to_string()],
        list_complete: false,
        cursor: None,
    }));
    assert_eq!(result, Err(PollError::StoreUnavailable));
}

#[test]
fn cursor_of_the_last_page_is_not_followed() {
    let (run, _) = ask(ComputeTally::start("root01"));
    let (run, _) = ask(run.step(Reply::Questions(Vec::new())));
    let result = end(run.step(Reply::Page {
        keys: Vec::new(),
        list_complete: true,
        cursor: Some("left-over".to_string()),
    }));
    assert!(result.unwrap().tally.answers().is_empty());
}

#[test]
fn store_failure_fails_the_tally_at_every_stage() {
    let (run, _) = ask(ComputeTally::start("root01"));
    assert_eq!(end(run.step(Reply::Unavailable)), Err(PollError::StoreUnavailable));

    let (run, _) = ask(ComputeTally::start("root01"));
    let (run, _) = ask(run.step(Reply::Questions(Vec::new())));
    assert_eq!(end(run.step(Reply::Unavailable)), Err(PollError::StoreUnavailable));

    let (run, _) = ask(ComputeTally::start("root01"));
    let (run, _) = ask(run.step(Reply::Questions(Vec::new())));
    let (run, _) = ask(run.step(Reply::Page {
        keys: vec!["root01:aaaaaa".to_string()],
        list_complete: true,
        cursor: None,
    }));
    assert_eq!(end(run.step(Reply::Unavailable)), Err(PollError::StoreUnavailable));
}

#[test]
fn record_of_the_wrong_shape_is_malformed() {
    let (run, _) = ask(ComputeTally::start("root01"));
    assert_eq!(end(run.step(Reply::Malformed)), Err(PollError::MalformedPayload));

    let (run, _) = ask(ComputeTally::start("root01"));
    assert_eq!(end(run.step(Reply::Votes(Vec::new()))), Err(PollError::MalformedPayload));

    let (run, _) = ask(ComputeTally::start("root01"));
    let (run, _) = ask(run.step(Reply::Questions(Vec::new())));
    let (run, _) = ask(run.step(Reply::Page {
        keys: vec!["root01:aaaaaa".to_string()],
        list_complete: true,
        cursor: None,
    }));
    assert_eq!(end(run.step(Reply::Questions(Vec::new()))), Err(PollError::MalformedPayload));

    let mut store = FakeStore::new(1000);
    store.records.insert("broken".to_string(), Record::Garbage);
    assert_eq!(get(&mut store, "broken"), Err(PollError::MalformedPayload));
    assert_eq!(tally(&mut store, "broken"), Err(PollError::MalformedPayload));
    store.records.insert("votes1".to_string(), Record::Votes(Vec::new()));
    assert_eq!(get(&mut store, "votes1"), Err(PollError::MalformedPayload));
}

#[test]
fn reply_that_does_not_answer_the_request_is_a_store_failure() {
    let (run, _) = ask(ComputeTally::start("root01"));
    assert_eq!(end(run.step(Reply::Stored)), Err(PollError::StoreUnavailable));
    let (run, _) = ask(ComputeTally::start("root01"));
    assert_eq!(end(run.step(Reply::Present)), Err(PollError::StoreUnavailable));
    let (run, _) = ask(ComputeTally::start("root01"));
    let (run, _) = ask(run.step(Reply::Questions(Vec::new())));
    assert_eq!(end(run.step(Reply::Missing)), Err(PollError::StoreUnavailable));
}

#[test]
fn store_that_is_down_fails_every_operation() {
    let mut store = FakeStore::new(1000);
    store.down = true;
    assert_eq!(create(&mut store, cats_or_dogs(), Policy::default()), Err(PollError::StoreUnavailable));
    assert_eq!(get(&mut store, "abc123"), Err(PollError::StoreUnavailable));
    assert_eq!(
        submit(&mut store, "abc123", vec![vote("Cats", "yes")], Policy::default()),
        Err(PollError::StoreUnavailable)
    );
    assert_eq!(tally(&mut store, "abc123"), Err(PollError::StoreUnavailable));
    assert!(store.records.is_empty());
}

#[test]
fn votes_under_another_root_are_not_counted() {
    let mut store = FakeStore::new(2);
    store.records.insert("abc12".to_string(), Record::Questions(Vec::new()));
    store.records.insert("abc123".to_string(), Record::Questions(Vec::new()));
    store.records.insert("abc12:aaaaaa".to_string(), Record::Votes(vec![vote("Cats", "yes")]));
    store.records.insert("abc123:aaaaaa".to_string(), Record::Votes(vec![vote("Cats", "yes")]));
    store.records.insert("abc123:bbbbbb".to_string(), Record::Votes(vec![vote("Cats", "yes")]));
    assert_eq!(tally(&mut store, "abc12").unwrap().tally.count("Cats", "yes"), 1);
    assert_eq!(tally(&mut store, "abc123").unwrap().tally.count("Cats", "yes"), 2);
}

#[test]
fn tally_twice_without_writes_gives_the_same() {
    let mut store = FakeStore::new(2);
    let session = create(&mut store, cats_or_dogs(), Policy::default()).unwrap();
    let root = session.session().clone();
    for _ in 0..5 {
        submit(&mut store, &root, vec![vote("Cats", "yes"), vote("Dogs", "no")], Policy::default())
            .unwrap();
    }
    submit(&mut store, &root, vec![vote("Dogs", "yes")], Policy::default()).unwrap();
    let first = tally(&mut store, &root).unwrap();
    let second = tally(&mut store, &root).unwrap();
    assert_eq!(first, second);
    store.page_size = 1;
    let third = tally(&mut store, &root).unwrap();
    assert_eq!(first, third);
}

#[test]
fn keys_of_created_question_sets_are_pairwise_distinct() {
    let mut store = FakeStore::new(1000);
    let mut keys: Vec<String> = Vec::new();
    for _ in 0..200 {
        let session = create(&mut store, Vec::new(), Policy::default()).unwrap();
        assert!(!keys.contains(session.session()));
        keys.push(session.session().clone());
    }
    assert_eq!(store.records.len(), 200);
}

#[test]
fn creation_writes_with_the_ttl_of_the_policy() {
    let mut store = FakeStore::new(1000);
    let policy = Policy { ttl: 77, attempts: 3 };
    let session = create(&mut store, cats_or_dogs(), policy).unwrap();
    assert_eq!(store.ttls.get(session.session()), Some(&77));
    assert_eq!(store.seen.len(), 2);
    assert_eq!(store.seen[0], Request::Probe { key: session.session().clone() });
    assert!(session.lifetime() > 1_600_000_000 + 77);
    let session = create(&mut store, cats_or_dogs(), Policy::default()).unwrap();
    assert_eq!(store.ttls.get(session.session()), Some(&2_592_000));
}

#[test]
fn creation_fails_when_the_write_fails() {
    let step = CreateQuestionSet::start_with(cats_or_dogs(), Policy::default(), "abc123".to_string());
    let machine = match step {
        Step::Ask(machine, request) => {
            assert_eq!(request, Request::Probe { key: "abc123".to_string() });
            machine
        }
        Step::Done(_) => panic!("over"),
    };
    let machine = match machine.advance(Reply::Missing, "unused".to_string(), 1000) {
        Step::Ask(machine, request) => {
            match request {
                Request::WriteQuestions { key, questions, ttl } => {
                    assert_eq!(key, "abc123");
                    assert_eq!(questions.len(), 1);
                    assert_eq!(ttl, 2_592_000);
                }
                other => panic!("not a write: {:?}", other),
            }
            machine
        }
        Step::Done(_) => panic!("over"),
    };
    match machine.advance(Reply::Unavailable, "unused".to_string(), 1000) {
        Step::Done(result) => assert_eq!(result, Err(PollError::StoreUnavailable)),
        Step::Ask(_, _) => panic!("goes on"),
    }
}

#[test]
fn creation_ends_with_the_session_of_the_accepted_key() {
    let policy = Policy { ttl: 500, attempts: 5 };
    let step = CreateQuestionSet::start_with(Vec::new(), policy, "taken1".to_string());
    let machine = match step {
        Step::Ask(machine, _) => machine,
        Step::Done(_) => panic!("over"),
    };
    let machine = match machine.advance(Reply::Present, "free22".to_string(), 1000) {
        Step::Ask(machine, request) => {
            assert_eq!(request, Request::Probe { key: "free22".to_string() });
            machine
        }
        Step::Done(_) => panic!("over"),
    };
    let machine = match machine.advance(Reply::Missing, "unused".to_string(), 2000) {
        Step::Ask(machine, request) => {
            assert_eq!(
                request,
                Request::WriteQuestions { key: "free22".to_string(), questions: Vec::new(), ttl: 500 }
            );
            machine
        }
        Step::Done(_) => panic!("over"),
    };
    match machine.advance(Reply::Stored, "unused".to_string(), 3000) {
        Step::Done(result) => {
            let session = result.unwrap();
            assert_eq!(session.session(), "free22");
            assert_eq!(session.lifetime(), 2500);
        }
        Step::Ask(_, _) => panic!("goes on"),
    }
}

#[test]
fn key_search_gives_up_at_the_limit() {
    let policy = Policy { ttl: 10, attempts: 2 };
    let search = match KeySearch::start_with(policy, "aaaaaa".to_string()) {
        Step::Ask(search, request) => {
            assert_eq!(request, Request::Probe { key: "aaaaaa".to_string() });
            search
        }
        Step::Done(_) => panic!("over"),
    };
    let search = match search.advance(Reply::Present, "bbbbbb".to_string(), 0) {
        Step::Ask(search, request) => {
            assert_eq!(request, Request::Probe { key: "bbbbbb".to_string() });
            search
        }
        Step::Done(_) => panic!("over"),
    };
    match search.advance(Reply::Present, "cccccc".to_string(), 0) {
        Step::Done(result) => assert_eq!(result, Err(PollError::KeySpaceExhausted)),
        Step::Ask(_, _) => panic!("goes on"),
    }
}

#[test]
fn key_search_without_attempts_is_exhausted_at_once() {
    let policy = Policy { ttl: 10, attempts: 0 };
    match KeySearch::start(policy) {
        Step::Done(result) => assert_eq!(result, Err(PollError::KeySpaceExhausted)),
        Step::Ask(_, _) => panic!("goes on"),
    }
    let mut store = FakeStore::new(1000);
    assert_eq!(create(&mut store, Vec::new(), policy), Err(PollError::KeySpaceExhausted));
    assert!(store.seen.is_empty());
}

#[test]
fn key_search_against_a_full_store_is_exhausted() {
    let policy = Policy { ttl: 10, attempts: 4 };
    let mut step = KeySearch::start(policy);
    let mut probes = 0;
    let result = loop {
        match step {
            Step::Done(result) => break result,
            Step::Ask(search, request) => {
                assert!(matches!(request, Request::Probe { .. }));
                probes += 1;
                step = search.step(Reply::Present);
            }
        }
    };
    assert_eq!(result, Err(PollError::KeySpaceExhausted));
    assert_eq!(probes, 4);
}

#[test]
fn key_search_accepts_the_first_free_candidate() {
    let policy = Policy { ttl: 100, attempts: 3 };
    let search = match KeySearch::start_with(policy, "aaaaaa".to_string()) {
        Step::Ask(search, _) => search,
        Step::Done(_) => panic!("over"),
    };
    match search.advance(Reply::Missing, "bbbbbb".to_string(), 1_000) {
        Step::Done(result) => {
            let session = result.unwrap();
            assert_eq!(session.session(), "aaaaaa");
            assert_eq!(session.lifetime(), 1_100);
        }
        Step::Ask(_, _) => panic!("goes on"),
    }
}

#[test]
fn key_search_takes_any_stored_record_for_a_taken_key() {
    for reply in [Reply::Present, Reply::Malformed, Reply::Questions(Vec::new()), Reply::Votes(Vec::new())] {
        let policy = Policy { ttl: 100, attempts: 3 };
        let search = match KeySearch::start_with(policy, "aaaaaa".to_string()) {
            Step::Ask(search, _) => search,
            Step::Done(_) => panic!("over"),
        };
        match search.advance(reply, "bbbbbb".to_string(), 0) {
            Step::Ask(_, request) => assert_eq!(request, Request::Probe { key: "bbbbbb".to_string() }),
            Step::Done(_) => panic!("over"),
        }
    }
}

#[test]
fn key_search_fails_when_the_store_fails() {
    for reply in [
        Reply::Unavailable,
        Reply::Stored,
        Reply::Page { keys: Vec::new(), list_complete: true, cursor: None },
    ] {
        let search = match KeySearch::start(Policy::default()) {
            Step::Ask(search, _) => search,
            Step::Done(_) => panic!("over"),
        };
        match search.step(reply) {
            Step::Done(result) => assert_eq!(result, Err(PollError::StoreUnavailable)),
            Step::Ask(_, _) => panic!("goes on"),
        }
    }
}

#[test]
fn submission_writes_under_root_colon_suffix() {
    let policy = Policy { ttl: 60, attempts: 1 };
    let votes = vec![vote("Cats", "yes")];
    let machine = match SubmitVotes::start_with("abc123", votes.clone(), policy, "XyZ789") {
        Step::Ask(machine, request) => {
            assert_eq!(
                request,
                Request::WriteVotes { key: "abc123:XyZ789".to_string(), votes, ttl: 60 }
            );
            machine
        }
        Step::Done(_) => panic!("over"),
    };
    match machine.step(Reply::Stored) {
        Step::Done(result) => {
            let session = result.unwrap();
            assert_eq!(session.session(), "abc123:XyZ789");
            assert_eq!(session.lifetime(), 0);
        }
        Step::Ask(_, _) => panic!("goes on"),
    }
}

#[test]
fn submission_draws_a_fresh_suffix() {
    let mut store = FakeStore::new(1000);
    let first = submit(&mut store, "abc123", vec![vote("Cats", "yes")], Policy::default()).unwrap();
    assert!(first.session().starts_with("abc123:"));
    let suffix = &first.session()["abc123:".len()..];
    assert_eq!(suffix.len(), 6);
    assert!(suffix.chars().all(|c| c.is_ascii_alphanumeric()));
    assert_eq!(store.ttls.get(first.session()), Some(&2_592_000));
}

#[test]
fn submission_does_not_ask_whether_the_root_exists() {
    let mut store = FakeStore::new(1000);
    let session = submit(&mut store, "nosuch", vec![vote("Cats", "yes")], Policy::default()).unwrap();
    assert_eq!(store.seen.len(), 1);
    assert!(matches!(store.seen[0], Request::WriteVotes { .. }));
    assert!(store.records.contains_key(session.session()));
}

#[test]
fn submission_fails_when_the_write_fails() {
    for reply in [Reply::Unavailable, Reply::Missing, Reply::Malformed] {
        let machine = match SubmitVotes::start("abc123", Vec::new(), Policy::default()) {
            Step::Ask(machine, _) => machine,
            Step::Done(_) => panic!("over"),
        };
        match machine.step(reply) {
            Step::Done(result) => assert_eq!(result, Err(PollError::StoreUnavailable)),
            Step::Ask(_, _) => panic!("goes on"),
        }
    }
}

#[test]
fn lookup_fails_on_a_reply_that_is_no_record() {
    for reply in [Reply::Unavailable, Reply::Stored, Reply::Present] {
        let machine = match GetQuestionSet::start("abc123") {
            Step::Ask(machine, _) => machine,
            Step::Done(_) => panic!("over"),
        };
        match machine.step(reply) {
            Step::Done(result) => assert_eq!(result, Err(PollError::StoreUnavailable)),
            Step::Ask(_, _) => panic!("goes on"),
        }
    }
}

fn is_root_key(key: &str) -> bool {
    key.chars().count() == 6 && key.chars().all(|c| c.is_ascii_alphanumeric())
}

#[test]
fn key_search_probes_and_accepts_keys_only() {
    let policy = Policy { ttl: 10, attempts: 5 };
    let mut step = KeySearch::start(policy);
    let mut probed: Vec<String> = Vec::new();
    let session = loop {
        match step {
            Step::Done(result) => break result.unwrap(),
            Step::Ask(search, request) => {
                let key = match request {
                    Request::Probe { key } => key,
                    other => panic!("not a probe: {:?}", other),
                };
                assert!(is_root_key(&key));
                probed.push(key);
                let reply = if probed.len() < 3 { Reply::Present } else { Reply::Missing };
                step = search.step(reply);
            }
        }
    };
    assert_eq!(probed.len(), 3);
    assert_eq!(session.session(), &probed[2]);
    assert!(is_root_key(session.session()));
    assert!(session.lifetime() > 1_600_000_000);
}

#[test]
fn created_question_set_is_written_under_the_key_of_its_session() {
    let mut store = FakeStore::new(1000);
    let session = create(&mut store, cats_or_dogs(), Policy::default()).unwrap();
    assert!(is_root_key(session.session()));
    assert!(!session.session().contains(':'));
    assert_eq!(store.records.len(), 1);
    assert!(store.records.contains_key(session.session()));
    match &store.seen[1] {
        Request::WriteQuestions { key, .. } => assert_eq!(key, session.session()),
        other => panic!("not a write: {:?}", other),
    }
}
