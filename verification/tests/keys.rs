use poll_tally::keys::{composite, generate, prefix_of, split, KEY_LENGTH, SEPARATOR};
use poll_tally::records::{Answer, Count, Question, Score, Session, Type, Vote};
use poll_tally::store::{Policy, KEY_ATTEMPTS, KV_TTL};

#[test]
fn generated_key_has_six_alphanumeric_characters() {
    for _ in 0..200 {
        let key = generate();
        assert_eq!(key.chars().count(), 6);
        assert_eq!(key.len(), KEY_LENGTH);
        assert!(key.chars().all(|c| c.is_ascii_alphanumeric()));
    }
}

#[test]
fn generated_keys_never_hold_the_separator() {
    for _ in 0..200 {
        assert!(!generate().contains(SEPARATOR));
    }
}

#[test]
fn generated_keys_vary() {
    let first = generate();
    let mut differs = false;
    for _ in 0..50 {
        if generate() != first {
            differs = true;
        }
    }
    assert!(differs);
}

#[test]
fn composite_joins_root_and_suffix_with_a_colon() {
    assert_eq!(composite("abc123", "XyZ789"), "abc123:XyZ789");
    assert_eq!(composite("", ""), ":");
    assert_eq!(composite("root", ""), "root:");
}

#[test]
fn prefix_is_root_and_colon() {
    assert_eq!(prefix_of("abc123"), "abc123:");
    assert_eq!(prefix_of(""), ":");
}

#[test]
fn composite_key_starts_with_prefix_of_its_root() {
    for _ in 0..50 {
        let root = generate();
        let suffix = generate();
        let key = composite(&root, &suffix);
        assert!(key.starts_with(&prefix_of(&root)));
        assert!(prefix_of(&key).starts_with(&prefix_of(&root)));
    }
}

#[test]
fn composite_key_is_under_no_other_root() {
    let key = composite("abc123", "zzzzzz");
    assert!(!key.starts_with(&prefix_of("abc12")));
    assert!(!key.starts_with(&prefix_of("abc1234")));
    assert!(!key.starts_with(&prefix_of("abc124")));
}

#[test]
fn root_key_is_not_under_its_own_prefix() {
    let root = generate();
    assert!(!root.starts_with(&prefix_of(&root)));
}

#[test]
fn default_policy_keeps_records_for_thirty_days() {
    let policy = Policy::default();
    assert_eq!(policy.ttl, 2_592_000);
    assert_eq!(policy.ttl, 30 * 24 * 60 * 60);
    assert_eq!(policy.ttl, KV_TTL);
    assert_eq!(policy.attempts, KEY_ATTEMPTS);
    assert!(policy.attempts > 0);
}

#[test]
fn session_expires_ttl_seconds_after_now() {
    let session = Session::new("abc123".to_string(), 1_700_000_000, 2_592_000);
    assert_eq!(session.session(), "abc123");
    assert_eq!(session.lifetime(), 1_702_592_000);
}

#[test]
fn session_expiry_stops_at_the_largest_number() {
    let session = Session::new("k".to_string(), i64::MAX, u64::MAX);
    assert_eq!(session.lifetime(), u64::MAX);
    let session = Session::new("k".to_string(), 1, u64::MAX);
    assert_eq!(session.lifetime(), u64::MAX);
    let session = Session::new("k".to_string(), 1, u64::MAX - 1);
    assert_eq!(session.lifetime(), u64::MAX);
    let session = Session::new("k".to_string(), 1, u64::MAX - 2);
    assert_eq!(session.lifetime(), u64::MAX - 1);
}

#[test]
fn session_with_clock_before_1970_counts_from_1970() {
    let session = Session::new("k".to_string(), -5, 100);
    assert_eq!(session.lifetime(), 100);
    let session = Session::new("k".to_string(), i64::MIN, 0);
    assert_eq!(session.lifetime(), 0);
}

#[test]
fn untimed_session_has_lifetime_zero() {
    let session = Session::untimed("abc123:def456".to_string());
    assert_eq!(session.session(), "abc123:def456");
    assert_eq!(session.lifetime(), 0);
}

#[test]
fn new_answer_keeps_text_and_gets_a_key() {
    let answer = Answer::new("Cats".to_string());
    assert_eq!(answer.answer(), "Cats");
    assert_eq!(answer.key().chars().count(), 6);
    assert!(answer.key().chars().all(|c| c.is_ascii_alphanumeric()));
}

#[test]
fn answer_from_parts_keeps_both() {
    let answer = Answer::from_parts("Dogs".to_string(), "k1".to_string());
    assert_eq!(answer.answer(), "Dogs");
    assert_eq!(answer.key(), "k1");
}

#[test]
fn new_question_keeps_text_and_answers_and_gets_a_key() {
    let answers = vec![
        Answer::from_parts("Cats".to_string(), "a1".to_string()),
        Answer::from_parts("Dogs".to_string(), "a2".to_string()),
    ];
    let question = Question::new("Which?".to_string(), answers.clone());
    assert_eq!(question.question(), "Which?");
    assert_eq!(question.answers(), &answers);
    assert_eq!(question.key().chars().count(), 6);
    assert!(question.key().chars().all(|c| c.is_ascii_alphanumeric()));
}

#[test]
fn question_from_parts_keeps_all() {
    let question = Question::from_parts("Q".to_string(), Vec::new(), "qk".to_string());
    assert_eq!(question.question(), "Q");
    assert!(question.answers().is_empty());
    assert_eq!(question.key(), "qk");
}

#[test]
fn new_vote_names_its_answer() {
    let vote = Vote::new("Cats".to_string(), "yes".to_string());
    assert_eq!(vote.vote, "yes");
    assert_eq!(vote.answer_key, Some("Cats".to_string()));
    assert_eq!(vote.question_key, None);
}

#[test]
fn count_holds_answer_and_number() {
    let count = Count::new("Cats".to_string(), 41);
    assert_eq!(count.answer(), "Cats");
    assert_eq!(count.count(), 41);
    let most = Count::new(String::new(), u16::MAX);
    assert_eq!(most.count(), 65_535);
    assert_eq!(most.answer(), "");
}

#[test]
fn split_parts_a_key_at_its_first_separator() {
    assert_eq!(split("abc123:XyZ789"), Some(("abc123".to_string(), "XyZ789".to_string())));
    assert_eq!(split("a:b:c"), Some(("a".to_string(), "b:c".to_string())));
    assert_eq!(split(":"), Some((String::new(), String::new())));
    assert_eq!(split("root:"), Some(("root".to_string(), String::new())));
    assert_eq!(split(":suffix"), Some((String::new(), "suffix".to_string())));
}

#[test]
fn split_finds_no_parts_in_a_root_key() {
    assert_eq!(split("abc123"), None);
    assert_eq!(split(""), None);
    assert_eq!(split(&generate()), None);
}

#[test]
fn split_undoes_composite() {
    for _ in 0..50 {
        let root = generate();
        let suffix = generate();
        assert_eq!(split(&composite(&root, &suffix)), Some((root, suffix)));
    }
}

#[test]
fn split_counts_characters_not_bytes() {
    assert_eq!(split("h\u{e9}:\u{fc}"), Some(("h\u{e9}".to_string(), "\u{fc}".to_string())));
}

#[test]
fn score_tallies_its_votes() {
    let score = Score {
        questions: Vec::new(),
        votes: vec![
            Vote::new("Cats".to_string(), "yes".to_string()),
            Vote::new("Cats".to_string(), "yes".to_string()),
            Vote::new("Dogs".to_string(), "no".to_string()),
        ],
    };
    let tally = score.tally();
    assert_eq!(tally.count("Cats", "yes"), 2);
    assert_eq!(tally.count("Dogs", "no"), 1);
    assert_eq!(tally.count("Dogs", "yes"), 0);
}

#[test]
fn record_kinds_are_told_apart() {
    let question = Question::from_parts("Q".to_string(), Vec::new(), "qk".to_string());
    let kind = Type::Question { q: question.clone() };
    assert_ne!(kind, Type::Vote);
    assert_eq!(kind, Type::Question { q: question });
}
