use vanity_principal::identity::{GenerationError, Identity};
use vanity_principal::search::{
    judge, next_attempt, Outcome, SearchState, BATCH_SIZE, REPORT_INTERVAL,
};

const FIRST: &str = "aaaaa-bbbbb-ccccc-ddddd-eeeee-fffff-ggggg-hhhhh-iiiii-jjjjj-kkk";

fn identity(principal: &str) -> Identity {
    Identity {
        principal: principal.to_string(),
        mnemonic: format!("words of {}", principal),
        secret_key: [7u8; 32],
    }
}

#[test]
fn intervals_are_those_of_the_search() {
    assert_eq!(REPORT_INTERVAL, 100_000);
    assert_eq!(BATCH_SIZE, 10_000);
}

#[test]
fn matching_principal_is_a_match() {
    assert_eq!(
        judge(17, Ok(identity(FIRST)), "aaaaa"),
        Outcome::Match { attempt: 17, identity: identity(FIRST) }
    );
}

#[test]
fn match_goes_before_progress() {
    assert_eq!(
        judge(200_000, Ok(identity(FIRST)), "aaaaa-b"),
        Outcome::Match { attempt: 200_000, identity: identity(FIRST) }
    );
}

#[test]
fn other_principal_is_a_miss() {
    assert_eq!(judge(17, Ok(identity(FIRST)), "b"), Outcome::Miss { attempt: 17 });
    assert_eq!(judge(1, Ok(identity(FIRST)), "aaaab"), Outcome::Miss { attempt: 1 });
    assert_eq!(judge(99_999, Ok(identity(FIRST)), "b"), Outcome::Miss { attempt: 99_999 });
    assert_eq!(judge(100_001, Ok(identity(FIRST)), "b"), Outcome::Miss { attempt: 100_001 });
}

#[test]
fn every_hundred_thousandth_miss_is_reported() {
    assert_eq!(
        judge(100_000, Ok(identity(FIRST)), "b"),
        Outcome::Progress { attempt: 100_000, sample: FIRST.to_string() }
    );
    assert_eq!(
        judge(300_000, Ok(identity(FIRST)), "b"),
        Outcome::Progress { attempt: 300_000, sample: FIRST.to_string() }
    );
    assert_eq!(
        judge(0, Ok(identity(FIRST)), "b"),
        Outcome::Progress { attempt: 0, sample: FIRST.to_string() }
    );
}

#[test]
fn failure_is_never_a_match() {
    for error in [
        GenerationError::Randomness,
        GenerationError::Encoding,
        GenerationError::Derivation,
        GenerationError::Identity,
    ] {
        assert_eq!(judge(3, Err(error), ""), Outcome::Failed { attempt: 3, error });
        assert_eq!(judge(100_000, Err(error), "a"), Outcome::Failed { attempt: 100_000, error });
    }
}

#[test]
fn empty_prefix_matches_any_identity() {
    assert_eq!(
        judge(1, Ok(identity("")), ""),
        Outcome::Match { attempt: 1, identity: identity("") }
    );
    assert_eq!(
        judge(1, Ok(identity(FIRST)), ""),
        Outcome::Match { attempt: 1, identity: identity(FIRST) }
    );
}

#[test]
fn next_attempt_is_one_more_and_zero_after_the_largest() {
    assert_eq!(next_attempt(0), 1);
    assert_eq!(next_attempt(1), 2);
    assert_eq!(next_attempt(99_999), 100_000);
    assert_eq!(next_attempt(u64::MAX - 1), u64::MAX);
    assert_eq!(next_attempt(u64::MAX), 0);
}

#[test]
fn new_state_has_counted_nothing() {
    let state = SearchState::new();
    assert_eq!(state.attempts(), 0);
    assert!(!state.is_found());
}

#[test]
fn counter_counts_every_attempt() {
    let mut state = SearchState::new();
    let mut last = 0;
    for expected in 1..=1000u64 {
        let number = state.begin_attempt();
        assert_eq!(number, expected);
        assert!(number > last);
        assert_eq!(state.attempts(), expected);
        last = number;
    }
    assert_eq!(state.attempts(), 1000);
    assert!(!state.is_found());
}

#[test]
fn flag_stays_set() {
    let mut state = SearchState::new();
    state.begin_attempt();
    state.mark_found();
    assert!(state.is_found());
    state.begin_attempt();
    assert!(state.is_found());
    state.mark_found();
    assert!(state.is_found());
    assert_eq!(state.attempts(), 2);
    assert_eq!(state.record(Ok(identity(FIRST)), "b"), Outcome::Idle);
    assert_eq!(state.record(Err(GenerationError::Identity), "b"), Outcome::Idle);
    assert!(state.is_found());
}

#[test]
fn marking_does_not_count() {
    let mut state = SearchState::new();
    state.mark_found();
    assert_eq!(state.attempts(), 0);
}

#[test]
fn recorded_miss_is_counted() {
    let mut state = SearchState::new();
    assert_eq!(state.record(Ok(identity(FIRST)), "b"), Outcome::Miss { attempt: 1 });
    assert_eq!(state.record(Ok(identity(FIRST)), "c"), Outcome::Miss { attempt: 2 });
    assert_eq!(state.attempts(), 2);
    assert!(!state.is_found());
}

#[test]
fn recorded_match_sets_the_flag() {
    let mut state = SearchState::new();
    assert_eq!(state.record(Ok(identity(FIRST)), "b"), Outcome::Miss { attempt: 1 });
    assert_eq!(
        state.record(Ok(identity(FIRST)), "aaaaa"),
        Outcome::Match { attempt: 2, identity: identity(FIRST) }
    );
    assert!(state.is_found());
    assert_eq!(state.attempts(), 2);
}

#[test]
fn recorded_failure_is_counted_and_sets_no_flag() {
    let mut state = SearchState::new();
    assert_eq!(
        state.record(Err(GenerationError::Derivation), ""),
        Outcome::Failed { attempt: 1, error: GenerationError::Derivation }
    );
    assert_eq!(state.attempts(), 1);
    assert!(!state.is_found());
}

#[test]
fn nothing_is_done_once_a_match_was_found() {
    let mut state = SearchState::new();
    state.record(Ok(identity(FIRST)), "a");
    assert!(state.is_found());
    assert_eq!(state.record(Ok(identity(FIRST)), "a"), Outcome::Idle);
    assert_eq!(state.work("a"), Outcome::Idle);
    assert_eq!(state.work(""), Outcome::Idle);
    assert_eq!(state.attempts(), 1);
}

#[test]
fn work_counts_and_finds_the_empty_prefix() {
    let mut state = SearchState::new();
    assert_eq!(state.work("A"), Outcome::Miss { attempt: 1 });
    assert!(!state.is_found());
    match state.work("") {
        Outcome::Match { attempt, .. } => assert_eq!(attempt, 2),
        other => panic!("no match: {:?}", other),
    }
    assert!(state.is_found());
    assert_eq!(state.attempts(), 2);
}
