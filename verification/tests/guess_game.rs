use rustbits::guess::{normalize_input, wants_replay, GuessOutcome, GuessRound, HIGHEST, LOWEST};

#[test]
fn random_round_has_secret_in_range() {
    for _ in 0..200 {
        let r = GuessRound::new();
        assert!(LOWEST <= r.secret && r.secret <= HIGHEST);
        assert_eq!(r.attempts, 0);
    }
}

#[test]
fn random_rounds_differ() {
    let first = GuessRound::new().secret;
    let differs = (0..500).any(|_| GuessRound::new().secret != first);
    assert!(differs);
}

#[test]
fn answers_and_attempts() {
    let mut r = GuessRound::with_secret(42);
    assert_eq!(r.guess("abc"), GuessOutcome::NotANumber);
    assert_eq!(r.guess("-3"), GuessOutcome::NotANumber);
    assert_eq!(r.guess(""), GuessOutcome::NotANumber);
    assert_eq!(r.attempts, 0);
    assert_eq!(r.guess("0"), GuessOutcome::OutOfRange);
    assert_eq!(r.guess("101"), GuessOutcome::OutOfRange);
    assert_eq!(r.guess("99999999999"), GuessOutcome::NotANumber);
    assert_eq!(r.attempts, 0);
    assert_eq!(r.guess("10"), GuessOutcome::TooLow);
    assert_eq!(r.guess("+90"), GuessOutcome::TooHigh);
    assert_eq!(r.attempts, 2);
    assert_eq!(r.guess("42"), GuessOutcome::Correct(3));
    assert_eq!(r.attempts, 3);
    assert_eq!(r.secret, 42);
}

#[test]
fn edges_of_range() {
    let mut low = GuessRound::with_secret(1);
    assert_eq!(low.guess("1"), GuessOutcome::Correct(1));
    let mut high = GuessRound::with_secret(100);
    assert_eq!(high.guess("100"), GuessOutcome::Correct(1));
}

#[test]
fn input_is_trimmed_and_lowercased() {
    assert_eq!(normalize_input("  YES \n"), "yes");
    assert_eq!(normalize_input("\tNo"), "no");
    assert_eq!(normalize_input(" 42 "), "42");
    assert_eq!(normalize_input("ÉTÉ"), "été");
}

#[test]
fn replay_answers() {
    assert!(wants_replay("y"));
    assert!(wants_replay("yes"));
    assert!(!wants_replay("n"));
    assert!(!wants_replay("yeah"));
    assert!(!wants_replay(""));
}
