//! The number guessing game: a round holds a secret between 1 and 100 and
//! answers each line the player types.

use vstd::prelude::*;
use crate::text::{ascii_lowercase, decimal_digits, lemma_parse_unsigned_reads_decimal, lowercase, parse_u32, parse_unsigned, same_text, to_lowercase, trim, trimmed};
use rand::RngExt;

verus! {

/// Smallest number a secret or a guess may be.
pub const LOWEST: u32 = 1;

/// Largest number a secret or a guess may be.
pub const HIGHEST: u32 = 100;

/// How the game answers one line of input.
#[derive(Clone, Copy, Debug, PartialEq, Eq, Structural)]
pub enum GuessOutcome {
    /// The line is not a non-negative whole number that fits a `u32`.
    NotANumber,
    /// The number lies outside 1..=100.
    OutOfRange,
    /// The guess is below the secret: try higher.
    TooLow,
    /// The guess is above the secret: try lower.
    TooHigh,
    /// The guess is the secret; the number of counted attempts so far.
    Correct(i32),
}

/// One round of the game.
pub struct GuessRound {
    pub secret: u32,
    pub attempts: i32,
}

/// Calls `rand::rng().random_range(low..=high)`.  rand documents that the
/// value lies in the inclusive range and that an empty range panics, which
/// `requires` rules out; which value comes is chance, so nothing more is
/// stated.
#[verifier::external_body]
fn random_between(low: u32, high: u32) -> (r: u32)
    requires
        low <= high,
    ensures
        low <= r <= high,
{
    rand::rng().random_range(low..=high)
}

/// The answer to `line` in a round with `secret`, and the attempt count
/// after it: only guesses within 1..=100 are counted.
pub open spec fn answer(secret: u32, attempts: i32, line: Seq<char>) -> (GuessOutcome, int) {
    match parse_unsigned(line, u32::MAX as nat) {
        None => (GuessOutcome::NotANumber, attempts as int),
        Some(g) => if g < 1 || g > 100 {
            (GuessOutcome::OutOfRange, attempts as int)
        } else if g < secret {
            (GuessOutcome::TooLow, attempts + 1)
        } else if g > secret {
            (GuessOutcome::TooHigh, attempts + 1)
        } else {
            (GuessOutcome::Correct((attempts + 1) as i32), attempts + 1)
        },
    }
}

/// Whether `line` is a guess within 1..=100, which counts as an attempt.
pub open spec fn counts_as_attempt(line: Seq<char>) -> bool {
    parse_unsigned(line, u32::MAX as nat) matches Some(g) && LOWEST <= g <= HIGHEST
}

impl GuessRound {
    /// The secret lies in 1..=100.
    pub open spec fn wf(&self) -> bool {
        LOWEST <= self.secret <= HIGHEST
    }

    /// A round with a secret drawn at random from 1..=100.
    pub fn new() -> (r: GuessRound)
        ensures
            r.wf(),
            r.attempts == 0,
    {
        let secret = random_between(LOWEST, HIGHEST);
        Self::with_secret(secret)
    }

    /// A round with the given secret and no attempts yet.
    pub fn with_secret(secret: u32) -> (r: GuessRound)
        requires
            LOWEST <= secret <= HIGHEST,
        ensures
            r.wf(),
            r.secret == secret,
            r.attempts == 0,
    {
        GuessRound { secret, attempts: 0 }
    }

    /// Answers one line the player typed (already trimmed and lowercased).
    /// A guess in range counts as an attempt; when it does, the count must
    /// not be at its limit, where the counter would overflow.
    pub fn guess(&mut self, line: &str) -> (out: GuessOutcome)
        requires
            counts_as_attempt(line@) ==> old(self).attempts < i32::MAX,
        ensures
            final(self).secret == old(self).secret,
            (out, final(self).attempts as int) == answer(old(self).secret, old(self).attempts, line@),
    {
        let g = match parse_u32(line) {
            Some(g) => g,
            None => return GuessOutcome::NotANumber,
        };
        if !(LOWEST <= g && g <= HIGHEST) {
            return GuessOutcome::OutOfRange;
        }
        self.attempts = self.attempts + 1;
        if g < self.secret {
            GuessOutcome::TooLow
        } else if g > self.secret {
            GuessOutcome::TooHigh
        } else {
            GuessOutcome::Correct(self.attempts)
        }
    }
}

/// A typed line as the game reads it: trimmed, then lowercased.
pub fn normalize_input(line: &str) -> (r: String)
    ensures
        r@ == lowercase(trimmed(line@)),
        vstd::utf8::is_ascii_chars(trimmed(line@)) ==> r@ == ascii_lowercase(trimmed(line@)),
{
    to_lowercase(trim(line))
}

/// Whether an answer to "Play again?" asks for another round.
pub fn wants_replay(answer: &str) -> (r: bool)
    ensures
        r == (answer@ == "y"@ || answer@ == "yes"@),
{
    same_text(answer, "y") || same_text(answer, "yes")
}

/// Each guess within range moves the count of attempts up by exactly one,
/// every other line leaves it, and the secret is the only guess answered
/// as correct.
pub proof fn lemma_answer_counts_only_guesses_in_range(secret: u32, attempts: i32, line: Seq<char>)
    requires
        LOWEST <= secret <= HIGHEST,
        attempts < i32::MAX,
    ensures
        ({
            let (out, after) = answer(secret, attempts, line);
            &&& (out is NotANumber || out is OutOfRange) <==> after == attempts
            &&& (out is TooLow || out is TooHigh || out is Correct) <==> after == attempts + 1
            &&& out is Correct <==> parse_unsigned(line, u32::MAX as nat) == Some(secret as nat)
            &&& out is Correct ==> out == GuessOutcome::Correct((attempts + 1) as i32)
        }),
{
}

/// A guess within 1..=100 is answered by comparing it with the secret:
/// below it is too low, above it too high, equal to it correct; each such
/// guess is one more attempt, and the correct answer reports the count.
pub proof fn lemma_guess_compares_with_secret(secret: u32, attempts: i32, line: Seq<char>, g: nat)
    requires
        parse_unsigned(line, u32::MAX as nat) == Some(g),
        1 <= g <= 100,
        attempts < i32::MAX,
    ensures
        answer(secret, attempts, line).1 == attempts + 1,
        g < secret <==> answer(secret, attempts, line).0 == GuessOutcome::TooLow,
        g > secret <==> answer(secret, attempts, line).0 == GuessOutcome::TooHigh,
        g == secret <==> answer(secret, attempts, line).0 == GuessOutcome::Correct((attempts + 1) as i32),
{
}

/// The guess written as `g` in decimal is read as `g`: typing 35 against
/// the secret 42 is too low, typing 50 is too high, typing 42 is correct.
pub proof fn lemma_typed_guess(secret: u32, attempts: i32, g: u32)
    requires
        1 <= g <= 100,
        attempts < i32::MAX,
    ensures
        g < secret ==> answer(secret, attempts, decimal_digits(g as nat)).0 == GuessOutcome::TooLow,
        g > secret ==> answer(secret, attempts, decimal_digits(g as nat)).0 == GuessOutcome::TooHigh,
        g == secret ==> answer(secret, attempts, decimal_digits(g as nat)).0 == GuessOutcome::Correct(
            (attempts + 1) as i32,
        ),
{
    lemma_parse_unsigned_reads_decimal(g as nat, u32::MAX as nat);
    lemma_guess_compares_with_secret(secret, attempts, decimal_digits(g as nat), g as nat);
}

} // verus!
