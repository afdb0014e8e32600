use spelling_bee::puzzle::{score_buckets, Letter, PuzzleConfig, Word};
use spelling_bee::validate::{validate, ValidationOutcome};

/// A puzzle over the letters {a, b, d, i, p, r, u} with 'a' required, whose
/// word list totals 28 points.
fn sample_puzzle() -> PuzzleConfig {
    let full = spelling_bee::words::bitmask("upbraid");
    let words = vec![
        ("upbraid", true),
        ("drab", false),
        ("bard", false),
        ("braid", false),
        ("rabid", false),
        ("paid", false),
        ("purr", false),
    ];
    PuzzleConfig {
        score_buckets: score_buckets(28),
        required_letter: Letter::new('a'),
        other_letters: vec![
            Letter::new('b'),
            Letter::new('d'),
            Letter::new('i'),
            Letter::new('p'),
            Letter::new('r'),
            Letter::new('u'),
        ],
        valid_words: words
            .into_iter()
            .map(|(w, pangram)| {
                assert_eq!(pangram, spelling_bee::words::bitmask(w) == full);
                Word::new(w, pangram)
            })
            .collect(),
    }
}

#[test]
fn too_short_wins_over_already_guessed() {
    let puzzle = sample_puzzle();
    let submitted = vec!["bad".to_owned()];
    assert_eq!(
        validate("bad", &puzzle, &submitted),
        ValidationOutcome::TooShort
    );
}

#[test]
fn already_guessed_words_are_reported() {
    let puzzle = sample_puzzle();
    let submitted = vec!["braid".to_owned()];
    assert_eq!(
        validate("braid", &puzzle, &submitted),
        ValidationOutcome::AlreadyGuessed
    );
}

#[test]
fn missing_required_letter_is_reported() {
    let puzzle = sample_puzzle();
    assert_eq!(
        validate("drip", &puzzle, &Vec::new()),
        ValidationOutcome::MissingRequiredLetter
    );
}

#[test]
fn letters_outside_the_puzzle_are_reported() {
    let puzzle = sample_puzzle();
    assert_eq!(
        validate("abyss", &puzzle, &Vec::new()),
        ValidationOutcome::BadLetters
    );
}

#[test]
fn words_not_in_the_list_are_reported() {
    let puzzle = sample_puzzle();
    assert_eq!(
        validate("arid", &puzzle, &Vec::new()),
        ValidationOutcome::NotInList
    );
}

#[test]
fn accepted_pangram_scores_with_bonus() {
    let puzzle = sample_puzzle();
    assert_eq!(
        validate("upbraid", &puzzle, &Vec::new()),
        ValidationOutcome::Accepted { is_pangram: true, points: 14 }
    );
}

#[test]
fn accepted_short_word_scores_one() {
    let puzzle = sample_puzzle();
    assert_eq!(
        validate("drab", &puzzle, &Vec::new()),
        ValidationOutcome::Accepted { is_pangram: false, points: 1 }
    );
}

#[test]
fn accepted_five_letter_word_scores_its_length() {
    let puzzle = sample_puzzle();
    let submitted = vec!["drab".to_owned()];
    assert_eq!(
        validate("braid", &puzzle, &submitted),
        ValidationOutcome::Accepted { is_pangram: false, points: 5 }
    );
}

#[test]
fn missing_required_letter_wins_over_bad_letters() {
    let puzzle = sample_puzzle();
    // "dizzy" lacks 'a' and also uses letters outside the puzzle.
    assert_eq!(
        validate("dizzy", &puzzle, &Vec::new()),
        ValidationOutcome::MissingRequiredLetter
    );
}
