use spelling_bee::generator::{generate, Error};
use spelling_bee::store::{check_new_words, sanitize_corpus, word_rows};

fn corpus(words: &[&str]) -> Vec<String> {
    sanitize_corpus(&words.iter().map(|w| w.to_string()).collect())
        .expect("corpus fits the scorer")
}

#[test]
fn generated_puzzle_has_seven_letters_and_a_pangram() {
    let corpus = corpus(&["upbraid", "drab", "bard", "braid", "rabid", "paid", "purr"]);
    let config = generate(&corpus, 7).expect("solvable corpus");

    // Exactly seven distinct letters participate.
    let mut letters: Vec<char> = vec![config.required_letter.0];
    letters.extend(config.other_letters.iter().map(|l| l.0));
    assert_eq!(letters.len(), 7);
    let mut sorted = letters.clone();
    sorted.sort();
    sorted.dedup();
    assert_eq!(sorted, vec!['a', 'b', 'd', 'i', 'p', 'r', 'u']);

    // The word list is the whole corpus here, and the pangram is upbraid.
    let mut texts: Vec<&str> = config.valid_words.iter().map(|w| w.word.as_str()).collect();
    texts.sort();
    assert_eq!(
        texts,
        vec!["bard", "braid", "drab", "paid", "purr", "rabid", "upbraid"]
    );
    let pangrams: Vec<&str> = config
        .valid_words
        .iter()
        .filter(|w| w.is_pangram)
        .map(|w| w.word.as_str())
        .collect();
    assert_eq!(pangrams, vec!["upbraid"]);
}

#[test]
fn generated_buckets_total_the_word_scores() {
    let corpus = corpus(&["upbraid", "drab", "bard", "braid", "rabid", "paid", "purr"]);
    let config = generate(&corpus, 99).expect("solvable corpus");
    // 14 + 1 + 1 + 5 + 5 + 1 + 1 = 28 points in all.
    let total: u32 = config.valid_words.iter().map(|w| w.score()).sum();
    assert_eq!(total, 28);
    let thresholds: Vec<u32> = config.score_buckets.iter().map(|(_, t)| *t).collect();
    assert_eq!(thresholds, vec![0, 0, 1, 2, 4, 7, 11, 14, 19]);
}

#[test]
fn same_seed_generates_the_same_puzzle() {
    let corpus = corpus(&["upbraid", "drab", "bard", "braid", "rabid", "paid", "purr"]);
    let a = generate(&corpus, 42).expect("solvable corpus");
    let b = generate(&corpus, 42).expect("solvable corpus");
    assert!(a == b);
}

#[test]
fn corpus_without_a_seven_letter_word_is_rejected() {
    let corpus = corpus(&["drab", "bard", "paid", "purr", "braid"]);
    assert_eq!(generate(&corpus, 1), Err(Error::NoPangram));
}

#[test]
fn words_needing_extra_letters_stay_out_of_the_puzzle() {
    let corpus = corpus(&["upbraid", "drab", "zebra", "jazz", "braid"]);
    let config = generate(&corpus, 3).expect("solvable corpus");
    let mut texts: Vec<&str> = config.valid_words.iter().map(|w| w.word.as_str()).collect();
    texts.sort();
    assert_eq!(texts, vec!["braid", "drab", "upbraid"]);
}

#[test]
fn sanitizer_lowercases_dedups_and_drops_junk() {
    let raw = vec![
        "Drab".to_string(),
        "drab".to_string(),
        "ok!".to_string(),
        "abc".to_string(),
        "UPBRAID".to_string(),
    ];
    let clean = sanitize_corpus(&raw).expect("small corpus");
    assert_eq!(clean, vec!["drab".to_string(), "upbraid".to_string()]);
}

#[test]
fn new_word_batches_are_checked_as_a_whole() {
    let good = vec!["braid".to_string(), "DRAB".to_string()];
    assert!(check_new_words(&good));
    let short = vec!["braid".to_string(), "oak".to_string()];
    assert!(!check_new_words(&short));
    let nonalpha = vec!["bra1d".to_string()];
    assert!(!check_new_words(&nonalpha));
}

#[test]
fn store_rows_carry_mask_and_length() {
    let batch = vec!["bacchus".to_string(), "drab".to_string()];
    let rows = word_rows(&batch);
    assert_eq!(rows.len(), 2);
    assert_eq!(rows[0].0, "bacchus");
    assert_eq!(rows[0].1, 1310855);
    assert_eq!(rows[0].2, 7);
    assert_eq!(rows[1].0, "drab");
    assert_eq!(rows[1].2, 4);
}

#[test]
fn subset_lookup_tags_pangrams_against_the_mask() {
    let corpus = corpus(&["upbraid", "drab", "zebra", "purr"]);
    let mask = spelling_bee::words::bitmask("upbraid");
    let found = spelling_bee::generator::words_subset_of(&corpus, mask);
    let texts: Vec<&str> = found.iter().map(|w| w.word.as_str()).collect();
    assert_eq!(texts, vec!["upbraid", "drab", "purr"]);
    let flags: Vec<bool> = found.iter().map(|w| w.is_pangram).collect();
    assert_eq!(flags, vec![true, false, false]);
}

#[test]
fn subset_lookup_with_every_letter_returns_the_corpus() {
    let corpus = corpus(&["upbraid", "drab", "zebra", "purr"]);
    let all_letters: i32 = (1 << 26) - 1;
    let found = spelling_bee::generator::words_subset_of(&corpus, all_letters);
    assert_eq!(found.len(), corpus.len());
    // No word uses all 26 letters, so nothing is a pangram of this mask.
    assert!(found.iter().all(|w| !w.is_pangram));
}
