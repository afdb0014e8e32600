use spelling_bee::puzzle::{score_buckets, Word};

#[test]
fn four_letter_word_scores_one() {
    let w = Word::new("drab", false);
    assert_eq!(w.score(), 1);
}

#[test]
fn seven_letter_pangram_scores_fourteen() {
    let w = Word::new("upbraid", true);
    assert_eq!(w.score(), 7 + 7);
}

#[test]
fn eight_letter_plain_word_scores_eight() {
    let w = Word::new("bacchant", false);
    assert_eq!(w.score(), 8);
}

#[test]
fn four_letter_pangram_flag_does_not_change_the_score() {
    let w = Word::new("drab", true);
    assert_eq!(w.score(), 1);
}

#[test]
fn buckets_have_nine_rising_thresholds() {
    let buckets = score_buckets(100);
    let labels: Vec<&str> = buckets.iter().map(|(l, _)| l.as_str()).collect();
    assert_eq!(labels, vec![
        "Beginner",
        "Good Start",
        "Moving Up",
        "Good",
        "Solid",
        "Nice",
        "Great",
        "Amazing",
        "Genius"
    ]);
    let thresholds: Vec<u32> = buckets.iter().map(|(_, t)| *t).collect();
    assert_eq!(thresholds, vec![0, 2, 5, 8, 15, 25, 40, 50, 70]);
    assert_eq!(buckets.len(), 9);
    for i in 0..8 {
        assert!(buckets[i].1 < buckets[i + 1].1);
    }
}

#[test]
fn buckets_truncate_toward_zero() {
    // 28 points in all: 2% of 28 is 0.56, kept as 0; 70% is 19.6, kept as 19.
    let buckets = score_buckets(28);
    let thresholds: Vec<u32> = buckets.iter().map(|(_, t)| *t).collect();
    assert_eq!(thresholds, vec![0, 0, 1, 2, 4, 7, 11, 14, 19]);
}

#[test]
fn word_accessors_follow_the_text() {
    let w = Word::new("braid", false);
    assert_eq!(w.len(), 5);
    assert_eq!(w.get(0).map(|l| l.0), Some('b'));
    assert_eq!(w.get(4).map(|l| l.0), Some('d'));
    assert_eq!(w.get(5), None);
    assert!(w.contains(&spelling_bee::puzzle::Letter::new('r')));
    assert!(!w.contains(&spelling_bee::puzzle::Letter::new('z')));
    let ls: Vec<char> = w.letters().iter().map(|l| l.0).collect();
    assert_eq!(ls, vec!['a', 'b', 'd', 'i', 'r']);
}

#[test]
fn superset_goes_by_letters_not_length() {
    let big = Word::new("upbraid", false);
    let small = Word::new("drab", false);
    assert!(big.is_superset(&small));
    assert!(!small.is_superset(&big));
    let same = Word::new("bachus", false);
    let repeated = Word::new("bacchus", false);
    assert!(same.is_superset(&repeated));
    assert!(repeated.is_superset(&same));
}

#[test]
fn words_are_equal_by_text_alone() {
    let a = Word::new("drab", false);
    let b = Word::new("drab", true);
    let c = Word::new("bard", false);
    assert!(a == b);
    assert!(a != c);
}
