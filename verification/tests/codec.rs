use spelling_bee::letters;
use spelling_bee::words;

#[test]
fn test_vec_roundtrip() {
    assert_eq!(
        vec!['a', 'b', 'c', 'h', 's', 'u'],
        words::vec_from_bitmask(&words::bitmask("bacchus")),
    )
}

#[test]
fn test_roundtrip() {
    assert_eq!('c', letters::from_bitmask(&letters::bitmask(&'c')))
}

#[test]
fn letter_masks_are_single_bits() {
    assert_eq!(letters::bitmask(&'a'), 1);
    assert_eq!(letters::bitmask(&'b'), 2);
    assert_eq!(letters::bitmask(&'z'), 1 << 25);
}

#[test]
fn every_letter_roundtrips() {
    for c in 'a'..='z' {
        assert_eq!(c, letters::from_bitmask(&letters::bitmask(&c)));
    }
}

#[test]
fn word_mask_is_reorder_invariant() {
    assert_eq!(words::bitmask("bacchus"), words::bitmask("subchac"));
    assert_eq!(words::bitmask("stop"), words::bitmask("pots"));
}

#[test]
fn word_mask_changes_when_a_letter_is_removed() {
    // Dropping every occurrence of a letter changes the mask ...
    assert_ne!(words::bitmask("bacchus"), words::bitmask("bachu"));
    // ... though dropping one of a repeated letter does not change the set.
    assert_eq!(words::bitmask("bacchus"), words::bitmask("bachus"));
}

#[test]
fn word_mask_exact_value() {
    // bits for a, b, c, h, s, u: 1 + 2 + 4 + 128 + (1 << 18) + (1 << 20)
    assert_eq!(words::bitmask("bacchus"), 1310855);
}

#[test]
fn mask_decodes_in_ascending_order() {
    assert_eq!(words::vec_from_bitmask(&words::bitmask("zebra")), vec![
        'a', 'b', 'e', 'r', 'z'
    ]);
    assert_eq!(words::vec_from_bitmask(&0), Vec::<char>::new());
}
