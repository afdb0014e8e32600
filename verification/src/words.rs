//! Bitmasks for whole words: the union of the letter masks of a word's
//! characters, and the decoding of a mask back into its letters.

use vstd::prelude::*;

use crate::letters;
use crate::letters::{bit_set, is_lower, letter_ord, spec_letter_mask, Bitmask, LETTERS};

verus! {

/// All characters of `s` are lowercase Latin letters.
pub open spec fn all_lower(s: Seq<char>) -> bool {
    forall|i: int| 0 <= i < s.len() ==> is_lower(#[trigger] s[i])
}

/// The mask of a word: the union of its letters' masks. Repeated letters
/// contribute no extra bits.
pub open spec fn spec_word_mask(s: Seq<char>) -> Bitmask
    decreases s.len(),
{
    if s.len() == 0 {
        0
    } else {
        spec_word_mask(s.drop_last()) | spec_letter_mask(s.last())
    }
}

/// The letters of a mask restricted to bits below `n`, in ascending bit order.
pub open spec fn mask_letters_upto(m: Bitmask, n: int) -> Seq<char>
    decreases n,
{
    if n <= 0 {
        Seq::empty()
    } else {
        mask_letters_upto(m, n - 1) + if bit_set(m, (n - 1) as u32) {
            seq![LETTERS[n - 1]]
        } else {
            Seq::empty()
        }
    }
}

/// The letters of a mask, one per set bit, in ascending bit order.
pub open spec fn spec_mask_letters(m: Bitmask) -> Seq<char> {
    mask_letters_upto(m, 26)
}

/// The characters of a string, in order.
pub fn str_chars(s: &str) -> (r: Vec<char>)
    ensures
        r@ == s@,
{
    broadcast use vstd::string::axiom_spec_iter;

    let mut v: Vec<char> = Vec::new();
    for c in it: s.chars()
        invariant
            it.seq() == s@,
            v@ == it.seq().take(it.index()),
    {
        v.push(c);
    }
    proof {
        assert(v@ =~= s@);
    }
    v
}

/// Compute the bitmask of a word: the bitwise OR of the masks of its
/// characters, which must all be lowercase Latin letters.
pub fn bitmask(word: &str) -> (r: Bitmask)
    requires
        all_lower(word@),
    ensures
        r == spec_word_mask(word@),
{
    let chars = str_chars(word);
    let mut bm: Bitmask = 0;
    let n = chars.len();
    let mut i: usize = 0;
    while i < n
        invariant
            n == chars.len(),
            chars@ == word@,
            all_lower(word@),
            0 <= i <= n,
            bm == spec_word_mask(chars@.take(i as int)),
        decreases n - i,
    {
        let c = chars[i];
        let m = letters::bitmask(&c);
        proof {
            assert(chars@.take(i + 1).drop_last() =~= chars@.take(i as int));
            assert(chars@.take(i + 1).last() == chars@[i as int]);
        }
        bm = bm | m;
        i = i + 1;
    }
    proof {
        assert(chars@.take(n as int) =~= chars@);
    }
    bm
}

/// Decode a mask into the letters of its set bits, ascending.
pub fn vec_from_bitmask(bm: &Bitmask) -> (r: Vec<char>)
    ensures
        r@ == spec_mask_letters(*bm),
{
    let mut v: Vec<char> = Vec::new();
    let mut i: usize = 0;
    while i < 26
        invariant
            0 <= i <= 26,
            v@ == mask_letters_upto(*bm, i as int),
        decreases 26 - i,
    {
        let mask = *bm & (1i32 << (i as u32));
        if mask != 0 {
            v.push(LETTERS[i]);
        }
        i = i + 1;
    }
    v
}

/// A bit of an OR is set exactly when it is set on either side.
pub proof fn lemma_or_bit(a: Bitmask, b: Bitmask, i: u32)
    requires
        i < 32,
    ensures
        bit_set(a | b, i) <==> bit_set(a, i) || bit_set(b, i),
{
    assert(i < 32 ==> (((a | b) & (1i32 << i) != 0) <==> ((a & (1i32 << i) != 0) || (b & (1i32
        << i) != 0)))) by (bit_vector);
}

/// A letter's mask has exactly the bit at the letter's alphabet position.
pub proof fn lemma_letter_mask_bit(c: char, i: u32)
    requires
        is_lower(c),
        i < 32,
    ensures
        bit_set(spec_letter_mask(c), i) <==> i == letter_ord(c),
{
    let k = (c as u32 - 97) as u32;
    assert(k < 26 && i < 32 ==> (((1i32 << k) & (1i32 << i) != 0) <==> i == k)) by (bit_vector);
}

/// A bit of a word's mask is set exactly when some character of the word
/// sits at that alphabet position.
pub proof fn lemma_word_mask_bit(s: Seq<char>, i: u32)
    requires
        all_lower(s),
        i < 32,
    ensures
        bit_set(spec_word_mask(s), i) <==> exists|j: int| 0 <= j < s.len() && letter_ord(s[j]) == i,
    decreases s.len(),
{
    if s.len() == 0 {
        assert(0i32 & (1i32 << i) == 0) by (bit_vector);
    } else {
        let prefix = s.drop_last();
        lemma_word_mask_bit(prefix, i);
        lemma_letter_mask_bit(s.last(), i);
        lemma_or_bit(spec_word_mask(prefix), spec_letter_mask(s.last()), i);
        if bit_set(spec_word_mask(s), i) {
            if bit_set(spec_word_mask(prefix), i) {
                let j = choose|j: int| 0 <= j < prefix.len() && letter_ord(prefix[j]) == i;
                assert(s[j] == prefix[j]);
            } else {
                assert(letter_ord(s[s.len() - 1]) == i);
            }
        }
        if exists|j: int| 0 <= j < s.len() && letter_ord(s[j]) == i {
            let j = choose|j: int| 0 <= j < s.len() && letter_ord(s[j]) == i;
            if j < s.len() - 1 {
                assert(prefix[j] == s[j]);
            }
        }
    }
}

/// Masks agreeing on every bit are equal.
pub proof fn lemma_mask_ext(a: Bitmask, b: Bitmask)
    requires
        forall|i: u32| i < 32 ==> (bit_set(a, i) <==> bit_set(b, i)),
    ensures
        a == b,
{
    assert(bit_set(a, 0) <==> bit_set(b, 0));
    assert(bit_set(a, 1) <==> bit_set(b, 1));
    assert(bit_set(a, 2) <==> bit_set(b, 2));
    assert(bit_set(a, 3) <==> bit_set(b, 3));
    assert(bit_set(a, 4) <==> bit_set(b, 4));
    assert(bit_set(a, 5) <==> bit_set(b, 5));
    assert(bit_set(a, 6) <==> bit_set(b, 6));
    assert(bit_set(a, 7) <==> bit_set(b, 7));
    assert(bit_set(a, 8) <==> bit_set(b, 8));
    assert(bit_set(a, 9) <==> bit_set(b, 9));
    assert(bit_set(a, 10) <==> bit_set(b, 10));
    assert(bit_set(a, 11) <==> bit_set(b, 11));
    assert(bit_set(a, 12) <==> bit_set(b, 12));
    assert(bit_set(a, 13) <==> bit_set(b, 13));
    assert(bit_set(a, 14) <==> bit_set(b, 14));
    assert(bit_set(a, 15) <==> bit_set(b, 15));
    assert(bit_set(a, 16) <==> bit_set(b, 16));
    assert(bit_set(a, 17) <==> bit_set(b, 17));
    assert(bit_set(a, 18) <==> bit_set(b, 18));
    assert(bit_set(a, 19) <==> bit_set(b, 19));
    assert(bit_set(a, 20) <==> bit_set(b, 20));
    assert(bit_set(a, 21) <==> bit_set(b, 21));
    assert(bit_set(a, 22) <==> bit_set(b, 22));
    assert(bit_set(a, 23) <==> bit_set(b, 23));
    assert(bit_set(a, 24) <==> bit_set(b, 24));
    assert(bit_set(a, 25) <==> bit_set(b, 25));
    assert(bit_set(a, 26) <==> bit_set(b, 26));
    assert(bit_set(a, 27) <==> bit_set(b, 27));
    assert(bit_set(a, 28) <==> bit_set(b, 28));
    assert(bit_set(a, 29) <==> bit_set(b, 29));
    assert(bit_set(a, 30) <==> bit_set(b, 30));
    assert(bit_set(a, 31) <==> bit_set(b, 31));
    assert(a == b) by (bit_vector)
        requires
            ((a & (1i32 << 0u32) != 0) <==> (b & (1i32 << 0u32) != 0)),
            ((a & (1i32 << 1u32) != 0) <==> (b & (1i32 << 1u32) != 0)),
            ((a & (1i32 << 2u32) != 0) <==> (b & (1i32 << 2u32) != 0)),
            ((a & (1i32 << 3u32) != 0) <==> (b & (1i32 << 3u32) != 0)),
            ((a & (1i32 << 4u32) != 0) <==> (b & (1i32 << 4u32) != 0)),
            ((a & (1i32 << 5u32) != 0) <==> (b & (1i32 << 5u32) != 0)),
            ((a & (1i32 << 6u32) != 0) <==> (b & (1i32 << 6u32) != 0)),
            ((a & (1i32 << 7u32) != 0) <==> (b & (1i32 << 7u32) != 0)),
            ((a & (1i32 << 8u32) != 0) <==> (b & (1i32 << 8u32) != 0)),
            ((a & (1i32 << 9u32) != 0) <==> (b & (1i32 << 9u32) != 0)),
            ((a & (1i32 << 10u32) != 0) <==> (b & (1i32 << 10u32) != 0)),
            ((a & (1i32 << 11u32) != 0) <==> (b & (1i32 << 11u32) != 0)),
            ((a & (1i32 << 12u32) != 0) <==> (b & (1i32 << 12u32) != 0)),
            ((a & (1i32 << 13u32) != 0) <==> (b & (1i32 << 13u32) != 0)),
            ((a & (1i32 << 14u32) != 0) <==> (b & (1i32 << 14u32) != 0)),
            ((a & (1i32 << 15u32) != 0) <==> (b & (1i32 << 15u32) != 0)),
            ((a & (1i32 << 16u32) != 0) <==> (b & (1i32 << 16u32) != 0)),
            ((a & (1i32 << 17u32) != 0) <==> (b & (1i32 << 17u32) != 0)),
            ((a & (1i32 << 18u32) != 0) <==> (b & (1i32 << 18u32) != 0)),
            ((a & (1i32 << 19u32) != 0) <==> (b & (1i32 << 19u32) != 0)),
            ((a & (1i32 << 20u32) != 0) <==> (b & (1i32 << 20u32) != 0)),
            ((a & (1i32 << 21u32) != 0) <==> (b & (1i32 << 21u32) != 0)),
            ((a & (1i32 << 22u32) != 0) <==> (b & (1i32 << 22u32) != 0)),
            ((a & (1i32 << 23u32) != 0) <==> (b & (1i32 << 23u32) != 0)),
            ((a & (1i32 << 24u32) != 0) <==> (b & (1i32 << 24u32) != 0)),
            ((a & (1i32 << 25u32) != 0) <==> (b & (1i32 << 25u32) != 0)),
            ((a & (1i32 << 26u32) != 0) <==> (b & (1i32 << 26u32) != 0)),
            ((a & (1i32 << 27u32) != 0) <==> (b & (1i32 << 27u32) != 0)),
            ((a & (1i32 << 28u32) != 0) <==> (b & (1i32 << 28u32) != 0)),
            ((a & (1i32 << 29u32) != 0) <==> (b & (1i32 << 29u32) != 0)),
            ((a & (1i32 << 30u32) != 0) <==> (b & (1i32 << 30u32) != 0)),
            ((a & (1i32 << 31u32) != 0) <==> (b & (1i32 << 31u32) != 0)),
    ;
}

/// The mask of a word depends only on which characters occur in it: any
/// reordering (or repetition) of the same letters yields the same mask.
pub proof fn lemma_word_mask_reorder(s: Seq<char>, t: Seq<char>)
    requires
        all_lower(s),
        all_lower(t),
        forall|c: char| s.contains(c) <==> t.contains(c),
    ensures
        spec_word_mask(s) == spec_word_mask(t),
{
    assert forall|i: u32| i < 32 implies (bit_set(spec_word_mask(s), i) <==> bit_set(
        spec_word_mask(t),
        i,
    )) by {
        lemma_word_mask_bit(s, i);
        lemma_word_mask_bit(t, i);
        if exists|j: int| 0 <= j < s.len() && letter_ord(s[j]) == i {
            let j = choose|j: int| 0 <= j < s.len() && letter_ord(s[j]) == i;
            assert(t.contains(s[j]));
        }
        if exists|j: int| 0 <= j < t.len() && letter_ord(t[j]) == i {
            let j = choose|j: int| 0 <= j < t.len() && letter_ord(t[j]) == i;
            assert(s.contains(t[j]));
        }
    }
    lemma_mask_ext(spec_word_mask(s), spec_word_mask(t));
}

/// A word's mask lies within `m` exactly when every character of the word
/// is a letter whose bit is set in `m`.
pub proof fn lemma_word_mask_subset(s: Seq<char>, m: Bitmask)
    requires
        all_lower(s),
    ensures
        (spec_word_mask(s) & m == spec_word_mask(s)) <==> (forall|j: int|
            0 <= j < s.len() ==> bit_set(m, letter_ord(#[trigger] s[j]) as u32)),
    decreases s.len(),
{
    if s.len() == 0 {
        assert(0i32 & m == 0i32) by (bit_vector);
    } else {
        let prefix = s.drop_last();
        let c = s.last();
        lemma_word_mask_subset(prefix, m);
        let a = spec_word_mask(prefix);
        let b = spec_letter_mask(c);
        let k = (c as u32 - 97) as u32;
        assert(((a | b) & m == (a | b)) <==> ((a & m == a) && (b & m == b))) by (bit_vector);
        assert(k < 26 ==> (((1i32 << k) & m == (1i32 << k)) <==> (m & (1i32 << k) != 0)))
            by (bit_vector);
        assert forall|j: int| 0 <= j < prefix.len() implies s[j] == prefix[j] by {}
        if forall|j: int| 0 <= j < s.len() ==> bit_set(m, letter_ord(#[trigger] s[j]) as u32) {
            assert(forall|j: int|
                0 <= j < prefix.len() ==> bit_set(m, letter_ord(#[trigger] prefix[j]) as u32));
        }
        if (spec_word_mask(s) & m == spec_word_mask(s)) {
            assert forall|j: int| 0 <= j < s.len() implies bit_set(
                m,
                letter_ord(#[trigger] s[j]) as u32,
            ) by {
                if j < s.len() - 1 {
                    assert(prefix[j] == s[j]);
                } else {
                    assert(s[j] == c);
                }
            }
        }
    }
}


/// The letters decoded from a mask: lowercase, in strictly ascending
/// alphabet order, with a letter at position `i < n` exactly when bit `i`
/// of the mask is set.
pub proof fn lemma_mask_letters_props(m: Bitmask, n: int)
    requires
        0 <= n <= 26,
    ensures
        forall|a: int|
            0 <= a < mask_letters_upto(m, n).len() ==> is_lower(
                #[trigger] mask_letters_upto(m, n)[a],
            ) && letter_ord(mask_letters_upto(m, n)[a]) < n && bit_set(
                m,
                letter_ord(mask_letters_upto(m, n)[a]) as u32,
            ),
        forall|a: int, b: int|
            0 <= a < b < mask_letters_upto(m, n).len() ==> letter_ord(
                mask_letters_upto(m, n)[a],
            ) < letter_ord(mask_letters_upto(m, n)[b]),
        forall|i: u32|
            i < n ==> (bit_set(m, i) <==> exists|a: int|
                0 <= a < mask_letters_upto(m, n).len() && letter_ord(
                    #[trigger] mask_letters_upto(m, n)[a],
                ) == i),
    decreases n,
{
    crate::letters::lemma_letters_table();
    if n > 0 {
        lemma_mask_letters_props(m, n - 1);
        let prev = mask_letters_upto(m, n - 1);
        let cur = mask_letters_upto(m, n);
        assert forall|i: u32|
            i < n implies (bit_set(m, i) <==> exists|a: int|
                0 <= a < cur.len() && letter_ord(#[trigger] cur[a]) == i) by {
            if i < n - 1 {
                if bit_set(m, i) {
                    let a = choose|a: int|
                        0 <= a < prev.len() && letter_ord(#[trigger] prev[a]) == i;
                    assert(cur[a] == prev[a]);
                }
                if exists|a: int| 0 <= a < cur.len() && letter_ord(#[trigger] cur[a]) == i {
                    let a = choose|a: int|
                        0 <= a < cur.len() && letter_ord(#[trigger] cur[a]) == i;
                    if a < prev.len() {
                        assert(prev[a] == cur[a]);
                    } else {
                        assert(cur[a] == LETTERS[n - 1]);
                    }
                }
            } else {
                assert(i == n - 1);
                if bit_set(m, i) {
                    assert(cur[cur.len() - 1] == LETTERS[n - 1]);
                    assert(letter_ord(cur[cur.len() - 1]) == i);
                }
                if exists|a: int| 0 <= a < cur.len() && letter_ord(#[trigger] cur[a]) == i {
                    let a = choose|a: int|
                        0 <= a < cur.len() && letter_ord(#[trigger] cur[a]) == i;
                    if a < prev.len() {
                        assert(prev[a] == cur[a]);
                        assert(letter_ord(prev[a]) < n - 1);
                        assert(false);
                    } else {
                        assert(bit_set(m, (n - 1) as u32));
                    }
                }
            }
        }
    }
}

/// A lowercase word's mask has no bits outside the 26 letter positions.
pub proof fn lemma_word_mask_high_bits(s: Seq<char>)
    requires
        all_lower(s),
    ensures
        forall|i: u32| 26 <= i < 32 ==> !bit_set(spec_word_mask(s), i),
{
    assert forall|i: u32| 26 <= i < 32 implies !bit_set(spec_word_mask(s), i) by {
        lemma_word_mask_bit(s, i);
    }
}

/// Recombining the letters of a mask restores the mask, provided the mask
/// has no bits outside the 26 letter positions.
pub proof fn lemma_mask_letters_roundtrip(m: Bitmask)
    requires
        forall|i: u32| 26 <= i < 32 ==> !bit_set(m, i),
    ensures
        all_lower(spec_mask_letters(m)),
        spec_word_mask(spec_mask_letters(m)) == m,
{
    let s = spec_mask_letters(m);
    lemma_mask_letters_props(m, 26);
    assert forall|i: u32| i < 32 implies (bit_set(spec_word_mask(s), i) <==> bit_set(m, i)) by {
        lemma_word_mask_bit(s, i);
        if i < 26 {
            if bit_set(m, i) {
                let a = choose|a: int| 0 <= a < s.len() && letter_ord(#[trigger] s[a]) == i;
            }
            if exists|j: int| 0 <= j < s.len() && letter_ord(s[j]) == i {
                let j = choose|j: int| 0 <= j < s.len() && letter_ord(s[j]) == i;
            }
        } else {
            lemma_word_mask_high_bits(s);
        }
    }
    lemma_mask_ext(spec_word_mask(s), m);
}


/// The mask of a word is invariant under reordering of its characters: two
/// words made of the same multiset of letters have the same mask.
pub proof fn lemma_word_mask_permutation(s: Seq<char>, t: Seq<char>)
    requires
        all_lower(s),
        s.to_multiset() == t.to_multiset(),
    ensures
        all_lower(t),
        spec_word_mask(s) == spec_word_mask(t),
{
    broadcast use vstd::seq_lib::group_to_multiset_ensures;

    assert forall|i: int| 0 <= i < t.len() implies is_lower(#[trigger] t[i]) by {
        assert(t.contains(t[i]));
        assert(t.to_multiset().count(t[i]) > 0);
        assert(s.contains(t[i]));
        let j = choose|j: int| 0 <= j < s.len() && s[j] == t[i];
    }
    assert forall|c: char| s.contains(c) <==> t.contains(c) by {
        assert(s.contains(c) <==> s.to_multiset().count(c) > 0);
        assert(t.contains(c) <==> t.to_multiset().count(c) > 0);
    }
    lemma_word_mask_reorder(s, t);
}

} // verus!
