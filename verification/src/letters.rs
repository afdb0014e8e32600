//! Bitmasks for individual letters.
//!
//! A letter mask is an `i32` with exactly one bit set: bit `i` stands for the
//! letter at position `i` (0-indexed) of the lowercase Latin alphabet.

use vstd::prelude::*;

verus! {

/// A 32-bit set of letters: bit `i` means "letter `i` of the alphabet is present".
pub type Bitmask = i32;

pub const LETTERS: [char; 26] = [
    'a', 'b', 'c', 'd', 'e', 'f', 'g', 'h', 'i', 'j', 'k', 'l', 'm', 'n', 'o', 'p', 'q', 'r',
    's', 't', 'u', 'v', 'w', 'x', 'y', 'z',
];

/// True of the 26 lowercase Latin letters.
pub open spec fn is_lower(c: char) -> bool {
    97 <= c as u32 <= 122
}

/// Position of a lowercase letter in the alphabet, 0-indexed.
pub open spec fn letter_ord(c: char) -> int {
    c as u32 - 97
}

/// The mask of a single lowercase letter: one bit at its alphabet position.
pub open spec fn spec_letter_mask(c: char) -> Bitmask {
    1i32 << ((c as u32 - 97) as u32)
}

/// Whether bit `i` of `m` is set.
pub open spec fn bit_set(m: Bitmask, i: u32) -> bool {
    m & (1i32 << i) != 0
}

/// Compute the bitmask of a character: a single bit at the character's
/// position (0-indexed) in the lowercase Latin alphabet.
pub fn bitmask(letter: &char) -> (r: Bitmask)
    requires
        is_lower(*letter),
    ensures
        r == spec_letter_mask(*letter),
{
    let k: u32 = (*letter as u32) - 97;
    1i32 << k
}

/// Reverse of `bitmask`: the letter whose single bit is set in `bm`.
///
/// The precondition asks for exactly one bit, at one of the 26 letter
/// positions; any other mask is a caller error.
pub fn from_bitmask(bm: &Bitmask) -> (r: char)
    requires
        exists|k: int| 0 <= k < 26 && *bm == spec_letter_mask(LETTERS[k]),
    ensures
        is_lower(r),
        *bm == spec_letter_mask(r),
        forall|d: char| is_lower(d) && spec_letter_mask(d) == *bm ==> d == r,
{
    let ghost k0: int = choose|k: int| 0 <= k < 26 && *bm == spec_letter_mask(LETTERS[k]);
    proof {
        lemma_letters_table();
    }
    let mut i: usize = 0;
    while i < 26
        invariant
            0 <= i <= 26,
            i <= k0,
            0 <= k0 < 26,
            *bm == spec_letter_mask(LETTERS[k0 as int]),
            forall|j: int| 0 <= j < 26 ==> #[trigger] LETTERS[j] as u32 == 97 + j,
        decreases 26 - i,
    {
        if *bm == 1i32 << (i as u32) {
            proof {
                lemma_single_bit_injective(i as u32, (LETTERS[k0 as int] as u32 - 97) as u32);
                lemma_letter_roundtrip(LETTERS[i as int]);
            }
            return LETTERS[i];
        }
        proof {
            if i == k0 {
                assert(*bm == 1i32 << ((LETTERS[k0 as int] as u32 - 97) as u32));
                assert(false);
            }
        }
        i = i + 1;
    }
    proof {
        assert(false);
    }
    LETTERS[0]
}

/// The 26 entries of `LETTERS` are the lowercase alphabet in order.
pub proof fn lemma_letters_table()
    ensures
        forall|j: int| 0 <= j < 26 ==> #[trigger] LETTERS[j] as u32 == 97 + j,
{
    assert(forall|j: int| 0 <= j < 26 ==> #[trigger] LETTERS[j] as u32 == 97 + j) by {
        assert(LETTERS[0] as u32 == 97);
        assert(LETTERS[1] as u32 == 98);
        assert(LETTERS[2] as u32 == 99);
        assert(LETTERS[3] as u32 == 100);
        assert(LETTERS[4] as u32 == 101);
        assert(LETTERS[5] as u32 == 102);
        assert(LETTERS[6] as u32 == 103);
        assert(LETTERS[7] as u32 == 104);
        assert(LETTERS[8] as u32 == 105);
        assert(LETTERS[9] as u32 == 106);
        assert(LETTERS[10] as u32 == 107);
        assert(LETTERS[11] as u32 == 108);
        assert(LETTERS[12] as u32 == 109);
        assert(LETTERS[13] as u32 == 110);
        assert(LETTERS[14] as u32 == 111);
        assert(LETTERS[15] as u32 == 112);
        assert(LETTERS[16] as u32 == 113);
        assert(LETTERS[17] as u32 == 114);
        assert(LETTERS[18] as u32 == 115);
        assert(LETTERS[19] as u32 == 116);
        assert(LETTERS[20] as u32 == 117);
        assert(LETTERS[21] as u32 == 118);
        assert(LETTERS[22] as u32 == 119);
        assert(LETTERS[23] as u32 == 120);
        assert(LETTERS[24] as u32 == 121);
        assert(LETTERS[25] as u32 == 122);
    }
}

/// Two single-bit masks at letter positions agree only on the same position.
pub proof fn lemma_single_bit_injective(i: u32, j: u32)
    requires
        i < 26,
        j < 26,
        (1i32 << i) == (1i32 << j),
    ensures
        i == j,
{
    assert((i < 26 && j < 26 && (1i32 << i) == (1i32 << j)) ==> i == j) by (bit_vector);
}

/// Round trip: the letter of a letter's mask is the letter itself.
pub proof fn lemma_letter_roundtrip(c: char)
    requires
        is_lower(c),
    ensures
        exists|k: int| 0 <= k < 26 && spec_letter_mask(c) == spec_letter_mask(LETTERS[k]),
        forall|d: char| is_lower(d) && spec_letter_mask(d) == spec_letter_mask(c) ==> d == c,
{
    lemma_letters_table();
    let k = letter_ord(c);
    assert(LETTERS[k] as u32 == c as u32);
    assert(LETTERS[k] == c);
    assert(spec_letter_mask(c) == spec_letter_mask(LETTERS[k]));
    assert forall|d: char| is_lower(d) && spec_letter_mask(d) == spec_letter_mask(c) implies d
        == c by {
        let di = (d as u32 - 97) as u32;
        let ci = (c as u32 - 97) as u32;
        lemma_single_bit_injective(di, ci);
        assert(d as u32 == c as u32);
        vstd::utf8::char_u32_cast(d, d as u32);
        vstd::utf8::char_u32_cast(c, c as u32);
    }
}

} // verus!
