//! Puzzle data model: dictionary words with their letter masks, the seven
//! puzzle letters, score buckets and the assembled puzzle configuration.

use vstd::prelude::*;

use crate::letters::{bit_set, letter_ord, Bitmask};
use crate::words;
use crate::words::{all_lower, spec_mask_letters, spec_word_mask, str_chars};

verus! {

/// A single letter of the puzzle.
#[derive(Clone, Copy, PartialEq, Eq, Structural, Hash, Debug)]
pub struct Letter(pub char);

impl Letter {
    pub fn new(s: char) -> (r: Self)
        ensures
            r == Letter(s),
    {
        Letter(s)
    }
}

/// Longest word text the model admits: leaves room for the pangram bonus in a
/// `u32` score and for an `i32` byte length.
pub const MAX_WORD_LEN: usize = 0x7FFF_FF00;

/// An immutable dictionary entry: lowercase text, its derived letter mask,
/// and whether it uses every letter of the active puzzle's letter set.
#[derive(Clone, Debug)]
pub struct Word {
    pub word: String,
    pub mask: Bitmask,
    pub is_pangram: bool,
}

/// Word identity is defined solely by the text, never by the pangram flag.
impl PartialEq for Word {
    fn eq(&self, other: &Self) -> (r: bool) {
        self.word == other.word
    }
}

impl vstd::std_specs::cmp::PartialEqSpecImpl for Word {
    open spec fn obeys_eq_spec() -> bool {
        true
    }

    open spec fn eq_spec(&self, other: &Self) -> bool {
        self.word@ == other.word@
    }
}

impl Word {
    /// Well-formed word: lowercase Latin text of a sane length whose stored
    /// mask is derived from the text.
    pub open spec fn wf(self) -> bool {
        &&& all_lower(self.word@)
        &&& 4 <= self.word@.len() <= MAX_WORD_LEN
        &&& self.mask == spec_word_mask(self.word@)
    }

    /// The point value of the word: 1 for a 4-letter word, otherwise its
    /// length plus 7 more if it is a pangram.
    pub open spec fn spec_score(self) -> u32 {
        if self.word@.len() == 4 {
            1u32
        } else {
            (self.word@.len() + if self.is_pangram {
                7int
            } else {
                0int
            }) as u32
        }
    }

    pub fn new(word: &str, is_pangram: bool) -> (r: Self)
        requires
            all_lower(word@),
            4 <= word@.len() <= MAX_WORD_LEN,
        ensures
            r.word@ == word@,
            r.is_pangram == is_pangram,
            r.wf(),
    {
        let mask = words::bitmask(word);
        Word { word: word.to_owned(), mask, is_pangram }
    }

    pub fn score(&self) -> (r: u32)
        requires
            self.wf(),
        ensures
            r == self.spec_score(),
    {
        let len = self.len();
        if len == 4 {
            1
        } else {
            let pangram_boost: u32 = if self.is_pangram {
                7
            } else {
                0
            };
            len as u32 + pangram_boost
        }
    }

    /// Whether every letter occurring in `other` also occurs in `self`.
    pub fn is_superset(&self, other: &Word) -> (r: bool)
        requires
            self.wf(),
            other.wf(),
        ensures
            r == (other.mask & self.mask == other.mask),
            r == (forall|c: char| other.word@.contains(c) ==> self.word@.contains(c)),
    {
        proof {
            lemma_mask_le_iff_chars_le(other.word@, self.word@);
        }
        other.mask & self.mask == other.mask
    }

    pub fn get(&self, idx: usize) -> (r: Option<Letter>)
        requires
            self.wf(),
        ensures
            r == if idx < self.word@.len() {
                Some(Letter(self.word@[idx as int]))
            } else {
                None::<Letter>
            },
    {
        let chars = str_chars(self.word.as_str());
        if idx < chars.len() {
            Some(Letter::new(chars[idx]))
        } else {
            None
        }
    }

    pub fn len(&self) -> (r: usize)
        requires
            self.wf(),
        ensures
            r == self.word@.len(),
    {
        let chars = str_chars(self.word.as_str());
        chars.len()
    }

    /// The distinct letters of the word, in ascending alphabet order.
    pub fn letters(&self) -> (r: Vec<Letter>)
        requires
            self.wf(),
        ensures
            r@.len() == spec_mask_letters(self.mask).len(),
            forall|j: int|
                0 <= j < r@.len() ==> #[trigger] r@[j] == Letter(spec_mask_letters(self.mask)[j]),
    {
        let chars = words::vec_from_bitmask(&self.mask);
        let mut out: Vec<Letter> = Vec::new();
        let n = chars.len();
        let mut i: usize = 0;
        while i < n
            invariant
                n == chars.len(),
                chars@ == spec_mask_letters(self.mask),
                0 <= i <= n,
                out@.len() == i,
                forall|j: int| 0 <= j < i ==> #[trigger] out@[j] == Letter(chars@[j]),
            decreases n - i,
        {
            let l = Letter::new(chars[i]);
            out.push(l);
            i = i + 1;
        }
        out
    }

    /// Whether the letter occurs in the word's text.
    pub fn contains(&self, letter: &Letter) -> (r: bool)
        requires
            self.wf(),
        ensures
            r == self.word@.contains(letter.0),
    {
        let chars = str_chars(self.word.as_str());
        let n = chars.len();
        let mut i: usize = 0;
        while i < n
            invariant
                n == chars.len(),
                chars@ == self.word@,
                0 <= i <= n,
                forall|j: int| 0 <= j < i ==> chars@[j] != letter.0,
            decreases n - i,
        {
            if chars[i] == letter.0 {
                return true;
            }
            i = i + 1;
        }
        false
    }
}

/// A word's mask lies within another word's mask exactly when every letter
/// of the first occurs in the second.
pub proof fn lemma_mask_le_iff_chars_le(a: Seq<char>, b: Seq<char>)
    requires
        all_lower(a),
        all_lower(b),
    ensures
        (spec_word_mask(a) & spec_word_mask(b) == spec_word_mask(a)) <==> (forall|c: char|
            a.contains(c) ==> b.contains(c)),
{
    words::lemma_word_mask_subset(a, spec_word_mask(b));
    if spec_word_mask(a) & spec_word_mask(b) == spec_word_mask(a) {
        assert forall|c: char| a.contains(c) implies b.contains(c) by {
            let j = choose|j: int| 0 <= j < a.len() && a[j] == c;
            assert(bit_set(spec_word_mask(b), letter_ord(a[j]) as u32));
            words::lemma_word_mask_bit(b, letter_ord(a[j]) as u32);
            let k = choose|k: int| 0 <= k < b.len() && letter_ord(b[k]) == letter_ord(c);
            assert(b[k] as u32 == c as u32);
            vstd::utf8::char_u32_cast(b[k], b[k] as u32);
            vstd::utf8::char_u32_cast(c, c as u32);
            assert(b[k] == c);
        }
    }
    if forall|c: char| a.contains(c) ==> b.contains(c) {
        assert forall|j: int| 0 <= j < a.len() implies bit_set(
            spec_word_mask(b),
            letter_ord(#[trigger] a[j]) as u32,
        ) by {
            assert(a.contains(a[j]));
            assert(b.contains(a[j]));
            let k = choose|k: int| 0 <= k < b.len() && b[k] == a[j];
            words::lemma_word_mask_bit(b, letter_ord(a[j]) as u32);
        }
    }
}

/// The ordered rank thresholds of a puzzle: exactly 9 labelled minimum scores.
pub type ScoreBuckets = [(String, u32); 9];

/// Numerator (per cent) of the score fraction of bucket `i`.
pub open spec fn spec_bucket_numer(i: int) -> int {
    seq![0int, 2, 5, 8, 15, 25, 40, 50, 70][i]
}

/// Label of bucket `i`.
pub open spec fn spec_bucket_label(i: int) -> Seq<char> {
    seq![
        "Beginner"@,
        "Good Start"@,
        "Moving Up"@,
        "Good"@,
        "Solid"@,
        "Nice"@,
        "Great"@,
        "Amazing"@,
        "Genius"@,
    ][i]
}

/// Threshold of bucket `i`: the bucket's fraction of the maximum score,
/// truncated toward zero.
pub open spec fn spec_threshold(max_score: u32, i: int) -> u32 {
    ((max_score * spec_bucket_numer(i)) / 100) as u32
}

/// The buckets carry the fixed labels and the thresholds derived from
/// `max_score`, in order.
pub open spec fn buckets_wf(b: ScoreBuckets, max_score: u32) -> bool {
    forall|i: int|
        0 <= i < 9 ==> (#[trigger] b[i]).1 == spec_threshold(max_score, i) && b[i].0@
            == spec_bucket_label(i)
}

/// Build the 9 score buckets for a puzzle whose words score `max_score` in
/// total.
pub fn score_buckets(max_score: u32) -> (r: ScoreBuckets)
    ensures
        buckets_wf(r, max_score),
{
    let r: ScoreBuckets = [
        ("Beginner".to_owned(), bucket_threshold(max_score, 0)),
        ("Good Start".to_owned(), bucket_threshold(max_score, 2)),
        ("Moving Up".to_owned(), bucket_threshold(max_score, 5)),
        ("Good".to_owned(), bucket_threshold(max_score, 8)),
        ("Solid".to_owned(), bucket_threshold(max_score, 15)),
        ("Nice".to_owned(), bucket_threshold(max_score, 25)),
        ("Great".to_owned(), bucket_threshold(max_score, 40)),
        ("Amazing".to_owned(), bucket_threshold(max_score, 50)),
        ("Genius".to_owned(), bucket_threshold(max_score, 70)),
    ];
    proof {
        assert forall|i: int| 0 <= i < 9 implies (#[trigger] r[i]).1 == spec_threshold(
            max_score,
            i,
        ) && r[i].0@ == spec_bucket_label(i) by {
            if i == 0 {
            } else if i == 1 {
            } else if i == 2 {
            } else if i == 3 {
            } else if i == 4 {
            } else if i == 5 {
            } else if i == 6 {
            } else if i == 7 {
            } else {
                assert(i == 8);
            }
        }
    }
    r
}

/// `max_score * numer / 100`, truncated.
fn bucket_threshold(max_score: u32, numer: u64) -> (r: u32)
    requires
        numer <= 70,
    ensures
        r == (max_score * numer) / 100,
{
    proof {
        assert((max_score as int) * (numer as int) <= (u32::MAX as int) * 70) by (nonlinear_arith)
            requires
                max_score <= u32::MAX,
                numer <= 70,
        ;
    }
    let wide: u64 = (max_score as u64) * numer;
    let t: u64 = wide / 100;
    proof {
        vstd::arithmetic::div_mod::lemma_div_is_ordered(
            wide as int,
            (u32::MAX as int) * 100,
            100,
        );
        vstd::arithmetic::div_mod::lemma_div_multiples_vanish(u32::MAX as int, 100);
    }
    t as u32
}

/// Sum of the scores of a sequence of words.
pub open spec fn sum_scores(ws: Seq<Word>) -> int
    decreases ws.len(),
{
    if ws.len() == 0 {
        0
    } else {
        sum_scores(ws.drop_last()) + ws.last().spec_score()
    }
}

/// A daily puzzle: the rank thresholds, the required letter, the six other
/// letters, and every dictionary word formable from those seven letters.
#[derive(Clone, PartialEq, Debug)]
pub struct PuzzleConfig {
    pub score_buckets: ScoreBuckets,
    pub required_letter: Letter,
    pub other_letters: Vec<Letter>,
    pub valid_words: Vec<Word>,
}

/// The seven letters of the puzzle: the required letter first, then the six
/// others.
pub open spec fn spec_letters_of(c: PuzzleConfig) -> Seq<char> {
    seq![c.required_letter.0] + c.other_letters@.map_values(|l: Letter| l.0)
}

/// The union of the masks of the seven puzzle letters.
pub open spec fn spec_full_mask(c: PuzzleConfig) -> Bitmask {
    spec_word_mask(spec_letters_of(c))
}

impl PuzzleConfig {
    /// Structural invariant of a generated puzzle: seven distinct lowercase
    /// letters; well-formed, distinct words whose masks lie within the
    /// letter set and whose pangram flag says the mask covers all of it; at
    /// least one pangram; and buckets derived from the total score.
    pub open spec fn wf(self) -> bool {
        &&& self.other_letters@.len() == 6
        &&& all_lower(spec_letters_of(self))
        &&& forall|i: int, j: int|
            0 <= i < j < 7 ==> spec_letters_of(self)[i] != spec_letters_of(self)[j]
        &&& forall|i: int|
            0 <= i < self.valid_words@.len() ==> (#[trigger] self.valid_words@[i]).wf()
        &&& forall|i: int|
            0 <= i < self.valid_words@.len() ==> (#[trigger] self.valid_words@[i]).mask
                & spec_full_mask(self) == self.valid_words@[i].mask
        &&& forall|i: int|
            0 <= i < self.valid_words@.len() ==> ((#[trigger] self.valid_words@[i]).is_pangram
                <==> self.valid_words@[i].mask == spec_full_mask(self))
        &&& forall|i: int, j: int|
            0 <= i < j < self.valid_words@.len() ==> self.valid_words@[i].word@
                != self.valid_words@[j].word@
        &&& exists|i: int|
            0 <= i < self.valid_words@.len() && (#[trigger] self.valid_words@[i]).is_pangram
        &&& 0 <= sum_scores(self.valid_words@) <= u32::MAX
        &&& buckets_wf(self.score_buckets, sum_scores(self.valid_words@) as u32)
    }
}

/// The buckets' thresholds rise strictly from one bucket to the next
/// whenever the maximum score is at least 50 — below that, neighbouring
/// fractions of it can truncate to the same value.
pub proof fn lemma_buckets_strictly_increasing(max_score: u32)
    requires
        max_score >= 50,
    ensures
        forall|i: int|
            0 <= i < 8 ==> #[trigger] spec_threshold(max_score, i) < spec_threshold(
                max_score,
                i + 1,
            ),
{
    assert forall|i: int| 0 <= i < 8 implies #[trigger] spec_threshold(max_score, i)
        < spec_threshold(max_score, i + 1) by {
        let m = max_score as int;
        let n1 = spec_bucket_numer(i);
        let n2 = spec_bucket_numer(i + 1);
        let a = m * n1;
        let b = m * n2;
        assert(n2 - n1 >= 2 && n1 >= 0) by {
            if i == 0 {
            } else if i == 1 {
            } else if i == 2 {
            } else if i == 3 {
            } else if i == 4 {
            } else if i == 5 {
            } else if i == 6 {
            } else {
                assert(i == 7);
            }
        }
        assert(n2 <= 70) by {
            if i == 0 {
            } else if i == 1 {
            } else if i == 2 {
            } else if i == 3 {
            } else if i == 4 {
            } else if i == 5 {
            } else if i == 6 {
            } else {
                assert(i == 7);
            }
        }
        assert(b - a >= 100 && a >= 0 && b <= (u32::MAX as int) * 70) by (nonlinear_arith)
            requires
                a == m * n1,
                b == m * n2,
                n2 - n1 >= 2,
                n1 >= 0,
                n2 <= 70,
                50 <= m <= u32::MAX,
        ;
        vstd::arithmetic::div_mod::lemma_div_is_ordered(a + 100, b, 100);
        assert((a + 100) / 100 == a / 100 + 1) by {
            vstd::arithmetic::div_mod::lemma_div_plus_one(a, 100);
        }
        vstd::arithmetic::div_mod::lemma_div_pos_is_pos(a, 100);
        vstd::arithmetic::div_mod::lemma_div_is_ordered(b, (u32::MAX as int) * 100, 100);
        vstd::arithmetic::div_mod::lemma_div_multiples_vanish(u32::MAX as int, 100);
    }
}

} // verus!
