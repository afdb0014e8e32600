//! The word validator and scorer: accepts or rejects a player's guess
//! against the active puzzle, mirroring the generator's matching and scoring
//! rules exactly. The checks run in a fixed order and the first failure wins.

use vstd::prelude::*;

use crate::puzzle::{spec_letters_of, PuzzleConfig};
use crate::words::str_chars;

verus! {

/// The result of checking one guess. Outcomes other than `Accepted` are
/// guidance for the player, not errors.
#[derive(Clone, Copy, PartialEq, Eq, Structural, Debug)]
pub enum ValidationOutcome {
    TooShort,
    AlreadyGuessed,
    MissingRequiredLetter,
    BadLetters,
    NotInList,
    Accepted { is_pangram: bool, points: u32 },
}

/// The candidate uses every one of the puzzle's seven letters.
pub open spec fn spec_candidate_pangram(cand: Seq<char>, cfg: PuzzleConfig) -> bool {
    forall|i: int|
        0 <= i < spec_letters_of(cfg).len() ==> cand.contains(#[trigger] spec_letters_of(cfg)[i])
}

/// The point value of an accepted candidate: 1 for a 4-letter word,
/// otherwise its length plus 7 more if it is a pangram.
pub open spec fn spec_points(cand: Seq<char>, pangram: bool) -> u32 {
    if cand.len() == 4 {
        1u32
    } else {
        (cand.len() + if pangram {
            7int
        } else {
            0int
        }) as u32
    }
}

/// What `validate` returns, with the checks in their authoritative order:
/// too short, already guessed, missing required letter, a letter outside the
/// puzzle's set, not in the word list, and only then accepted.
pub open spec fn spec_validate(
    cand: Seq<char>,
    cfg: PuzzleConfig,
    submitted: Seq<String>,
) -> ValidationOutcome {
    if cand.len() < 4 {
        ValidationOutcome::TooShort
    } else if exists|i: int| 0 <= i < submitted.len() && (#[trigger] submitted[i])@ == cand {
        ValidationOutcome::AlreadyGuessed
    } else if !cand.contains(cfg.required_letter.0) {
        ValidationOutcome::MissingRequiredLetter
    } else if exists|i: int|
        0 <= i < cand.len() && !spec_letters_of(cfg).contains(#[trigger] cand[i]) {
        ValidationOutcome::BadLetters
    } else if !(exists|i: int|
        0 <= i < cfg.valid_words@.len() && (#[trigger] cfg.valid_words@[i]).word@ == cand) {
        ValidationOutcome::NotInList
    } else {
        let pangram = spec_candidate_pangram(cand, cfg);
        ValidationOutcome::Accepted { is_pangram: pangram, points: spec_points(cand, pangram) }
    }
}

/// Whether two character vectors hold the same characters in the same order.
fn chars_eq(a: &Vec<char>, b: &Vec<char>) -> (r: bool)
    ensures
        r == (a@ == b@),
{
    if a.len() != b.len() {
        proof {
            assert(a@.len() != b@.len());
        }
        return false;
    }
    let n = a.len();
    let mut i: usize = 0;
    while i < n
        invariant
            n == a.len() == b.len(),
            0 <= i <= n,
            forall|j: int| 0 <= j < i ==> a@[j] == b@[j],
        decreases n - i,
    {
        if a[i] != b[i] {
            return false;
        }
        i = i + 1;
    }
    proof {
        assert(a@ =~= b@);
    }
    true
}

/// Whether `c` occurs in `v`.
fn chars_contain(v: &Vec<char>, c: char) -> (r: bool)
    ensures
        r == v@.contains(c),
{
    let n = v.len();
    let mut i: usize = 0;
    while i < n
        invariant
            n == v.len(),
            0 <= i <= n,
            forall|j: int| 0 <= j < i ==> v@[j] != c,
        decreases n - i,
    {
        if v[i] == c {
            return true;
        }
        i = i + 1;
    }
    false
}

/// Find the index of the word whose text equals the candidate, if any.
fn find_word_index(words: &Vec<crate::puzzle::Word>, cand: &Vec<char>) -> (r: Option<usize>)
    ensures
        match r {
            Some(k) => k < words@.len() && words@[k as int].word@ == cand@,
            None => forall|j: int| 0 <= j < words@.len() ==> (#[trigger] words@[j]).word@ != cand@,
        },
{
    let n = words.len();
    let mut i: usize = 0;
    while i < n
        invariant
            n == words@.len(),
            0 <= i <= n,
            forall|j: int| 0 <= j < i ==> (#[trigger] words@[j]).word@ != cand@,
        decreases n - i,
    {
        let text = str_chars(words[i].word.as_str());
        if chars_eq(&text, cand) {
            return Some(i);
        }
        i = i + 1;
    }
    None
}

/// Check a candidate guess against the puzzle and the words already
/// submitted, in the authoritative order; on acceptance, recompute the
/// pangram flag from the candidate's own letters and score it.
pub fn validate(candidate: &str, puzzle: &PuzzleConfig, submitted: &Vec<String>) -> (r:
    ValidationOutcome)
    requires
        puzzle.wf(),
    ensures
        r == spec_validate(candidate@, *puzzle, submitted@),
{
    let cand = str_chars(candidate);

    // 1. Too short.
    if cand.len() < 4 {
        return ValidationOutcome::TooShort;
    }
    // 2. Already guessed.
    let n_sub = submitted.len();
    let mut i: usize = 0;
    while i < n_sub
        invariant
            n_sub == submitted.len(),
            cand@ == candidate@,
            candidate@.len() >= 4,
            0 <= i <= n_sub,
            forall|j: int| 0 <= j < i ==> (#[trigger] submitted@[j])@ != candidate@,
        decreases n_sub - i,
    {
        let prev = str_chars(submitted[i].as_str());
        if chars_eq(&prev, &cand) {
            proof {
                assert((#[trigger] submitted@[i as int])@ == candidate@);
                assert(spec_validate(candidate@, *puzzle, submitted@)
                    == ValidationOutcome::AlreadyGuessed);
            }
            return ValidationOutcome::AlreadyGuessed;
        }
        i = i + 1;
    }
    // 3. Missing required letter.
    if !chars_contain(&cand, puzzle.required_letter.0) {
        return ValidationOutcome::MissingRequiredLetter;
    }
    // 4. A letter outside the puzzle's seven.
    let mut letters7: Vec<char> = Vec::new();
    letters7.push(puzzle.required_letter.0);
    let n_other = puzzle.other_letters.len();
    let mut i: usize = 0;
    while i < n_other
        invariant
            n_other == puzzle.other_letters@.len(),
            0 <= i <= n_other,
            letters7@.len() == i + 1,
            letters7@[0] == puzzle.required_letter.0,
            forall|j: int| 0 <= j < i ==> letters7@[j + 1] == puzzle.other_letters@[j].0,
        decreases n_other - i,
    {
        letters7.push(puzzle.other_letters[i].0);
        i = i + 1;
    }
    proof {
        assert(letters7@ =~= spec_letters_of(*puzzle));
    }
    let n_cand = cand.len();
    let mut i: usize = 0;
    while i < n_cand
        invariant
            n_cand == cand@.len(),
            cand@ == candidate@,
            candidate@.len() >= 4,
            forall|j: int| 0 <= j < submitted@.len() ==> (#[trigger] submitted@[j])@ != candidate@,
            candidate@.contains(puzzle.required_letter.0),
            letters7@ == spec_letters_of(*puzzle),
            0 <= i <= n_cand,
            forall|j: int| 0 <= j < i ==> spec_letters_of(*puzzle).contains(#[trigger] cand@[j]),
        decreases n_cand - i,
    {
        if !chars_contain(&letters7, cand[i]) {
            proof {
                assert(!spec_letters_of(*puzzle).contains(#[trigger] candidate@[i as int]));
                assert(spec_validate(candidate@, *puzzle, submitted@)
                    == ValidationOutcome::BadLetters);
            }
            return ValidationOutcome::BadLetters;
        }
        i = i + 1;
    }
    // 5. Not in the word list.
    let found = find_word_index(&puzzle.valid_words, &cand);
    let found_idx: usize = match found {
        None => {
            return ValidationOutcome::NotInList;
        },
        Some(k) => k,
    };
    // 6. Accepted: recompute the pangram flag from the candidate itself.
    let ghost w = puzzle.valid_words@[found_idx as int];
    let mut pangram = true;
    let ghost mut bad: int = 0;
    let n7 = letters7.len();
    let mut i: usize = 0;
    while i < n7
        invariant
            n7 == letters7@.len(),
            cand@ == candidate@,
            letters7@ == spec_letters_of(*puzzle),
            0 <= i <= n7,
            pangram ==> (forall|j: int| 0 <= j < i ==> cand@.contains(#[trigger] letters7@[j])),
            !pangram ==> 0 <= bad < i && !cand@.contains(letters7@[bad]),
        decreases n7 - i,
    {
        if !chars_contain(&cand, letters7[i]) {
            proof {
                bad = i as int;
            }
            pangram = false;
        }
        i = i + 1;
    }
    let len = cand.len();
    proof {
        assert(w.word@ == candidate@);
        assert(w.wf());
        assert(len == w.word@.len());
        assert(pangram == spec_candidate_pangram(candidate@, *puzzle));
    }
    let points: u32 = if len == 4 {
        1
    } else {
        let boost: u32 = if pangram {
            7
        } else {
            0
        };
        len as u32 + boost
    };
    ValidationOutcome::Accepted { is_pangram: pangram, points }
}

} // verus!
