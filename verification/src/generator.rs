//! The daily puzzle generator: a seeded rejection-sampling loop that draws a
//! required letter and six distinct companions, collects every corpus word
//! formable from those seven letters, and accepts the draw once a pangram is
//! among them. A deterministic scan of the corpus completes the search: a
//! letter set bears a pangram exactly when some corpus word has exactly
//! seven distinct letters, so when no such word exists the generator reports
//! failure instead of retrying forever.

use vstd::prelude::*;

use crate::letters;
use crate::letters::{is_lower, letter_ord, spec_letter_mask, Bitmask, LETTERS};
use crate::puzzle::{score_buckets, spec_full_mask, spec_letters_of, sum_scores, Letter,
    PuzzleConfig, Word, MAX_WORD_LEN};
use crate::rng;
use crate::words;
use crate::words::{all_lower, spec_mask_letters, spec_word_mask};

verus! {

/// Generation failure: the corpus has no word of exactly seven distinct
/// letters, so no seven-letter set bears a pangram.
#[derive(Clone, Copy, PartialEq, Eq, Structural, Debug)]
pub enum Error {
    NoPangram,
}

/// Random letter-set draws made before the deterministic corpus scan takes
/// over. The scan is complete, so the bound costs no solvable puzzle.
pub const RANDOM_ATTEMPTS: u64 = 1000;

/// An upper bound on the total score of any subset of the corpus: the sum
/// over all corpus words of length plus 7.
pub open spec fn max_total_score(corpus: Seq<String>) -> int
    decreases corpus.len(),
{
    if corpus.len() == 0 {
        0
    } else {
        max_total_score(corpus.drop_last()) + corpus.last()@.len() + 7
    }
}

/// A usable corpus: distinct lowercase words of sane length whose total
/// score fits a `u32`.
pub open spec fn corpus_wf(corpus: Seq<String>) -> bool {
    &&& forall|i: int| 0 <= i < corpus.len() ==> all_lower((#[trigger] corpus[i])@)
    &&& forall|i: int| 0 <= i < corpus.len() ==> 4 <= (#[trigger] corpus[i])@.len() <= MAX_WORD_LEN
    &&& forall|i: int, j: int| 0 <= i < j < corpus.len() ==> corpus[i]@ != corpus[j]@
    &&& max_total_score(corpus) <= u32::MAX
}

/// A corpus yields a puzzle exactly when some word has exactly seven
/// distinct letters: that word is a pangram of its own letter set.
pub open spec fn spec_solvable(corpus: Seq<String>) -> bool {
    exists|i: int|
        0 <= i < corpus.len() && spec_mask_letters(
            spec_word_mask((#[trigger] corpus[i])@),
        ).len() == 7
}

/// The words of the corpus formable from the letters of `m`, in corpus
/// order, as (text, mask, pangram) triples.
pub open spec fn spec_subset_words(corpus: Seq<String>, m: Bitmask) -> Seq<(Seq<char>, Bitmask, bool)>
    decreases corpus.len(),
{
    if corpus.len() == 0 {
        Seq::empty()
    } else {
        let prefix = spec_subset_words(corpus.drop_last(), m);
        let w = corpus.last()@;
        let wm = spec_word_mask(w);
        if wm & m == wm {
            prefix.push((w, wm, wm == m))
        } else {
            prefix
        }
    }
}

/// The words agree, entry by entry, with the (text, mask, pangram) triples.
pub open spec fn words_match(ws: Seq<Word>, vs: Seq<(Seq<char>, Bitmask, bool)>) -> bool {
    &&& ws.len() == vs.len()
    &&& forall|k: int|
        0 <= k < ws.len() ==> (#[trigger] ws[k]).word@ == vs[k].0 && ws[k].mask == vs[k].1
            && ws[k].is_pangram == vs[k].2
}

/// The puzzle's word list is exactly the corpus subset formable from its
/// seven letters.
pub open spec fn config_matches_corpus(c: PuzzleConfig, corpus: Seq<String>) -> bool {
    words_match(c.valid_words@, spec_subset_words(corpus, spec_full_mask(c)))
}

/// Every triple of the corpus subset comes from a corpus word: its mask is
/// derived from its text, lies within `m`, and the pangram flag says the
/// mask is all of `m`.
pub proof fn lemma_subset_words_shape(corpus: Seq<String>, m: Bitmask)
    ensures
        forall|k: int|
            0 <= k < spec_subset_words(corpus, m).len() ==> {
                let v = #[trigger] spec_subset_words(corpus, m)[k];
                &&& exists|i: int| 0 <= i < corpus.len() && (#[trigger] corpus[i])@ == v.0
                &&& v.1 == spec_word_mask(v.0)
                &&& v.1 & m == v.1
                &&& (v.2 <==> v.1 == m)
            },
    decreases corpus.len(),
{
    if corpus.len() > 0 {
        lemma_subset_words_shape(corpus.drop_last(), m);
        let vs = spec_subset_words(corpus, m);
        let prefix = spec_subset_words(corpus.drop_last(), m);
        assert forall|k: int| 0 <= k < vs.len() implies {
            let v = #[trigger] vs[k];
            &&& exists|i: int| 0 <= i < corpus.len() && (#[trigger] corpus[i])@ == v.0
            &&& v.1 == spec_word_mask(v.0)
            &&& v.1 & m == v.1
            &&& (v.2 <==> v.1 == m)
        } by {
            if k < prefix.len() {
                assert(vs[k] == prefix[k]);
                let i = choose|i: int|
                    0 <= i < corpus.drop_last().len() && (#[trigger] corpus.drop_last()[i])@
                        == prefix[k].0;
                assert((corpus[i])@ == vs[k].0);
            } else {
                assert(vs[k].0 == corpus.last()@);
                assert((corpus[corpus.len() - 1])@ == vs[k].0);
            }
        }
    }
}

/// Any corpus word formable from `m` appears among the subset triples.
pub proof fn lemma_subset_words_complete(corpus: Seq<String>, m: Bitmask, i: int)
    requires
        0 <= i < corpus.len(),
        spec_word_mask(corpus[i]@) & m == spec_word_mask(corpus[i]@),
    ensures
        exists|k: int|
            0 <= k < spec_subset_words(corpus, m).len() && (#[trigger] spec_subset_words(
                corpus,
                m,
            )[k]).0 == corpus[i]@,
    decreases corpus.len(),
{
    let vs = spec_subset_words(corpus, m);
    let prefix = spec_subset_words(corpus.drop_last(), m);
    if i == corpus.len() - 1 {
        assert(vs[vs.len() - 1].0 == corpus[i]@);
    } else {
        assert(corpus.drop_last()[i]@ == corpus[i]@);
        lemma_subset_words_complete(corpus.drop_last(), m, i);
        let k = choose|k: int| 0 <= k < prefix.len() && (#[trigger] prefix[k]).0 == corpus[i]@;
        assert(vs[k].0 == corpus[i]@);
    }
}

/// The subset triples carry pairwise distinct texts when the corpus does.
pub proof fn lemma_subset_words_distinct(corpus: Seq<String>, m: Bitmask)
    requires
        forall|i: int, j: int| 0 <= i < j < corpus.len() ==> corpus[i]@ != corpus[j]@,
    ensures
        forall|k1: int, k2: int|
            0 <= k1 < k2 < spec_subset_words(corpus, m).len() ==> (#[trigger] spec_subset_words(
                corpus,
                m,
            )[k1]).0 != (#[trigger] spec_subset_words(corpus, m)[k2]).0,
    decreases corpus.len(),
{
    if corpus.len() > 0 {
        let sub = corpus.drop_last();
        assert(forall|i: int, j: int| 0 <= i < j < sub.len() ==> sub[i]@ != sub[j]@);
        lemma_subset_words_distinct(sub, m);
        lemma_subset_words_shape(sub, m);
        let vs = spec_subset_words(corpus, m);
        let prefix = spec_subset_words(sub, m);
        assert forall|k1: int, k2: int| 0 <= k1 < k2 < vs.len() implies (#[trigger] vs[k1]).0
            != (#[trigger] vs[k2]).0 by {
            if k2 < prefix.len() {
                assert(vs[k1] == prefix[k1] && vs[k2] == prefix[k2]);
            } else if k2 == prefix.len() && vs.len() > prefix.len() {
                assert(vs[k2].0 == corpus.last()@);
                assert(vs[k1] == prefix[k1]);
                let i = choose|i: int|
                    0 <= i < sub.len() && (#[trigger] sub[i])@ == prefix[k1].0;
                assert(corpus[i]@ == prefix[k1].0);
                assert(corpus[i]@ != corpus[corpus.len() - 1]@);
            }
        }
    }
}

/// The score of one subset triple, as the scorer counts it.
pub open spec fn view_score(v: (Seq<char>, Bitmask, bool)) -> int {
    if v.0.len() == 4 {
        1
    } else {
        v.0.len() + if v.2 {
            7int
        } else {
            0int
        }
    }
}

/// Sum of the scores of the subset triples.
pub open spec fn sum_view_scores(vs: Seq<(Seq<char>, Bitmask, bool)>) -> int
    decreases vs.len(),
{
    if vs.len() == 0 {
        0
    } else {
        sum_view_scores(vs.drop_last()) + view_score(vs.last())
    }
}

/// The total score of the formable words never exceeds the corpus bound.
pub proof fn lemma_sum_view_scores_bound(corpus: Seq<String>, m: Bitmask)
    ensures
        0 <= sum_view_scores(spec_subset_words(corpus, m)) <= max_total_score(corpus),
    decreases corpus.len(),
{
    if corpus.len() == 0 {
    } else {
        lemma_sum_view_scores_bound(corpus.drop_last(), m);
        let w = corpus.last()@;
        let wm = spec_word_mask(w);
        if wm & m == wm {
            let vs = spec_subset_words(corpus, m);
            assert(vs.drop_last() =~= spec_subset_words(corpus.drop_last(), m));
        }
    }
}

/// Matching word lists have the same total score, counted by the scorer.
pub proof fn lemma_sum_scores_match(ws: Seq<Word>, vs: Seq<(Seq<char>, Bitmask, bool)>)
    requires
        words_match(ws, vs),
        forall|k: int| 0 <= k < ws.len() ==> (#[trigger] ws[k]).wf(),
    ensures
        sum_scores(ws) == sum_view_scores(vs),
    decreases ws.len(),
{
    if ws.len() > 0 {
        assert(words_match(ws.drop_last(), vs.drop_last()));
        lemma_sum_scores_match(ws.drop_last(), vs.drop_last());
        assert(ws[ws.len() - 1].spec_score() == view_score(vs[vs.len() - 1]));
    }
}

/// A prefix of a word list never outscores the whole list.
pub proof fn lemma_sum_scores_prefix(ws: Seq<Word>, i: int)
    requires
        0 <= i <= ws.len(),
    ensures
        sum_scores(ws.take(i)) <= sum_scores(ws),
    decreases ws.len() - i,
{
    if i < ws.len() {
        lemma_sum_scores_prefix(ws, i + 1);
        assert(ws.take(i + 1).drop_last() =~= ws.take(i));
        assert(ws.take(i + 1).last() == ws[i]);
    } else {
        assert(ws.take(i) =~= ws);
    }
}

/// Collect every corpus word whose letters all lie in `m`, tagging each
/// with whether it uses every letter of `m`.
pub fn words_subset_of(corpus: &Vec<String>, m: Bitmask) -> (r: Vec<Word>)
    requires
        corpus_wf(corpus@),
    ensures
        words_match(r@, spec_subset_words(corpus@, m)),
        forall|k: int| 0 <= k < r@.len() ==> (#[trigger] r@[k]).wf(),
{
    let mut r: Vec<Word> = Vec::new();
    let n = corpus.len();
    let mut i: usize = 0;
    while i < n
        invariant
            corpus_wf(corpus@),
            n == corpus@.len(),
            0 <= i <= n,
            words_match(r@, spec_subset_words(corpus@.take(i as int), m)),
            forall|k: int| 0 <= k < r@.len() ==> (#[trigger] r@[k]).wf(),
        decreases n - i,
    {
        let w = &corpus[i];
        let wm = words::bitmask(w.as_str());
        proof {
            assert(corpus@.take(i + 1).drop_last() =~= corpus@.take(i as int));
            assert(corpus@.take(i + 1).last() == corpus@[i as int]);
        }
        if wm & m == wm {
            let word = Word::new(w.as_str(), wm == m);
            r.push(word);
        }
        i = i + 1;
    }
    proof {
        assert(corpus@.take(n as int) =~= corpus@);
    }
    r
}

/// Whether any word of the list is a pangram.
fn has_pangram(words: &Vec<Word>) -> (r: bool)
    ensures
        r == exists|k: int| 0 <= k < words@.len() && (#[trigger] words@[k]).is_pangram,
{
    let n = words.len();
    let mut i: usize = 0;
    while i < n
        invariant
            n == words@.len(),
            0 <= i <= n,
            forall|j: int| 0 <= j < i ==> !(#[trigger] words@[j]).is_pangram,
        decreases n - i,
    {
        if words[i].is_pangram {
            return true;
        }
        i = i + 1;
    }
    false
}

/// Sum the scores of the words.
fn total_score(words: &Vec<Word>) -> (r: u32)
    requires
        forall|k: int| 0 <= k < words@.len() ==> (#[trigger] words@[k]).wf(),
        0 <= sum_scores(words@) <= u32::MAX,
    ensures
        r == sum_scores(words@),
{
    let mut acc: u32 = 0;
    let n = words.len();
    let mut i: usize = 0;
    while i < n
        invariant
            n == words@.len(),
            forall|k: int| 0 <= k < words@.len() ==> (#[trigger] words@[k]).wf(),
            0 <= sum_scores(words@) <= u32::MAX,
            0 <= i <= n,
            acc == sum_scores(words@.take(i as int)),
        decreases n - i,
    {
        let s = words[i].score();
        proof {
            assert(words@.take(i + 1).drop_last() =~= words@.take(i as int));
            assert(words@.take(i + 1).last() == words@[i as int]);
            lemma_sum_scores_prefix(words@, i + 1);
            lemma_sum_scores_nonneg(words@.take(i as int));
        }
        acc = acc + s;
        i = i + 1;
    }
    proof {
        assert(words@.take(n as int) =~= words@);
    }
    acc
}

/// Scores are nonnegative, so partial sums are too.
pub proof fn lemma_sum_scores_nonneg(ws: Seq<Word>)
    ensures
        sum_scores(ws) >= 0,
    decreases ws.len(),
{
    if ws.len() > 0 {
        lemma_sum_scores_nonneg(ws.drop_last());
    }
}


/// The union of the masks of a required letter and six companions.
pub open spec fn spec_full7(required: char, others: Seq<char>) -> Bitmask {
    spec_word_mask(seq![required] + others)
}

/// Assemble the puzzle for one choice of letters, or report that the
/// letter set bears no pangram.
fn build_config(corpus: &Vec<String>, required: char, others: &Vec<char>) -> (r: Option<
    PuzzleConfig>)
    requires
        corpus_wf(corpus@),
        is_lower(required),
        others@.len() == 6,
        all_lower(others@),
        forall|a: int, b: int| 0 <= a < b < 6 ==> others@[a] != others@[b],
        forall|a: int| 0 <= a < 6 ==> others@[a] != required,
    ensures
        match r {
            Some(c) => {
                &&& c.wf()
                &&& config_matches_corpus(c, corpus@)
                &&& c.required_letter.0 == required
                &&& c.other_letters@.len() == 6
                &&& forall|k: int| 0 <= k < 6 ==> (#[trigger] c.other_letters@[k]).0 == others@[k]
                &&& spec_full_mask(c) == spec_full7(required, others@)
            },
            None => forall|i: int|
                0 <= i < corpus@.len() ==> spec_word_mask((#[trigger] corpus@[i])@) != spec_full7(
                    required,
                    others@,
                ),
        },
{
    let ghost letters7: Seq<char> = seq![required] + others@;
    let mut full: Bitmask = letters::bitmask(&required);
    proof {
        let t1 = letters7.take(1);
        assert(t1.drop_last() =~= Seq::<char>::empty());
        assert(t1.last() == required);
        assert(spec_word_mask(Seq::<char>::empty()) == 0);
        assert(spec_word_mask(t1) == spec_word_mask(t1.drop_last()) | spec_letter_mask(t1.last()));
        assert(0i32 | full == full) by (bit_vector);
        assert(full == spec_word_mask(t1));
    }
    let mut i: usize = 0;
    while i < 6
        invariant
            others@.len() == 6,
            all_lower(others@),
            is_lower(required),
            letters7 == seq![required] + others@,
            0 <= i <= 6,
            full == spec_word_mask(letters7.take(i + 1)),
        decreases 6 - i,
    {
        let lm = letters::bitmask(&others[i]);
        proof {
            assert(letters7.take(i + 2).drop_last() =~= letters7.take(i + 1));
            assert(letters7.take(i + 2).last() == others@[i as int]);
        }
        full = full | lm;
        i = i + 1;
    }
    proof {
        assert(letters7.take(7) =~= letters7);
        assert(full == spec_full7(required, others@));
    }
    let valid = words_subset_of(corpus, full);
    if !has_pangram(&valid) {
        proof {
            lemma_subset_words_shape(corpus@, full);
            assert forall|i: int| 0 <= i < corpus@.len() implies spec_word_mask(
                (#[trigger] corpus@[i])@,
            ) != spec_full7(required, others@) by {
                if spec_word_mask(corpus@[i]@) == full {
                    assert(full & full == full) by (bit_vector);
                    lemma_subset_words_complete(corpus@, full, i);
                    let k = choose|k: int|
                        0 <= k < spec_subset_words(corpus@, full).len() && (
                        #[trigger] spec_subset_words(corpus@, full)[k]).0 == corpus@[i]@;
                    assert(valid@[k].is_pangram);
                }
            }
        }
        return None;
    }
    proof {
        lemma_subset_words_shape(corpus@, full);
        lemma_subset_words_distinct(corpus@, full);
        lemma_sum_view_scores_bound(corpus@, full);
        lemma_sum_scores_match(valid@, spec_subset_words(corpus@, full));
        lemma_sum_scores_nonneg(valid@);
    }
    let max_score = total_score(&valid);
    let buckets = score_buckets(max_score);
    let mut other_letters: Vec<Letter> = Vec::new();
    let mut i: usize = 0;
    while i < 6
        invariant
            others@.len() == 6,
            0 <= i <= 6,
            other_letters@.len() == i,
            forall|k: int| 0 <= k < i ==> (#[trigger] other_letters@[k]).0 == others@[k],
        decreases 6 - i,
    {
        let l = Letter::new(others[i]);
        other_letters.push(l);
        i = i + 1;
    }
    let config = PuzzleConfig {
        score_buckets: buckets,
        required_letter: Letter::new(required),
        other_letters,
        valid_words: valid,
    };
    proof {
        assert(spec_letters_of(config) =~= letters7);
        assert(spec_full_mask(config) == full);
        assert forall|a: int, b: int| 0 <= a < b < 7 implies spec_letters_of(config)[a]
            != spec_letters_of(config)[b] by {
            if a == 0 {
                assert(spec_letters_of(config)[b] == others@[b - 1]);
            } else {
                assert(spec_letters_of(config)[a] == others@[a - 1]);
                assert(spec_letters_of(config)[b] == others@[b - 1]);
            }
        }
    }
    Some(config)
}

/// Draw a required letter uniformly among the 26, then six companions
/// uniformly without replacement from the remaining 25: distinctness is
/// guaranteed by removing each drawn letter from the pool.
fn pick_letters(rng: &mut rand::rngs::SmallRng) -> (r: (char, Vec<char>))
    ensures
        is_lower(r.0),
        r.1@.len() == 6,
        all_lower(r.1@),
        forall|a: int, b: int| 0 <= a < b < 6 ==> r.1@[a] != r.1@[b],
        forall|a: int| 0 <= a < 6 ==> r.1@[a] != r.0,
{
    let mut pool: Vec<char> = Vec::new();
    let mut i: usize = 0;
    while i < 26
        invariant
            0 <= i <= 26,
            pool@.len() == i,
            forall|j: int| 0 <= j < i ==> pool@[j] == LETTERS[j],
        decreases 26 - i,
    {
        pool.push(LETTERS[i]);
        i = i + 1;
    }
    proof {
        crate::letters::lemma_letters_table();
        assert forall|a: int, b: int| 0 <= a < b < 26 implies pool@[a] != pool@[b] by {
            assert(pool@[a] as u32 == 97 + a);
            assert(pool@[b] as u32 == 97 + b);
        }
        assert(forall|j: int| 0 <= j < 26 ==> is_lower(#[trigger] pool@[j]));
    }
    let k = rng::rng_below(rng, 26);
    let required = pool.remove(k);
    proof {
        assert forall|a: int| 0 <= a < pool@.len() implies is_lower(#[trigger] pool@[a])
            && pool@[a] != required by {}
        assert forall|a: int, b: int| 0 <= a < b < pool@.len() implies pool@[a] != pool@[b] by {}
    }
    let mut others: Vec<char> = Vec::new();
    let mut i: usize = 0;
    while i < 6
        invariant
            0 <= i <= 6,
            pool@.len() == 25 - i,
            others@.len() == i,
            is_lower(required),
            forall|a: int| 0 <= a < pool@.len() ==> is_lower(#[trigger] pool@[a]),
            forall|a: int| 0 <= a < i ==> is_lower(#[trigger] others@[a]),
            forall|a: int, b: int| 0 <= a < b < pool@.len() ==> pool@[a] != pool@[b],
            forall|a: int, b: int| 0 <= a < b < i ==> others@[a] != others@[b],
            forall|a: int| 0 <= a < pool@.len() ==> #[trigger] pool@[a] != required,
            forall|a: int| 0 <= a < i ==> #[trigger] others@[a] != required,
            forall|a: int, b: int|
                0 <= a < pool@.len() && 0 <= b < i ==> pool@[a] != others@[b],
        decreases 6 - i,
    {
        let k = rng::rng_below(rng, pool.len());
        let ghost old_pool = pool@;
        let c = pool.remove(k);
        proof {
            assert forall|a: int| 0 <= a < pool@.len() implies #[trigger] pool@[a] != c by {
                if a < k {
                    assert(pool@[a] == old_pool[a]);
                } else {
                    assert(pool@[a] == old_pool[a + 1]);
                }
            }
        }
        others.push(c);
        i = i + 1;
    }
    (required, others)
}

/// Generate the daily puzzle from the corpus: seeded random letter draws
/// first, then the complete corpus scan. Returns a puzzle whenever the
/// corpus holds a word of exactly seven distinct letters; the error comes
/// exactly when it holds none, and then no letter set could ever yield a
/// pangram.
pub fn generate(corpus: &Vec<String>, seed: u64) -> (r: Result<PuzzleConfig, Error>)
    requires
        corpus_wf(corpus@),
    ensures
        match r {
            Ok(c) => c.wf() && config_matches_corpus(c, corpus@),
            Err(e) => e == Error::NoPangram && !spec_solvable(corpus@),
        },
        spec_solvable(corpus@) ==> r is Ok,
{
    let mut generator = rng::rng_from_seed(seed);
    let mut attempts: u64 = 0;
    while attempts < RANDOM_ATTEMPTS
        invariant
            corpus_wf(corpus@),
        decreases RANDOM_ATTEMPTS - attempts,
    {
        let (required, others) = pick_letters(&mut generator);
        if let Some(c) = build_config(corpus, required, &others) {
            return Ok(c);
        }
        attempts = attempts + 1;
    }
    let n = corpus.len();
    let mut i: usize = 0;
    while i < n
        invariant
            corpus_wf(corpus@),
            n == corpus@.len(),
            0 <= i <= n,
            forall|j: int|
                0 <= j < i ==> spec_mask_letters(
                    spec_word_mask((#[trigger] corpus@[j])@),
                ).len() != 7,
        decreases n - i,
    {
        let wm = words::bitmask(corpus[i].as_str());
        let ls = words::vec_from_bitmask(&wm);
        if ls.len() == 7 {
            proof {
                words::lemma_word_mask_high_bits(corpus@[i as int]@);
                words::lemma_mask_letters_roundtrip(wm);
                words::lemma_mask_letters_props(wm, 26);
            }
            let required = ls[0];
            let mut others: Vec<char> = Vec::new();
            let mut j: usize = 1;
            while j < 7
                invariant
                    ls@.len() == 7,
                    1 <= j <= 7,
                    others@.len() == j - 1,
                    forall|a: int| 0 <= a < j - 1 ==> others@[a] == ls@[a + 1],
                decreases 7 - j,
            {
                others.push(ls[j]);
                j = j + 1;
            }
            proof {
                assert(seq![ls@[0]] + others@ =~= ls@);
                assert forall|a: int, b: int| 0 <= a < b < 7 implies ls@[a] != ls@[b] by {
                    assert(letter_ord(ls@[a]) < letter_ord(ls@[b]));
                }
            }
            match build_config(corpus, required, &others) {
                Some(c) => {
                    return Ok(c);
                },
                None => {
                    proof {
                        assert(spec_full7(required, others@) == spec_word_mask(ls@));
                        assert(spec_word_mask((corpus@[i as int])@) == spec_full7(
                            required,
                            others@,
                        ));
                        assert(false);
                    }
                    return Err(Error::NoPangram);
                },
            }
        }
        i = i + 1;
    }
    Err(Error::NoPangram)
}

} // verus!
