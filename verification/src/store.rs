//! Building and maintaining the word corpus: validation and normalization
//! of new word batches, the precomputed (text, mask, length) rows the word
//! store keeps, and the corpus sanitizer that turns a raw word list into a
//! usable corpus.

use vstd::prelude::*;

use crate::generator::{corpus_wf, max_total_score};
use crate::letters::{is_lower, Bitmask};
use crate::puzzle::MAX_WORD_LEN;
use crate::words;
use crate::words::{all_lower, spec_word_mask, str_chars};

verus! {

/// An ASCII letter, of either case.
pub open spec fn is_ascii_alpha(c: char) -> bool {
    65 <= c as u32 <= 90 || 97 <= c as u32 <= 122
}

/// ASCII uppercase letters mapped to lowercase; all else unchanged.
pub open spec fn spec_ascii_lower(c: char) -> char {
    if 65 <= c as u32 <= 90 {
        ((c as u32 + 32) as char)
    } else {
        c
    }
}

/// The lowercase form of a string's characters.
pub open spec fn lower_seq(s: Seq<char>) -> Seq<char> {
    s.map_values(|c: char| spec_ascii_lower(c))
}

/// A word the store accepts: at least 4 characters, all ASCII letters.
pub open spec fn word_ok(s: Seq<char>) -> bool {
    &&& 4 <= s.len() <= MAX_WORD_LEN
    &&& forall|i: int| 0 <= i < s.len() ==> is_ascii_alpha(#[trigger] s[i])
}

/// Relies on `str::to_ascii_lowercase`: returns a copy of the string with
/// every ASCII uppercase letter mapped to its lowercase counterpart and
/// every other character unchanged.
#[verifier::external_body]
fn ascii_lowercase(s: &str) -> (r: String)
    ensures
        r@ == lower_seq(s@),
{
    s.to_ascii_lowercase()
}

/// Whether the character is an ASCII letter.
fn char_is_alpha(c: char) -> (r: bool)
    ensures
        r == is_ascii_alpha(c),
{
    let u = c as u32;
    (65 <= u && u <= 90) || (97 <= u && u <= 122)
}

/// Whether the store accepts the word.
fn word_acceptable(w: &str) -> (r: bool)
    ensures
        r == word_ok(w@),
{
    let cs = str_chars(w);
    if cs.len() < 4 {
        return false;
    }
    if cs.len() > MAX_WORD_LEN {
        return false;
    }
    let n = cs.len();
    let mut i: usize = 0;
    while i < n
        invariant
            n == cs.len(),
            cs@ == w@,
            0 <= i <= n,
            forall|j: int| 0 <= j < i ==> is_ascii_alpha(#[trigger] cs@[j]),
        decreases n - i,
    {
        if !char_is_alpha(cs[i]) {
            return false;
        }
        i = i + 1;
    }
    true
}

/// Whether a whole batch of new words is acceptable to the store: each at
/// least 4 characters and all ASCII letters.
pub fn check_new_words(batch: &Vec<String>) -> (r: bool)
    ensures
        r == forall|i: int| 0 <= i < batch@.len() ==> word_ok((#[trigger] batch@[i])@),
{
    let n = batch.len();
    let mut i: usize = 0;
    while i < n
        invariant
            n == batch@.len(),
            0 <= i <= n,
            forall|j: int| 0 <= j < i ==> word_ok((#[trigger] batch@[j])@),
        decreases n - i,
    {
        if !word_acceptable(batch[i].as_str()) {
            return false;
        }
        i = i + 1;
    }
    true
}


/// Normalize a batch of new words for the store: reject the batch if any
/// word is unacceptable, else lowercase each word, keeping order and
/// multiplicity.
pub fn normalize_words(batch: &Vec<String>) -> (r: Option<Vec<String>>)
    ensures
        match r {
            Some(v) => {
                &&& (forall|i: int| 0 <= i < batch@.len() ==> word_ok((#[trigger] batch@[i])@))
                &&& v@.len() == batch@.len()
                &&& (forall|i: int|
                    0 <= i < batch@.len() ==> (#[trigger] v@[i])@ == lower_seq(batch@[i]@))
            },
            None => !(forall|i: int| 0 <= i < batch@.len() ==> word_ok((#[trigger] batch@[i])@)),
        },
{
    if !check_new_words(batch) {
        return None;
    }
    let mut out: Vec<String> = Vec::new();
    let n = batch.len();
    let mut i: usize = 0;
    while i < n
        invariant
            n == batch@.len(),
            0 <= i <= n,
            out@.len() == i,
            forall|k: int| 0 <= k < i ==> (#[trigger] out@[k])@ == lower_seq(batch@[k]@),
        decreases n - i,
    {
        let low = ascii_lowercase(batch[i].as_str());
        out.push(low);
        i = i + 1;
    }
    Some(out)
}

/// The rows the word store keeps for a batch of normalized words: the text,
/// its letter mask, and its length. Insertion of such rows is idempotent on
/// duplicates; the store itself lives behind the request boundary.
pub fn word_rows(batch: &Vec<String>) -> (r: Vec<(String, Bitmask, i32)>)
    requires
        forall|i: int|
            0 <= i < batch@.len() ==> all_lower((#[trigger] batch@[i])@) && (#[trigger] batch@[i])@.len()
                <= MAX_WORD_LEN,
    ensures
        r@.len() == batch@.len(),
        forall|i: int|
            0 <= i < batch@.len() ==> {
                let row = #[trigger] r@[i];
                &&& row.0@ == batch@[i]@
                &&& row.1 == spec_word_mask(batch@[i]@)
                &&& row.2 == batch@[i]@.len()
            },
{
    let mut r: Vec<(String, Bitmask, i32)> = Vec::new();
    let n = batch.len();
    let mut i: usize = 0;
    while i < n
        invariant
            n == batch@.len(),
            forall|k: int|
                0 <= k < batch@.len() ==> all_lower((#[trigger] batch@[k])@) && (
                #[trigger] batch@[k])@.len() <= MAX_WORD_LEN,
            0 <= i <= n,
            r@.len() == i,
            forall|k: int|
                0 <= k < i ==> {
                    let row = #[trigger] r@[k];
                    &&& row.0@ == batch@[k]@
                    &&& row.1 == spec_word_mask(batch@[k]@)
                    &&& row.2 == batch@[k]@.len()
                },
        decreases n - i,
    {
        let w = &batch[i];
        let mask = words::bitmask(w.as_str());
        let cs = str_chars(w.as_str());
        let len: i32 = cs.len() as i32;
        let row = (w.clone(), mask, len);
        r.push(row);
        i = i + 1;
    }
    r
}

/// The corpus a raw word list yields: each acceptable line lowercased, kept
/// once, in order of first appearance.
pub open spec fn spec_sanitize(lines: Seq<String>) -> Seq<Seq<char>>
    decreases lines.len(),
{
    if lines.len() == 0 {
        Seq::empty()
    } else {
        let prefix = spec_sanitize(lines.drop_last());
        let low = lower_seq(lines.last()@);
        if word_ok(lines.last()@) && !prefix.contains(low) {
            prefix.push(low)
        } else {
            prefix
        }
    }
}

/// The total score bound of the sanitized words: length plus 7 each.
pub open spec fn spec_sanitize_total(vs: Seq<Seq<char>>) -> int
    decreases vs.len(),
{
    if vs.len() == 0 {
        0
    } else {
        spec_sanitize_total(vs.drop_last()) + vs.last().len() + 7
    }
}

/// The views of a vector of strings.
pub open spec fn views_of(v: Seq<String>) -> Seq<Seq<char>> {
    v.map_values(|s: String| s@)
}

/// Sanitizing a longer list only extends the sanitized words.
proof fn lemma_sanitize_prefix(lines: Seq<String>, i: int)
    requires
        0 <= i <= lines.len(),
    ensures
        spec_sanitize(lines.take(i)).len() <= spec_sanitize(lines).len(),
        spec_sanitize(lines.take(i)) == spec_sanitize(lines).take(
            spec_sanitize(lines.take(i)).len() as int,
        ),
    decreases lines.len() - i,
{
    if i == lines.len() {
        assert(lines.take(i) =~= lines);
        assert(spec_sanitize(lines) =~= spec_sanitize(lines).take(
            spec_sanitize(lines).len() as int,
        ));
    } else {
        lemma_sanitize_prefix(lines, i + 1);
        let a = spec_sanitize(lines.take(i));
        let b = spec_sanitize(lines.take(i + 1));
        assert(lines.take(i + 1).drop_last() =~= lines.take(i));
        assert(lines.take(i + 1).last() == lines[i]);
        assert(a.len() <= b.len());
        if b.len() > a.len() {
            assert(b == a.push(lower_seq(lines[i]@)));
            assert(a =~= b.take(a.len() as int));
        } else {
            assert(a =~= b.take(a.len() as int));
        }
        assert(b.take(a.len() as int) == spec_sanitize(lines).take(
            b.len() as int,
        ).take(a.len() as int));
        assert(spec_sanitize(lines).take(b.len() as int).take(a.len() as int)
            =~= spec_sanitize(lines).take(a.len() as int));
    }
}

/// Sanitize total is the sum of nonnegative terms of each entry.
proof fn lemma_sanitize_total_take(vs: Seq<Seq<char>>, i: int)
    requires
        0 <= i <= vs.len(),
    ensures
        spec_sanitize_total(vs.take(i)) + spec_suffix_total(vs, i) == spec_sanitize_total(vs),
        spec_suffix_total(vs, i) >= 0,
    decreases vs.len() - i,
{
    if i == vs.len() {
        assert(vs.take(i) =~= vs);
    } else {
        lemma_sanitize_total_take(vs, i + 1);
        assert(vs.take(i + 1).drop_last() =~= vs.take(i));
        assert(vs.take(i + 1).last() == vs[i]);
    }
}

/// The part of the total contributed by entries from `i` on.
pub open spec fn spec_suffix_total(vs: Seq<Seq<char>>, i: int) -> int
    decreases vs.len() - i,
{
    if i < 0 || i >= vs.len() {
        0
    } else {
        vs[i].len() + 7 + spec_suffix_total(vs, i + 1)
    }
}

/// Turn a raw word list into a corpus: drop lines that are not words of at
/// least 4 ASCII letters, lowercase the rest, keep each word once. Refuses
/// a list whose sanitized words' total score bound would overflow the
/// scorer.
pub fn sanitize_corpus(lines: &Vec<String>) -> (r: Option<Vec<String>>)
    ensures
        match r {
            Some(v) => views_of(v@) == spec_sanitize(lines@) && corpus_wf(v@),
            None => spec_sanitize_total(spec_sanitize(lines@)) > u32::MAX,
        },
{
    let mut out: Vec<String> = Vec::new();
    let mut total: u64 = 0;
    let n = lines.len();
    let mut i: usize = 0;
    while i < n
        invariant
            n == lines@.len(),
            0 <= i <= n,
            views_of(out@) == spec_sanitize(lines@.take(i as int)),
            total == max_total_score(out@),
            total <= u32::MAX,
            forall|k: int|
                0 <= k < out@.len() ==> all_lower((#[trigger] out@[k])@) && 4 <= (
                #[trigger] out@[k])@.len() <= MAX_WORD_LEN,
            forall|k1: int, k2: int| 0 <= k1 < k2 < out@.len() ==> out@[k1]@ != out@[k2]@,
        decreases n - i,
    {
        let line = &lines[i];
        proof {
            assert(lines@.take(i + 1).drop_last() =~= lines@.take(i as int));
            assert(lines@.take(i + 1).last() == lines@[i as int]);
        }
        if word_acceptable(line.as_str()) {
            let low = ascii_lowercase(line.as_str());
            let mut dup = false;
            let m = out.len();
            let mut j: usize = 0;
            while j < m
                invariant
                    m == out@.len(),
                    0 <= j <= m,
                    0 <= i < lines@.len(),
                    low@ == lower_seq(lines@[i as int]@),
                    dup == exists|k: int| 0 <= k < j && (#[trigger] out@[k])@ == low@,
                decreases m - j,
            {
                let same = out[j] == low;
                proof {
                    if same {
                        assert((#[trigger] out@[j as int])@ == low@);
                    }
                }
                if same {
                    dup = true;
                }
                j = j + 1;
            }
            proof {
                assert(views_of(out@).contains(low@) == exists|k: int|
                    0 <= k < out@.len() && (#[trigger] out@[k])@ == low@) by {
                    if views_of(out@).contains(low@) {
                        let k = choose|k: int|
                            0 <= k < views_of(out@).len() && views_of(out@)[k] == low@;
                        assert(out@[k]@ == low@);
                    }
                    if exists|k: int| 0 <= k < out@.len() && (#[trigger] out@[k])@ == low@ {
                        let k = choose|k: int| 0 <= k < out@.len() && (#[trigger] out@[k])@ == low@;
                        assert(views_of(out@)[k] == low@);
                    }
                }
                lemma_lower_word_ok(lines@[i as int]@);
            }
            if !dup {
                let cs = str_chars(low.as_str());
                let add: u64 = (cs.len() as u64) + 7;
                proof {
                    let prefix = spec_sanitize(lines@.take(i as int));
                    let part = spec_sanitize(lines@.take(i + 1));
                    assert(part == prefix.push(low@));
                    assert(part.drop_last() =~= prefix);
                    assert(part.last() == low@);
                    lemma_total_views(out@);
                    assert(spec_sanitize_total(part) == total + low@.len() + 7);
                }
                if total > 0xFFFF_FFFFu64 - add {
                    proof {
                        lemma_sanitize_prefix(lines@, i + 1);
                        let full = spec_sanitize(lines@);
                        let part = spec_sanitize(lines@.take(i + 1));
                        lemma_sanitize_total_take(full, part.len() as int);
                        assert(part == full.take(part.len() as int));
                        assert(spec_sanitize_total(part) > u32::MAX);
                    }
                    return None;
                }
                let ghost prev = out@;
                total = total + add;
                out.push(low);
                proof {
                    assert(out@.drop_last() =~= prev);
                    assert(views_of(out@) =~= spec_sanitize(lines@.take(i + 1)));
                    lemma_total_views(out@);
                }
            }
        }
        i = i + 1;
    }
    proof {
        assert(lines@.take(n as int) =~= lines@);
        lemma_total_views(out@);
    }
    Some(out)
}

/// The corpus score bound equals the sanitize total of the views.
proof fn lemma_total_views(v: Seq<String>)
    ensures
        max_total_score(v) == spec_sanitize_total(views_of(v)),
    decreases v.len(),
{
    if v.len() == 0 {
    } else {
        lemma_total_views(v.drop_last());
        assert(views_of(v.drop_last()) =~= views_of(v).drop_last());
        assert(views_of(v).last() == v.last()@);
    }
}

/// Lowercasing an acceptable word yields a lowercase word of the same
/// length.
proof fn lemma_lower_word_ok(s: Seq<char>)
    requires
        word_ok(s),
    ensures
        all_lower(lower_seq(s)),
        lower_seq(s).len() == s.len(),
{
    assert forall|i: int| 0 <= i < lower_seq(s).len() implies is_lower(
        #[trigger] lower_seq(s)[i],
    ) by {
        assert(is_ascii_alpha(s[i]));
        if 65 <= s[i] as u32 <= 90 {
            assert(lower_seq(s)[i] == ((s[i] as u32 + 32) as char));
        }
    }
}

} // verus!
