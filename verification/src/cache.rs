//! The timezone-keyed puzzle cache: a concurrent map from UTC offset to the
//! day's puzzle and its expiry at the next local midnight. A hit inside the
//! entry's day returns the published puzzle unchanged; a miss or an expired
//! entry runs the generator and publishes the fresh puzzle under the key.

use vstd::prelude::*;

use crate::generator;
use crate::generator::{config_matches_corpus, corpus_wf, spec_solvable, Error};
use crate::puzzle::PuzzleConfig;
use crate::words::str_chars;

verus! {

/// Clock instants this model admits, in seconds around the Unix epoch:
/// roughly ±3 million years, comfortably containing every instant chrono
/// can represent.
pub const MAX_INSTANT: i64 = 100_000_000_000_000;

/// A published day's puzzle and the instant it expires: the next local
/// midnight, in seconds since the Unix epoch.
#[derive(Clone, Debug)]
pub struct CachedConfig {
    pub config: PuzzleConfig,
    pub ttl: i64,
}

#[verifier::external_type_specification]
#[verifier::external_body]
#[verifier::reject_recursive_types(K)]
#[verifier::reject_recursive_types(V)]
#[verifier::reject_recursive_types(S)]
pub struct ExDashMap<K, V, S>(dashmap::DashMap<K, V, S>);

/// What the cache holds: the published entry under each offset key.
pub uninterp spec fn cache_entries(m: dashmap::DashMap<i32, CachedConfig>) -> Map<
    i32,
    CachedConfig,
>;

/// The cache holds no entry at all.
pub open spec fn no_cached_entries(m: dashmap::DashMap<i32, CachedConfig>) -> bool {
    cache_entries(m) == Map::<i32, CachedConfig>::empty()
}

/// Relies on `dashmap::DashMap::new`: the new map holds no entry.
#[verifier::external_body]
fn cache_new() -> (r: dashmap::DashMap<i32, CachedConfig>)
    ensures
        no_cached_entries(r),
{
    dashmap::DashMap::new()
}

/// Relies on `dashmap::DashMap::get`: returns the entry published under the
/// key, if one is there; the clone only copies it out.
#[verifier::external_body]
fn cache_get(m: &dashmap::DashMap<i32, CachedConfig>, key: i32) -> (r: Option<CachedConfig>)
    ensures
        r == if cache_entries(*m).dom().contains(key) {
            Some(cache_entries(*m)[key])
        } else {
            None::<CachedConfig>
        },
{
    m.get(&key).map(|e| e.value().clone())
}

/// Relies on `dashmap::DashMap::insert`: publishes the value under the key
/// atomically, replacing any previous entry for that key and touching no
/// other key.
#[verifier::external_body]
fn cache_insert(m: &mut dashmap::DashMap<i32, CachedConfig>, key: i32, value: CachedConfig)
    ensures
        cache_entries(*final(m)) == cache_entries(*old(m)).insert(key, value),
{
    m.insert(key, value);
}

/// Relies on `chrono::Utc::now` and `chrono::DateTime::timestamp`: the
/// current time as whole seconds since the Unix epoch. chrono datetimes
/// span about ±262,000 years around the epoch, so the value is far inside
/// the stated bound.
#[verifier::external_body]
fn now_timestamp() -> (r: i64)
    ensures
        -MAX_INSTANT <= r <= MAX_INSTANT,
{
    chrono::Utc::now().timestamp()
}

/// The next local midnight strictly after `now_utc` in the zone `offset_secs`
/// ahead of UTC, as a UTC instant: advance one day, then truncate to the
/// start of that local day.
pub open spec fn spec_next_midnight(now_utc: i64, offset_secs: i32) -> int {
    ((now_utc + offset_secs + 86400) / 86400) * 86400 - offset_secs
}

/// The next local midnight lies within the day after `now_utc` and falls on
/// a local day boundary.
pub proof fn lemma_next_midnight_bounds(now_utc: i64, offset_secs: i32)
    ensures
        now_utc < spec_next_midnight(now_utc, offset_secs) <= now_utc + 86400,
        (spec_next_midnight(now_utc, offset_secs) + offset_secs) % 86400 == 0,
{
    let local = now_utc + offset_secs + 86400;
    let q = local / 86400;
    vstd::arithmetic::div_mod::lemma_fundamental_div_mod(local, 86400);
    vstd::arithmetic::div_mod::lemma_mod_division_less_than_divisor(local, 86400);
    vstd::arithmetic::div_mod::lemma_mod_multiples_basic(q, 86400);
    assert(q * 86400 == 86400 * q) by (nonlinear_arith);
}

/// Compute the next local midnight after `now_utc` for a fixed UTC offset.
pub fn next_midnight_ts(now_utc: i64, offset_secs: i32) -> (r: i64)
    requires
        -MAX_INSTANT <= now_utc <= MAX_INSTANT,
        -86400 <= offset_secs <= 86400,
    ensures
        r == spec_next_midnight(now_utc, offset_secs),
        now_utc < r <= now_utc + 86400,
        (r + offset_secs) % 86400 == 0,
{
    let local: i64 = now_utc + (offset_secs as i64) + 86400;
    let shifted: i64 = local + 259_200_000_000_000;
    let q: i64 = shifted / 86400;
    proof {
        assert(shifted == 86400 * 3_000_000_000 + local);
        vstd::arithmetic::div_mod::lemma_hoist_over_denominator(local as int, 3_000_000_000, 86400nat);
        assert(q == local / 86400 + 3_000_000_000);
        lemma_next_midnight_bounds(now_utc, offset_secs);
        assert((q - 3_000_000_000) * 86400 == q * 86400 - 3_000_000_000 * 86400)
            by (nonlinear_arith);
    }
    let d: i64 = q - 3_000_000_000;
    let midnight_local: i64 = d * 86400;
    midnight_local - (offset_secs as i64)
}

/// The seed of the day: the UTC epoch day number of `now_utc`, or 0 for
/// instants before the epoch. Repeated calls within one UTC day seed the
/// generator identically.
pub fn epoch_day_seed(now_utc: i64) -> (r: u64)
    ensures
        r == if now_utc >= 0 {
            (now_utc / 86400) as u64
        } else {
            0u64
        },
{
    if now_utc >= 0 {
        (now_utc / 86400) as u64
    } else {
        0
    }
}

/// A request's timezone parameter: a fixed UTC offset in the form `±HH:MM`.
pub struct TimezoneQuery {
    pub tz: String,
}

/// Numeric value of a decimal digit character.
pub open spec fn spec_digit(c: char) -> int {
    c as u32 - 48
}

/// The string is a well-formed `±HH:MM` offset: a sign, hours 00..=23, a
/// colon, minutes 00..=59.
pub open spec fn spec_offset_ok(s: Seq<char>) -> bool {
    &&& s.len() == 6
    &&& (s[0] == '+' || s[0] == '-')
    &&& forall|i: int| i == 1 || i == 2 || i == 4 || i == 5 ==> 48 <= #[trigger] s[i] as u32 <= 57
    &&& s[3] == ':'
    &&& spec_digit(s[1]) * 10 + spec_digit(s[2]) <= 23
    &&& spec_digit(s[4]) * 10 + spec_digit(s[5]) <= 59
}

/// The offset in seconds named by a well-formed `±HH:MM` string.
pub open spec fn spec_offset_value(s: Seq<char>) -> int {
    (if s[0] == '-' {
        -1int
    } else {
        1int
    }) * ((spec_digit(s[1]) * 10 + spec_digit(s[2])) * 3600 + (spec_digit(s[4]) * 10 + spec_digit(
        s[5],
    )) * 60)
}

/// Parse a `±HH:MM` UTC offset into seconds; rejects exactly the strings
/// not of that form.
pub fn parse_offset(s: &str) -> (r: Option<i32>)
    ensures
        match r {
            Some(v) => spec_offset_ok(s@) && v == spec_offset_value(s@) && -86400 < v < 86400,
            None => !spec_offset_ok(s@),
        },
{
    let cs = str_chars(s);
    if cs.len() != 6 {
        return None;
    }
    let sign: i32 = if cs[0] == '+' {
        1
    } else if cs[0] == '-' {
        -1
    } else {
        return None;
    };
    let c1 = cs[1] as u32;
    let c2 = cs[2] as u32;
    let c4 = cs[4] as u32;
    let c5 = cs[5] as u32;
    if c1 < 48 || c1 > 57 || c2 < 48 || c2 > 57 || c4 < 48 || c4 > 57 || c5 < 48 || c5 > 57 {
        return None;
    }
    if cs[3] != ':' {
        return None;
    }
    let hours: u32 = (c1 - 48) * 10 + (c2 - 48);
    let minutes: u32 = (c4 - 48) * 10 + (c5 - 48);
    if hours > 23 || minutes > 59 {
        return None;
    }
    let magnitude: i32 = (hours * 3600 + minutes * 60) as i32;
    Some(sign * magnitude)
}

/// The cached entry usable at `now_utc`, if the key holds one that has not
/// expired.
pub open spec fn fresh_entry(
    entries: Map<i32, CachedConfig>,
    offset_secs: i32,
    now_utc: i64,
) -> Option<CachedConfig> {
    if entries.dom().contains(offset_secs) && entries[offset_secs].ttl >= now_utc {
        Some(entries[offset_secs])
    } else {
        None
    }
}

/// How one cache read relates the cache before and after and the returned
/// puzzle: a fresh entry is returned unchanged; otherwise a well-formed
/// puzzle for the corpus is generated and published under the key with the
/// next local midnight as expiry, or the unsolvable-corpus error leaves the
/// cache as it was.
pub open spec fn get_outcome(
    pre: Map<i32, CachedConfig>,
    corpus: Seq<String>,
    offset_secs: i32,
    now_utc: i64,
    r: Result<PuzzleConfig, Error>,
    post: Map<i32, CachedConfig>,
) -> bool {
    match fresh_entry(pre, offset_secs, now_utc) {
        Some(e) => r == Ok::<PuzzleConfig, Error>(e.config) && post == pre,
        None => match r {
            Ok(c) => c.wf() && config_matches_corpus(c, corpus) && post == pre.insert(
                offset_secs,
                (CachedConfig { config: c, ttl: spec_next_midnight(now_utc, offset_secs) as i64 }),
            ),
            Err(e) => e == Error::NoPangram && !spec_solvable(corpus) && post == pre,
        },
    }
}

/// Serves each fixed UTC offset its daily puzzle: generated from the held
/// corpus once per local day and republished on expiry.
pub struct ConfigProvider {
    cache: dashmap::DashMap<i32, CachedConfig>,
    corpus: Vec<String>,
}

impl ConfigProvider {
    /// The published entries, by offset key.
    pub closed spec fn entries(self) -> Map<i32, CachedConfig> {
        cache_entries(self.cache)
    }

    /// The word corpus puzzles are generated from.
    pub closed spec fn corpus_view(self) -> Seq<String> {
        self.corpus@
    }

    pub closed spec fn wf(self) -> bool {
        corpus_wf(self.corpus@)
    }

    pub fn new(corpus: Vec<String>) -> (r: Self)
        requires
            corpus_wf(corpus@),
        ensures
            r.wf(),
            r.corpus_view() == corpus@,
            r.entries() == Map::<i32, CachedConfig>::empty(),
    {
        ConfigProvider { cache: cache_new(), corpus }
    }

    /// One cache read at the instant `now_utc`: return the unexpired entry
    /// for the offset, or generate and publish a fresh puzzle expiring at
    /// the next local midnight. Success is owed whenever an entry is fresh
    /// or the corpus is solvable.
    pub fn get_config_at(&mut self, offset_secs: i32, now_utc: i64) -> (r: Result<
        PuzzleConfig,
        Error,
    >)
        requires
            old(self).wf(),
            -MAX_INSTANT <= now_utc <= MAX_INSTANT,
            -86400 <= offset_secs <= 86400,
        ensures
            final(self).wf(),
            final(self).corpus_view() == old(self).corpus_view(),
            get_outcome(
                old(self).entries(),
                old(self).corpus_view(),
                offset_secs,
                now_utc,
                r,
                final(self).entries(),
            ),
            (fresh_entry(old(self).entries(), offset_secs, now_utc) is Some || spec_solvable(
                old(self).corpus_view(),
            )) ==> r is Ok,
    {
        if let Some(entry) = cache_get(&self.cache, offset_secs) {
            if entry.ttl >= now_utc {
                return Ok(entry.config);
            }
        }
        let ttl = next_midnight_ts(now_utc, offset_secs);
        let seed = epoch_day_seed(now_utc);
        match generator::generate(&self.corpus, seed) {
            Err(e) => Err(e),
            Ok(config) => {
                cache_insert(&mut self.cache, offset_secs, CachedConfig { config, ttl });
                match cache_get(&self.cache, offset_secs) {
                    Some(entry) => Ok(entry.config),
                    None => vstd::pervasive::unreached(),
                }
            },
        }
    }

    /// Read the daily puzzle for a fixed UTC offset at the current time.
    pub fn get_config(&mut self, offset_secs: i32) -> (r: Result<PuzzleConfig, Error>)
        requires
            old(self).wf(),
            -86400 <= offset_secs <= 86400,
        ensures
            final(self).wf(),
            final(self).corpus_view() == old(self).corpus_view(),
            exists|now_utc: i64|
                -MAX_INSTANT <= now_utc <= MAX_INSTANT && #[trigger] get_outcome(
                    old(self).entries(),
                    old(self).corpus_view(),
                    offset_secs,
                    now_utc,
                    r,
                    final(self).entries(),
                ),
    {
        let now_utc = now_timestamp();
        let r = self.get_config_at(offset_secs, now_utc);
        r
    }
}

/// Cache idempotence: when a read returns a puzzle and a second read of the
/// same offset happens no later than the first one's expiry, the second
/// read returns the very same puzzle and leaves the cache untouched.
pub proof fn lemma_cache_idempotent(
    pre: Map<i32, CachedConfig>,
    corpus: Seq<String>,
    offset_secs: i32,
    now1: i64,
    now2: i64,
    r1: Result<PuzzleConfig, Error>,
    mid: Map<i32, CachedConfig>,
    r2: Result<PuzzleConfig, Error>,
    post: Map<i32, CachedConfig>,
)
    requires
        get_outcome(pre, corpus, offset_secs, now1, r1, mid),
        get_outcome(mid, corpus, offset_secs, now2, r2, post),
        r1 is Ok,
        -MAX_INSTANT <= now1 <= MAX_INSTANT,
        -86400 <= offset_secs <= 86400,
        now1 <= now2,
        now2 <= spec_next_midnight(now1, offset_secs),
        fresh_entry(pre, offset_secs, now1) matches Some(e) ==> now2 <= e.ttl,
    ensures
        r2 == r1,
        post == mid,
{
    match fresh_entry(pre, offset_secs, now1) {
        Some(e) => {
            assert(fresh_entry(mid, offset_secs, now2) == Some(e));
        },
        None => {
            lemma_next_midnight_bounds(now1, offset_secs);
            let ttl1 = spec_next_midnight(now1, offset_secs) as i64;
            assert(ttl1 == spec_next_midnight(now1, offset_secs));
            assert(mid.dom().contains(offset_secs));
            assert(mid[offset_secs].ttl == ttl1);
        },
    }
}


/// Per-offset independence: a read for one offset never disturbs the entry
/// published under any other offset.
pub proof fn lemma_other_offsets_untouched(
    pre: Map<i32, CachedConfig>,
    corpus: Seq<String>,
    offset_secs: i32,
    now_utc: i64,
    r: Result<PuzzleConfig, Error>,
    post: Map<i32, CachedConfig>,
    other: i32,
)
    requires
        get_outcome(pre, corpus, offset_secs, now_utc, r, post),
        other != offset_secs,
    ensures
        post.dom().contains(other) == pre.dom().contains(other),
        pre.dom().contains(other) ==> post[other] == pre[other],
{
}

/// Monotonic visibility: a read never replaces an entry with an older
/// expiry. A fresh entry stays; a stale one is superseded by an entry
/// expiring after `now_utc`, hence after the stale expiry.
pub proof fn lemma_ttl_monotonic(
    pre: Map<i32, CachedConfig>,
    corpus: Seq<String>,
    offset_secs: i32,
    now_utc: i64,
    r: Result<PuzzleConfig, Error>,
    post: Map<i32, CachedConfig>,
)
    requires
        get_outcome(pre, corpus, offset_secs, now_utc, r, post),
        pre.dom().contains(offset_secs),
        -MAX_INSTANT <= now_utc <= MAX_INSTANT,
        -86400 <= offset_secs <= 86400,
    ensures
        post.dom().contains(offset_secs),
        post[offset_secs].ttl >= pre[offset_secs].ttl,
{
    if fresh_entry(pre, offset_secs, now_utc) is None && r is Ok {
        lemma_next_midnight_bounds(now_utc, offset_secs);
        assert(spec_next_midnight(now_utc, offset_secs) as i64 == spec_next_midnight(
            now_utc,
            offset_secs,
        ));
    }
}

} // verus!
