use spelling_bee::cache::{
    epoch_day_seed, next_midnight_ts, parse_offset, ConfigProvider, TimezoneQuery,
};
use spelling_bee::store::sanitize_corpus;

fn provider() -> ConfigProvider {
    let raw: Vec<String> = ["upbraid", "drab", "bard", "braid", "rabid", "paid", "purr"]
        .iter()
        .map(|w| w.to_string())
        .collect();
    ConfigProvider::new(sanitize_corpus(&raw).expect("small corpus"))
}

#[test]
fn same_day_reads_return_the_same_puzzle() {
    let mut provider = provider();
    let offset = 3600;
    let now = 1_000_000;
    let first = provider.get_config_at(offset, now).expect("solvable corpus");
    let second = provider
        .get_config_at(offset, now + 100)
        .expect("solvable corpus");
    assert!(first == second);
    assert_eq!(first.required_letter, second.required_letter);
    assert_eq!(first.other_letters, second.other_letters);
    assert_eq!(first.valid_words, second.valid_words);
}

#[test]
fn a_read_after_local_midnight_regenerates() {
    let mut provider = provider();
    let offset = 3600;
    let now = 1_000_000;
    let first = provider.get_config_at(offset, now).expect("solvable corpus");
    let expiry = next_midnight_ts(now, offset);
    // One second into the next local day the entry is stale; the fresh
    // puzzle may differ, but it is served all the same.
    let later = provider
        .get_config_at(offset, expiry + 1)
        .expect("solvable corpus");
    assert_eq!(later.valid_words.len(), first.valid_words.len());
}

#[test]
fn offsets_are_cached_independently() {
    let mut provider = provider();
    let now = 5_000_000;
    let east = provider.get_config_at(19800, now).expect("solvable corpus");
    let west = provider.get_config_at(-28800, now).expect("solvable corpus");
    let east_again = provider
        .get_config_at(19800, now + 1)
        .expect("solvable corpus");
    assert!(east == east_again);
    assert_eq!(east.valid_words.len(), west.valid_words.len());
}

#[test]
fn reads_with_the_real_clock_serve_a_puzzle() {
    let mut provider = provider();
    let config = provider.get_config(0).expect("solvable corpus");
    assert_eq!(config.score_buckets.len(), 9);
}

#[test]
fn next_midnight_is_exact() {
    // 1_000_000s UTC at +01:00 is 1_003_600s local; the local day ends at
    // 1_036_800s local, which is 1_033_200s UTC.
    assert_eq!(next_midnight_ts(1_000_000, 3600), 1_033_200);
    // At the epoch with -01:00, local midnight comes at 3_600s UTC.
    assert_eq!(next_midnight_ts(0, -3600), 3_600);
    // Exactly at local midnight, the next one is a full day away.
    assert_eq!(next_midnight_ts(86_400, 0), 172_800);
}

#[test]
fn offsets_parse_exactly_the_hh_mm_form() {
    assert_eq!(parse_offset("+05:30"), Some(19_800));
    assert_eq!(parse_offset("-08:00"), Some(-28_800));
    assert_eq!(parse_offset("+00:00"), Some(0));
    assert_eq!(parse_offset("+23:59"), Some(86_340));
    assert_eq!(parse_offset("+24:00"), None);
    assert_eq!(parse_offset("+05:60"), None);
    assert_eq!(parse_offset("0500"), None);
    assert_eq!(parse_offset("+0a:00"), None);
    assert_eq!(parse_offset("+05-30"), None);
    assert_eq!(parse_offset(""), None);
}

#[test]
fn timezone_query_carries_the_raw_parameter() {
    let query = TimezoneQuery { tz: "+05:30".to_string() };
    assert_eq!(parse_offset(&query.tz), Some(19_800));
}

#[test]
fn the_seed_is_the_epoch_day() {
    assert_eq!(epoch_day_seed(0), 0);
    assert_eq!(epoch_day_seed(86_400 * 3 + 5), 3);
    assert_eq!(epoch_day_seed(-10), 0);
}
