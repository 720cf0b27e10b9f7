use wallet_vault::cache::{
    finish_refresh, is_fresh, CacheError, FetchOutcome, GetDecision, TokenCache, CACHE_TTL_SECS,
};
use wallet_vault::tokens::{JupiterToken, TokenDatabase};

fn token(address: &str, name: &str) -> JupiterToken {
    JupiterToken {
        address: address.to_string(),
        chain_id: 101,
        decimals: 9,
        name: name.to_string(),
        symbol: name.to_string(),
        logo_uri: None,
        tags: None,
    }
}

fn batch() -> Vec<JupiterToken> {
    vec![token("addr1", "One"), token("addr2", "Two")]
}

/// The test double standing in for the one network call: counts how
/// often it is consulted.
fn fake_fetch(counter: &mut u32) -> FetchOutcome {
    *counter += 1;
    FetchOutcome::Fetched(batch())
}

#[test]
fn ttl_window_issues_at_most_one_fetch() {
    let mut cache = TokenCache::new();
    let mut store = TokenDatabase::new().unwrap();
    let mut fetches = 0u32;
    let t0 = 1000u64;

    // Empty cache: the first read fetches.
    assert!(matches!(cache.begin_get(t0), GetDecision::StartFetch));
    let outcome = fake_fetch(&mut fetches);
    finish_refresh(&mut cache, &mut store, outcome, t0).unwrap();
    assert_eq!(fetches, 1);

    // A second read inside the TTL window serves the snapshot.
    let t1 = t0 + CACHE_TTL_SECS - 1;
    assert!(matches!(cache.begin_get(t1), GetDecision::Serve));
    let snapshot = cache.snapshot_tokens().as_ref().unwrap();
    assert_eq!(snapshot.len(), 2);
    assert_eq!(snapshot[0].address, "addr1");
    assert_eq!(fetches, 1);
}

#[test]
fn read_right_after_expiry_issues_exactly_one_fetch() {
    let mut cache = TokenCache::new();
    let mut store = TokenDatabase::new().unwrap();
    let mut fetches = 0u32;
    let t0 = 1000u64;
    assert!(matches!(cache.begin_get(t0), GetDecision::StartFetch));
    finish_refresh(&mut cache, &mut store, fake_fetch(&mut fetches), t0).unwrap();

    let t1 = t0 + CACHE_TTL_SECS;
    assert!(matches!(cache.begin_get(t1), GetDecision::StartFetch));
    finish_refresh(&mut cache, &mut store, fake_fetch(&mut fetches), t1).unwrap();
    assert_eq!(fetches, 2);
    // The refresh bumped the persisted timestamps.
    for row in store.rows() {
        assert_eq!(row.last_updated, t1);
    }
}

#[test]
fn overlapping_stale_reads_collapse_into_one_fetch() {
    let mut cache = TokenCache::new();
    let mut store = TokenDatabase::new().unwrap();
    let mut fetches = 0u32;
    let now = 5000u64;

    // Two readers arrive while the cache is stale. The first is told
    // to fetch; the second, arriving before the refresh completes, is
    // told to await it instead of fetching again.
    let first = cache.begin_get(now);
    let second = cache.begin_get(now);
    assert!(matches!(first, GetDecision::StartFetch));
    assert!(matches!(second, GetDecision::AwaitRefresh));

    finish_refresh(&mut cache, &mut store, fake_fetch(&mut fetches), now).unwrap();
    assert_eq!(fetches, 1);

    // Once the refresh committed, both readers are served.
    assert!(matches!(cache.begin_get(now), GetDecision::Serve));
    assert!(matches!(cache.begin_get(now), GetDecision::Serve));
    assert_eq!(fetches, 1);
}

#[test]
fn empty_store_is_seeded_with_exactly_one_fetch() {
    let mut store = TokenDatabase::new().unwrap();
    let mut fetches = 0u32;

    // Cold start: the durable store is empty, so one unconditional
    // fetch-and-persist cycle runs, whatever the TTL says.
    assert!(store.needs_seed());
    match fake_fetch(&mut fetches) {
        FetchOutcome::Fetched(tokens) => store.upsert_many(&tokens, 77).unwrap(),
        _ => unreachable!(),
    };
    assert_eq!(fetches, 1);

    // The seeded store serves exactly the fetched set.
    let all = store.get_all_tokens().unwrap();
    assert_eq!(all.len(), 2);
    assert_eq!(all[0].address, "addr1");
    assert_eq!(all[1].address, "addr2");

    // A non-empty store is served directly: zero further fetches.
    assert!(!store.needs_seed());
    assert_eq!(fetches, 1);
}

#[test]
fn failed_fetch_is_discarded_entirely() {
    let mut cache = TokenCache::new();
    let mut store = TokenDatabase::new().unwrap();
    let mut fetches = 0u32;
    let t0 = 1000u64;
    assert!(matches!(cache.begin_get(t0), GetDecision::StartFetch));
    finish_refresh(&mut cache, &mut store, fake_fetch(&mut fetches), t0).unwrap();
    let rows_before = store.count();

    // The next refresh fails at the transport level: the error comes
    // back, and neither the snapshot nor the store changes.
    let t1 = t0 + CACHE_TTL_SECS;
    assert!(matches!(cache.begin_get(t1), GetDecision::StartFetch));
    let err = finish_refresh(
        &mut cache,
        &mut store,
        FetchOutcome::NetworkFailed("connection reset".to_string()),
        t1,
    )
    .unwrap_err();
    assert!(matches!(err, CacheError::NetworkError(m) if m == "connection reset"));
    assert_eq!(store.count(), rows_before);
    let snapshot = cache.snapshot_tokens().as_ref().unwrap();
    assert_eq!(snapshot.len(), 2);
    for row in store.rows() {
        assert_eq!(row.last_updated, t0);
    }

    // A malformed payload surfaces as a decode error, same discipline.
    assert!(matches!(cache.begin_get(t1), GetDecision::StartFetch));
    let err = finish_refresh(
        &mut cache,
        &mut store,
        FetchOutcome::DecodeFailed("expected an array".to_string()),
        t1,
    )
    .unwrap_err();
    assert!(matches!(err, CacheError::DecodeError(m) if m == "expected an array"));
    assert_eq!(store.count(), rows_before);
}

#[test]
fn freshness_window_boundaries() {
    assert!(is_fresh(1000, 1000));
    assert!(is_fresh(1000, 1000 + CACHE_TTL_SECS - 1));
    assert!(!is_fresh(1000, 1000 + CACHE_TTL_SECS));
    // A clock that moved backwards counts as fresh.
    assert!(is_fresh(1000, 500));
}
