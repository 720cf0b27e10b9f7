//! Time-bounded cache over the reference-data store. The in-memory
//! snapshot is served while it is fresh; a stale read starts a refresh,
//! and the in-flight flag keeps overlapping readers from starting a
//! second one. The network fetch itself happens outside; its outcome is
//! fed back in and either committed or discarded whole.

use crate::tokens::{upsert_all, JupiterToken, TokenDatabase, TokenV};
use vstd::prelude::*;

verus! {

/// Number of seconds a committed snapshot stays fresh.
pub const CACHE_TTL_SECS: u64 = 1800;

/// A snapshot committed at `last` is fresh at `now` when less than the
/// TTL has elapsed; a clock that moved backwards counts as fresh.
pub open spec fn fresh_at(last: u64, now: u64) -> bool {
    (now as int) < (last as int) + (CACHE_TTL_SECS as int)
}

/// Whether a snapshot committed at `last` is still fresh at `now`.
pub fn is_fresh(last: u64, now: u64) -> (r: bool)
    ensures
        r == fresh_at(last, now),
{
    match now.checked_sub(last) {
        None => true,
        Some(elapsed) => elapsed < CACHE_TTL_SECS,
    }
}

/// Why a cache operation failed.
#[derive(Debug)]
pub enum CacheError {
    /// The fetch did not complete at the transport level.
    NetworkError(String),
    /// The fetch returned a malformed payload.
    DecodeError(String),
    /// The persisted store failed.
    StorageError(String),
}

/// What a reader must do next.
#[derive(Debug)]
pub enum GetDecision {
    /// The snapshot is fresh: serve it unchanged.
    Serve,
    /// The cache is stale or empty and no refresh is underway: this
    /// reader fetches, then commits or aborts.
    StartFetch,
    /// A refresh is already in flight: await its result instead of
    /// fetching again.
    AwaitRefresh,
}

/// Mathematical image of a [`TokenCache`].
pub ghost struct CacheV {
    pub snapshot: Option<Seq<TokenV>>,
    pub last_refreshed: Option<u64>,
    pub in_flight: bool,
}

/// The refresh decision as a function of the cache state and the
/// clock: an in-flight refresh is always awaited; otherwise a fresh
/// snapshot is served and anything else starts a fetch.
pub open spec fn decide(c: CacheV, now: u64) -> GetDecision {
    if c.in_flight {
        GetDecision::AwaitRefresh
    } else if c.snapshot is Some && c.last_refreshed is Some && fresh_at(c.last_refreshed->0, now) {
        GetDecision::Serve
    } else {
        GetDecision::StartFetch
    }
}

/// In-memory cache state: the current snapshot, when it was committed,
/// and whether a refresh is underway. Every read-and-decide step is one
/// call while the caller holds the state exclusively, so two readers
/// cannot both decide to fetch.
pub struct TokenCache {
    snapshot: Option<Vec<JupiterToken>>,
    last_refreshed: Option<u64>,
    in_flight: bool,
}

impl View for TokenCache {
    type V = CacheV;

    closed spec fn view(&self) -> CacheV {
        CacheV {
            snapshot: match self.snapshot {
                Some(v) => Some(v@.map_values(|t: JupiterToken| t@)),
                None => None,
            },
            last_refreshed: self.last_refreshed,
            in_flight: self.in_flight,
        }
    }
}

impl TokenCache {
    /// The empty cache a process starts with.
    pub fn new() -> (r: Self)
        ensures
            r@.snapshot is None,
            r@.last_refreshed is None,
            !r@.in_flight,
    {
        TokenCache { snapshot: None, last_refreshed: None, in_flight: false }
    }

    /// One atomic read-and-decide step: tells this reader what to do
    /// and, when the answer is to fetch, marks the refresh as in
    /// flight so no other reader starts one.
    pub fn begin_get(&mut self, now: u64) -> (d: GetDecision)
        ensures
            d == decide(old(self)@, now),
            d is StartFetch ==> final(self)@ == (CacheV { in_flight: true, ..old(self)@ }),
            !(d is StartFetch) ==> final(self)@ == old(self)@,
    {
        if self.in_flight {
            return GetDecision::AwaitRefresh;
        }
        if self.snapshot.is_some() {
            if let Some(last) = self.last_refreshed {
                if is_fresh(last, now) {
                    return GetDecision::Serve;
                }
            }
        }
        self.in_flight = true;
        GetDecision::StartFetch
    }

    /// The snapshot a fresh reader is served.
    pub fn snapshot_tokens(&self) -> (r: &Option<Vec<JupiterToken>>)
        ensures
            match r {
                Some(v) => self@.snapshot == Some(v@.map_values(|t: JupiterToken| t@)),
                None => self@.snapshot is None,
            },
    {
        &self.snapshot
    }

    /// Commits a successful refresh: the fetched batch replaces the
    /// snapshot wholesale, stamped `now`.
    pub fn commit_refresh(&mut self, now: u64, tokens: Vec<JupiterToken>)
        requires
            old(self)@.in_flight,
        ensures
            final(self)@.snapshot == Some(tokens@.map_values(|t: JupiterToken| t@)),
            final(self)@.last_refreshed == Some(now),
            !final(self)@.in_flight,
    {
        self.snapshot = Some(tokens);
        self.last_refreshed = Some(now);
        self.in_flight = false;
    }

    /// Abandons a failed refresh: the failure is discarded entirely and
    /// the previous snapshot and timestamp stay as they were.
    pub fn abort_refresh(&mut self)
        requires
            old(self)@.in_flight,
        ensures
            final(self)@ == (CacheV { in_flight: false, ..old(self)@ }),
    {
        self.in_flight = false;
    }
}

/// What came back from the one network fetch of a refresh.
#[derive(Debug)]
pub enum FetchOutcome {
    /// The endpoint returned the complete dataset.
    Fetched(Vec<JupiterToken>),
    /// Transport failure.
    NetworkFailed(String),
    /// Malformed payload.
    DecodeFailed(String),
}

/// Completes an in-flight refresh. A fetched batch is persisted to the
/// store as one unit and becomes the new snapshot stamped `now`; a
/// failed fetch is discarded entirely, corrupting neither the snapshot
/// nor the store.
pub fn finish_refresh(
    cache: &mut TokenCache,
    store: &mut TokenDatabase,
    outcome: FetchOutcome,
    now: u64,
) -> (r: Result<(), CacheError>)
    requires
        old(cache)@.in_flight,
        old(store).wf(),
    ensures
        !final(cache)@.in_flight,
        final(store).wf(),
        match outcome {
            FetchOutcome::Fetched(tokens) => {
                &&& r is Ok
                &&& final(store)@ == upsert_all(
                    old(store)@,
                    tokens@.map_values(|t: JupiterToken| t@),
                    now,
                )
                &&& final(cache)@.snapshot == Some(tokens@.map_values(|t: JupiterToken| t@))
                &&& final(cache)@.last_refreshed == Some(now)
            },
            FetchOutcome::NetworkFailed(m) => r matches Err(CacheError::NetworkError(e)) && e@
                == m@ && final(store)@ == old(store)@ && final(cache)@ == (CacheV {
                in_flight: false,
                ..old(cache)@
            }),
            FetchOutcome::DecodeFailed(m) => r matches Err(CacheError::DecodeError(e)) && e@ == m@
                && final(store)@ == old(store)@ && final(cache)@ == (CacheV {
                in_flight: false,
                ..old(cache)@
            }),
        },
{
    match outcome {
        FetchOutcome::Fetched(tokens) => {
            let persisted = store.upsert_many(&tokens, now);
            match persisted {
                Ok(()) => {},
                Err(_) => {},
            }
            cache.commit_refresh(now, tokens);
            Ok(())
        },
        FetchOutcome::NetworkFailed(m) => {
            cache.abort_refresh();
            Err(CacheError::NetworkError(m))
        },
        FetchOutcome::DecodeFailed(m) => {
            cache.abort_refresh();
            Err(CacheError::DecodeError(m))
        },
    }
}

/// Law: refreshes are single-flight. Once one reader has been told to
/// fetch, the cache is marked in flight, and any reader that arrives
/// before the refresh completes is told to await it, whatever the
/// clock says — so overlapping stale reads cause exactly one fetch.
pub proof fn lemma_single_flight(c: CacheV, now1: u64, now2: u64)
    requires
        decide(c, now1) == GetDecision::StartFetch,
    ensures
        decide(CacheV { in_flight: true, ..c }, now2) == GetDecision::AwaitRefresh,
{
}

/// Law: the TTL gates fetching. After a refresh committed at `now`,
/// any read strictly inside the TTL window serves the snapshot without
/// fetching, and the first read at or past expiry starts exactly one
/// new fetch.
pub proof fn lemma_ttl_gates_fetch(snap: Seq<TokenV>, now: u64, now2: u64)
    ensures
        ({
            let after = CacheV {
                snapshot: Some(snap),
                last_refreshed: Some(now),
                in_flight: false,
            };
            &&& fresh_at(now, now2) ==> decide(after, now2) == GetDecision::Serve
            &&& !fresh_at(now, now2) ==> decide(after, now2) == GetDecision::StartFetch
        }),
{
}

} // verus!
