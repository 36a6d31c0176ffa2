//! Reading the whole AS list through a key-value cache in front of the table.
use vstd::prelude::*;

verus! {

/// The cache key under which the whole AS list is kept.
pub const CACHE_KEY: &'static str = "whole";

/// Seconds for which a cached AS list stays valid.
pub const KV_EXPIRATION_TTL: u64 = 3600;

/// Where a cached read of the whole list stands.
#[derive(Debug)]
pub enum CacheStage<T> {
    /// Nothing asked yet.
    Idle,
    /// The cache was asked for the list.
    AwaitingCache,
    /// The cache had no list; the table was asked for its rows.
    AwaitingTable,
    /// The table's rows were handed to the cache to keep; they are the
    /// answer once kept.
    AwaitingStore(T),
    /// The answer was given, or the read was given up.
    Finished,
}

impl<T> CacheStage<T> {
    /// The rows waiting to be kept by the cache, in the stage that holds
    /// them.
    pub fn pending(&self) -> (r: Option<&T>)
        ensures
            r matches Some(v) ==> *self == CacheStage::AwaitingStore(*v),
            r is None ==> !(*self is AwaitingStore),
    {
        match self {
            CacheStage::AwaitingStore(v) => Some(v),
            _ => None,
        }
    }
}

/// What the outside world reports to a cached read.
#[derive(Debug)]
pub enum CacheEvent<T> {
    /// The read is asked for.
    Begin,
    /// The cache answered: the list it holds, if any.
    CacheRead(Option<T>),
    /// The table answered with all its rows.
    TableRows(T),
    /// The cache kept the list it was handed.
    Stored,
    /// The last request failed.
    Failed,
}

/// What a cached read asks the outside world to do next.
#[derive(Debug)]
pub enum CacheAction<T> {
    /// Read the list kept under `key`.
    ReadCache { key: &'static str },
    /// Read all rows of the table.
    LoadTable,
    /// Keep the rows the stage holds ([`CacheStage::pending`]) under `key`
    /// for `ttl` seconds.
    WriteCache { key: &'static str, ttl: u64 },
    /// Answer with this list.
    Respond(T),
    /// Give up and pass on the failure.
    Abort,
}

/// One step of a cached read, in stage `stage`, on `event`, keeping what
/// it writes for `ttl` seconds: the next stage and what to do.
///
/// A read asks the cache first; a list found there is the answer. Otherwise
/// the table's rows are read and kept in the stage while the cache is asked
/// to store them under [`CACHE_KEY`]; once stored, they are the answer. Any
/// failure, and any event that does not fit the stage, gives up.
pub open spec fn cache_step_spec<T>(stage: CacheStage<T>, event: CacheEvent<T>, ttl: u64) -> (
    CacheStage<T>,
    CacheAction<T>,
) {
    match (stage, event) {
        (CacheStage::Idle, CacheEvent::Begin) => (
            CacheStage::AwaitingCache,
            CacheAction::ReadCache { key: CACHE_KEY },
        ),
        (CacheStage::AwaitingCache, CacheEvent::CacheRead(Some(v))) => (
            CacheStage::Finished,
            CacheAction::Respond(v),
        ),
        (CacheStage::AwaitingCache, CacheEvent::CacheRead(None)) => (
            CacheStage::AwaitingTable,
            CacheAction::LoadTable,
        ),
        (CacheStage::AwaitingTable, CacheEvent::TableRows(v)) => (
            CacheStage::AwaitingStore(v),
            CacheAction::WriteCache { key: CACHE_KEY, ttl },
        ),
        (CacheStage::AwaitingStore(v), CacheEvent::Stored) => (
            CacheStage::Finished,
            CacheAction::Respond(v),
        ),
        _ => (CacheStage::Finished, CacheAction::Abort),
    }
}

/// One step of a cached read; see [`cache_step_spec`].
pub fn cache_step<T>(stage: CacheStage<T>, event: CacheEvent<T>, ttl: u64) -> (r: (
    CacheStage<T>,
    CacheAction<T>,
))
    ensures
        r == cache_step_spec(stage, event, ttl),
{
    match (stage, event) {
        (CacheStage::Idle, CacheEvent::Begin) => (
            CacheStage::AwaitingCache,
            CacheAction::ReadCache { key: CACHE_KEY },
        ),
        (CacheStage::AwaitingCache, CacheEvent::CacheRead(Some(v))) => (
            CacheStage::Finished,
            CacheAction::Respond(v),
        ),
        (CacheStage::AwaitingCache, CacheEvent::CacheRead(None)) => (
            CacheStage::AwaitingTable,
            CacheAction::LoadTable,
        ),
        (CacheStage::AwaitingTable, CacheEvent::TableRows(v)) => (
            CacheStage::AwaitingStore(v),
            CacheAction::WriteCache { key: CACHE_KEY, ttl },
        ),
        (CacheStage::AwaitingStore(v), CacheEvent::Stored) => (
            CacheStage::Finished,
            CacheAction::Respond(v),
        ),
        _ => (CacheStage::Finished, CacheAction::Abort),
    }
}

/// A list found in the cache is the answer: the read asks the cache under
/// [`CACHE_KEY`], answers with what it holds, and never reads the table.
pub proof fn lemma_cache_hit_answers_from_cache<T>(cached: T, ttl: u64)
    ensures
        cache_step_spec(CacheStage::<T>::Idle, CacheEvent::<T>::Begin, ttl) == (
            CacheStage::<T>::AwaitingCache,
            CacheAction::<T>::ReadCache { key: CACHE_KEY },
        ),
        cache_step_spec(CacheStage::<T>::AwaitingCache, CacheEvent::CacheRead(Some(cached)), ttl)
            == (CacheStage::<T>::Finished, CacheAction::Respond(cached)),
{
}

/// On a miss the answer is the table's rows, and those rows are what the
/// stage holds while the cache is asked to keep them under [`CACHE_KEY`]
/// for `ttl` seconds: after a miss, the table's rows and the cache's
/// confirmation, the read answers with exactly the rows the table gave,
/// whatever else happened.
pub proof fn lemma_cache_miss_fills_cache<T>(rows: T, ttl: u64)
    ensures
        cache_step_spec(CacheStage::<T>::AwaitingCache, CacheEvent::<T>::CacheRead(None), ttl) == (
            CacheStage::<T>::AwaitingTable,
            CacheAction::<T>::LoadTable,
        ),
        cache_step_spec(CacheStage::<T>::AwaitingTable, CacheEvent::TableRows(rows), ttl) == (
            CacheStage::AwaitingStore(rows),
            CacheAction::<T>::WriteCache { key: CACHE_KEY, ttl },
        ),
        cache_step_spec(CacheStage::AwaitingStore(rows), CacheEvent::<T>::Stored, ttl) == (
            CacheStage::<T>::Finished,
            CacheAction::Respond(rows),
        ),
{
}

/// A failure at any stage gives the read up, and a finished read stays
/// finished whatever is reported to it.
pub proof fn lemma_cache_failure_aborts<T>(stage: CacheStage<T>, event: CacheEvent<T>, ttl: u64)
    ensures
        cache_step_spec(stage, CacheEvent::<T>::Failed, ttl) == (
            CacheStage::<T>::Finished,
            CacheAction::<T>::Abort,
        ),
        cache_step_spec(CacheStage::<T>::Finished, event, ttl) == (
            CacheStage::<T>::Finished,
            CacheAction::<T>::Abort,
        ),
{
}

} // verus!
