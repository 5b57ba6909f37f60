//! In-memory holder for one network-backed, file-cached value.
//!
//! A [`FromNetwork`] remembers at most one fetch: not started, still
//! pending, or settled with a value or an error message. Invalidation
//! drops the in-memory state so the next access fetches again; it does
//! not touch the cache file. The fetch itself is asynchronous I/O and
//! lives in the unverified front end, which records its progress here.

use vstd::prelude::*;

verus! {

/// Holder for one fetched value. `promise` is `None` when no fetch has
/// started, `Some(None)` while one is pending, and `Some(Some(r))` once
/// it settled. `cache` is the path of the backing cache file, when
/// there is one; `first_cache` records that the current value came from
/// that file rather than from the network.
pub struct FromNetwork<T> {
    pub promise: Option<Option<Result<T, String>>>,
    pub cache: Option<String>,
    pub first_cache: bool,
}

impl<T> Default for FromNetwork<T> {
    /// A holder with no fetch started and no backing file.
    fn default() -> (r: FromNetwork<T>)
        ensures
            r.promise is None,
            r.cache is None,
            !r.first_cache,
    {
        FromNetwork { promise: None, cache: None, first_cache: false }
    }
}

impl<T> FromNetwork<T> {
    /// A holder whose value was read from its cache file.
    pub fn loaded(value: T, cache_path: String) -> (r: FromNetwork<T>)
        ensures
            r.promise == Some(Some(Ok::<T, String>(value))),
            r.cache == Some(cache_path),
            r.first_cache,
    {
        FromNetwork { promise: Some(Some(Ok(value))), cache: Some(cache_path), first_cache: true }
    }

    /// A holder whose cache file could not be read: no value yet, but
    /// the path is kept for the write after the next successful fetch.
    pub fn empty_with_cache(cache_path: String) -> (r: FromNetwork<T>)
        ensures
            r.promise is None,
            r.cache == Some(cache_path),
            !r.first_cache,
    {
        FromNetwork { promise: None, cache: Some(cache_path), first_cache: false }
    }

    /// Forget the in-memory value so the next access fetches again. The
    /// cache file is not touched: only a later successful fetch
    /// overwrites it.
    pub fn invalidate(&mut self)
        ensures
            final(self).promise is None,
            !final(self).first_cache,
            final(self).cache == old(self).cache,
    {
        self.promise = None;
        self.first_cache = false;
    }

    /// The settled, successful value, if there is one: `None` while no
    /// fetch has started, while one is pending, and after a failure.
    pub fn get(&self) -> (r: Option<&T>)
        ensures
            match r {
                Some(t) => self.promise matches Some(Some(Ok(v))) && *t == v,
                None => !(self.promise matches Some(Some(Ok(_)))),
            },
    {
        match &self.promise {
            Some(Some(Ok(t))) => Some(t),
            _ => None,
        }
    }
}

} // verus!
