//! Decision logic of the disk-backed response cache.
//!
//! Every remote fetch is wrapped in a file cache: unless a refresh is
//! forced, a present and well-formed cache file answers the call and
//! the fetch never runs; otherwise the fetch runs and, on success, its
//! result overwrites the file (a failed fetch leaves the file
//! untouched). The reading, fetching, and writing are I/O and live in
//! the unverified front end; the decisions are taken here, on the
//! outcome values the front end passes in.

use vstd::prelude::*;

verus! {

use crate::text::{spec_digits, usize_to_string};
use vstd::string::StringExecFns;

/// What reading the cache file yielded: a well-formed value, or a miss.
/// An absent file and a file that does not parse are both a miss.
pub enum CacheRead<T> {
    Value(T),
    Missing,
}

/// What the cache wrapper does next: answer from the file's value
/// without running the producer, or run the producer (and persist its
/// result on success).
pub enum CacheAction<T> {
    UseDisk(T),
    RunProducer,
}

/// The cache decision: a forced refresh always runs the producer; a
/// miss runs the producer; a present, well-formed value answers
/// directly.
pub open spec fn spec_cache_action<T>(refresh: bool, disk: CacheRead<T>) -> CacheAction<T> {
    if refresh {
        CacheAction::RunProducer
    } else {
        match disk {
            CacheRead::Value(v) => CacheAction::UseDisk(v),
            CacheRead::Missing => CacheAction::RunProducer,
        }
    }
}

/// Decide how one cache-wrapped call is answered, from the refresh flag
/// and what the cache file held.
pub fn cache_step<T>(refresh: bool, disk: CacheRead<T>) -> (a: CacheAction<T>)
    ensures
        a == spec_cache_action(refresh, disk),
{
    if refresh {
        CacheAction::RunProducer
    } else {
        match disk {
            CacheRead::Value(v) => CacheAction::UseDisk(v),
            CacheRead::Missing => CacheAction::RunProducer,
        }
    }
}

/// The gated variant: when `should_run` is false the call is not made
/// at all — no cached value, no fetch; otherwise it is the plain cache
/// decision. Used to defer a lesson's fetch until it is expanded.
pub fn gated_cache_step<T>(should_run: bool, refresh: bool, disk: CacheRead<T>) -> (a: Option<
    CacheAction<T>,
>)
    ensures
        !should_run ==> a is None,
        should_run ==> a == Some(spec_cache_action(refresh, disk)),
{
    if !should_run {
        None
    } else {
        Some(cache_step(refresh, disk))
    }
}

/// Cache file that holds the lesson list.
pub fn lessons_cache_name() -> (r: String)
    ensures
        r@ == "./.cache/lessons.json"@,
{
    "./.cache/lessons.json".to_owned()
}

/// Cache file that holds one lesson's vocabulary items, named after the
/// lesson's identifier.
pub fn lesson_cache_name(lesson_id: usize) -> (r: String)
    ensures
        r@ == "./.cache/lesson-"@ + spec_digits(lesson_id as nat) + ".json"@,
{
    let mut r = "./.cache/lesson-".to_owned();
    let digits = usize_to_string(lesson_id);
    r.append(digits.as_str());
    r.append(".json");
    r
}

} // verus!
