use lingq_anki::cache::{
    cache_step, gated_cache_step, lesson_cache_name, lessons_cache_name, CacheAction, CacheRead,
};
use lingq_anki::from_network::FromNetwork;

#[test]
fn present_file_answers_without_producer() {
    let action = cache_step(false, CacheRead::Value(42u32));
    assert!(matches!(action, CacheAction::UseDisk(42)));
}

#[test]
fn missing_or_corrupt_file_runs_producer() {
    let action = cache_step::<u32>(false, CacheRead::Missing);
    assert!(matches!(action, CacheAction::RunProducer));
}

#[test]
fn refresh_runs_producer_even_with_file() {
    let action = cache_step(true, CacheRead::Value(42u32));
    assert!(matches!(action, CacheAction::RunProducer));
}

#[test]
fn closed_gate_skips_the_call_entirely() {
    let action = gated_cache_step(false, false, CacheRead::Value(42u32));
    assert!(action.is_none());
    let action = gated_cache_step(false, true, CacheRead::<u32>::Missing);
    assert!(action.is_none());
}

#[test]
fn open_gate_behaves_like_the_plain_cache() {
    let action = gated_cache_step(true, false, CacheRead::Value(42u32));
    assert!(matches!(action, Some(CacheAction::UseDisk(42))));
    let action = gated_cache_step(true, true, CacheRead::Value(42u32));
    assert!(matches!(action, Some(CacheAction::RunProducer)));
}

#[test]
fn cache_file_names() {
    assert_eq!(lessons_cache_name(), "./.cache/lessons.json");
    assert_eq!(lesson_cache_name(17), "./.cache/lesson-17.json");
    assert_eq!(lesson_cache_name(0), "./.cache/lesson-0.json");
    assert_eq!(lesson_cache_name(1024), "./.cache/lesson-1024.json");
}

#[test]
fn holder_starts_empty() {
    let holder: FromNetwork<u32> = Default::default();
    assert!(holder.get().is_none());
    assert!(holder.cache.is_none());
}

#[test]
fn loaded_holder_answers_until_invalidated() {
    let mut holder = FromNetwork::loaded(7u32, String::from("./.cache/lessons.json"));
    assert_eq!(holder.get(), Some(&7));
    assert!(holder.first_cache);
    holder.invalidate();
    assert!(holder.get().is_none());
    assert!(!holder.first_cache);
    assert_eq!(holder.cache.as_deref(), Some("./.cache/lessons.json"));
}

#[test]
fn unreadable_cache_keeps_the_path() {
    let holder = FromNetwork::<u32>::empty_with_cache(String::from("./.cache/lesson-3.json"));
    assert!(holder.get().is_none());
    assert_eq!(holder.cache.as_deref(), Some("./.cache/lesson-3.json"));
}

#[test]
fn pending_and_failed_fetches_answer_nothing() {
    let pending = FromNetwork::<u32> { promise: Some(None), cache: None, first_cache: false };
    assert!(pending.get().is_none());
    let failed = FromNetwork::<u32> {
        promise: Some(Some(Err(String::from("connection refused")))),
        cache: None,
        first_cache: false,
    };
    assert!(failed.get().is_none());
}
