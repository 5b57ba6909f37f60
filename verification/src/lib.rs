//! Core logic of a vocabulary-to-flashcard synchronizer.
//!
//! Vocabulary items ("LingQs") are fetched page by page from a remote
//! service, cached on disk as JSON, filtered against the flashcards that
//! already exist in the local store, and turned into new flashcard notes.
//! This crate holds the verified part of that pipeline: the pagination
//! bookkeeping, the cache decisions, the deduplication filter, and the
//! text shaping (highlighting, tag hierarchies, field formatting).
//! Network and file I/O live outside, in the unverified front end, which
//! drives the state machines defined here.

use vstd::prelude::*;

pub mod anki;
pub mod cache;
pub mod from_network;
pub mod highlight;
pub mod lingq;
pub mod pagination;
pub mod popup;
pub mod sync;
pub mod text;

verus! {

/// Runtime configuration: the vocabulary-service API token, the base tag
/// put on every imported flashcard, the language code used in request
/// paths, and the page size for paginated fetches.
pub struct Config {
    pub lingq_api_key: String,
    pub anki_tag: String,
    pub lingq_lang: String,
    pub lingq_page_size: usize,
}

impl Default for Config {
    /// The defaults the command line falls back to: base tag `lingq`,
    /// language `da`, pages of 200 items, and no API token.
    fn default() -> (c: Config)
        ensures
            c.lingq_api_key@ == Seq::<char>::empty(),
            c.anki_tag@ == "lingq"@,
            c.lingq_lang@ == "da"@,
            c.lingq_page_size == 200,
    {
        Config {
            lingq_api_key: String::new(),
            anki_tag: "lingq".to_owned(),
            lingq_lang: "da".to_owned(),
            lingq_page_size: 200,
        }
    }
}

} // verus!
