use lingq_anki::anki::{existing_ids, parse_id, AnkiResponse, Field, Note};
use lingq_anki::lingq::{
    filter_worth_importing, worth_importing, ExtendedLingQStatus, LingQ, LingQStatus,
};
use lingq_anki::sync::{
    eligible_existing, partition_new_known, partition_results, AnkiNoteState,
};

fn item(pk: usize) -> LingQ {
    LingQ {
        pk,
        term: String::from("term"),
        fragment: String::from("a term here"),
        status: LingQStatus::New,
        extended_status: None,
        hints: Vec::new(),
        tags: Vec::new(),
    }
}

fn item_with_status(pk: usize, status: LingQStatus, ext: Option<ExtendedLingQStatus>) -> LingQ {
    let mut l = item(pk);
    l.status = status;
    l.extended_status = ext;
    l
}

#[test]
fn partition_against_existing_five_and_seven() {
    let existing = vec![5usize, 7];
    let items = vec![item(5), item(6), item(7), item(8)];
    let (new_items, known_items) = partition_new_known(items, &existing);
    let new_ids: Vec<usize> = new_items.iter().map(|l| l.pk).collect();
    let known_ids: Vec<usize> = known_items.iter().map(|l| l.pk).collect();
    assert_eq!(new_ids, vec![6, 8]);
    assert_eq!(known_ids, vec![5, 7]);
}

#[test]
fn partition_with_nothing_existing() {
    let existing: Vec<usize> = Vec::new();
    let (new_items, known_items) = partition_new_known(vec![item(1), item(2)], &existing);
    assert_eq!(new_items.len(), 2);
    assert!(known_items.is_empty());
}

#[test]
fn fully_known_never_review_is_not_worth_importing() {
    let suppressed = item_with_status(
        1,
        LingQStatus::Known,
        Some(ExtendedLingQStatus::Never),
    );
    assert!(!worth_importing(&suppressed));
    // Only the combination suppresses: each part alone is kept.
    assert!(worth_importing(&item_with_status(2, LingQStatus::Known, None)));
    assert!(worth_importing(&item_with_status(
        3,
        LingQStatus::Known,
        Some(ExtendedLingQStatus::ThirtyDays),
    )));
    assert!(worth_importing(&item_with_status(
        4,
        LingQStatus::New,
        Some(ExtendedLingQStatus::Never),
    )));
}

#[test]
fn filter_drops_only_the_suppressed() {
    let items = vec![
        item_with_status(1, LingQStatus::Known, Some(ExtendedLingQStatus::Never)),
        item_with_status(2, LingQStatus::Familiar, None),
        item_with_status(3, LingQStatus::Known, Some(ExtendedLingQStatus::Never)),
        item_with_status(4, LingQStatus::Known, Some(ExtendedLingQStatus::Now)),
    ];
    let kept = filter_worth_importing(items);
    let kept_ids: Vec<usize> = kept.iter().map(|l| l.pk).collect();
    assert_eq!(kept_ids, vec![2, 4]);
}

#[test]
fn submission_results_partition() {
    let ids = vec![6usize, 8, 9];
    let created = vec![Some(1usize), None, Some(3)];
    let (failed, succeeded) = partition_results(&ids, &created);
    assert_eq!(failed, vec![8]);
    assert_eq!(succeeded, vec![6, 9]);
}

#[test]
fn all_submissions_failing() {
    let ids = vec![1usize, 2];
    let created: Vec<Option<usize>> = vec![None, None];
    let (failed, succeeded) = partition_results(&ids, &created);
    assert_eq!(failed, vec![1, 2]);
    assert!(succeeded.is_empty());
}

#[test]
fn failed_identifiers_are_retried() {
    let states = vec![
        (5usize, AnkiNoteState::Known),
        (8, AnkiNoteState::Failed),
        (9, AnkiNoteState::Synced),
    ];
    let eligible = eligible_existing(&states);
    // 8 failed last time, so it does not count as existing and will be
    // filtered as new on the next attempt.
    assert_eq!(eligible, vec![5, 9]);
}

#[test]
fn parse_id_accepts_digit_strings_only() {
    assert_eq!(parse_id("123"), Some(123));
    assert_eq!(parse_id("0"), Some(0));
    assert_eq!(parse_id("007"), Some(7));
    assert_eq!(parse_id(""), None);
    assert_eq!(parse_id("12a"), None);
    assert_eq!(parse_id("-5"), None);
    assert_eq!(parse_id(" 5"), None);
    assert_eq!(parse_id("99999999999999999999999999999999"), None);
}

#[test]
fn parse_id_boundary_values() {
    let max = usize::MAX.to_string();
    assert_eq!(parse_id(&max), Some(usize::MAX));
    let too_big = format!("{}0", usize::MAX);
    assert_eq!(parse_id(&too_big), None);
}

fn note_with_lingq_field(value: &str) -> Note {
    Note {
        cards: Vec::new(),
        fields: vec![(
            String::from("LingQ"),
            Field { order: 0, value: String::from(value) },
        )],
        model_name: String::from("LingQ"),
        note_id: 1,
        tags: Vec::new(),
    }
}

#[test]
fn existing_ids_ignore_unparsable_fields() {
    let notes = vec![
        note_with_lingq_field("5"),
        note_with_lingq_field("x"),
        note_with_lingq_field("7"),
        Note {
            cards: Vec::new(),
            fields: Vec::new(),
            model_name: String::from("LingQ"),
            note_id: 4,
            tags: Vec::new(),
        },
    ];
    assert_eq!(existing_ids(&notes), vec![5, 7]);
}

#[test]
fn envelope_error_wins_over_result() {
    let response = AnkiResponse::<u32> {
        error: Some(String::from("collection locked")),
        result: Some(3),
    };
    assert_eq!(response.into_result(), Err(String::from("collection locked")));
}

#[test]
fn envelope_success_and_empty_success() {
    let response = AnkiResponse::<u32> { error: None, result: Some(3) };
    assert_eq!(response.into_result(), Ok(Some(3)));
    let empty = AnkiResponse::<u32> { error: None, result: None };
    assert_eq!(empty.into_result(), Ok(None));
}

#[test]
fn term_read_back_from_front_field() {
    let note = Note {
        cards: Vec::new(),
        fields: vec![(
            String::from("Front"),
            Field { order: 0, value: String::from("Jeg har en <b>hund</b>") },
        )],
        model_name: String::from("LingQ"),
        note_id: 1,
        tags: Vec::new(),
    };
    assert_eq!(note.get_term(), Some(String::from("hund")));
}

#[test]
fn term_absent_without_markup_or_field() {
    let plain = Note {
        cards: Vec::new(),
        fields: vec![(
            String::from("Front"),
            Field { order: 0, value: String::from("Jeg har en hund") },
        )],
        model_name: String::from("LingQ"),
        note_id: 1,
        tags: Vec::new(),
    };
    assert_eq!(plain.get_term(), None);
    let fieldless = Note {
        cards: Vec::new(),
        fields: Vec::new(),
        model_name: String::from("LingQ"),
        note_id: 2,
        tags: Vec::new(),
    };
    assert_eq!(fieldless.get_term(), None);
}
