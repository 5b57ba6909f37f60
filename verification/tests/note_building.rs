use lingq_anki::lingq::{
    annotate_lingqs, content_id_params, page_request_path, Lesson, LingQ, LingQHint, LingQStatus,
};
use lingq_anki::sync::{build_note, build_tags, lookup_state, plan_sync, row_status, AnkiNoteState, RowStatus};
use lingq_anki::Config;

fn config() -> Config {
    Config {
        lingq_api_key: String::from("token"),
        anki_tag: String::from("lingq"),
        lingq_lang: String::from("da"),
        lingq_page_size: 200,
    }
}

fn hint(text: &str) -> LingQHint {
    LingQHint {
        term: String::from("hund"),
        text: String::from(text),
        locale: String::from("en"),
    }
}

fn full_item() -> LingQ {
    LingQ {
        pk: 42,
        term: String::from("hund"),
        fragment: String::from("Jeg har en hund"),
        status: LingQStatus::New,
        extended_status: None,
        hints: vec![hint("dog"), hint("hound")],
        tags: vec![String::from("Grammar"), String::from("Verbs")],
    }
}

#[test]
fn tag_hierarchy_exact_shape() {
    let tags = vec![String::from("A"), String::from("B")];
    let out = build_tags("T", &tags);
    assert_eq!(out, vec!["T", "T::A", "T::A::B"]);
}

#[test]
fn tag_hierarchy_underscores_spaces() {
    let tags = vec![String::from("My Course"), String::from("Lesson One")];
    let out = build_tags("lingq", &tags);
    assert_eq!(
        out,
        vec!["lingq", "lingq::My_Course", "lingq::My_Course::Lesson_One"]
    );
}

#[test]
fn tag_hierarchy_base_alone() {
    let out = build_tags("lingq", &Vec::new());
    assert_eq!(out, vec!["lingq"]);
}

#[test]
fn note_draft_fields() {
    let note = build_note(&config(), &full_item());
    assert_eq!(note.deck_name, "Dansk::ToProcess");
    assert_eq!(note.model_name, "LingQ");
    let fields: Vec<(&str, &str)> = note
        .fields
        .iter()
        .map(|(k, v)| (k.as_str(), v.as_str()))
        .collect();
    assert_eq!(
        fields,
        vec![
            ("Front", "Jeg har en <b>hund</b>"),
            ("Back", "dog, hound"),
            ("Term", "hund"),
            ("LingQ", "42"),
        ]
    );
    assert_eq!(
        note.tags,
        vec!["lingq", "lingq::Grammar", "lingq::Grammar::Verbs"]
    );
}

#[test]
fn plan_skips_existing_identifiers() {
    let mut other = full_item();
    other.pk = 5;
    let lingqs = vec![other, full_item()];
    let existing = vec![5usize];
    let (notes, ids) = plan_sync(&config(), &lingqs, &existing);
    assert_eq!(ids, vec![42]);
    assert_eq!(notes.len(), 1);
    assert_eq!(notes[0].fields[3].1, "42");
}

#[test]
fn plan_with_everything_existing_is_empty() {
    let lingqs = vec![full_item()];
    let existing = vec![42usize];
    let (notes, ids) = plan_sync(&config(), &lingqs, &existing);
    assert!(notes.is_empty());
    assert!(ids.is_empty());
}

#[test]
fn lesson_titles_become_tags() {
    let lesson = Lesson {
        collection_title: String::from("Danish Course"),
        collection_id: 9,
        id: 17,
        title: String::from("Lesson One"),
        views_count: 3,
    };
    let annotated = annotate_lingqs(vec![full_item()], &lesson);
    assert_eq!(annotated.len(), 1);
    assert_eq!(
        annotated[0].tags,
        vec!["Grammar", "Verbs", "Danish Course", "Lesson One"]
    );
    assert_eq!(annotated[0].pk, 42);
    assert_eq!(annotated[0].term, "hund");
}

#[test]
fn request_path_shape() {
    let path = page_request_path(
        "https://www.lingq.com/api/v2",
        "da",
        "cards/",
        2,
        200,
        "&content_id=17",
    );
    assert_eq!(
        path,
        "https://www.lingq.com/api/v2/da/cards/?page=2&page_size=200&content_id=17"
    );
    assert_eq!(content_id_params(17), "&content_id=17");
}

#[test]
fn row_status_mapping() {
    assert!(matches!(row_status(None), RowStatus::New));
    assert!(matches!(row_status(Some(AnkiNoteState::Known)), RowStatus::Known));
    assert!(matches!(row_status(Some(AnkiNoteState::Synced)), RowStatus::Synced));
    assert!(matches!(
        row_status(Some(AnkiNoteState::Failed)),
        RowStatus::Error(m) if m == "Failed to sync"
    ));
}

#[test]
fn state_lookup_finds_first_entry() {
    let states = vec![(5usize, AnkiNoteState::Known), (8, AnkiNoteState::Failed)];
    assert_eq!(lookup_state(&states, 5), Some(AnkiNoteState::Known));
    assert_eq!(lookup_state(&states, 8), Some(AnkiNoteState::Failed));
    assert_eq!(lookup_state(&states, 9), None);
}

#[test]
fn default_configuration() {
    let c = Config::default();
    assert_eq!(c.lingq_api_key, "");
    assert_eq!(c.anki_tag, "lingq");
    assert_eq!(c.lingq_lang, "da");
    assert_eq!(c.lingq_page_size, 200);
}
