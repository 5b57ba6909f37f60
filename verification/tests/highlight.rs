use lingq_anki::highlight::{
    find_first, find_matches, highlight_term, render_fragments, split_fragments, Fragment,
    SplitFragment,
};
use lingq_anki::text::{
    chars_to_string, join_strings, str_eq, str_to_chars, underscore_spaces, usize_to_string,
};

#[test]
fn highlight_trailing_term() {
    let out = highlight_term("Jeg har en hund", "hund");
    assert_eq!(out, "Jeg har en <b>hund</b>");
}

#[test]
fn highlight_preserves_original_casing() {
    // The match is found case-insensitively, but the output keeps the
    // phrase's own casing.
    let out = highlight_term("Jeg har en HUND", "hund");
    assert_eq!(out, "Jeg har en <b>HUND</b>");
}

#[test]
fn highlight_marks_every_occurrence() {
    let out = highlight_term("hund HUND hund", "hund");
    assert_eq!(out, "<b>hund</b> <b>HUND</b> <b>hund</b>");
}

#[test]
fn highlight_without_match_leaves_phrase_alone() {
    let out = highlight_term("Jeg har en kat", "hund");
    assert_eq!(out, "Jeg har en kat");
}

#[test]
fn highlight_with_empty_term_leaves_phrase_alone() {
    let out = highlight_term("Jeg har en hund", "");
    assert_eq!(out, "Jeg har en hund");
}

#[test]
fn highlight_term_in_the_middle() {
    let out = highlight_term("en hund her", "hund");
    assert_eq!(out, "en <b>hund</b> her");
}

#[test]
fn matches_are_non_overlapping_and_leftmost() {
    let hay = str_to_chars("aaaa");
    let needle = str_to_chars("aa");
    assert_eq!(find_matches(&hay, &needle), vec![0, 2]);
    let hay = str_to_chars("abcabc");
    let needle = str_to_chars("abc");
    assert_eq!(find_matches(&hay, &needle), vec![0, 3]);
}

#[test]
fn first_occurrence_found_from_offset() {
    let hay = str_to_chars("x<b>y</b>z");
    let open_mark = str_to_chars("<b>");
    let close_mark = str_to_chars("</b>");
    assert_eq!(find_first(&hay, &open_mark, 0), Some(1));
    assert_eq!(find_first(&hay, &close_mark, 4), Some(5));
    assert_eq!(find_first(&hay, &open_mark, 2), None);
}

#[test]
fn fragments_alternate_rest_and_term() {
    let phrase = str_to_chars("en hund her");
    let starts = vec![3usize];
    let frags = split_fragments(&phrase, &starts, 4);
    assert_eq!(frags.len(), 3);
    assert!(matches!(&frags[0], Fragment::Rest(s) if s == "en "));
    assert!(matches!(&frags[1], Fragment::Term(s) if s == "hund"));
    assert!(matches!(&frags[2], Fragment::Rest(s) if s == " her"));
    assert_eq!(render_fragments(&frags), "en <b>hund</b> her");
}

#[test]
fn fragment_stream_hands_pieces_out_in_order() {
    let phrase = str_to_chars("hund her");
    let starts = vec![0usize];
    let mut stream = SplitFragment::new(&phrase, &starts, 4);
    assert!(matches!(stream.next(), Some(Fragment::Term(s)) if s == "hund"));
    assert!(matches!(stream.next(), Some(Fragment::Rest(s)) if s == " her"));
    assert!(stream.next().is_none());
    assert!(stream.next().is_none());
}

#[test]
fn string_helpers_round_trip() {
    let chars = str_to_chars("hønd æøå");
    assert_eq!(chars.len(), 8);
    assert_eq!(chars_to_string(&chars), "hønd æøå");
    assert!(str_eq("hønd", "hønd"));
    assert!(!str_eq("hønd", "hond"));
    assert!(!str_eq("ab", "abc"));
}

#[test]
fn decimal_rendering() {
    assert_eq!(usize_to_string(0), "0");
    assert_eq!(usize_to_string(7), "7");
    assert_eq!(usize_to_string(250), "250");
    assert_eq!(usize_to_string(1000), "1000");
}

#[test]
fn underscores_replace_spaces() {
    assert_eq!(underscore_spaces("My First Course"), "My_First_Course");
    assert_eq!(underscore_spaces("NoSpaces"), "NoSpaces");
    assert_eq!(underscore_spaces(""), "");
}

#[test]
fn joining_with_separator() {
    let parts: Vec<String> = Vec::new();
    assert_eq!(join_strings(&parts, ", "), "");
    let parts = vec![String::from("dog")];
    assert_eq!(join_strings(&parts, ", "), "dog");
    let parts = vec![String::from("dog"), String::from("hound")];
    assert_eq!(join_strings(&parts, ", "), "dog, hound");
}
