//! The flashcard-store data model: existing notes with their named
//! fields, new-note drafts, the store's response envelope, and the
//! extraction of the dedup identifier that links a note back to the
//! vocabulary item it was imported from.

use vstd::prelude::*;

verus! {

use crate::highlight::{find_first, spec_find};
use crate::text::{chars_range_to_string, str_eq, str_to_chars};
use vstd::string::StrSliceExecFns;

/// One note as the local store reports it: its cards, its named fields,
/// its note type, its identifier, and its tags.
pub struct Note {
    pub cards: Vec<usize>,
    pub fields: Vec<(String, Field)>,
    pub model_name: String,
    pub note_id: usize,
    pub tags: Vec<String>,
}

/// One field of an existing note: its position and its text.
pub struct Field {
    pub order: usize,
    pub value: String,
}

/// A note to be created: target deck, note type, named field texts, and
/// tags.
pub struct NewNote {
    pub deck_name: String,
    pub model_name: String,
    pub fields: Vec<(String, String)>,
    pub tags: Vec<String>,
}

/// The store's response envelope: an application-level error message,
/// or a payload — either may be absent.
pub struct AnkiResponse<T> {
    pub error: Option<String>,
    pub result: Option<T>,
}

impl<T> AnkiResponse<T> {
    /// An error message is a failure even when the transport succeeded
    /// and even when a payload came along; without one, the payload
    /// (possibly absent) is the success.
    pub fn into_result(self) -> (r: Result<Option<T>, String>)
        ensures
            match self.error {
                Some(e) => r == Err::<Option<T>, String>(e),
                None => r == Ok::<Option<T>, String>(self.result),
            },
    {
        match self.error {
            Some(e) => Err(e),
            None => Ok(self.result),
        }
    }
}

/// An absent list payload stands for an empty list.
pub fn vec_result_or_empty<T>(r: Option<Vec<T>>) -> (v: Vec<T>)
    ensures
        match r {
            Some(w) => v@ == w@,
            None => v@ == Seq::<T>::empty(),
        },
{
    match r {
        Some(w) => w,
        None => Vec::new(),
    }
}

/// The value of the first field with the given name, if any.
pub open spec fn spec_field_lookup(fields: Seq<(String, Field)>, name: Seq<char>) -> Option<Field>
    decreases fields.len(),
{
    if fields.len() == 0 {
        None
    } else if fields.first().0@ == name {
        Some(fields.first().1)
    } else {
        spec_field_lookup(fields.drop_first(), name)
    }
}

/// Look a field up by name.
pub fn get_field<'a>(note: &'a Note, name: &str) -> (r: Option<&'a Field>)
    ensures
        match r {
            Some(f) => spec_field_lookup(note.fields@, name@) == Some(*f),
            None => spec_field_lookup(note.fields@, name@) is None,
        },
{
    let mut i: usize = 0;
    proof {
        assert(note.fields@.skip(0) =~= note.fields@);
    }
    while i < note.fields.len()
        invariant
            i <= note.fields@.len(),
            spec_field_lookup(note.fields@, name@) == spec_field_lookup(
                note.fields@.skip(i as int),
                name@,
            ),
        decreases note.fields@.len() - i,
    {
        proof {
            assert(note.fields@.skip(i as int).first() == note.fields@[i as int]);
            assert(note.fields@.skip(i as int).drop_first() =~= note.fields@.skip(i + 1 as int));
        }
        if str_eq(note.fields[i].0.as_str(), name) {
            return Some(&note.fields[i].1);
        }
        i = i + 1;
    }
    proof {
        assert(note.fields@.skip(note.fields@.len() as int).len() == 0);
    }
    None
}

/// The numeric value of one decimal digit character.
pub open spec fn spec_char_digit(c: char) -> Option<nat> {
    if c == '0' {
        Some(0 as nat)
    } else if c == '1' {
        Some(1 as nat)
    } else if c == '2' {
        Some(2 as nat)
    } else if c == '3' {
        Some(3 as nat)
    } else if c == '4' {
        Some(4 as nat)
    } else if c == '5' {
        Some(5 as nat)
    } else if c == '6' {
        Some(6 as nat)
    } else if c == '7' {
        Some(7 as nat)
    } else if c == '8' {
        Some(8 as nat)
    } else if c == '9' {
        Some(9 as nat)
    } else {
        None
    }
}

/// Whether every character is a decimal digit.
pub open spec fn spec_all_digits(s: Seq<char>) -> bool {
    forall|i: int| 0 <= i < s.len() ==> (#[trigger] spec_char_digit(s[i])) is Some
}

/// The number a digit string denotes, most significant digit first.
pub open spec fn spec_digits_value(s: Seq<char>) -> nat
    decreases s.len(),
{
    if s.len() == 0 {
        0
    } else {
        spec_digits_value(s.drop_last()) * 10 + (match spec_char_digit(s.last()) {
            Some(d) => d,
            None => 0,
        })
    }
}

/// What parsing a dedup field yields: the denoted number when the text
/// is one or more decimal digits and the number fits the identifier
/// type; nothing otherwise.
pub open spec fn spec_parse_id(s: Seq<char>) -> Option<usize> {
    if s.len() > 0 && spec_all_digits(s) && spec_digits_value(s) <= usize::MAX {
        Some(spec_digits_value(s) as usize)
    } else {
        None
    }
}

/// The numeric value of one decimal digit character, executably.
fn char_digit(c: char) -> (r: Option<usize>)
    ensures
        match r {
            Some(d) => spec_char_digit(c) == Some(d as nat) && d < 10,
            None => spec_char_digit(c) is None,
        },
{
    if c == '0' {
        Some(0)
    } else if c == '1' {
        Some(1)
    } else if c == '2' {
        Some(2)
    } else if c == '3' {
        Some(3)
    } else if c == '4' {
        Some(4)
    } else if c == '5' {
        Some(5)
    } else if c == '6' {
        Some(6)
    } else if c == '7' {
        Some(7)
    } else if c == '8' {
        Some(8)
    } else if c == '9' {
        Some(9)
    } else {
        None
    }
}

/// A longer digit prefix never denotes a smaller number.
proof fn lemma_digits_value_prefix(s: Seq<char>, k: int)
    requires
        0 <= k <= s.len(),
    ensures
        spec_digits_value(s.take(k)) <= spec_digits_value(s),
    decreases s.len() - k,
{
    if k == s.len() {
        assert(s.take(k) =~= s);
    } else {
        assert(s.take(k + 1).drop_last() =~= s.take(k));
        assert(spec_digits_value(s.take(k + 1)) >= spec_digits_value(s.take(k)));
        lemma_digits_value_prefix(s, k + 1);
    }
}

/// Parse a dedup field as an identifier: one or more decimal digits
/// denoting a number that fits; anything else — empty, a stray
/// character, a value too large — parses to nothing.
pub fn parse_id(s: &str) -> (r: Option<usize>)
    ensures
        r == spec_parse_id(s@),
{
    let n = s.unicode_len();
    if n == 0 {
        return None;
    }
    let mut val: usize = 0;
    let mut i: usize = 0;
    while i < n
        invariant
            i <= n,
            n == s@.len(),
            n > 0,
            spec_all_digits(s@.take(i as int)),
            val == spec_digits_value(s@.take(i as int)),
        decreases n - i,
    {
        let c = s.get_char(i);
        match char_digit(c) {
            None => {
                proof {
                    assert(spec_char_digit(s@[i as int]) is None);
                    assert(!spec_all_digits(s@));
                }
                return None;
            },
            Some(d) => {
                proof {
                    assert(s@.take(i + 1 as int).drop_last() =~= s@.take(i as int));
                    assert(s@.take(i + 1 as int).last() == s@[i as int]);
                }
                if val > (usize::MAX - d) / 10 {
                    proof {
                        vstd::arithmetic::div_mod::lemma_fundamental_div_mod(
                            (usize::MAX - d) as int,
                            10,
                        );
                        assert(val * 10 + d > usize::MAX) by (nonlinear_arith)
                            requires
                                val >= ((usize::MAX - d) as int) / 10 + 1,
                                (usize::MAX - d) as int == 10 * (((usize::MAX - d) as int) / 10) + (
                                (usize::MAX - d) as int) % 10,
                                0 <= ((usize::MAX - d) as int) % 10 < 10,
                        ;
                        assert(spec_digits_value(s@.take(i + 1 as int)) > usize::MAX);
                        lemma_digits_value_prefix(s@, i + 1 as int);
                    }
                    return None;
                }
                proof {
                    vstd::arithmetic::div_mod::lemma_fundamental_div_mod(
                        (usize::MAX - d) as int,
                        10,
                    );
                    assert(val * 10 + d <= usize::MAX) by (nonlinear_arith)
                        requires
                            val <= ((usize::MAX - d) as int) / 10,
                            (usize::MAX - d) as int == 10 * (((usize::MAX - d) as int) / 10) + ((
                            usize::MAX - d) as int) % 10,
                            0 <= ((usize::MAX - d) as int) % 10 < 10,
                    ;
                }
                val = val * 10 + d;
                proof {
                    assert(spec_all_digits(s@.take(i + 1 as int))) by {
                        assert(forall|k: int|
                            0 <= k < i + 1 ==> s@.take(i + 1 as int)[k] == s@.take(i as int).push(
                                s@[i as int],
                            )[k]);
                    }
                }
                i = i + 1;
            },
        }
    }
    proof {
        assert(s@.take(n as int) =~= s@);
    }
    Some(val)
}

/// The dedup identifier recorded on a note: its `LingQ` field parsed as
/// a number.
pub open spec fn spec_note_lingq_id(note: Note) -> Option<usize> {
    match spec_field_lookup(note.fields@, "LingQ"@) {
        None => None,
        Some(f) => spec_parse_id(f.value@),
    }
}

/// Executable form of [`spec_note_lingq_id`].
pub fn note_lingq_id(note: &Note) -> (r: Option<usize>)
    ensures
        r == spec_note_lingq_id(*note),
{
    match get_field(note, "LingQ") {
        None => None,
        Some(f) => parse_id(f.value.as_str()),
    }
}

/// The dedup identifiers of all notes that carry one, in note order;
/// notes without the field, or with an unparsable value, contribute
/// nothing.
pub open spec fn spec_existing_ids(notes: Seq<Note>) -> Seq<usize>
    decreases notes.len(),
{
    if notes.len() == 0 {
        Seq::empty()
    } else {
        let head: Seq<usize> = match spec_note_lingq_id(notes.first()) {
            Some(id) => seq![id],
            None => Seq::empty(),
        };
        head + spec_existing_ids(notes.drop_first())
    }
}

/// Collect the dedup identifiers of the existing notes.
pub fn existing_ids(notes: &Vec<Note>) -> (r: Vec<usize>)
    ensures
        r@ == spec_existing_ids(notes@),
{
    let mut r: Vec<usize> = Vec::new();
    let mut i: usize = 0;
    proof {
        assert(notes@.skip(0) =~= notes@);
        assert(Seq::<usize>::empty() + spec_existing_ids(notes@) =~= spec_existing_ids(notes@));
    }
    while i < notes.len()
        invariant
            i <= notes@.len(),
            spec_existing_ids(notes@) == r@ + spec_existing_ids(notes@.skip(i as int)),
        decreases notes@.len() - i,
    {
        let ghost before = r@;
        let ghost tail = notes@.skip(i as int);
        proof {
            assert(tail.first() == notes@[i as int]);
            assert(tail.drop_first() =~= notes@.skip(i + 1 as int));
        }
        match note_lingq_id(&notes[i]) {
            Some(id) => {
                r.push(id);
                proof {
                    assert(before + (seq![id] + spec_existing_ids(notes@.skip(i + 1 as int)))
                        =~= r@ + spec_existing_ids(notes@.skip(i + 1 as int)));
                }
            },
            None => {
                proof {
                    assert(before + (Seq::<usize>::empty() + spec_existing_ids(
                        notes@.skip(i + 1 as int),
                    )) =~= r@ + spec_existing_ids(notes@.skip(i + 1 as int)));
                }
            },
        }
        i = i + 1;
    }
    proof {
        assert(spec_existing_ids(notes@.skip(notes@.len() as int)) == Seq::<usize>::empty());
        assert(r@ + Seq::<usize>::empty() =~= r@);
    }
    r
}

/// The text of the first `<b>`…`</b>` span in a string, if both marks
/// occur in that order.
pub open spec fn spec_extract_bold(s: Seq<char>) -> Option<Seq<char>> {
    match spec_find(s, "<b>"@, 0) {
        None => None,
        Some(a) => match spec_find(s, "</b>"@, a + "<b>"@.len()) {
            None => None,
            Some(b) => Some(s.subrange(a + "<b>"@.len(), b)),
        },
    }
}

/// The term a note was created for: the first emphasised span of its
/// front field, which is where the note builder marks the term.
pub open spec fn spec_get_term(note: Note) -> Option<Seq<char>> {
    match spec_field_lookup(note.fields@, "Front"@) {
        None => None,
        Some(f) => spec_extract_bold(f.value@),
    }
}

impl Note {
    /// Read the term back out of the front field's first emphasised
    /// span.
    pub fn get_term(&self) -> (r: Option<String>)
        ensures
            match r {
                Some(t) => spec_get_term(*self) == Some(t@),
                None => spec_get_term(*self) is None,
            },
    {
        let f = match get_field(self, "Front") {
            None => {
                return None;
            },
            Some(f) => f,
        };
        let chars = str_to_chars(f.value.as_str());
        let open_mark = str_to_chars("<b>");
        let close_mark = str_to_chars("</b>");
        proof {
            reveal_strlit("<b>");
            reveal_strlit("</b>");
        }
        let chars_len: usize = chars.len();
        let a = match find_first(&chars, &open_mark, 0) {
            None => {
                return None;
            },
            Some(a) => a,
        };
        proof {
            assert(a + open_mark@.len() <= chars_len);
        }
        let content_start = a + open_mark.len();
        let b = match find_first(&chars, &close_mark, content_start) {
            None => {
                return None;
            },
            Some(b) => b,
        };
        Some(chars_range_to_string(&chars, content_start, b))
    }
}

} // verus!
