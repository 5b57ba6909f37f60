//! The vocabulary-side data model: items ("LingQs"), their learning
//! statuses, lessons, and the shaping of paginated request paths.

use vstd::prelude::*;

verus! {

use crate::text::spec_digits;
use crate::text::usize_to_string;
use vstd::string::StringExecFns;

/// One vocabulary item as the remote service reports it: a unique
/// identifier, the term, the phrase it occurred in, its learning
/// status, optional extended status, hints, and free-text tags.
pub struct LingQ {
    pub pk: usize,
    pub term: String,
    pub fragment: String,
    pub status: LingQStatus,
    pub extended_status: Option<ExtendedLingQStatus>,
    pub hints: Vec<LingQHint>,
    pub tags: Vec<String>,
}

/// Learning progress of an item; `Known` is the terminal state.
#[derive(Clone, Copy, Debug, PartialEq, Eq, Structural)]
pub enum LingQStatus {
    New,
    Recognized,
    Familiar,
    Known,
}

/// Review scheduling of an item; `Never` means it is never reviewed.
#[derive(Clone, Copy, Debug, PartialEq, Eq, Structural)]
pub enum ExtendedLingQStatus {
    Now,
    ThirtyDays,
    NinetyDays,
    Never,
}

/// One translation hint attached to an item.
pub struct LingQHint {
    pub term: String,
    pub text: String,
    pub locale: String,
}

/// One lesson: scopes vocabulary queries and contributes its course
/// title and its own title as tags.
pub struct Lesson {
    pub collection_title: String,
    pub collection_id: usize,
    pub id: usize,
    pub title: String,
    pub views_count: usize,
}

/// Whether an item is worth importing at all: an item that is already
/// fully known and is never reviewed is not, even when it was never
/// imported before.
pub open spec fn spec_worth_importing(l: LingQ) -> bool {
    !(l.status == LingQStatus::Known && l.extended_status == Some(ExtendedLingQStatus::Never))
}

/// Executable form of [`spec_worth_importing`].
pub fn worth_importing(l: &LingQ) -> (b: bool)
    ensures
        b == spec_worth_importing(*l),
{
    let known = match l.status {
        LingQStatus::Known => true,
        _ => false,
    };
    let never = match &l.extended_status {
        Some(ExtendedLingQStatus::Never) => true,
        _ => false,
    };
    !(known && never)
}

/// The items worth importing, in order.
pub open spec fn spec_keep_worth_importing(items: Seq<LingQ>) -> Seq<LingQ> {
    items.filter(|l: LingQ| spec_worth_importing(l))
}

/// Filtering one more item keeps it exactly when it is worth importing.
proof fn lemma_keep_worth_importing_push(items: Seq<LingQ>, x: LingQ)
    ensures
        spec_keep_worth_importing(items.push(x)) == if spec_worth_importing(x) {
            spec_keep_worth_importing(items).push(x)
        } else {
            spec_keep_worth_importing(items)
        },
{
    reveal(Seq::filter);
    assert(items.push(x).drop_last() =~= items);
}

/// Drop the items not worth importing: fully known, never-reviewed
/// items are removed, everything else is kept in order.
pub fn filter_worth_importing(items: Vec<LingQ>) -> (r: Vec<LingQ>)
    ensures
        r@ == spec_keep_worth_importing(items@),
{
    let ghost orig = items@;
    let mut items = items;
    let mut r: Vec<LingQ> = Vec::new();
    let ghost mut done: Seq<LingQ> = Seq::empty();
    proof {
        assert(done + items@ =~= orig);
        assert(done.filter(|l: LingQ| spec_worth_importing(l)) =~= Seq::<LingQ>::empty()) by {
            reveal(Seq::filter);
        }
    }
    while items.len() > 0
        invariant
            orig == done + items@,
            r@ == spec_keep_worth_importing(done),
        decreases items@.len(),
    {
        let ghost items_before = items@;
        let x = items.remove(0);
        proof {
            assert(done.push(x) + items@ =~= orig);
            lemma_keep_worth_importing_push(done, x);
        }
        if worth_importing(&x) {
            r.push(x);
        }
        proof {
            done = done.push(x);
        }
    }
    proof {
        assert(done =~= orig);
    }
    r
}

/// How one item is annotated with its lesson: everything kept, and the
/// lesson's course title and own title appended to the tags, in that
/// order.
pub open spec fn spec_annotated(orig: LingQ, lesson: Lesson, r: LingQ) -> bool {
    &&& r.pk == orig.pk
    &&& r.term == orig.term
    &&& r.fragment == orig.fragment
    &&& r.status == orig.status
    &&& r.extended_status == orig.extended_status
    &&& r.hints == orig.hints
    &&& r.tags@ == orig.tags@.push(lesson.collection_title).push(lesson.title)
}

/// Append the lesson's course title and own title to every fetched
/// item's tags, so an imported note records where it came from.
pub fn annotate_lingqs(items: Vec<LingQ>, lesson: &Lesson) -> (r: Vec<LingQ>)
    ensures
        r@.len() == items@.len(),
        forall|i: int| 0 <= i < items@.len() ==> spec_annotated(items@[i], *lesson, #[trigger] r@[i]),
{
    let ghost orig = items@;
    let mut items = items;
    let mut r: Vec<LingQ> = Vec::new();
    let ghost mut done: Seq<LingQ> = Seq::empty();
    proof {
        assert(done + items@ =~= orig);
    }
    while items.len() > 0
        invariant
            orig == done + items@,
            r@.len() == done.len(),
            forall|i: int| 0 <= i < done.len() ==> spec_annotated(done[i], *lesson, #[trigger] r@[i]),
        decreases items@.len(),
    {
        let x = items.remove(0);
        proof {
            assert(done.push(x) + items@ =~= orig);
        }
        let mut tags = x.tags;
        tags.push(lesson.collection_title.clone());
        tags.push(lesson.title.clone());
        r.push(
            LingQ {
                pk: x.pk,
                term: x.term,
                fragment: x.fragment,
                status: x.status,
                extended_status: x.extended_status,
                hints: x.hints,
                tags,
            },
        );
        proof {
            done = done.push(x);
        }
    }
    proof {
        assert(done =~= orig);
    }
    r
}

/// The path of one page request: the API base, the language code, the
/// resource, then the page number, the page size, and any further
/// query parameters.
pub fn page_request_path(
    api: &str,
    language_code: &str,
    resource: &str,
    page: usize,
    page_size: usize,
    params: &str,
) -> (r: String)
    ensures
        r@ == api@ + "/"@ + language_code@ + "/"@ + resource@ + "?page="@ + spec_digits(
            page as nat,
        ) + "&page_size="@ + spec_digits(page_size as nat) + params@,
{
    let mut r = String::new();
    r.append(api);
    r.append("/");
    r.append(language_code);
    r.append("/");
    r.append(resource);
    r.append("?page=");
    let page_digits = usize_to_string(page);
    r.append(page_digits.as_str());
    r.append("&page_size=");
    let size_digits = usize_to_string(page_size);
    r.append(size_digits.as_str());
    r.append(params);
    proof {
        assert(r@ =~= api@ + "/"@ + language_code@ + "/"@ + resource@ + "?page="@ + spec_digits(
            page as nat,
        ) + "&page_size="@ + spec_digits(page_size as nat) + params@);
    }
    r
}

/// The query parameter that scopes a vocabulary-card request to one
/// lesson.
pub fn content_id_params(lesson_id: usize) -> (r: String)
    ensures
        r@ == "&content_id="@ + spec_digits(lesson_id as nat),
{
    let mut r = "&content_id=".to_owned();
    let digits = usize_to_string(lesson_id);
    r.append(digits.as_str());
    r
}

} // verus!
