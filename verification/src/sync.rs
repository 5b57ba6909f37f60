//! The deduplication and sync filter.
//!
//! Freshly fetched vocabulary items are partitioned against the dedup
//! identifiers already present in the flashcard store; the new ones are
//! turned into note drafts (highlighted front, joined hints, the
//! identifier as a dedup field, and a hierarchical tag chain); after
//! submission, the per-item created-identifiers are partitioned back
//! into failed and succeeded, and failed identifiers stay eligible for
//! the next attempt.

use vstd::prelude::*;

verus! {

use crate::Config;
use crate::anki::NewNote;
use crate::highlight::{highlight_term, spec_highlighted_or_plain};
use crate::lingq::{LingQ, LingQHint, spec_keep_worth_importing, spec_worth_importing};
use crate::text::{
    join_strings,
    spec_digits,
    spec_join,
    spec_underscored,
    underscore_spaces,
    usize_to_string,
};
use vstd::string::StringExecFns;

/// What the store knows of one dedup identifier: already present,
/// failed on the last sync attempt, or created by this session's sync.
#[derive(Clone, Copy, Debug, PartialEq, Eq, Structural)]
pub enum AnkiNoteState {
    Known,
    Failed,
    Synced,
}

/// How one item is shown after filtering and syncing.
pub enum RowStatus {
    New,
    Known,
    Synced,
    Error(String),
}

/// The status line for one item, from what the store knows of its
/// identifier: unknown identifiers are new; a failed attempt is shown
/// as its error message.
pub fn row_status(state: Option<AnkiNoteState>) -> (r: RowStatus)
    ensures
        state is None ==> r == RowStatus::New,
        state == Some(AnkiNoteState::Known) ==> r == RowStatus::Known,
        state == Some(AnkiNoteState::Synced) ==> r == RowStatus::Synced,
        state == Some(AnkiNoteState::Failed) ==> (r matches RowStatus::Error(m) && m@
            == "Failed to sync"@),
{
    match state {
        None => RowStatus::New,
        Some(AnkiNoteState::Known) => RowStatus::Known,
        Some(AnkiNoteState::Synced) => RowStatus::Synced,
        Some(AnkiNoteState::Failed) => RowStatus::Error("Failed to sync".to_owned()),
    }
}

/// The state recorded for one identifier, if any (first entry wins).
pub open spec fn spec_state_lookup(states: Seq<(usize, AnkiNoteState)>, pk: usize) -> Option<
    AnkiNoteState,
>
    decreases states.len(),
{
    if states.len() == 0 {
        None
    } else if states.first().0 == pk {
        Some(states.first().1)
    } else {
        spec_state_lookup(states.drop_first(), pk)
    }
}

/// Look the recorded state of one identifier up.
pub fn lookup_state(states: &Vec<(usize, AnkiNoteState)>, pk: usize) -> (r: Option<AnkiNoteState>)
    ensures
        r == spec_state_lookup(states@, pk),
{
    let mut i: usize = 0;
    proof {
        assert(states@.skip(0) =~= states@);
    }
    while i < states.len()
        invariant
            i <= states@.len(),
            spec_state_lookup(states@, pk) == spec_state_lookup(states@.skip(i as int), pk),
        decreases states@.len() - i,
    {
        proof {
            assert(states@.skip(i as int).first() == states@[i as int]);
            assert(states@.skip(i as int).drop_first() =~= states@.skip(i + 1 as int));
        }
        if states[i].0 == pk {
            return Some(states[i].1);
        }
        i = i + 1;
    }
    None
}

/// The identifiers that count as already present for the next sync:
/// every recorded identifier except those whose last attempt failed —
/// a failed identifier must be retried.
pub open spec fn spec_eligible_existing(states: Seq<(usize, AnkiNoteState)>) -> Seq<usize>
    decreases states.len(),
{
    if states.len() == 0 {
        Seq::empty()
    } else {
        let head: Seq<usize> = if states.first().1 == AnkiNoteState::Failed {
            Seq::empty()
        } else {
            seq![states.first().0]
        };
        head + spec_eligible_existing(states.drop_first())
    }
}

/// Executable form of [`spec_eligible_existing`].
pub fn eligible_existing(states: &Vec<(usize, AnkiNoteState)>) -> (r: Vec<usize>)
    ensures
        r@ == spec_eligible_existing(states@),
{
    let mut r: Vec<usize> = Vec::new();
    let mut i: usize = 0;
    proof {
        assert(states@.skip(0) =~= states@);
        assert(Seq::<usize>::empty() + spec_eligible_existing(states@) =~= spec_eligible_existing(
            states@,
        ));
    }
    while i < states.len()
        invariant
            i <= states@.len(),
            spec_eligible_existing(states@) == r@ + spec_eligible_existing(
                states@.skip(i as int),
            ),
        decreases states@.len() - i,
    {
        let ghost before = r@;
        let ghost tail = states@.skip(i as int);
        proof {
            assert(tail.first() == states@[i as int]);
            assert(tail.drop_first() =~= states@.skip(i + 1 as int));
        }
        let is_failed = match states[i].1 {
            AnkiNoteState::Failed => true,
            _ => false,
        };
        if !is_failed {
            r.push(states[i].0);
            proof {
                assert(before + (seq![states@[i as int].0] + spec_eligible_existing(
                    states@.skip(i + 1 as int),
                )) =~= r@ + spec_eligible_existing(states@.skip(i + 1 as int)));
            }
        } else {
            proof {
                assert(before + (Seq::<usize>::empty() + spec_eligible_existing(
                    states@.skip(i + 1 as int),
                )) =~= r@ + spec_eligible_existing(states@.skip(i + 1 as int)));
            }
        }
        i = i + 1;
    }
    proof {
        assert(spec_eligible_existing(states@.skip(states@.len() as int)) == Seq::<usize>::empty());
        assert(r@ + Seq::<usize>::empty() =~= r@);
    }
    r
}

/// Whether a list of identifiers holds one.
pub fn contains_id(ids: &Vec<usize>, pk: usize) -> (b: bool)
    ensures
        b == ids@.contains(pk),
{
    let mut i: usize = 0;
    while i < ids.len()
        invariant
            i <= ids@.len(),
            forall|k: int| 0 <= k < i ==> ids@[k] != pk,
        decreases ids@.len() - i,
    {
        if ids[i] == pk {
            return true;
        }
        i = i + 1;
    }
    false
}

/// The items whose identifier is not among the existing ones, in order.
pub open spec fn spec_new_items(items: Seq<LingQ>, existing: Seq<usize>) -> Seq<LingQ> {
    items.filter(|l: LingQ| !existing.contains(l.pk))
}

/// The items whose identifier is among the existing ones, in order.
pub open spec fn spec_known_items(items: Seq<LingQ>, existing: Seq<usize>) -> Seq<LingQ> {
    items.filter(|l: LingQ| existing.contains(l.pk))
}

/// Partitioning one more item puts it on exactly one side, at the end.
proof fn lemma_partition_push(items: Seq<LingQ>, existing: Seq<usize>, x: LingQ)
    ensures
        spec_new_items(items.push(x), existing) == if !existing.contains(x.pk) {
            spec_new_items(items, existing).push(x)
        } else {
            spec_new_items(items, existing)
        },
        spec_known_items(items.push(x), existing) == if existing.contains(x.pk) {
            spec_known_items(items, existing).push(x)
        } else {
            spec_known_items(items, existing)
        },
{
    reveal(Seq::filter);
    assert(items.push(x).drop_last() =~= items);
}

/// Partition fetched items into new and known by whether their
/// identifier is among the existing ones. Order is kept on both sides.
pub fn partition_new_known(items: Vec<LingQ>, existing: &Vec<usize>) -> (r: (Vec<LingQ>, Vec<
    LingQ,
>))
    ensures
        r.0@ == spec_new_items(items@, existing@),
        r.1@ == spec_known_items(items@, existing@),
{
    let ghost orig = items@;
    let mut items = items;
    let mut new_items: Vec<LingQ> = Vec::new();
    let mut known_items: Vec<LingQ> = Vec::new();
    let ghost mut done: Seq<LingQ> = Seq::empty();
    proof {
        assert(done + items@ =~= orig);
        reveal(Seq::filter);
    }
    while items.len() > 0
        invariant
            orig == done + items@,
            new_items@ == spec_new_items(done, existing@),
            known_items@ == spec_known_items(done, existing@),
        decreases items@.len(),
    {
        let x = items.remove(0);
        proof {
            assert(done.push(x) + items@ =~= orig);
            lemma_partition_push(done, existing@, x);
        }
        if !contains_id(existing, x.pk) {
            new_items.push(x);
        } else {
            known_items.push(x);
        }
        proof {
            done = done.push(x);
        }
    }
    proof {
        assert(done =~= orig);
    }
    (new_items, known_items)
}

/// The partition loses nothing and invents nothing: every item of the
/// input lands on exactly one side — the sides' lengths add up to the
/// input's, and together the sides hold exactly the input's items —
/// and the new side never holds an existing identifier, nor the known
/// side a missing one.
pub proof fn lemma_partition_complete(items: Seq<LingQ>, existing: Seq<usize>)
    ensures
        forall|i: int|
            0 <= i < spec_new_items(items, existing).len() ==> !existing.contains(
                (#[trigger] spec_new_items(items, existing)[i]).pk,
            ),
        forall|i: int|
            0 <= i < spec_known_items(items, existing).len() ==> existing.contains(
                (#[trigger] spec_known_items(items, existing)[i]).pk,
            ),
        spec_new_items(items, existing).len() + spec_known_items(items, existing).len()
            == items.len(),
        spec_new_items(items, existing).to_multiset().add(
            spec_known_items(items, existing).to_multiset(),
        ) == items.to_multiset(),
    decreases items.len(),
{
    broadcast use vstd::seq_lib::group_to_multiset_ensures;

    if items.len() == 0 {
        reveal(Seq::filter);
        assert(spec_new_items(items, existing).to_multiset().add(
            spec_known_items(items, existing).to_multiset(),
        ) =~= items.to_multiset());
    } else {
        let s = items.drop_last();
        let x = items.last();
        assert(items =~= s.push(x));
        lemma_partition_complete(s, existing);
        lemma_partition_push(s, existing, x);
        assert(spec_new_items(items, existing).to_multiset().add(
            spec_known_items(items, existing).to_multiset(),
        ) =~= items.to_multiset());
    }
}

/// An item the earlier filter dropped can never reappear among the new
/// items: whatever the existing identifiers are, everything the
/// partition calls new is worth importing.
pub proof fn lemma_suppressed_never_new(items: Seq<LingQ>, existing: Seq<usize>)
    ensures
        forall|i: int|
            0 <= i < spec_new_items(spec_keep_worth_importing(items), existing).len()
                ==> spec_worth_importing(
                #[trigger] spec_new_items(spec_keep_worth_importing(items), existing)[i],
            ),
    decreases items.len(),
{
    let kept = spec_keep_worth_importing(items);
    lemma_kept_are_worth(items);
    lemma_new_items_subset(kept, existing);
    let new = spec_new_items(kept, existing);
    assert forall|i: int| 0 <= i < new.len() implies spec_worth_importing(new[i]) by {
        assert(new.contains(new[i]));
        assert(kept.contains(new[i]));
        let j = choose|j: int| 0 <= j < kept.len() && kept[j] == new[i];
        assert(spec_worth_importing(kept[j]));
    }
}

/// Everything the import filter keeps is worth importing.
proof fn lemma_kept_are_worth(items: Seq<LingQ>)
    ensures
        forall|i: int|
            0 <= i < spec_keep_worth_importing(items).len() ==> spec_worth_importing(
                #[trigger] spec_keep_worth_importing(items)[i],
            ),
    decreases items.len(),
{
    reveal(Seq::filter);
    if items.len() > 0 {
        let s = items.drop_last();
        assert(items =~= s.push(items.last()));
        lemma_kept_are_worth(s);
        assert(items.push(items.last()).drop_last() =~= items);
    }
}

/// Every new item comes from the input.
proof fn lemma_new_items_subset(items: Seq<LingQ>, existing: Seq<usize>)
    ensures
        forall|x: LingQ| spec_new_items(items, existing).contains(x) ==> items.contains(x),
    decreases items.len(),
{
    if items.len() > 0 {
        let s = items.drop_last();
        let x0 = items.last();
        assert(items =~= s.push(x0));
        lemma_new_items_subset(s, existing);
        lemma_partition_push(s, existing, x0);
        assert forall|x: LingQ| spec_new_items(items, existing).contains(x) implies items.contains(
            x,
        ) by {
            let new = spec_new_items(items, existing);
            let prev = spec_new_items(s, existing);
            let j = choose|j: int| 0 <= j < new.len() && new[j] == x;
            if !existing.contains(x0.pk) {
                assert(new == prev.push(x0));
                if j == prev.len() {
                    assert(new[j] == x0);
                    assert(items[items.len() - 1] == x);
                } else {
                    assert(prev[j] == new[j]);
                    assert(prev.contains(x));
                    assert(s.contains(x));
                    let k = choose|k: int| 0 <= k < s.len() && s[k] == x;
                    assert(items[k] == s[k]);
                }
            } else {
                assert(new == prev);
                assert(prev.contains(x));
                assert(s.contains(x));
                let k = choose|k: int| 0 <= k < s.len() && s[k] == x;
                assert(items[k] == s[k]);
            }
        }
    }
}

/// How the tag chain of an imported note relates to the configured
/// base tag and the item's source tags: the base tag first, then one
/// tag per source tag, each equal to its predecessor followed by two
/// colons and the source tag with spaces turned into underscores.
pub open spec fn spec_tags_built(base: Seq<char>, source: Seq<String>, out: Seq<String>) -> bool {
    &&& out.len() == source.len() + 1
    &&& out[0]@ == base
    &&& forall|i: int|
        0 <= i < source.len() ==> (#[trigger] out[i + 1])@ == out[i]@ + "::"@ + spec_underscored(
            source[i]@,
        )
}

/// Build the hierarchical tag chain for one item.
pub fn build_tags(base: &str, tags: &Vec<String>) -> (r: Vec<String>)
    ensures
        spec_tags_built(base@, tags@, r@),
{
    let mut r: Vec<String> = Vec::new();
    r.push(base.to_owned());
    let mut i: usize = 0;
    while i < tags.len()
        invariant
            i <= tags@.len(),
            r@.len() == i + 1,
            r@[0]@ == base@,
            forall|j: int|
                0 <= j < i ==> (#[trigger] r@[j + 1])@ == r@[j]@ + "::"@ + spec_underscored(
                    tags@[j]@,
                ),
        decreases tags@.len() - i,
    {
        let underscored = underscore_spaces(tags[i].as_str());
        let mut next = r[r.len() - 1].clone();
        next.append("::");
        next.append(underscored.as_str());
        r.push(next);
        i = i + 1;
    }
    r
}

/// How a note draft relates to the item it was built from: the fixed
/// deck and note type; a front field highlighting the term inside its
/// phrase; a back field joining the hint texts with a comma; the term
/// itself; the item's identifier in decimal as the dedup field; and
/// the hierarchical tag chain.
pub open spec fn spec_note_built(base_tag: Seq<char>, l: LingQ, n: NewNote) -> bool {
    &&& n.deck_name@ == "Dansk::ToProcess"@
    &&& n.model_name@ == "LingQ"@
    &&& n.fields@.len() == 4
    &&& n.fields@[0].0@ == "Front"@
    &&& n.fields@[0].1@ == spec_highlighted_or_plain(l.fragment@, l.term@)
    &&& n.fields@[1].0@ == "Back"@
    &&& n.fields@[1].1@ == spec_join(l.hints@.map_values(|h: LingQHint| h.text@), ", "@)
    &&& n.fields@[2].0@ == "Term"@
    &&& n.fields@[2].1@ == l.term@
    &&& n.fields@[3].0@ == "LingQ"@
    &&& n.fields@[3].1@ == spec_digits(l.pk as nat)
    &&& spec_tags_built(base_tag, l.tags@, n.tags@)
}

/// The hint texts of one item, in order.
fn hint_texts(hints: &Vec<LingQHint>) -> (r: Vec<String>)
    ensures
        r@.map_values(|s: String| s@) == hints@.map_values(|h: LingQHint| h.text@),
{
    let mut r: Vec<String> = Vec::new();
    let mut i: usize = 0;
    while i < hints.len()
        invariant
            i <= hints@.len(),
            r@.map_values(|s: String| s@) == hints@.map_values(|h: LingQHint| h.text@).take(
                i as int,
            ),
        decreases hints@.len() - i,
    {
        r.push(hints[i].text.clone());
        proof {
            let hm = hints@.map_values(|h: LingQHint| h.text@);
            assert(r@.map_values(|s: String| s@) =~= hm.take(i as int).push(hm[i as int]));
            assert(hm.take(i + 1 as int) =~= hm.take(i as int).push(hm[i as int]));
        }
        i = i + 1;
    }
    proof {
        assert(hints@.map_values(|h: LingQHint| h.text@).take(hints@.len() as int)
            =~= hints@.map_values(|h: LingQHint| h.text@));
    }
    r
}

/// Build the note draft for one item.
pub fn build_note(config: &Config, l: &LingQ) -> (n: NewNote)
    ensures
        spec_note_built(config.anki_tag@, *l, n),
{
    let front = highlight_term(l.fragment.as_str(), l.term.as_str());
    let texts = hint_texts(&l.hints);
    let back = join_strings(&texts, ", ");
    let mut fields: Vec<(String, String)> = Vec::new();
    fields.push(("Front".to_owned(), front));
    fields.push(("Back".to_owned(), back));
    fields.push(("Term".to_owned(), l.term.clone()));
    fields.push(("LingQ".to_owned(), usize_to_string(l.pk)));
    let tags = build_tags(config.anki_tag.as_str(), &l.tags);
    NewNote {
        deck_name: "Dansk::ToProcess".to_owned(),
        model_name: "LingQ".to_owned(),
        fields,
        tags,
    }
}

/// Plan one sync attempt: pick the items whose identifier is not among
/// the eligible existing ones, and build one note draft per picked
/// item, with the picked identifiers in matching order.
pub fn plan_sync(config: &Config, lingqs: &Vec<LingQ>, existing: &Vec<usize>) -> (r: (Vec<NewNote>,
    Vec<usize>,
))
    ensures
        r.1@ == spec_new_items(lingqs@, existing@).map_values(|l: LingQ| l.pk),
        r.0@.len() == r.1@.len(),
        forall|i: int|
            0 <= i < r.0@.len() ==> spec_note_built(
                config.anki_tag@,
                spec_new_items(lingqs@, existing@)[i],
                #[trigger] r.0@[i],
            ),
{
    let mut notes: Vec<NewNote> = Vec::new();
    let mut ids: Vec<usize> = Vec::new();
    let mut i: usize = 0;
    proof {
        reveal(Seq::filter);
        assert(lingqs@.take(0) =~= Seq::<LingQ>::empty());
    }
    while i < lingqs.len()
        invariant
            i <= lingqs@.len(),
            ids@ == spec_new_items(lingqs@.take(i as int), existing@).map_values(
                |l: LingQ| l.pk,
            ),
            notes@.len() == ids@.len(),
            forall|j: int|
                0 <= j < notes@.len() ==> spec_note_built(
                    config.anki_tag@,
                    spec_new_items(lingqs@.take(i as int), existing@)[j],
                    #[trigger] notes@[j],
                ),
        decreases lingqs@.len() - i,
    {
        let l = &lingqs[i];
        proof {
            assert(lingqs@.take(i + 1 as int) =~= lingqs@.take(i as int).push(lingqs@[i as int]));
            lemma_partition_push(lingqs@.take(i as int), existing@, lingqs@[i as int]);
        }
        if !contains_id(existing, l.pk) {
            let note = build_note(config, l);
            notes.push(note);
            ids.push(l.pk);
            proof {
                let newer = spec_new_items(lingqs@.take(i + 1 as int), existing@);
                assert(ids@ =~= newer.map_values(|l: LingQ| l.pk));
            }
        }
        i = i + 1;
    }
    proof {
        assert(lingqs@.take(lingqs@.len() as int) =~= lingqs@);
    }
    (notes, ids)
}

/// The submitted identifiers whose creation failed: those paired with
/// an absent created-identifier, in submission order. Pairing stops at
/// the shorter list.
pub open spec fn spec_failed_ids(ids: Seq<usize>, created: Seq<Option<usize>>) -> Seq<usize>
    decreases ids.len(),
{
    if ids.len() == 0 || created.len() == 0 {
        Seq::empty()
    } else {
        let head: Seq<usize> = if created.first() is None {
            seq![ids.first()]
        } else {
            Seq::empty()
        };
        head + spec_failed_ids(ids.drop_first(), created.drop_first())
    }
}

/// The submitted identifiers whose creation succeeded: those paired
/// with a present created-identifier, in submission order.
pub open spec fn spec_succeeded_ids(ids: Seq<usize>, created: Seq<Option<usize>>) -> Seq<usize>
    decreases ids.len(),
{
    if ids.len() == 0 || created.len() == 0 {
        Seq::empty()
    } else {
        let head: Seq<usize> = if created.first() is Some {
            seq![ids.first()]
        } else {
            Seq::empty()
        };
        head + spec_succeeded_ids(ids.drop_first(), created.drop_first())
    }
}

/// Partition the submitted identifiers by their reported outcome: an
/// absent created-identifier is a per-item failure, a present one a
/// success. Failures do not abort the batch; they are collected so the
/// caller can mark them for retry.
pub fn partition_results(ids: &Vec<usize>, created: &Vec<Option<usize>>) -> (r: (Vec<usize>, Vec<
    usize,
>))
    ensures
        r.0@ == spec_failed_ids(ids@, created@),
        r.1@ == spec_succeeded_ids(ids@, created@),
{
    let mut failed: Vec<usize> = Vec::new();
    let mut succeeded: Vec<usize> = Vec::new();
    let mut i: usize = 0;
    proof {
        assert(ids@.skip(0) =~= ids@);
        assert(created@.skip(0) =~= created@);
        assert(Seq::<usize>::empty() + spec_failed_ids(ids@, created@) =~= spec_failed_ids(
            ids@,
            created@,
        ));
        assert(Seq::<usize>::empty() + spec_succeeded_ids(ids@, created@) =~= spec_succeeded_ids(
            ids@,
            created@,
        ));
    }
    while i < ids.len() && i < created.len()
        invariant
            i <= ids@.len(),
            i <= created@.len(),
            spec_failed_ids(ids@, created@) == failed@ + spec_failed_ids(
                ids@.skip(i as int),
                created@.skip(i as int),
            ),
            spec_succeeded_ids(ids@, created@) == succeeded@ + spec_succeeded_ids(
                ids@.skip(i as int),
                created@.skip(i as int),
            ),
        decreases ids@.len() - i,
    {
        let ghost failed_before = failed@;
        let ghost succeeded_before = succeeded@;
        let ghost id_tail = ids@.skip(i as int);
        let ghost created_tail = created@.skip(i as int);
        proof {
            assert(id_tail.first() == ids@[i as int]);
            assert(created_tail.first() == created@[i as int]);
            assert(id_tail.drop_first() =~= ids@.skip(i + 1 as int));
            assert(created_tail.drop_first() =~= created@.skip(i + 1 as int));
        }
        let is_failure = match created[i] {
            None => true,
            Some(_) => false,
        };
        if is_failure {
            failed.push(ids[i]);
            proof {
                assert(failed_before + (seq![ids@[i as int]] + spec_failed_ids(
                    ids@.skip(i + 1 as int),
                    created@.skip(i + 1 as int),
                )) =~= failed@ + spec_failed_ids(
                    ids@.skip(i + 1 as int),
                    created@.skip(i + 1 as int),
                ));
                assert(succeeded_before + (Seq::<usize>::empty() + spec_succeeded_ids(
                    ids@.skip(i + 1 as int),
                    created@.skip(i + 1 as int),
                )) =~= succeeded@ + spec_succeeded_ids(
                    ids@.skip(i + 1 as int),
                    created@.skip(i + 1 as int),
                ));
            }
        } else {
            succeeded.push(ids[i]);
            proof {
                assert(succeeded_before + (seq![ids@[i as int]] + spec_succeeded_ids(
                    ids@.skip(i + 1 as int),
                    created@.skip(i + 1 as int),
                )) =~= succeeded@ + spec_succeeded_ids(
                    ids@.skip(i + 1 as int),
                    created@.skip(i + 1 as int),
                ));
                assert(failed_before + (Seq::<usize>::empty() + spec_failed_ids(
                    ids@.skip(i + 1 as int),
                    created@.skip(i + 1 as int),
                )) =~= failed@ + spec_failed_ids(
                    ids@.skip(i + 1 as int),
                    created@.skip(i + 1 as int),
                ));
            }
        }
        i = i + 1;
    }
    proof {
        assert(spec_failed_ids(ids@.skip(i as int), created@.skip(i as int)) == Seq::<
            usize,
        >::empty());
        assert(spec_succeeded_ids(ids@.skip(i as int), created@.skip(i as int)) == Seq::<
            usize,
        >::empty());
        assert(failed@ + Seq::<usize>::empty() =~= failed@);
        assert(succeeded@ + Seq::<usize>::empty() =~= succeeded@);
    }
    (failed, succeeded)
}

} // verus!
