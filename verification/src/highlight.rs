//! Case-insensitive term highlighting for the front side of a note.
//!
//! The term is matched against the lowercased surrounding phrase; the
//! phrase is then split into fragments — matched spans and the text
//! between them, with the original casing — and rendered with each
//! matched span wrapped in `<b>`…`</b>`.

use vstd::prelude::*;

verus! {

use crate::text::{chars_range_to_string, chars_to_string, lower_of, lowercased, str_to_chars};
use vstd::string::StringExecFns;

/// The start positions of the non-overlapping, leftmost occurrences of
/// `needle` in `hay` at or after `from`: after each occurrence the
/// search resumes right behind it.
pub open spec fn spec_match_starts(hay: Seq<char>, needle: Seq<char>, from: int) -> Seq<int>
    recommends
        0 <= from,
        needle.len() > 0,
    decreases hay.len() - from,
    when 0 <= from && needle.len() > 0
{
    if from + needle.len() > hay.len() {
        Seq::empty()
    } else if hay.subrange(from, from + needle.len()) == needle {
        seq![from] + spec_match_starts(hay, needle, from + needle.len())
    } else {
        spec_match_starts(hay, needle, from + 1)
    }
}

/// Match starts that a splitter can consume: each span lies inside the
/// text, and consecutive spans do not overlap.
pub open spec fn starts_wf(starts: Seq<int>, hay_len: int, mlen: int) -> bool {
    &&& forall|i: int| 0 <= i < starts.len() ==> 0 <= #[trigger] starts[i] && starts[i] + mlen
        <= hay_len
    &&& forall|i: int| 0 <= i < starts.len() - 1 ==> #[trigger] starts[i] + mlen <= starts[i + 1]
}

/// What [`spec_match_starts`] returns is well formed, and lies at or
/// after `from`.
pub proof fn lemma_match_starts_wf(hay: Seq<char>, needle: Seq<char>, from: int)
    requires
        0 <= from,
        needle.len() > 0,
    ensures
        starts_wf(spec_match_starts(hay, needle, from), hay.len() as int, needle.len() as int),
        forall|i: int|
            0 <= i < spec_match_starts(hay, needle, from).len() ==> #[trigger] spec_match_starts(
                hay,
                needle,
                from,
            )[i] >= from,
    decreases hay.len() - from,
{
    let starts = spec_match_starts(hay, needle, from);
    if from + needle.len() > hay.len() {
    } else if hay.subrange(from, from + needle.len()) == needle {
        lemma_match_starts_wf(hay, needle, from + needle.len());
        let rest = spec_match_starts(hay, needle, from + needle.len());
        assert forall|i: int| 0 <= i < starts.len() implies 0 <= #[trigger] starts[i] && starts[i]
            + needle.len() <= hay.len() && starts[i] >= from by {
            if i > 0 {
                assert(starts[i] == rest[i - 1]);
            }
        }
        assert forall|i: int| 0 <= i < starts.len() - 1 implies #[trigger] starts[i] + needle.len()
            <= starts[i + 1] by {
            if i > 0 {
                assert(starts[i] == rest[i - 1]);
                assert(starts[i + 1] == rest[i]);
            } else {
                assert(starts[1] == rest[0]);
            }
        }
    } else {
        lemma_match_starts_wf(hay, needle, from + 1);
    }
}

/// Whether `needle` occurs in `hay` at position `at`.
fn is_match_at(hay: &Vec<char>, needle: &Vec<char>, at: usize) -> (b: bool)
    requires
        at + needle@.len() <= hay@.len(),
    ensures
        b == (hay@.subrange(at as int, at + needle@.len()) == needle@),
{
    let hay_len: usize = hay.len();
    let mut j: usize = 0;
    while j < needle.len()
        invariant
            j <= needle@.len(),
            at + needle@.len() <= hay@.len(),
            hay_len == hay@.len(),
            forall|k: int| 0 <= k < j ==> hay@[at + k] == needle@[k],
        decreases needle@.len() - j,
    {
        proof {
            assert(at + j < hay_len);
        }
        if hay[at + j] != needle[j] {
            proof {
                assert(hay@.subrange(at as int, at + needle@.len())[j as int] != needle@[j as int]);
            }
            return false;
        }
        j = j + 1;
    }
    proof {
        assert(hay@.subrange(at as int, at + needle@.len()) =~= needle@);
    }
    true
}

/// The start positions of the non-overlapping, leftmost occurrences of
/// `needle` in `hay`.
pub fn find_matches(hay: &Vec<char>, needle: &Vec<char>) -> (starts: Vec<usize>)
    requires
        needle@.len() > 0,
    ensures
        starts@.map_values(|u: usize| u as int) == spec_match_starts(hay@, needle@, 0),
{
    let mut starts: Vec<usize> = Vec::new();
    if needle.len() > hay.len() {
        proof {
            assert(starts@.map_values(|u: usize| u as int) =~= spec_match_starts(
                hay@,
                needle@,
                0,
            ));
        }
        return starts;
    }
    let hay_len: usize = hay.len();
    let limit: usize = hay_len - needle.len();
    let mut pos: usize = 0;
    while pos <= limit
        invariant
            needle@.len() > 0,
            hay_len == hay@.len(),
            limit == hay@.len() - needle@.len(),
            pos <= hay@.len(),
            spec_match_starts(hay@, needle@, 0) == starts@.map_values(|u: usize| u as int)
                + spec_match_starts(hay@, needle@, pos as int),
        decreases hay@.len() - pos,
    {
        let ghost before = starts@.map_values(|u: usize| u as int);
        if is_match_at(hay, needle, pos) {
            starts.push(pos);
            proof {
                assert(spec_match_starts(hay@, needle@, pos as int) == seq![pos as int]
                    + spec_match_starts(hay@, needle@, pos + needle@.len()));
                assert(starts@.map_values(|u: usize| u as int) =~= before.push(pos as int));
                assert(before + (seq![pos as int] + spec_match_starts(
                    hay@,
                    needle@,
                    pos + needle@.len(),
                )) =~= before.push(pos as int) + spec_match_starts(
                    hay@,
                    needle@,
                    pos + needle@.len(),
                ));
            }
            pos = pos + needle.len();
        } else {
            proof {
                assert(spec_match_starts(hay@, needle@, pos as int) == spec_match_starts(
                    hay@,
                    needle@,
                    pos + 1,
                ));
            }
            pos = pos + 1;
        }
    }
    proof {
        assert(spec_match_starts(hay@, needle@, pos as int) == Seq::<int>::empty());
        assert(starts@.map_values(|u: usize| u as int) + Seq::<int>::empty() =~= starts@.map_values(
            |u: usize| u as int,
        ));
    }
    starts
}

/// The position of the first occurrence of `needle` in `hay` at or
/// after `from`, if any.
pub open spec fn spec_find(hay: Seq<char>, needle: Seq<char>, from: int) -> Option<int>
    recommends
        0 <= from,
        needle.len() > 0,
    decreases hay.len() - from,
    when 0 <= from && needle.len() > 0
{
    if from + needle.len() > hay.len() {
        None
    } else if hay.subrange(from, from + needle.len()) == needle {
        Some(from)
    } else {
        spec_find(hay, needle, from + 1)
    }
}

/// Find the first occurrence of `needle` in `hay` at or after `from`.
pub fn find_first(hay: &Vec<char>, needle: &Vec<char>, from: usize) -> (r: Option<usize>)
    requires
        needle@.len() > 0,
    ensures
        match r {
            Some(i) => spec_find(hay@, needle@, from as int) == Some(i as int) && from <= i && i
                + needle@.len() <= hay@.len() && hay@.subrange(i as int, i + needle@.len())
                == needle@,
            None => spec_find(hay@, needle@, from as int) is None,
        },
{
    let hay_len: usize = hay.len();
    if needle.len() > hay_len || from > hay_len - needle.len() {
        return None;
    }
    let limit: usize = hay_len - needle.len();
    let mut pos: usize = from;
    while pos <= limit
        invariant
            needle@.len() > 0,
            hay_len == hay@.len(),
            limit == hay@.len() - needle@.len(),
            from <= pos <= hay@.len(),
            spec_find(hay@, needle@, from as int) == spec_find(hay@, needle@, pos as int),
        decreases hay@.len() - pos,
    {
        if is_match_at(hay, needle, pos) {
            return Some(pos);
        }
        pos = pos + 1;
    }
    None
}

/// One piece of a split phrase: a matched span of the term, or the text
/// between matches. Both carry the phrase's original casing.
pub enum Fragment {
    Term(String),
    Rest(String),
}

/// What a fragment is, mathematically: whether it is a matched span,
/// and its characters.
pub open spec fn fragment_model(f: Fragment) -> (bool, Seq<char>) {
    match f {
        Fragment::Term(s) => (true, s@),
        Fragment::Rest(s) => (false, s@),
    }
}

/// The fragments of `orig` split at the matched spans `starts` (each of
/// length `mlen`), reading from position `pos` on: the text before each
/// span (when nonempty), the span itself, and finally the text after
/// the last span (when nonempty).
pub open spec fn spec_fragments(orig: Seq<char>, starts: Seq<int>, mlen: int, pos: int) -> Seq<
    (bool, Seq<char>),
>
    decreases starts.len(),
{
    if starts.len() == 0 {
        if pos < orig.len() {
            seq![(false, orig.skip(pos))]
        } else {
            Seq::empty()
        }
    } else {
        let s0 = starts[0];
        let head: Seq<(bool, Seq<char>)> = if pos < s0 {
            seq![(false, orig.subrange(pos, s0))]
        } else {
            Seq::empty()
        };
        head + seq![(true, orig.subrange(s0, s0 + mlen))] + spec_fragments(
            orig,
            starts.skip(1),
            mlen,
            s0 + mlen,
        )
    }
}

/// Split `orig` into fragments at the matched spans `starts`, each of
/// length `mlen`.
pub fn split_fragments(orig: &Vec<char>, starts: &Vec<usize>, mlen: usize) -> (frags: Vec<Fragment>)
    requires
        starts_wf(starts@.map_values(|u: usize| u as int), orig@.len() as int, mlen as int),
    ensures
        frags@.map_values(|f: Fragment| fragment_model(f)) == spec_fragments(
            orig@,
            starts@.map_values(|u: usize| u as int),
            mlen as int,
            0,
        ),
{
    let ghost all = starts@.map_values(|u: usize| u as int);
    let orig_len: usize = orig.len();
    let mut frags: Vec<Fragment> = Vec::new();
    let mut pos: usize = 0;
    let mut i: usize = 0;
    proof {
        assert(all.skip(0) =~= all);
        assert(frags@.map_values(|f: Fragment| fragment_model(f)) =~= Seq::<
            (bool, Seq<char>),
        >::empty());
        assert(Seq::<(bool, Seq<char>)>::empty() + spec_fragments(orig@, all, mlen as int, 0)
            =~= spec_fragments(orig@, all, mlen as int, 0));
    }
    while i < starts.len()
        invariant
            i <= starts@.len(),
            orig_len == orig@.len(),
            starts_wf(all, orig@.len() as int, mlen as int),
            all == starts@.map_values(|u: usize| u as int),
            i < starts@.len() ==> pos <= all[i as int],
            pos <= orig@.len(),
            spec_fragments(orig@, all, mlen as int, 0) == frags@.map_values(
                |f: Fragment| fragment_model(f),
            ) + spec_fragments(orig@, all.skip(i as int), mlen as int, pos as int),
        decreases starts@.len() - i,
    {
        let ghost before = frags@.map_values(|f: Fragment| fragment_model(f));
        let ghost tail = all.skip(i as int);
        let s = starts[i];
        proof {
            assert(tail[0] == all[i as int]);
            assert(tail.skip(1) =~= all.skip(i + 1 as int));
            assert(s + mlen <= orig_len);
        }
        if pos < s {
            let rest = chars_range_to_string(orig, pos, s);
            frags.push(Fragment::Rest(rest));
        }
        let term = chars_range_to_string(orig, s, s + mlen);
        frags.push(Fragment::Term(term));
        proof {
            let mid = frags@.map_values(|f: Fragment| fragment_model(f));
            if (pos as int) < (s as int) {
                assert(mid =~= before.push((false, orig@.subrange(pos as int, s as int))).push(
                    (true, orig@.subrange(s as int, s + mlen)),
                ));
                assert(spec_fragments(orig@, tail, mlen as int, pos as int) =~= seq![
                    (false, orig@.subrange(pos as int, s as int)),
                    (true, orig@.subrange(s as int, s + mlen)),
                ] + spec_fragments(orig@, tail.skip(1), mlen as int, s + mlen));
                assert(before + spec_fragments(orig@, tail, mlen as int, pos as int) =~= mid
                    + spec_fragments(orig@, all.skip(i + 1 as int), mlen as int, s + mlen));
            } else {
                assert(mid =~= before.push((true, orig@.subrange(s as int, s + mlen))));
                assert(spec_fragments(orig@, tail, mlen as int, pos as int) =~= seq![
                    (true, orig@.subrange(s as int, s + mlen)),
                ] + spec_fragments(orig@, tail.skip(1), mlen as int, s + mlen));
                assert(before + spec_fragments(orig@, tail, mlen as int, pos as int) =~= mid
                    + spec_fragments(orig@, all.skip(i + 1 as int), mlen as int, s + mlen));
            }
            if i + 1 < starts@.len() {
                assert(all[i as int] + mlen <= all[i + 1 as int]);
            }
        }
        pos = s + mlen;
        i = i + 1;
    }
    proof {
        assert(all.skip(i as int) =~= Seq::<int>::empty());
    }
    if pos < orig.len() {
        let rest = chars_range_to_string(orig, pos, orig.len());
        proof {
            assert(orig@.subrange(pos as int, orig@.len() as int) =~= orig@.skip(pos as int));
        }
        frags.push(Fragment::Rest(rest));
        proof {
            let ghost done = frags@.map_values(|f: Fragment| fragment_model(f));
            assert(done =~= spec_fragments(orig@, all, mlen as int, 0));
        }
    } else {
        proof {
            assert(frags@.map_values(|f: Fragment| fragment_model(f)) + Seq::<
                (bool, Seq<char>),
            >::empty() =~= frags@.map_values(|f: Fragment| fragment_model(f)));
        }
    }
    frags
}

/// Step-by-step access to a phrase's fragments: yields the fragments
/// of [`split_fragments`] one at a time, in order.
pub struct SplitFragment {
    rest: Vec<Fragment>,
}

impl SplitFragment {
    /// The fragments not yet handed out, in order.
    pub closed spec fn remaining(self) -> Seq<(bool, Seq<char>)> {
        self.rest@.map_values(|f: Fragment| fragment_model(f)).reverse()
    }

    /// Split `phrase` at the matched spans `starts`, each of length
    /// `mlen`, and hand the fragments out from the front.
    pub fn new(phrase: &Vec<char>, starts: &Vec<usize>, mlen: usize) -> (r: SplitFragment)
        requires
            starts_wf(starts@.map_values(|u: usize| u as int), phrase@.len() as int, mlen as int),
        ensures
            r.remaining() == spec_fragments(
                phrase@,
                starts@.map_values(|u: usize| u as int),
                mlen as int,
                0,
            ),
    {
        let mut frags = split_fragments(phrase, starts, mlen);
        let ghost full = frags@.map_values(|f: Fragment| fragment_model(f));
        let mut rest: Vec<Fragment> = Vec::new();
        proof {
            assert(rest@.map_values(|f: Fragment| fragment_model(f)).reverse() =~= Seq::<
                (bool, Seq<char>),
            >::empty());
            assert(frags@.map_values(|f: Fragment| fragment_model(f)) + Seq::<
                (bool, Seq<char>),
            >::empty() =~= full);
        }
        while frags.len() > 0
            invariant
                frags@.map_values(|f: Fragment| fragment_model(f)) + rest@.map_values(
                    |f: Fragment| fragment_model(f),
                ).reverse() == full,
            decreases frags@.len(),
        {
            let ghost frags_before = frags@.map_values(|f: Fragment| fragment_model(f));
            let ghost rest_before = rest@.map_values(|f: Fragment| fragment_model(f));
            let f = frags.pop().unwrap();
            rest.push(f);
            proof {
                assert(frags@.map_values(|f: Fragment| fragment_model(f)) =~= frags_before.take(
                    frags_before.len() - 1,
                ));
                assert(rest@.map_values(|f: Fragment| fragment_model(f)) =~= rest_before.push(
                    fragment_model(f),
                ));
                assert(rest_before.push(fragment_model(f)).reverse() =~= seq![fragment_model(f)]
                    + rest_before.reverse());
                assert(frags_before.take(frags_before.len() - 1) + (seq![fragment_model(f)]
                    + rest_before.reverse()) =~= frags_before + rest_before.reverse());
            }
        }
        proof {
            assert(frags@.map_values(|f: Fragment| fragment_model(f)) + rest@.map_values(
                |f: Fragment| fragment_model(f),
            ).reverse() =~= rest@.map_values(|f: Fragment| fragment_model(f)).reverse());
        }
        SplitFragment { rest }
    }

    /// The next fragment, front to back: `None` once all are out.
    pub fn next(&mut self) -> (r: Option<Fragment>)
        ensures
            old(self).remaining().len() == 0 ==> r is None && final(self).remaining() == old(
                self,
            ).remaining(),
            old(self).remaining().len() > 0 ==> (r matches Some(f) && fragment_model(f) == old(
                self,
            ).remaining().first() && final(self).remaining() == old(self).remaining().drop_first()),
    {
        let ghost before = self.rest@.map_values(|f: Fragment| fragment_model(f));
        match self.rest.pop() {
            None => {
                proof {
                    assert(self.rest@.map_values(|f: Fragment| fragment_model(f)).reverse()
                        =~= before.reverse());
                }
                None
            },
            Some(f) => {
                proof {
                    assert(self.rest@.map_values(|f: Fragment| fragment_model(f)) =~= before.take(
                        before.len() - 1,
                    ));
                    assert(before.take(before.len() - 1).reverse()
                        =~= before.reverse().drop_first());
                    assert(fragment_model(f) == before.reverse().first());
                }
                Some(f)
            },
        }
    }
}

/// Fragments rendered back to text: matched spans are wrapped in
/// `<b>`…`</b>`, the rest is kept as it is.
pub open spec fn spec_render(frags: Seq<(bool, Seq<char>)>) -> Seq<char>
    decreases frags.len(),
{
    if frags.len() == 0 {
        Seq::empty()
    } else {
        let piece = if frags[0].0 {
            "<b>"@ + frags[0].1 + "</b>"@
        } else {
            frags[0].1
        };
        piece + spec_render(frags.skip(1))
    }
}

/// Rendering distributes over appending one fragment.
proof fn lemma_render_push(frags: Seq<(bool, Seq<char>)>, f: (bool, Seq<char>))
    ensures
        spec_render(frags.push(f)) == spec_render(frags) + (if f.0 {
            "<b>"@ + f.1 + "</b>"@
        } else {
            f.1
        }),
    decreases frags.len(),
{
    let piece = if f.0 {
        "<b>"@ + f.1 + "</b>"@
    } else {
        f.1
    };
    if frags.len() == 0 {
        assert(frags.push(f)[0] == f);
        assert(frags.push(f).skip(1) =~= Seq::<(bool, Seq<char>)>::empty());
        assert(spec_render(frags.push(f)) == piece + spec_render(
            Seq::<(bool, Seq<char>)>::empty(),
        ));
        assert(spec_render(Seq::<(bool, Seq<char>)>::empty()) == Seq::<char>::empty());
        assert(piece + Seq::<char>::empty() =~= Seq::<char>::empty() + piece);
    } else {
        assert(frags.push(f).skip(1) =~= frags.skip(1).push(f));
        lemma_render_push(frags.skip(1), f);
        let head = if frags[0].0 {
            "<b>"@ + frags[0].1 + "</b>"@
        } else {
            frags[0].1
        };
        assert(spec_render(frags.push(f)) == head + (spec_render(frags.skip(1)) + piece));
        assert(head + (spec_render(frags.skip(1)) + piece) =~= (head + spec_render(frags.skip(1)))
            + piece);
    }
}

/// Render fragments to one string, wrapping each matched span in
/// `<b>`…`</b>`.
pub fn render_fragments(frags: &Vec<Fragment>) -> (r: String)
    ensures
        r@ == spec_render(frags@.map_values(|f: Fragment| fragment_model(f))),
{
    let mut r = String::new();
    let mut i: usize = 0;
    while i < frags.len()
        invariant
            i <= frags@.len(),
            r@ == spec_render(frags@.map_values(|f: Fragment| fragment_model(f)).take(i as int)),
        decreases frags@.len() - i,
    {
        let ghost m = frags@.map_values(|f: Fragment| fragment_model(f));
        match &frags[i] {
            Fragment::Term(s) => {
                r.append("<b>");
                r.append(s.as_str());
                r.append("</b>");
            },
            Fragment::Rest(s) => {
                r.append(s.as_str());
            },
        }
        proof {
            assert(m.take(i + 1 as int) =~= m.take(i as int).push(m[i as int]));
            lemma_render_push(m.take(i as int), m[i as int]);
        }
        i = i + 1;
    }
    proof {
        let m = frags@.map_values(|f: Fragment| fragment_model(f));
        assert(m.take(frags@.len() as int) =~= m);
    }
    r
}

/// The highlighted form of a phrase: its non-overlapping matches of
/// `term` against the lowercased phrase `lower`, wrapped in
/// `<b>`…`</b>`, with the phrase's own casing kept everywhere.
pub open spec fn spec_highlight(orig: Seq<char>, lower: Seq<char>, term: Seq<char>) -> Seq<char> {
    spec_render(spec_fragments(orig, spec_match_starts(lower, term, 0), term.len() as int, 0))
}

/// What highlighting yields: the highlighted phrase when the term is
/// nonempty and lowercasing keeps the phrase's length (so match
/// positions carry over to the original casing); the phrase unchanged
/// otherwise.
pub open spec fn spec_highlighted_or_plain(phrase: Seq<char>, term: Seq<char>) -> Seq<char> {
    if term.len() > 0 && lower_of(phrase).len() == phrase.len() {
        spec_highlight(phrase, lower_of(phrase), term)
    } else {
        phrase
    }
}

/// Highlight the case-insensitive occurrences of `term` inside
/// `phrase`. When the term is empty, or when lowercasing changes the
/// phrase's length (so match positions would not carry over), the
/// phrase is returned unchanged.
pub fn highlight_term(phrase: &str, term: &str) -> (r: String)
    ensures
        r@ == spec_highlighted_or_plain(phrase@, term@),
{
    let orig = str_to_chars(phrase);
    let lower_string = lowercased(phrase);
    let lower = str_to_chars(lower_string.as_str());
    let term_chars = str_to_chars(term);
    if term_chars.len() == 0 || lower.len() != orig.len() {
        return chars_to_string(&orig);
    }
    let starts = find_matches(&lower, &term_chars);
    proof {
        lemma_match_starts_wf(lower@, term_chars@, 0);
    }
    let frags = split_fragments(&orig, &starts, term_chars.len());
    render_fragments(&frags)
}

} // verus!
