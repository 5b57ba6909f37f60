//! Character-level text helpers shared by the note builder: decimal
//! rendering of identifiers, space-to-underscore tag normalization,
//! joining hint texts, and lowercasing for case-insensitive matching.

use vstd::prelude::*;

verus! {

use vstd::string::StrSliceExecFns;

/// The character for one decimal digit.
pub open spec fn digit_char(d: nat) -> char
    recommends
        d < 10,
{
    if d == 0 {
        '0'
    } else if d == 1 {
        '1'
    } else if d == 2 {
        '2'
    } else if d == 3 {
        '3'
    } else if d == 4 {
        '4'
    } else if d == 5 {
        '5'
    } else if d == 6 {
        '6'
    } else if d == 7 {
        '7'
    } else if d == 8 {
        '8'
    } else {
        '9'
    }
}

/// Decimal rendering of `n`, most significant digit first, without
/// leading zeros (except for `n == 0` itself).
pub open spec fn spec_digits(n: nat) -> Seq<char>
    decreases n,
{
    if n < 10 {
        seq![digit_char(n)]
    } else {
        spec_digits(n / 10).push(digit_char(n % 10))
    }
}

/// Relies on `String::push`: appends exactly the one given character.
#[verifier::external_body]
pub(crate) fn push_char(s: &mut String, c: char)
    ensures
        final(s)@ == old(s)@.push(c),
{
    s.push(c);
}

/// A `String` holding exactly the characters of `v`.
pub fn chars_to_string(v: &Vec<char>) -> (s: String)
    ensures
        s@ == v@,
{
    let mut s = String::new();
    let mut i: usize = 0;
    while i < v.len()
        invariant
            i <= v.len(),
            s@ == v@.take(i as int),
        decreases v.len() - i,
    {
        push_char(&mut s, v[i]);
        proof {
            assert(v@.take(i + 1 as int) =~= v@.take(i as int).push(v@[i as int]));
        }
        i = i + 1;
    }
    proof {
        assert(v@.take(v.len() as int) =~= v@);
    }
    s
}

/// A `String` holding the characters `v[from..to]`.
pub fn chars_range_to_string(v: &Vec<char>, from: usize, to: usize) -> (s: String)
    requires
        from <= to <= v.len(),
    ensures
        s@ == v@.subrange(from as int, to as int),
{
    let mut s = String::new();
    let mut i: usize = from;
    while i < to
        invariant
            from <= i <= to <= v.len(),
            s@ == v@.subrange(from as int, i as int),
        decreases to - i,
    {
        push_char(&mut s, v[i]);
        proof {
            assert(v@.subrange(from as int, i + 1 as int) =~= v@.subrange(
                from as int,
                i as int,
            ).push(v@[i as int]));
        }
        i = i + 1;
    }
    s
}

/// The characters of `s`, as a vector.
pub fn str_to_chars(s: &str) -> (v: Vec<char>)
    ensures
        v@ == s@,
{
    let n = s.unicode_len();
    let mut v: Vec<char> = Vec::new();
    let mut i: usize = 0;
    while i < n
        invariant
            i <= n,
            n == s@.len(),
            v@ == s@.take(i as int),
        decreases n - i,
    {
        v.push(s.get_char(i));
        proof {
            assert(s@.take(i + 1 as int) =~= s@.take(i as int).push(s@[i as int]));
        }
        i = i + 1;
    }
    proof {
        assert(s@.take(n as int) =~= s@);
    }
    v
}

/// The character for one decimal digit, executably.
pub fn digit_to_char(d: usize) -> (c: char)
    requires
        d < 10,
    ensures
        c == digit_char(d as nat),
{
    if d == 0 {
        '0'
    } else if d == 1 {
        '1'
    } else if d == 2 {
        '2'
    } else if d == 3 {
        '3'
    } else if d == 4 {
        '4'
    } else if d == 5 {
        '5'
    } else if d == 6 {
        '6'
    } else if d == 7 {
        '7'
    } else if d == 8 {
        '8'
    } else {
        '9'
    }
}

/// `n` written in decimal, as a `String`. Used for the dedup field (the
/// item identifier as text) and for cache file names.
pub fn usize_to_string(n: usize) -> (s: String)
    ensures
        s@ == spec_digits(n as nat),
{
    let mut rev: Vec<char> = Vec::new();
    let mut m: usize = n;
    let d: usize = m % 10;
    rev.push(digit_to_char(d));
    m = m / 10;
    proof {
        assert(rev@.reverse() =~= seq![digit_char((n % 10) as nat)]);
    }
    while m > 0
        invariant
            m > 0 ==> spec_digits(n as nat) == spec_digits(m as nat) + rev@.reverse(),
            m == 0 ==> spec_digits(n as nat) == rev@.reverse(),
        decreases m,
    {
        let ghost m_old = m as nat;
        let ghost rev_old = rev@;
        let d: usize = m % 10;
        rev.push(digit_to_char(d));
        m = m / 10;
        proof {
            assert(rev@.reverse() =~= seq![digit_char((m_old % 10) as nat)] + rev_old.reverse());
            if m == 0 {
                assert(spec_digits(m_old) == seq![digit_char(m_old)]);
                assert(spec_digits(n as nat) =~= rev@.reverse());
            } else {
                assert(spec_digits(m_old) == spec_digits(m_old / 10).push(
                    digit_char(m_old % 10),
                ));
                assert(spec_digits(m_old / 10).push(digit_char(m_old % 10)) =~= spec_digits(
                    m_old / 10,
                ) + seq![digit_char(m_old % 10)]);
                assert(spec_digits(n as nat) =~= spec_digits(m as nat) + rev@.reverse());
            }
        }
    }
    let mut out: Vec<char> = Vec::new();
    let mut j: usize = 0;
    while j < rev.len()
        invariant
            j <= rev.len(),
            out@ == rev@.reverse().take(j as int),
        decreases rev.len() - j,
    {
        out.push(rev[rev.len() - 1 - j]);
        proof {
            assert(rev@.reverse().take(j + 1 as int) =~= rev@.reverse().take(j as int).push(
                rev@.reverse()[j as int],
            ));
        }
        j = j + 1;
    }
    proof {
        assert(rev@.reverse().take(rev@.len() as int) =~= rev@.reverse());
    }
    chars_to_string(&out)
}

/// Whether two strings hold the same characters.
pub fn str_eq(a: &str, b: &str) -> (r: bool)
    ensures
        r == (a@ == b@),
{
    let na = a.unicode_len();
    let nb = b.unicode_len();
    if na != nb {
        return false;
    }
    let mut i: usize = 0;
    while i < na
        invariant
            i <= na,
            na == a@.len(),
            na == b@.len(),
            forall|k: int| 0 <= k < i ==> a@[k] == b@[k],
        decreases na - i,
    {
        if a.get_char(i) != b.get_char(i) {
            return false;
        }
        i = i + 1;
    }
    proof {
        assert(a@ =~= b@);
    }
    true
}

/// What the lowercase form of a string is: the result of Unicode
/// lowercasing, which depends on the characters alone.
pub uninterp spec fn lower_of(s: Seq<char>) -> Seq<char>;

/// Relies on `str::to_lowercase`: returns the lowercase form of the
/// string, a function of its characters alone; an empty string stays
/// empty.
#[verifier::external_body]
pub(crate) fn lowercased(s: &str) -> (r: String)
    ensures
        r@ == lower_of(s@),
        s@.len() == 0 ==> r@.len() == 0,
{
    s.to_lowercase()
}

/// Tag normalization: every space becomes an underscore; all other
/// characters stay.
pub open spec fn spec_underscored(s: Seq<char>) -> Seq<char> {
    s.map_values(|c: char| if c == ' ' { '_' } else { c })
}

/// Executable form of [`spec_underscored`].
pub fn underscore_spaces(s: &str) -> (r: String)
    ensures
        r@ == spec_underscored(s@),
{
    let n = s.unicode_len();
    let mut r = String::new();
    let mut i: usize = 0;
    while i < n
        invariant
            i <= n,
            n == s@.len(),
            r@ == spec_underscored(s@.take(i as int)),
        decreases n - i,
    {
        let c = s.get_char(i);
        if c == ' ' {
            push_char(&mut r, '_');
        } else {
            push_char(&mut r, c);
        }
        proof {
            assert(spec_underscored(s@.take(i + 1 as int)) =~= spec_underscored(
                s@.take(i as int),
            ).push(if s@[i as int] == ' ' { '_' } else { s@[i as int] }));
        }
        i = i + 1;
    }
    proof {
        assert(s@.take(n as int) =~= s@);
    }
    r
}

/// The parts joined by the separator: nothing for no parts, and the
/// separator between every two neighbouring parts otherwise.
pub open spec fn spec_join(parts: Seq<Seq<char>>, sep: Seq<char>) -> Seq<char>
    decreases parts.len(),
{
    if parts.len() == 0 {
        Seq::empty()
    } else if parts.len() == 1 {
        parts[0]
    } else {
        parts[0] + sep + spec_join(parts.skip(1), sep)
    }
}

/// Appending one part to a join appends a separator and the part
/// (or is just the part, when there was nothing yet).
proof fn lemma_join_push(parts: Seq<Seq<char>>, sep: Seq<char>, x: Seq<char>)
    ensures
        spec_join(parts.push(x), sep) == if parts.len() == 0 {
            x
        } else {
            spec_join(parts, sep) + sep + x
        },
    decreases parts.len(),
{
    if parts.len() == 0 {
        assert(parts.push(x)[0] == x);
        assert(spec_join(parts.push(x), sep) == x);
    } else {
        assert(parts.push(x).skip(1) =~= parts.skip(1).push(x));
        lemma_join_push(parts.skip(1), sep, x);
        if parts.len() == 1 {
            assert(parts.skip(1).len() == 0);
            assert(spec_join(parts.push(x), sep) == parts[0] + sep + x);
            assert(spec_join(parts, sep) == parts[0]);
        } else {
            assert(spec_join(parts.push(x), sep) == parts[0] + sep + (spec_join(parts.skip(1), sep)
                + sep + x));
            assert(parts[0] + sep + (spec_join(parts.skip(1), sep) + sep + x) =~= (parts[0] + sep
                + spec_join(parts.skip(1), sep)) + sep + x);
        }
    }
}

/// The strings of `parts` joined by `sep`, in order.
pub fn join_strings(parts: &Vec<String>, sep: &str) -> (r: String)
    ensures
        r@ == spec_join(parts@.map_values(|p: String| p@), sep@),
{
    let mut r = String::new();
    let mut i: usize = 0;
    while i < parts.len()
        invariant
            i <= parts.len(),
            r@ == spec_join(parts@.map_values(|p: String| p@).take(i as int), sep@),
        decreases parts.len() - i,
    {
        if i > 0 {
            r.append(sep);
        }
        r.append(parts[i].as_str());
        proof {
            let m = parts@.map_values(|p: String| p@);
            assert(m.take(i + 1 as int) =~= m.take(i as int).push(m[i as int]));
            lemma_join_push(m.take(i as int), sep@, m[i as int]);
        }
        i = i + 1;
    }
    proof {
        let m = parts@.map_values(|p: String| p@);
        assert(m.take(parts@.len() as int) =~= m);
    }
    r
}

} // verus!
