//! Small executable helpers for walking and building strings.
//!
//! Verus models a `String` as a `Seq<char>`, but `std` offers few verified
//! ways to take one apart or build one up character by character.  The
//! helpers here close that gap; the rest of the crate works with `Vec<char>`
//! wherever it has to look at individual characters.

use vstd::prelude::*;

verus! {

/// The characters of `s`, as a vector.
pub fn chars_of(s: &str) -> (v: Vec<char>)
    ensures
        v@ == s@,
{
    let n = s.unicode_len();
    let mut v: Vec<char> = Vec::new();
    let mut i: usize = 0;
    while i < n
        invariant
            i <= n,
            n == s@.len(),
            v@ == s@.subrange(0, i as int),
        decreases n - i,
    {
        v.push(s.get_char(i));
        i += 1;
        proof {
            assert(v@ =~= s@.subrange(0, i as int));
        }
    }
    proof {
        assert(v@ =~= s@);
    }
    v
}

/// Relies on String::push from std: appends exactly one character.
#[verifier::external_body]
pub fn push_char(s: &mut String, c: char)
    ensures
        final(s)@ == old(s)@.push(c),
{
    s.push(c)
}

/// Relies on String::pop from std: removes and returns the last character,
/// or returns None when the string is empty.
#[verifier::external_body]
pub fn pop_char(s: &mut String) -> (r: Option<char>)
    ensures
        old(s)@.len() == 0 ==> final(s)@ == old(s)@ && r is None,
        old(s)@.len() > 0 ==> final(s)@ == old(s)@.drop_last() && r == Some(old(s)@.last()),
{
    s.pop()
}

/// A `String` holding exactly the characters of `v`.
pub fn string_from_chars(v: &Vec<char>) -> (s: String)
    ensures
        s@ == v@,
{
    let mut s = String::new();
    let mut i: usize = 0;
    while i < v.len()
        invariant
            i <= v@.len(),
            s@ == v@.subrange(0, i as int),
        decreases v@.len() - i,
    {
        push_char(&mut s, v[i]);
        i += 1;
        proof {
            assert(s@ =~= v@.subrange(0, i as int));
        }
    }
    proof {
        assert(s@ =~= v@);
    }
    s
}

/// Whether `p` is a prefix of `v`, comparing characters.
pub fn chars_start_with(v: &Vec<char>, p: &Vec<char>) -> (r: bool)
    ensures
        r == p@.is_prefix_of(v@),
{
    if p.len() > v.len() {
        return false;
    }
    let mut i: usize = 0;
    while i < p.len()
        invariant
            i <= p@.len(),
            p@.len() <= v@.len(),
            forall|j: int| 0 <= j < i ==> v@[j] == p@[j],
        decreases p@.len() - i,
    {
        if v[i] != p[i] {
            assert(!p@.is_prefix_of(v@)) by {
                assert(v@.subrange(0, p@.len() as int)[i as int] == v@[i as int]);
            }
            return false;
        }
        i += 1;
    }
    proof {
        assert(p@ =~= v@.subrange(0, p@.len() as int));
    }
    true
}

/// Whether `p` is a prefix of `s`, comparing characters.
pub fn str_starts_with(s: &str, p: &str) -> (r: bool)
    ensures
        r == p@.is_prefix_of(s@),
{
    let sv = chars_of(s);
    let pv = chars_of(p);
    chars_start_with(&sv, &pv)
}

/// Whether the two character vectors are equal.
pub fn chars_equal(a: &Vec<char>, b: &Vec<char>) -> (r: bool)
    ensures
        r == (a@ == b@),
{
    if a.len() != b.len() {
        return false;
    }
    let mut i: usize = 0;
    while i < a.len()
        invariant
            i <= a@.len(),
            a@.len() == b@.len(),
            forall|j: int| 0 <= j < i ==> a@[j] == b@[j],
        decreases a@.len() - i,
    {
        if a[i] != b[i] {
            return false;
        }
        i += 1;
    }
    proof {
        assert(a@ =~= b@);
    }
    true
}

/// Whether two string slices hold the same characters.
pub fn str_eq(a: &str, b: &str) -> (r: bool)
    ensures
        r == (a@ == b@),
{
    let av = chars_of(a);
    let bv = chars_of(b);
    chars_equal(&av, &bv)
}

/// The parts joined by the separator: empty for no parts, and one
/// separator between each adjacent pair.
pub open spec fn join_with(parts: Seq<Seq<char>>, sep: Seq<char>) -> Seq<char>
    decreases parts.len(),
{
    if parts.len() == 0 {
        Seq::empty()
    } else if parts.len() == 1 {
        parts[0]
    } else {
        join_with(parts.drop_last(), sep) + sep + parts.last()
    }
}

/// Joins strings with a separator.
pub fn join_strings(parts: &Vec<String>, sep: &str) -> (r: String)
    ensures
        r@ == join_with(parts.deep_view(), sep@),
{
    let ghost pv = parts.deep_view();
    let mut r = String::new();
    let mut i: usize = 0;
    proof {
        assert(pv.take(0) =~= Seq::<Seq<char>>::empty());
    }
    while i < parts.len()
        invariant
            i <= parts@.len(),
            pv == parts.deep_view(),
            r@ == join_with(pv.take(i as int), sep@),
        decreases parts@.len() - i,
    {
        if i > 0 {
            r.append(sep);
        }
        r.append(parts[i].as_str());
        proof {
            assert(pv.take(i + 1).drop_last() =~= pv.take(i as int));
            assert(pv.take(i + 1).last() == pv[i as int]);
            if i == 0 {
                assert(r@ =~= join_with(pv.take(1), sep@));
            }
        }
        i += 1;
    }
    proof {
        assert(pv.take(parts@.len() as int) =~= pv);
    }
    r
}

/// The ASCII whitespace characters: space, tab, newline, form feed and
/// carriage return.
pub open spec fn is_ascii_ws(c: char) -> bool {
    c == ' ' || c == '\t' || c == '\n' || c == '\u{c}' || c == '\r'
}

/// The characters that count as whitespace in Unicode (the White_Space
/// property, as `char::is_whitespace` reports it).
pub open spec fn is_unicode_ws(c: char) -> bool {
    ||| c == '\t'
    ||| c == '\n'
    ||| c == '\u{b}'
    ||| c == '\u{c}'
    ||| c == '\r'
    ||| c == ' '
    ||| c == '\u{85}'
    ||| c == '\u{a0}'
    ||| c == '\u{1680}'
    ||| c == '\u{2000}'
    ||| c == '\u{2001}'
    ||| c == '\u{2002}'
    ||| c == '\u{2003}'
    ||| c == '\u{2004}'
    ||| c == '\u{2005}'
    ||| c == '\u{2006}'
    ||| c == '\u{2007}'
    ||| c == '\u{2008}'
    ||| c == '\u{2009}'
    ||| c == '\u{200a}'
    ||| c == '\u{2028}'
    ||| c == '\u{2029}'
    ||| c == '\u{202f}'
    ||| c == '\u{205f}'
    ||| c == '\u{3000}'
}

/// ASCII whitespace, executably.
pub fn ascii_ws(c: char) -> (r: bool)
    ensures
        r == is_ascii_ws(c),
{
    c == ' ' || c == '\t' || c == '\n' || c == '\u{c}' || c == '\r'
}

/// Unicode whitespace, executably.
pub fn unicode_ws(c: char) -> (r: bool)
    ensures
        r == is_unicode_ws(c),
{
    c == '\t' || c == '\n' || c == '\u{b}' || c == '\u{c}' || c == '\r' || c == ' ' || c
        == '\u{85}' || c == '\u{a0}' || c == '\u{1680}' || c == '\u{2000}' || c == '\u{2001}' || c
        == '\u{2002}' || c == '\u{2003}' || c == '\u{2004}' || c == '\u{2005}' || c == '\u{2006}'
        || c == '\u{2007}' || c == '\u{2008}' || c == '\u{2009}' || c == '\u{200a}' || c
        == '\u{2028}' || c == '\u{2029}' || c == '\u{202f}' || c == '\u{205f}' || c == '\u{3000}'
}

/// The sequence with leading and trailing whitespace (as `ws` defines it)
/// removed.
pub open spec fn trim_by(s: Seq<char>, ws: spec_fn(char) -> bool) -> Seq<char>
    decreases s.len(),
{
    if s.len() == 0 {
        s
    } else if ws(s.first()) {
        trim_by(s.drop_first(), ws)
    } else if ws(s.last()) {
        trim_by(s.drop_last(), ws)
    } else {
        s
    }
}

/// Trims ASCII whitespace from both ends.
#[verifier::loop_isolation(false)]
#[verifier::rlimit(60)]
pub fn trim_ascii_str(s: &str) -> (r: String)
    ensures
        r@ == trim_by(s@, |c: char| is_ascii_ws(c)),
{
    let ghost ws = |c: char| is_ascii_ws(c);
    let v = chars_of(s);
    let mut a: usize = 0;
    let mut b: usize = v.len();
    proof {
        assert(v@.subrange(0, v@.len() as int) =~= v@);
    }
    while a < b && ascii_ws(v[a])
        invariant
            a <= b <= v@.len(),
            v@ == s@,
            trim_by(s@, ws) == trim_by(v@.subrange(a as int, b as int), ws),
            b == v@.len(),
        decreases b - a,
    {
        proof {
            let sub = v@.subrange(a as int, b as int);
            assert(sub.first() == v@[a as int]);
            assert(sub.drop_first() =~= v@.subrange(a + 1, b as int));
        }
        a += 1;
    }
    while a < b && ascii_ws(v[b - 1])
        invariant
            a <= b <= v@.len(),
            v@ == s@,
            trim_by(s@, ws) == trim_by(v@.subrange(a as int, b as int), ws),
            a < b ==> !ws(v@[a as int]),
        decreases b,
    {
        proof {
            let sub = v@.subrange(a as int, b as int);
            assert(sub.first() == v@[a as int]);
            assert(sub.last() == v@[b - 1]);
            assert(sub.drop_last() =~= v@.subrange(a as int, b - 1));
        }
        b -= 1;
    }
    proof {
        let sub = v@.subrange(a as int, b as int);
        if a < b {
            assert(sub.first() == v@[a as int]);
            assert(sub.last() == v@[b - 1]);
        }
        assert(trim_by(sub, ws) == sub);
    }
    let mut out: Vec<char> = Vec::new();
    let mut i = a;
    while i < b
        invariant
            a <= i <= b <= v@.len(),
            out@ == v@.subrange(a as int, i as int),
        decreases b - i,
    {
        out.push(v[i]);
        i += 1;
        proof {
            assert(out@ =~= v@.subrange(a as int, i as int));
        }
    }
    string_from_chars(&out)
}

/// Trims Unicode whitespace from both ends.
#[verifier::loop_isolation(false)]
#[verifier::rlimit(60)]
pub fn trim_unicode_str(s: &str) -> (r: String)
    ensures
        r@ == trim_by(s@, |c: char| is_unicode_ws(c)),
{
    let ghost ws = |c: char| is_unicode_ws(c);
    let v = chars_of(s);
    let mut a: usize = 0;
    let mut b: usize = v.len();
    proof {
        assert(v@.subrange(0, v@.len() as int) =~= v@);
    }
    while a < b && unicode_ws(v[a])
        invariant
            a <= b <= v@.len(),
            v@ == s@,
            trim_by(s@, ws) == trim_by(v@.subrange(a as int, b as int), ws),
            b == v@.len(),
        decreases b - a,
    {
        proof {
            let sub = v@.subrange(a as int, b as int);
            assert(sub.first() == v@[a as int]);
            assert(sub.drop_first() =~= v@.subrange(a + 1, b as int));
        }
        a += 1;
    }
    while a < b && unicode_ws(v[b - 1])
        invariant
            a <= b <= v@.len(),
            v@ == s@,
            trim_by(s@, ws) == trim_by(v@.subrange(a as int, b as int), ws),
            a < b ==> !ws(v@[a as int]),
        decreases b,
    {
        proof {
            let sub = v@.subrange(a as int, b as int);
            assert(sub.first() == v@[a as int]);
            assert(sub.last() == v@[b - 1]);
            assert(sub.drop_last() =~= v@.subrange(a as int, b - 1));
        }
        b -= 1;
    }
    proof {
        let sub = v@.subrange(a as int, b as int);
        if a < b {
            assert(sub.first() == v@[a as int]);
            assert(sub.last() == v@[b - 1]);
        }
        assert(trim_by(sub, ws) == sub);
    }
    let mut out: Vec<char> = Vec::new();
    let mut i = a;
    while i < b
        invariant
            a <= i <= b <= v@.len(),
            out@ == v@.subrange(a as int, i as int),
        decreases b - i,
    {
        out.push(v[i]);
        i += 1;
        proof {
            assert(out@ =~= v@.subrange(a as int, i as int));
        }
    }
    string_from_chars(&out)
}

} // verus!
