//! Character-level text utilities.
//!
//! All text algorithms in this crate work on `Vec<char>`, obtained from a
//! `&str` by [`chars_of`] and turned back into a `String` by
//! [`string_from_chars`].  The two Unicode character classes the pipeline
//! cares about, alphabetic and whitespace, are taken from the standard
//! library and named by the uninterpreted spec functions [`is_alpha`] and
//! [`is_white`].

use vstd::prelude::*;

verus! {

/// The Unicode `Alphabetic` property of a character, as decided by
/// `char::is_alphabetic`.
pub uninterp spec fn is_alpha(c: char) -> bool;

/// The Unicode `White_Space` property of a character, as decided by
/// `char::is_whitespace`.
pub uninterp spec fn is_white(c: char) -> bool;

/// Relies on `char::is_alphabetic`: whether the character has the Unicode
/// `Alphabetic` property, a function of the character alone.
#[verifier::external_body]
pub fn char_is_alphabetic(c: char) -> (r: bool)
    ensures
        r == is_alpha(c),
{
    c.is_alphabetic()
}

/// Relies on `char::is_whitespace`: whether the character has the Unicode
/// `White_Space` property, a function of the character alone.
#[verifier::external_body]
pub fn char_is_whitespace(c: char) -> (r: bool)
    ensures
        r == is_white(c),
{
    c.is_whitespace()
}

/// Relies on `String: FromIterator<char>`: collecting characters yields the
/// string with exactly those characters, in order.
#[verifier::external_body]
pub fn string_from_chars(v: &Vec<char>) -> (s: String)
    ensures
        s@ == v@,
{
    v.iter().collect()
}

/// The characters of a string slice, as a vector.
pub fn chars_of(s: &str) -> (v: Vec<char>)
    ensures
        v@ == s@,
{
    let n = s.unicode_len();
    let mut v: Vec<char> = Vec::new();
    let mut i: usize = 0;
    while i < n
        invariant
            i <= n,
            n == s@.len(),
            v@ == s@.subrange(0, i as int),
        decreases n - i,
    {
        v.push(s.get_char(i));
        assert(v@ =~= s@.subrange(0, i + 1 as int));
        i = i + 1;
    }
    assert(v@ =~= s@);
    v
}

/// Whether two string slices hold the same characters.
pub fn str_eq(a: &str, b: &str) -> (r: bool)
    ensures
        r == (a@ == b@),
{
    let na = a.unicode_len();
    let nb = b.unicode_len();
    if na != nb {
        assert(a@ != b@) by {
            assert(a@.len() != b@.len());
        }
        return false;
    }
    let mut i: usize = 0;
    while i < na
        invariant
            i <= na,
            na == a@.len(),
            na == b@.len(),
            forall|j: int| 0 <= j < i ==> a@[j] == b@[j],
        decreases na - i,
    {
        if a.get_char(i) != b.get_char(i) {
            return false;
        }
        i = i + 1;
    }
    proof {
        assert(a@ =~= b@);
    }
    true
}

/// The index of the first character of `s` from `from` on that is not
/// whitespace, or the length of `s` if there is none.
pub open spec fn first_non_white(s: Seq<char>, from: int) -> int
    decreases s.len() - from,
{
    if from < 0 || from >= s.len() {
        s.len() as int
    } else if is_white(s[from]) {
        first_non_white(s, from + 1)
    } else {
        from
    }
}

/// The index one past the last character of `s` before `to` that is not
/// whitespace, or 0 if there is none.
pub open spec fn last_non_white_end(s: Seq<char>, to: int) -> int
    decreases to,
{
    if to <= 0 || to > s.len() {
        0
    } else if is_white(s[to - 1]) {
        last_non_white_end(s, to - 1)
    } else {
        to
    }
}

/// What trimming whitespace from both ends of `s` leaves.
pub open spec fn spec_trim(s: Seq<char>) -> Seq<char> {
    let a = first_non_white(s, 0);
    let b = last_non_white_end(s, s.len() as int);
    if a < b {
        s.subrange(a, b)
    } else {
        Seq::empty()
    }
}

proof fn lemma_first_non_white_bounds(s: Seq<char>, from: int)
    requires
        0 <= from <= s.len(),
    ensures
        from <= first_non_white(s, from) <= s.len(),
        forall|j: int| from <= j < first_non_white(s, from) ==> is_white(s[j]),
        first_non_white(s, from) < s.len() ==> !is_white(s[first_non_white(s, from)]),
    decreases s.len() - from,
{
    if from < s.len() && is_white(s[from]) {
        lemma_first_non_white_bounds(s, from + 1);
    }
}

proof fn lemma_last_non_white_bounds(s: Seq<char>, to: int)
    requires
        0 <= to <= s.len(),
    ensures
        0 <= last_non_white_end(s, to) <= to,
        forall|j: int| last_non_white_end(s, to) <= j < to ==> is_white(s[j]),
        last_non_white_end(s, to) > 0 ==> !is_white(s[last_non_white_end(s, to) - 1]),
    decreases to,
{
    if to > 0 && is_white(s[to - 1]) {
        lemma_last_non_white_bounds(s, to - 1);
    }
}

/// The characters of `v` with leading and trailing whitespace removed.
pub fn trim_chars(v: &Vec<char>) -> (r: Vec<char>)
    ensures
        r@ == spec_trim(v@),
{
    let n = v.len();
    let mut a: usize = 0;
    while a < n && char_is_whitespace(v[a])
        invariant
            a <= n,
            n == v@.len(),
            forall|j: int| 0 <= j < a ==> is_white(v@[j]),
        decreases n - a,
    {
        a = a + 1;
    }
    proof {
        lemma_first_non_white_bounds(v@, 0);
        lemma_first_non_white_step(v@, 0, a as int);
    }
    let mut b: usize = n;
    while b > a && char_is_whitespace(v[b - 1])
        invariant
            a <= b <= n,
            n == v@.len(),
            forall|j: int| b <= j < n ==> is_white(v@[j]),
        decreases b,
    {
        b = b - 1;
    }
    proof {
        lemma_last_non_white_bounds(v@, n as int);
        lemma_last_non_white_step(v@, b as int, n as int, a as int);
    }
    let mut r: Vec<char> = Vec::new();
    let mut i: usize = a;
    while i < b
        invariant
            a <= i <= b <= n,
            n == v@.len(),
            r@ == v@.subrange(a as int, i as int),
        decreases b - i,
    {
        r.push(v[i]);
        assert(r@ =~= v@.subrange(a as int, i + 1 as int));
        i = i + 1;
    }
    proof {
        if a < b {
            assert(r@ =~= spec_trim(v@));
        } else {
            assert(r@ =~= spec_trim(v@));
        }
    }
    r
}

/// If every character before `a` is whitespace and `a` is either the length
/// of `s` or a non-whitespace position, then `a` is `first_non_white(s, 0)`.
proof fn lemma_first_non_white_step(s: Seq<char>, from: int, a: int)
    requires
        0 <= from <= a <= s.len(),
        forall|j: int| from <= j < a ==> is_white(s[j]),
        a < s.len() ==> !is_white(s[a]),
    ensures
        first_non_white(s, from) == a,
    decreases a - from,
{
    if from < a {
        lemma_first_non_white_step(s, from + 1, a);
    }
}

/// If every character from `b` to `to` is whitespace and `b` is either 0 or
/// preceded by a non-whitespace character, then `b` is
/// `last_non_white_end(s, to)` — unless the whole prefix up to `b` is also
/// whitespace, which the bound `a` below rules out for `b > a`.
proof fn lemma_last_non_white_step(s: Seq<char>, b: int, to: int, a: int)
    requires
        0 <= b <= to <= s.len(),
        forall|j: int| b <= j < to ==> is_white(s[j]),
        b > a ==> !is_white(s[b - 1]),
        0 <= a,
    ensures
        b > a ==> last_non_white_end(s, to) == b,
        b <= a ==> last_non_white_end(s, to) <= b,
    decreases to,
{
    lemma_last_non_white_bounds(s, to);
    if to > b {
        lemma_last_non_white_step(s, b, to - 1, a);
    }
}

/// Append every character of `v` to `out`.
pub fn push_chars(out: &mut Vec<char>, v: &Vec<char>)
    ensures
        final(out)@ == old(out)@ + v@,
{
    let n = v.len();
    let mut i: usize = 0;
    while i < n
        invariant
            i <= n,
            n == v@.len(),
            out@ == old(out)@ + v@.subrange(0, i as int),
        decreases n - i,
    {
        out.push(v[i]);
        assert(out@ =~= old(out)@ + v@.subrange(0, i + 1 as int));
        i = i + 1;
    }
    assert(out@ =~= old(out)@ + v@);
}

/// Append every character of `s` to `out`.
pub fn push_str_chars(out: &mut Vec<char>, s: &str)
    ensures
        final(out)@ == old(out)@ + s@,
{
    let v = chars_of(s);
    push_chars(out, &v);
}

/// Trim leading and trailing whitespace from a string, as the completion
/// texts coming back from the provider are trimmed.
pub fn trim_str(s: &str) -> (r: String)
    ensures
        r@ == spec_trim(s@),
{
    let v = chars_of(s);
    let t = trim_chars(&v);
    string_from_chars(&t)
}

} // verus!
