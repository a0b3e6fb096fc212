//! Directory-name sanitization.
//!
//! A piece of text becomes a path-safe name by keeping only its alphabetic
//! characters and standing a single underscore for every run of
//! non-alphabetic characters between them; leading and trailing runs are
//! dropped entirely.  `"Hello, World!  2024"` becomes `"Hello_World"`.

use vstd::prelude::*;

use crate::text::chars_of;
use crate::text::char_is_alphabetic;
use crate::text::is_alpha;
use crate::text::string_from_chars;

verus! {

/// The sanitizer state after reading `s`: the output built so far and
/// whether a separator is owed before the next alphabetic character.
pub open spec fn san_state(s: Seq<char>) -> (Seq<char>, bool)
    decreases s.len(),
{
    if s.len() == 0 {
        (Seq::empty(), false)
    } else {
        let prev = san_state(s.drop_last());
        let c = s.last();
        if is_alpha(c) {
            if prev.1 {
                (prev.0.push('_').push(c), false)
            } else {
                (prev.0.push(c), false)
            }
        } else {
            (prev.0, prev.1 || prev.0.len() > 0)
        }
    }
}

/// What sanitizing `s` yields.
pub open spec fn spec_sanitize(s: Seq<char>) -> Seq<char> {
    san_state(s).0
}

/// The shape every sanitized name has: alphabetic characters and
/// underscores only, and any non-alphabetic character is a single
/// underscore standing strictly between two alphabetic ones.
pub open spec fn wf_slug(a: Seq<char>) -> bool {
    &&& forall|i: int| 0 <= i < a.len() ==> is_alpha(#[trigger] a[i]) || a[i] == '_'
    &&& a.len() > 0 ==> is_alpha(a[0])
    &&& a.len() > 0 ==> is_alpha(a[a.len() - 1])
    &&& forall|i: int|
        0 <= i < a.len() && !is_alpha(#[trigger] a[i]) ==> 0 < i < a.len() - 1 && is_alpha(
            a[i - 1],
        ) && is_alpha(a[i + 1])
}

proof fn lemma_san_state_wf(s: Seq<char>)
    ensures
        wf_slug(san_state(s).0),
        san_state(s).1 ==> san_state(s).0.len() > 0,
    decreases s.len(),
{
    if s.len() > 0 {
        lemma_san_state_wf(s.drop_last());
    }
}

/// On a well-formed slug the sanitizer reproduces its input: after any
/// prefix ending in an alphabetic character the state is the prefix itself
/// with no separator owed, and after a prefix ending in an underscore the
/// state is the prefix short of that underscore with a separator owed.
proof fn lemma_san_state_on_slug(a: Seq<char>, i: int)
    requires
        wf_slug(a),
        0 <= i <= a.len(),
    ensures
        i == 0 ==> san_state(a.subrange(0, i)) == (Seq::<char>::empty(), false),
        i > 0 && is_alpha(a[i - 1]) ==> san_state(a.subrange(0, i)) == (a.subrange(0, i), false),
        i > 0 && !is_alpha(a[i - 1]) ==> san_state(a.subrange(0, i)) == (
            a.subrange(0, i - 1),
            true,
        ),
    decreases i,
{
    if i == 0 {
        assert(a.subrange(0, 0) =~= Seq::<char>::empty());
    } else {
        lemma_san_state_on_slug(a, i - 1);
        let p = a.subrange(0, i);
        assert(p.drop_last() =~= a.subrange(0, i - 1));
        assert(p.last() == a[i - 1]);
        if is_alpha(a[i - 1]) {
            if i == 1 {
                assert(san_state(p).0 =~= p);
            } else if is_alpha(a[i - 2]) {
                assert(san_state(p).0 =~= p);
            } else {
                // the previous character is an underscore owed as separator
                assert(a[i - 2] == '_');
                assert(a.subrange(0, i - 2).push('_').push(a[i - 1]) =~= p);
            }
        } else {
            // a non-alphabetic character inside a slug sits between two
            // alphabetic ones, so output so far is the prefix before it
            assert(0 < i - 1 < a.len() - 1 && is_alpha(a[i - 2]));
            assert(a.subrange(0, i - 1).len() > 0);
        }
    }
}

/// Law: sanitization is idempotent: sanitizing a sanitized text changes
/// nothing.
pub proof fn lemma_sanitize_idempotent(s: Seq<char>)
    ensures
        spec_sanitize(spec_sanitize(s)) == spec_sanitize(s),
{
    lemma_san_state_wf(s);
    let a = spec_sanitize(s);
    lemma_san_state_on_slug(a, a.len() as int);
    assert(a.subrange(0, a.len() as int) =~= a);
    if a.len() > 0 {
        assert(is_alpha(a[a.len() - 1]));
    }
}

/// Sanitize a piece of text into a path-safe directory name.
pub fn sanitize(s: &str) -> (r: String)
    ensures
        r@ == spec_sanitize(s@),
{
    let v = chars_of(s);
    let n = v.len();
    let mut out: Vec<char> = Vec::new();
    let mut pending: bool = false;
    let mut i: usize = 0;
    while i < n
        invariant
            i <= n,
            n == v@.len(),
            v@ == s@,
            (out@, pending) == san_state(s@.subrange(0, i as int)),
        decreases n - i,
    {
        let c = v[i];
        proof {
            assert(s@.subrange(0, i + 1 as int).drop_last() =~= s@.subrange(0, i as int));
            assert(s@.subrange(0, i + 1 as int).last() == s@[i as int]);
        }
        if char_is_alphabetic(c) {
            if pending {
                out.push('_');
            }
            out.push(c);
            pending = false;
        } else {
            if out.len() > 0 {
                pending = true;
            }
        }
        i = i + 1;
    }
    proof {
        assert(s@.subrange(0, n as int) =~= s@);
    }
    string_from_chars(&out)
}

} // verus!
