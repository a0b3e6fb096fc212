//! Rendering values as JSON text.
//!
//! The output document of a batch run is one JSON document, so the library
//! renders its own [`Value`] trees: pretty-printed with two-space
//! indentation for the output file, compact for embedding a value inside a
//! line of text.  The exact character sequence produced is pinned down by
//! [`spec_json`].

use vstd::prelude::*;

use crate::numfmt::digit_char;
use crate::numfmt::spec_dec_int;
use crate::numfmt::push_dec_i64;
use crate::text::push_chars;
use crate::text::push_str_chars;
use crate::text::chars_of;
use crate::text::string_from_chars;
use crate::value::vals_of;
use crate::value::fields_of;
use crate::value::Val;
use crate::value::Value;

verus! {

broadcast use vstd::seq::group_seq_axioms, vstd::std_specs::vec::group_vec_axioms;

/// The lowercase hexadecimal digit character for `d`, 0 through 15.
pub open spec fn spec_hex_digit(d: int) -> char {
    if d < 10 {
        crate::numfmt::spec_digit(d)
    } else if d == 10 {
        'a'
    } else if d == 11 {
        'b'
    } else if d == 12 {
        'c'
    } else if d == 13 {
        'd'
    } else if d == 14 {
        'e'
    } else {
        'f'
    }
}

/// How one character appears inside a JSON string literal: quotes and
/// backslashes are escaped, the named control characters use their short
/// escapes, any other control character a `\u00..` escape, and everything
/// else stands as itself.
pub open spec fn spec_escape_char(c: char) -> Seq<char> {
    if c == '"' {
        seq!['\\', '"']
    } else if c == '\\' {
        seq!['\\', '\\']
    } else if c == '\u{8}' {
        seq!['\\', 'b']
    } else if c == '\u{c}' {
        seq!['\\', 'f']
    } else if c == '\n' {
        seq!['\\', 'n']
    } else if c == '\r' {
        seq!['\\', 'r']
    } else if c == '\t' {
        seq!['\\', 't']
    } else if (c as int) < 0x20 {
        seq!['\\', 'u', '0', '0', spec_hex_digit((c as int) / 16), spec_hex_digit((c as int) % 16)]
    } else {
        seq![c]
    }
}

/// The body of a JSON string literal for `s`.
pub open spec fn spec_escape(s: Seq<char>) -> Seq<char>
    decreases s.len(),
{
    if s.len() == 0 {
        Seq::empty()
    } else {
        spec_escape(s.drop_last()) + spec_escape_char(s.last())
    }
}

/// The JSON string literal for `s`, quotes included.
pub open spec fn spec_quote(s: Seq<char>) -> Seq<char> {
    seq!['"'] + spec_escape(s) + seq!['"']
}

/// What separates two successive items: a comma, and on the pretty form a
/// line break followed by the items' indentation.
pub open spec fn spec_sep(pretty: bool, ind: Seq<char>) -> Seq<char> {
    if pretty {
        seq![',', '\n'] + ind
    } else {
        seq![',']
    }
}

/// The JSON rendering of a value.  `ind` is the indentation the value's
/// closing bracket sits at; nested items are indented two spaces deeper.
/// The compact form (`pretty == false`) uses no whitespace at all.
pub open spec fn spec_json(v: Val, pretty: bool, ind: Seq<char>) -> Seq<char>
    decreases v, 0int,
{
    match v {
        Val::Null => seq!['n', 'u', 'l', 'l'],
        Val::Bool(b) => if b {
            seq!['t', 'r', 'u', 'e']
        } else {
            seq!['f', 'a', 'l', 's', 'e']
        },
        Val::Int(i) => spec_dec_int(i),
        Val::Num(s) => s,
        Val::Str(s) => spec_quote(s),
        Val::Arr(items) => {
            if items.len() == 0 {
                seq!['[', ']']
            } else {
                spec_arr_block(items, pretty, ind)
            }
        },
        Val::Obj(fields) => {
            if fields.len() == 0 {
                seq!['{', '}']
            } else {
                spec_obj_block(fields, pretty, ind)
            }
        },
    }
}

/// A non-empty JSON array, brackets included.
pub open spec fn spec_arr_block(items: Seq<Val>, pretty: bool, ind: Seq<char>) -> Seq<char>
    decreases items, 2int,
{
    if pretty {
        let ind2 = ind + seq![' ', ' '];
        seq!['[', '\n'] + ind2 + spec_arr_items(items, true, ind2) + seq!['\n'] + ind + seq![']']
    } else {
        seq!['['] + spec_arr_items(items, false, ind) + seq![']']
    }
}

/// The items of a JSON array, joined by separators, brackets not included.
pub open spec fn spec_arr_items(items: Seq<Val>, pretty: bool, ind: Seq<char>) -> Seq<char>
    decreases items, 1int,
{
    if items.len() == 0 {
        Seq::empty()
    } else if items.len() == 1 {
        spec_json(items.last(), pretty, ind)
    } else {
        spec_arr_items(items.drop_last(), pretty, ind) + spec_sep(pretty, ind) + spec_json(
            items.last(),
            pretty,
            ind,
        )
    }
}

/// A non-empty JSON object, braces included.
pub open spec fn spec_obj_block(fields: Seq<(Seq<char>, Val)>, pretty: bool, ind: Seq<char>) -> Seq<
    char,
>
    decreases fields, 3int,
{
    if pretty {
        let ind2 = ind + seq![' ', ' '];
        seq!['{', '\n'] + ind2 + spec_obj_items(fields, true, ind2) + seq!['\n'] + ind + seq!['}']
    } else {
        seq!['{'] + spec_obj_items(fields, false, ind) + seq!['}']
    }
}

/// One `"key": value` entry of a JSON object.
pub open spec fn spec_obj_entry(key: Seq<char>, v: Val, pretty: bool, ind: Seq<char>) -> Seq<char>
    decreases v, 1int,
{
    if pretty {
        spec_quote(key) + seq![':', ' '] + spec_json(v, true, ind)
    } else {
        spec_quote(key) + seq![':'] + spec_json(v, false, ind)
    }
}

/// The entries of a JSON object, joined by separators, braces not included.
pub open spec fn spec_obj_items(fields: Seq<(Seq<char>, Val)>, pretty: bool, ind: Seq<char>) -> Seq<
    char,
>
    decreases fields, 2int,
{
    if fields.len() == 0 {
        Seq::empty()
    } else if fields.len() == 1 {
        spec_obj_entry(fields.last().0, fields.last().1, pretty, ind)
    } else {
        spec_obj_items(fields.drop_last(), pretty, ind) + spec_sep(pretty, ind) + spec_obj_entry(
            fields.last().0,
            fields.last().1,
            pretty,
            ind,
        )
    }
}

/// Append the escape of one character.
fn push_escaped_char(out: &mut Vec<char>, c: char)
    ensures
        final(out)@ == old(out)@ + spec_escape_char(c),
{
    if c == '"' {
        out.push('\\');
        out.push('"');
    } else if c == '\\' {
        out.push('\\');
        out.push('\\');
    } else if c == '\u{8}' {
        out.push('\\');
        out.push('b');
    } else if c == '\u{c}' {
        out.push('\\');
        out.push('f');
    } else if c == '\n' {
        out.push('\\');
        out.push('n');
    } else if c == '\r' {
        out.push('\\');
        out.push('r');
    } else if c == '\t' {
        out.push('\\');
        out.push('t');
    } else if (c as u32) < 0x20 {
        let x = c as u32;
        out.push('\\');
        out.push('u');
        out.push('0');
        out.push('0');
        out.push(digit_char((x / 16) as u8));
        let lo = (x % 16) as u8;
        if lo < 10 {
            out.push(digit_char(lo));
        } else if lo == 10 {
            out.push('a');
        } else if lo == 11 {
            out.push('b');
        } else if lo == 12 {
            out.push('c');
        } else if lo == 13 {
            out.push('d');
        } else if lo == 14 {
            out.push('e');
        } else {
            out.push('f');
        }
    } else {
        out.push(c);
    }
    assert(out@ =~= old(out)@ + spec_escape_char(c));
}

/// Append the JSON string literal for `s`, quotes included.
fn push_quoted(out: &mut Vec<char>, s: &str)
    ensures
        final(out)@ == old(out)@ + spec_quote(s@),
{
    let cs = chars_of(s);
    let n = cs.len();
    out.push('"');
    let mut i: usize = 0;
    while i < n
        invariant
            i <= n,
            n == cs@.len(),
            cs@ == s@,
            out@ == old(out)@ + seq!['"'] + spec_escape(s@.subrange(0, i as int)),
        decreases n - i,
    {
        proof {
            assert(s@.subrange(0, i + 1 as int).drop_last() =~= s@.subrange(0, i as int));
            assert(s@.subrange(0, i + 1 as int).last() == s@[i as int]);
        }
        push_escaped_char(out, cs[i]);
        proof {
            assert(out@ =~= old(out)@ + seq!['"'] + spec_escape(s@.subrange(0, i + 1 as int)));
        }
        i = i + 1;
    }
    out.push('"');
    proof {
        assert(s@.subrange(0, n as int) =~= s@);
        assert(out@ =~= old(out)@ + spec_quote(s@));
    }
}

/// `ind` deepened by one level of two spaces.
fn indent_deeper(ind: &Vec<char>) -> (r: Vec<char>)
    ensures
        r@ == ind@ + seq![' ', ' '],
{
    let mut r: Vec<char> = Vec::new();
    push_chars(&mut r, ind);
    r.push(' ');
    r.push(' ');
    assert(r@ =~= ind@ + seq![' ', ' ']);
    r
}

/// Append the JSON rendering of `v` at indentation `ind`.
fn write_value(out: &mut Vec<char>, v: &Value, pretty: bool, ind: &Vec<char>)
    ensures
        final(out)@ == old(out)@ + spec_json(v@, pretty, ind@),
    decreases v, 0int,
{
    match v {
        Value::Null => {
            out.push('n');
            out.push('u');
            out.push('l');
            out.push('l');
            assert(out@ =~= old(out)@ + spec_json(v@, pretty, ind@));
        },
        Value::Bool(b) => {
            if *b {
                out.push('t');
                out.push('r');
                out.push('u');
                out.push('e');
            } else {
                out.push('f');
                out.push('a');
                out.push('l');
                out.push('s');
                out.push('e');
            }
            assert(out@ =~= old(out)@ + spec_json(v@, pretty, ind@));
        },
        Value::Int(i) => {
            push_dec_i64(out, *i);
        },
        Value::Num(s) => {
            push_str_chars(out, s.as_str());
        },
        Value::Str(s) => {
            push_quoted(out, s.as_str());
        },
        Value::Arr(items) => {
            if items.len() == 0 {
                out.push('[');
                out.push(']');
                assert(out@ =~= old(out)@ + spec_json(v@, pretty, ind@));
            } else {
                proof {
                    assert(decreases_to!(*v => *items));
                }
                write_arr(out, items, pretty, ind);
            }
        },
        Value::Obj(fields) => {
            if fields.len() == 0 {
                out.push('{');
                out.push('}');
                assert(out@ =~= old(out)@ + spec_json(v@, pretty, ind@));
            } else {
                proof {
                    assert(decreases_to!(*v => *fields));
                }
                write_obj(out, fields, pretty, ind);
            }
        },
    }
}

/// Append a non-empty JSON array of the given items at indentation `ind`.
#[verifier::loop_isolation(false)]
fn write_arr(out: &mut Vec<char>, items: &Vec<Value>, pretty: bool, ind: &Vec<char>)
    requires
        items@.len() >= 1,
    ensures
        final(out)@ == old(out)@ + spec_arr_block(vals_of(items@), pretty, ind@),
    decreases items, 1int,
{
    let ghost vals = vals_of(items@);
    let n = items.len();
    let ind2 = indent_deeper(ind);
    out.push('[');
    if pretty {
        out.push('\n');
        push_chars(out, &ind2);
    }
    let ghost cind = if pretty {
        ind2@
    } else {
        ind@
    };
    let ghost opening = if pretty {
        seq!['[', '\n'] + ind2@
    } else {
        seq!['[']
    };
    proof {
        assert(out@ =~= old(out)@ + opening);
        assert(vals.subrange(0, 0) =~= Seq::<Val>::empty());
    }
    let mut i: usize = 0;
    while i < n
        invariant
            i <= n,
            out@ == old(out)@ + opening + spec_arr_items(vals.subrange(0, i as int), pretty, cind),
        decreases n - i,
    {
        if i > 0 {
            out.push(',');
            if pretty {
                out.push('\n');
                push_chars(out, &ind2);
            }
        }
        proof {
            assert(decreases_to!(*items => items@));
            assert(decreases_to!(items@ => items@[i as int]));
        }
        write_value(out, &items[i], pretty, if pretty {
            &ind2
        } else {
            ind
        });
        proof {
            lemma_arr_items_snoc(vals, i as int, pretty, cind);
            assert(vals[i as int] == items@[i as int]@);
            assert(out@ =~= old(out)@ + opening + spec_arr_items(
                vals.subrange(0, i + 1 as int),
                pretty,
                cind,
            ));
        }
        i = i + 1;
    }
    if pretty {
        out.push('\n');
        push_chars(out, ind);
    }
    out.push(']');
    proof {
        assert(vals.subrange(0, n as int) =~= vals);
        assert(out@ =~= old(out)@ + spec_arr_block(vals, pretty, ind@));
    }
}

/// Append a non-empty JSON object of the given fields at indentation `ind`.
#[verifier::loop_isolation(false)]
fn write_obj(out: &mut Vec<char>, fields: &Vec<(String, Value)>, pretty: bool, ind: &Vec<char>)
    requires
        fields@.len() >= 1,
    ensures
        final(out)@ == old(out)@ + spec_obj_block(fields_of(fields@), pretty, ind@),
    decreases fields, 1int,
{
    let ghost fvals = fields_of(fields@);
    let n = fields.len();
    let ind2 = indent_deeper(ind);
    out.push('{');
    if pretty {
        out.push('\n');
        push_chars(out, &ind2);
    }
    let ghost cind = if pretty {
        ind2@
    } else {
        ind@
    };
    let ghost opening = if pretty {
        seq!['{', '\n'] + ind2@
    } else {
        seq!['{']
    };
    proof {
        assert(out@ =~= old(out)@ + opening);
        assert(fvals.subrange(0, 0) =~= Seq::<(Seq<char>, Val)>::empty());
    }
    let mut i: usize = 0;
    while i < n
        invariant
            i <= n,
            out@ == old(out)@ + opening + spec_obj_items(fvals.subrange(0, i as int), pretty, cind),
        decreases n - i,
    {
        if i > 0 {
            out.push(',');
            if pretty {
                out.push('\n');
                push_chars(out, &ind2);
            }
        }
        let pair = &fields[i];
        push_quoted(out, pair.0.as_str());
        out.push(':');
        if pretty {
            out.push(' ');
        }
        proof {
            assert(decreases_to!(*fields => fields@));
            assert(decreases_to!(fields@ => fields@[i as int]));
            assert(decreases_to!(fields@[i as int] => fields@[i as int].1));
        }
        write_value(out, &pair.1, pretty, if pretty {
            &ind2
        } else {
            ind
        });
        proof {
            lemma_obj_items_snoc(fvals, i as int, pretty, cind);
            assert(fvals[i as int] == (fields@[i as int].0@, fields@[i as int].1@));
            assert(out@ =~= old(out)@ + opening + spec_obj_items(
                fvals.subrange(0, i + 1 as int),
                pretty,
                cind,
            ));
        }
        i = i + 1;
    }
    if pretty {
        out.push('\n');
        push_chars(out, ind);
    }
    out.push('}');
    proof {
        assert(fvals.subrange(0, n as int) =~= fvals);
        assert(out@ =~= old(out)@ + spec_obj_block(fvals, pretty, ind@));
    }
}

/// Extending a prefix of items by one item appends one separator (past the
/// first item) and the item's rendering.
proof fn lemma_arr_items_snoc(vals: Seq<Val>, i: int, pretty: bool, ind: Seq<char>)
    requires
        0 <= i < vals.len(),
    ensures
        i == 0 ==> spec_arr_items(vals.subrange(0, 1), pretty, ind) == spec_json(
            vals[0],
            pretty,
            ind,
        ),
        i > 0 ==> spec_arr_items(vals.subrange(0, i + 1), pretty, ind) == spec_arr_items(
            vals.subrange(0, i),
            pretty,
            ind,
        ) + spec_sep(pretty, ind) + spec_json(vals[i], pretty, ind),
{
    let p = vals.subrange(0, i + 1);
    assert(p.drop_last() =~= vals.subrange(0, i));
    assert(p.last() == vals[i]);
}

/// The object form of [`lemma_arr_items_snoc`].
proof fn lemma_obj_items_snoc(fvals: Seq<(Seq<char>, Val)>, i: int, pretty: bool, ind: Seq<char>)
    requires
        0 <= i < fvals.len(),
    ensures
        i == 0 ==> spec_obj_items(fvals.subrange(0, 1), pretty, ind) == spec_obj_entry(
            fvals[0].0,
            fvals[0].1,
            pretty,
            ind,
        ),
        i > 0 ==> spec_obj_items(fvals.subrange(0, i + 1), pretty, ind) == spec_obj_items(
            fvals.subrange(0, i),
            pretty,
            ind,
        ) + spec_sep(pretty, ind) + spec_obj_entry(fvals[i].0, fvals[i].1, pretty, ind),
{
    let p = fvals.subrange(0, i + 1);
    assert(p.drop_last() =~= fvals.subrange(0, i));
    assert(p.last() == fvals[i]);
}

/// The pretty-printed JSON document for `v`, indented two spaces per level.
pub fn to_json_pretty(v: &Value) -> (r: String)
    ensures
        r@ == spec_json(v@, true, Seq::<char>::empty()),
{
    let mut out: Vec<char> = Vec::new();
    let ind: Vec<char> = Vec::new();
    write_value(&mut out, v, true, &ind);
    proof {
        assert(out@ =~= spec_json(v@, true, Seq::<char>::empty()));
    }
    string_from_chars(&out)
}

/// The compact JSON rendering of `v`, with no whitespace.
pub fn to_json_compact(v: &Value) -> (r: String)
    ensures
        r@ == spec_json(v@, false, Seq::<char>::empty()),
{
    let mut out: Vec<char> = Vec::new();
    let ind: Vec<char> = Vec::new();
    write_value(&mut out, v, false, &ind);
    proof {
        assert(out@ =~= spec_json(v@, false, Seq::<char>::empty()));
    }
    string_from_chars(&out)
}

} // verus!
