//! Materializing prompts: variable substitution of a template against a
//! record's fields.
//!
//! A template is plain text with placeholders of the form `{{ name }}`.
//! Materializing replaces each placeholder with the record's field of that
//! name: a string field stands as its text, any other field as its compact
//! JSON rendering.  Substitution is pure — nothing here calls anywhere.  A
//! placeholder naming an absent field fails, naming the field; an opening
//! `{{` that is never closed fails too.

use vstd::prelude::*;

use crate::errors::Error;
use crate::json::spec_json;
use crate::json::to_json_compact;
use crate::text::chars_of;
use crate::text::spec_trim;
use crate::text::string_from_chars;
use crate::text::trim_chars;
use crate::text::push_str_chars;
use crate::value::obj_get;
use crate::value::Record;
use crate::value::Val;
use crate::value::Value;

verus! {

broadcast use vstd::seq::group_seq_axioms, vstd::std_specs::vec::group_vec_axioms;

/// What materializing a template yields: the expanded text, or the name of
/// the missing field, or an unterminated placeholder.
pub enum MatResult {
    Done(Seq<char>),
    Missing(Seq<char>),
    Unclosed,
}

/// How a field value reads inside an expanded template: a string as its
/// text, anything else as its compact JSON rendering.
pub open spec fn spec_render_field(v: Val) -> Seq<char> {
    match v {
        Val::Str(s) => s,
        _ => spec_json(v, false, Seq::empty()),
    }
}

/// The first position `j` at or after `i` where `s[j] == '}'` and
/// `s[j + 1] == '}'`, if any.
pub open spec fn find_close(s: Seq<char>, i: int) -> Option<int>
    decreases s.len() - i,
{
    if i < 0 || i + 2 > s.len() {
        None
    } else if s[i] == '}' && s[i + 1] == '}' {
        Some(i)
    } else {
        find_close(s, i + 1)
    }
}

pub proof fn lemma_find_close_bounds(s: Seq<char>, i: int)
    requires
        0 <= i,
    ensures
        find_close(s, i) matches Some(j) ==> i <= j && j + 2 <= s.len() && s[j] == '}' && s[j + 1]
            == '}',
        find_close(s, i) matches Some(j) ==> forall|k: int|
            i <= k < j ==> !((#[trigger] s[k]) == '}' && s[k + 1] == '}'),
        find_close(s, i) is None ==> forall|k: int|
            i <= k && k + 2 <= s.len() ==> !((#[trigger] s[k]) == '}' && s[k + 1] == '}'),
    decreases s.len() - i,
{
    if i + 2 <= s.len() && !(s[i] == '}' && s[i + 1] == '}') {
        lemma_find_close_bounds(s, i + 1);
    }
}

/// If `j` carries the first `}}` at or after `i`, the search finds it.
pub proof fn lemma_find_close_witness(s: Seq<char>, i: int, j: int)
    requires
        0 <= i <= j,
        j + 2 <= s.len(),
        s[j] == '}' && s[j + 1] == '}',
        forall|k: int| i <= k < j ==> !((#[trigger] s[k]) == '}' && s[k + 1] == '}'),
    ensures
        find_close(s, i) == Some(j),
    decreases j - i,
{
    if i < j {
        lemma_find_close_witness(s, i + 1, j);
    }
}

/// What materializing template text `t` against the fields yields.  The
/// text is read left to right: a `{{` opens a placeholder running to the
/// first `}}`; the name between them, trimmed of whitespace, is looked up
/// among the fields.  Any other character stands as itself.
pub open spec fn spec_materialize(t: Seq<char>, fields: Seq<(Seq<char>, Val)>) -> MatResult
    decreases t.len(),
    via spec_materialize_decreases
{
    if t.len() == 0 {
        MatResult::Done(Seq::empty())
    } else if t.len() >= 2 && t[0] == '{' && t[1] == '{' {
        match find_close(t, 2) {
            Option::None => MatResult::Unclosed,
            Option::Some(j) => {
                let name = spec_trim(t.subrange(2, j));
                match obj_get(fields, name) {
                    Option::None => MatResult::Missing(name),
                    Option::Some(v) => match spec_materialize(
                        t.subrange(j + 2, t.len() as int),
                        fields,
                    ) {
                        MatResult::Done(rest) => MatResult::Done(spec_render_field(v) + rest),
                        other => other,
                    },
                }
            },
        }
    } else {
        match spec_materialize(t.subrange(1, t.len() as int), fields) {
            MatResult::Done(rest) => MatResult::Done(seq![t[0]] + rest),
            other => other,
        }
    }
}

#[via_fn]
proof fn spec_materialize_decreases(t: Seq<char>, fields: Seq<(Seq<char>, Val)>) {
    if t.len() >= 2 && t[0] == '{' && t[1] == '{' {
        lemma_find_close_bounds(t, 2);
    }
}

/// `spec_materialize` composed behind an already-expanded prefix.
pub open spec fn mat_compose(prefix: Seq<char>, m: MatResult) -> MatResult {
    match m {
        MatResult::Done(s) => MatResult::Done(prefix + s),
        other => other,
    }
}

proof fn lemma_mat_compose_empty(m: MatResult)
    ensures
        mat_compose(Seq::empty(), m) == m,
{
    match m {
        MatResult::Done(s) => {
            assert(Seq::empty() + s =~= s);
        },
        _ => {},
    }
}

proof fn lemma_mat_compose_assoc(p1: Seq<char>, p2: Seq<char>, m: MatResult)
    ensures
        mat_compose(p1 + p2, m) == mat_compose(p1, mat_compose(p2, m)),
{
    match m {
        MatResult::Done(s) => {
            assert((p1 + p2) + s =~= p1 + (p2 + s));
        },
        _ => {},
    }
}

/// Materialize `template` against the fields of `record`: substitute every
/// `{{ name }}` placeholder with the record's field of that name.  Returns
/// the expanded text exactly when the spec yields one; a placeholder naming
/// an absent field reports that name, and an unterminated `{{` is refused.
pub fn materialize(template: &str, record: &Record) -> (r: Result<String, Error>)
    ensures
        match r {
            Result::Ok(s) => spec_materialize(template@, record@) == MatResult::Done(s@),
            Result::Err(e) => match e {
                Error::MissingField(k) => spec_materialize(template@, record@)
                    == MatResult::Missing(k@),
                Error::UnclosedPlaceholder => spec_materialize(template@, record@)
                    == MatResult::Unclosed,
                _ => false,
            },
        },
{
    let cs = chars_of(template);
    let n = cs.len();
    let ghost t = template@;
    let mut out: Vec<char> = Vec::new();
    let mut pos: usize = 0;
    proof {
        assert(t.subrange(0, n as int) =~= t);
        lemma_mat_compose_empty(spec_materialize(t, record@));
    }
    while pos < n
        invariant
            pos <= n,
            n == t.len(),
            t == template@,
            cs@ == t,
            spec_materialize(t, record@) == mat_compose(
                out@,
                spec_materialize(t.subrange(pos as int, n as int), record@),
            ),
        decreases n - pos,
    {
        let ghost rest = t.subrange(pos as int, n as int);
        let ghost pos0 = pos as int;
        let ghost out0 = out@;
        if pos + 1 < n && cs[pos] == '{' && cs[pos + 1] == '{' {
            proof {
                assert(rest[0] == '{' && rest[1] == '{');
            }
            // scan for the closing `}}`
            let mut k: usize = pos + 2;
            loop
                invariant
                    pos + 2 <= k <= n,
                    2 <= n == t.len(),
                    cs@ == t,
                    forall|m: int|
                        pos + 2 <= m < k ==> !((#[trigger] t[m]) == '}' && t[m + 1] == '}'),
                ensures
                    pos + 2 <= k <= n,
                    (k <= n - 2 && t[k as int] == '}' && t[k + 1] == '}' && forall|m: int|
                        pos + 2 <= m < k ==> !((#[trigger] t[m]) == '}' && t[m + 1] == '}')) || (k
                        > n - 2 && forall|m: int|
                        pos + 2 <= m && m + 2 <= n ==> !((#[trigger] t[m]) == '}' && t[m + 1]
                        == '}')),
                decreases n - k,
            {
                if k > n - 2 {
                    break ;
                }
                if cs[k] == '}' && cs[k + 1] == '}' {
                    break ;
                }
                k = k + 1;
            }
            if k > n - 2 {
                proof {
                    assert forall|m: int| 2 <= m && m + 2 <= rest.len() implies !((
                    #[trigger] rest[m]) == '}' && rest[m + 1] == '}') by {
                        assert(rest[m] == t[pos + m] && rest[m + 1] == t[pos + m + 1]);
                    }
                    lemma_find_close_bounds(rest, 2);
                    assert(find_close(rest, 2) is None);
                    assert(spec_materialize(rest, record@) == MatResult::Unclosed);
                }
                return Err(Error::UnclosedPlaceholder);
            }
            proof {
                assert forall|m: int| 2 <= m < k - pos implies !((#[trigger] rest[m]) == '}'
                    && rest[m + 1] == '}') by {
                    assert(rest[m] == t[pos + m] && rest[m + 1] == t[pos + m + 1]);
                }
                assert(rest[k - pos] == t[k as int] && rest[k - pos + 1] == t[k + 1]);
                lemma_find_close_witness(rest, 2, k - pos);
            }
            // the placeholder name, trimmed
            let mut raw: Vec<char> = Vec::new();
            let mut m: usize = pos + 2;
            while m < k
                invariant
                    pos + 2 <= m <= k <= n,
                    n == t.len(),
                    cs@ == t,
                    raw@ == t.subrange(pos + 2, m as int),
                decreases k - m,
            {
                raw.push(cs[m]);
                assert(raw@ =~= t.subrange(pos + 2, m + 1 as int));
                m = m + 1;
            }
            proof {
                assert(raw@ =~= rest.subrange(2, k - pos));
            }
            let trimmed = trim_chars(&raw);
            let name = string_from_chars(&trimmed);
            let ghost gname = spec_trim(rest.subrange(2, k - pos));
            match record.get(name.as_str()) {
                Option::None => {
                    proof {
                        assert(spec_materialize(rest, record@) == MatResult::Missing(gname));
                        assert(spec_materialize(t, record@) == MatResult::Missing(name@));
                    }
                    return Err(Error::MissingField(name));
                },
                Option::Some(v) => {
                    let ghost delta = spec_render_field(v@);
                    match v {
                        Value::Str(s) => {
                            push_str_chars(&mut out, s.as_str());
                        },
                        _ => {
                            let rendered = to_json_compact(v);
                            push_str_chars(&mut out, rendered.as_str());
                        },
                    }
                    proof {
                        assert(out@ == out0 + delta);
                    }
                    pos = k + 2;
                    proof {
                        assert(rest.subrange(k - pos0 + 2, rest.len() as int) =~= t.subrange(
                            pos as int,
                            n as int,
                        ));
                        assert(spec_materialize(rest, record@) == mat_compose(
                            delta,
                            spec_materialize(t.subrange(pos as int, n as int), record@),
                        ));
                        lemma_mat_compose_assoc(
                            out0,
                            delta,
                            spec_materialize(t.subrange(pos as int, n as int), record@),
                        );
                    }
                },
            }
        } else {
            let c = cs[pos];
            out.push(c);
            proof {
                assert(rest[0] == t[pos as int]);
                if pos + 1 < n {
                    assert(rest[1] == t[pos + 1]);
                }
                assert(!(rest.len() >= 2 && rest[0] == '{' && rest[1] == '{'));
                assert(rest.subrange(1, rest.len() as int) =~= t.subrange(pos + 1, n as int));
                assert(spec_materialize(rest, record@) == mat_compose(
                    seq![t[pos as int]],
                    spec_materialize(t.subrange(pos + 1, n as int), record@),
                ));
                assert(out@ =~= out0 + seq![t[pos as int]]);
                lemma_mat_compose_assoc(
                    out0,
                    seq![t[pos as int]],
                    spec_materialize(t.subrange(pos + 1, n as int), record@),
                );
            }
            pos = pos + 1;
        }
    }
    proof {
        assert(t.subrange(n as int, n as int) =~= Seq::<char>::empty());
        assert(spec_materialize(t, record@) == MatResult::Done(out@));
    }
    Ok(string_from_chars(&out))
}

/// A record readied for rendering: the two named fields, which must hold
/// text, are sanitized and injected back under their names suffixed
/// `_slug`, so a template can build a canonical, path-safe URL.  A named
/// field that is absent, or that holds anything but text, is refused by its
/// name, the first of the two to fail deciding.
pub fn with_slug_fields(record: &Record, category_key: &str, title_key: &str) -> (r: Result<
    Record,
    Error,
>)
    ensures
        match r {
            Result::Ok(r2) => {
                &&& obj_get(record@, category_key@) matches Some(Val::Str(c))
                &&& obj_get(record@, title_key@) matches Some(Val::Str(ti))
                &&& (obj_get(record@, category_key@) matches Some(Val::Str(c)) && obj_get(
                    record@,
                    title_key@,
                ) matches Some(Val::Str(ti)) ==> r2@ == crate::value::obj_set(
                    crate::value::obj_set(
                        record@,
                        category_key@ + "_slug"@,
                        Val::Str(crate::sanitize::spec_sanitize(c)),
                    ),
                    title_key@ + "_slug"@,
                    Val::Str(crate::sanitize::spec_sanitize(ti)),
                ))
            },
            Result::Err(e) => match e {
                Error::MissingField(k) => (k@ == category_key@ && obj_get(record@, category_key@)
                    is None) || (k@ == title_key@ && (obj_get(record@, category_key@) matches Some(
                    Val::Str(_),
                )) && obj_get(record@, title_key@) is None),
                Error::FieldNotText(k) => (k@ == category_key@ && (obj_get(
                    record@,
                    category_key@,
                ) matches Some(v) && !(v is Str))) || (k@ == title_key@ && (obj_get(
                    record@,
                    category_key@,
                ) matches Some(Val::Str(_))) && (obj_get(record@, title_key@) matches Some(v) && !(
                v is Str))),
                _ => false,
            },
        },
{
    let category = match record.get(category_key) {
        Option::None => {
            return Err(Error::MissingField(String::from_str(category_key)));
        },
        Option::Some(Value::Str(s)) => s.clone(),
        Option::Some(_) => {
            return Err(Error::FieldNotText(String::from_str(category_key)));
        },
    };
    let title = match record.get(title_key) {
        Option::None => {
            return Err(Error::MissingField(String::from_str(title_key)));
        },
        Option::Some(Value::Str(s)) => s.clone(),
        Option::Some(_) => {
            return Err(Error::FieldNotText(String::from_str(title_key)));
        },
    };
    let mut out = Record { fields: crate::value::copy_fields(&record.fields) };
    let mut ck = String::from_str(category_key);
    ck.append("_slug");
    let mut tk = String::from_str(title_key);
    tk.append("_slug");
    out.set(ck.as_str(), Value::Str(crate::sanitize::sanitize(category.as_str())));
    out.set(tk.as_str(), Value::Str(crate::sanitize::sanitize(title.as_str())));
    Ok(out)
}

/// Materialize one template against every record, in record order: the i-th
/// prompt answers the i-th record.  The first record that fails stops the
/// whole materialization, so a prompt list is only ever handed out whole.
pub fn materialize_all(template: &str, records: &Vec<Record>) -> (r: Result<Vec<String>, Error>)
    ensures
        match r {
            Result::Ok(prompts) => {
                &&& prompts@.len() == records@.len()
                &&& forall|i: int|
                    0 <= i < records@.len() ==> spec_materialize(template@, records@[i]@)
                        == MatResult::Done((#[trigger] prompts@[i])@)
            },
            Result::Err(e) => exists|i: int|
                {
                    &&& 0 <= i < records@.len()
                    &&& forall|j: int|
                        0 <= j < i ==> spec_materialize(template@, (#[trigger] records@[j])@)
                            is Done
                    &&& match e {
                        Error::MissingField(k) => spec_materialize(template@, #[trigger] records@[i]@)
                            == MatResult::Missing(k@),
                        Error::UnclosedPlaceholder => spec_materialize(template@, records@[i]@)
                            == MatResult::Unclosed,
                        _ => false,
                    }
                },
        },
{
    let n = records.len();
    let mut prompts: Vec<String> = Vec::new();
    let mut i: usize = 0;
    while i < n
        invariant
            i <= n,
            n == records@.len(),
            prompts@.len() == i,
            forall|j: int|
                0 <= j < i ==> spec_materialize(template@, records@[j]@) == MatResult::Done(
                    (#[trigger] prompts@[j])@,
                ),
        decreases n - i,
    {
        match materialize(template, &records[i]) {
            Result::Ok(p) => {
                prompts.push(p);
            },
            Result::Err(e) => {
                proof {
                    assert forall|j: int| 0 <= j < i implies spec_materialize(
                        template@,
                        (#[trigger] records@[j])@,
                    ) is Done by {
                        assert(spec_materialize(template@, records@[j]@) == MatResult::Done(
                            (prompts@[j])@,
                        ));
                    }
                }
                return Err(e);
            },
        }
        i = i + 1;
    }
    Ok(prompts)
}

} // verus!
