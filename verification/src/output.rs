//! Output artifacts: where results are written and what they hold.
//!
//! In per-record mode every record's rendered text goes into its own
//! directory, derived by sanitizing one or two of the record's field
//! values.  In aggregate mode the whole merged record list becomes one
//! JSON document whose name is the input file's name with its extension
//! replaced by `content.json`, so a rerun never collides with its input.
//! The writing itself is the caller's; everything here only computes names
//! and documents.

use vstd::prelude::*;

use crate::sanitize::sanitize;
use crate::sanitize::spec_sanitize;
use crate::text::chars_of;
use crate::text::push_chars;
use crate::text::push_str_chars;
use crate::text::string_from_chars;
use crate::value::Record;
use crate::value::Val;
use crate::value::Value;

verus! {

broadcast use vstd::seq::group_seq_axioms, vstd::std_specs::vec::group_vec_axioms;

/// Where the final path component of `p` begins: just after the last `/`.
pub open spec fn file_name_start(p: Seq<char>) -> int
    decreases p.len(),
{
    if p.len() == 0 {
        0
    } else if p.last() == '/' {
        p.len() as int
    } else {
        file_name_start(p.drop_last())
    }
}

/// The last `.` at or after `start`, if any.
pub open spec fn last_dot_after(p: Seq<char>, start: int) -> Option<int>
    decreases p.len(),
{
    if p.len() <= start || p.len() == 0 {
        None
    } else if p.last() == '.' {
        Some(p.len() - 1)
    } else {
        last_dot_after(p.drop_last(), start)
    }
}

/// The suffix every aggregate output file carries.
pub open spec fn content_json_suffix() -> Seq<char> {
    seq!['.', 'c', 'o', 'n', 't', 'e', 'n', 't', '.', 'j', 's', 'o', 'n']
}

/// The aggregate output file for input path `p`: everything from the final
/// component's extension dot on is replaced by `.content.json`; a component
/// without an extension (or with only a leading dot) keeps its whole name.
pub open spec fn spec_output_filename(p: Seq<char>) -> Seq<char> {
    let start = file_name_start(p);
    let stem = match last_dot_after(p, start) {
        Option::Some(d) => if d > start {
            d
        } else {
            p.len() as int
        },
        Option::None => p.len() as int,
    };
    p.subrange(0, stem) + content_json_suffix()
}

proof fn lemma_file_name_start_witness(p: Seq<char>, s: int)
    requires
        0 <= s <= p.len(),
        s == 0 || p[s - 1] == '/',
        forall|j: int| s <= j < p.len() ==> p[j] != '/',
    ensures
        file_name_start(p) == s,
    decreases p.len(),
{
    if p.len() > 0 {
        if p.last() == '/' {
            assert(s == p.len());
        } else {
            assert(s < p.len() || s == p.len());
            if s == p.len() {
                assert(p[s - 1] == '/');
                assert(p.last() == p[p.len() - 1]);
                assert(false);
            }
            lemma_file_name_start_witness(p.drop_last(), s);
        }
    }
}

proof fn lemma_last_dot_witness(p: Seq<char>, start: int, d: int)
    requires
        0 <= start <= d < p.len(),
        p[d] == '.',
        forall|j: int| d < j < p.len() ==> p[j] != '.',
    ensures
        last_dot_after(p, start) == Some(d),
    decreases p.len(),
{
    if d < p.len() - 1 {
        lemma_last_dot_witness(p.drop_last(), start, d);
    }
}

proof fn lemma_last_dot_none(p: Seq<char>, start: int)
    requires
        0 <= start,
        forall|j: int| start <= j < p.len() ==> p[j] != '.',
    ensures
        last_dot_after(p, start) is None,
    decreases p.len(),
{
    if p.len() > start && p.len() > 0 {
        lemma_last_dot_none(p.drop_last(), start);
    }
}

/// The aggregate output file name for an input path: the input's name with
/// its extension replaced by `content.json`.
pub fn output_filename(input: &str) -> (r: String)
    ensures
        r@ == spec_output_filename(input@),
{
    let cs = chars_of(input);
    let n = cs.len();
    // where the final path component begins
    let mut start: usize = n;
    while start > 0 && cs[start - 1] != '/'
        invariant
            start <= n,
            n == cs@.len(),
            cs@ == input@,
            forall|j: int| start <= j < n ==> cs@[j] != '/',
        decreases start,
    {
        start = start - 1;
    }
    proof {
        lemma_file_name_start_witness(input@, start as int);
    }
    // the last dot at or after it
    let mut k: usize = n;
    let mut dot_found: bool = false;
    let mut dot: usize = 0;
    while k > start && !dot_found
        invariant
            start <= k <= n,
            n == cs@.len(),
            cs@ == input@,
            !dot_found ==> forall|j: int| k <= j < n ==> cs@[j] != '.',
            dot_found ==> start <= dot < n && cs@[dot as int] == '.' && forall|j: int|
                dot < j < n ==> cs@[j] != '.',
        decreases k,
    {
        if cs[k - 1] == '.' {
            dot_found = true;
            dot = k - 1;
        }
        k = k - 1;
    }
    let stem: usize = if dot_found {
        proof {
            lemma_last_dot_witness(input@, start as int, dot as int);
        }
        if dot > start {
            dot
        } else {
            n
        }
    } else {
        proof {
            lemma_last_dot_none(input@, start as int);
        }
        n
    };
    let mut out: Vec<char> = Vec::new();
    let mut i: usize = 0;
    while i < stem
        invariant
            i <= stem <= n,
            n == cs@.len(),
            cs@ == input@,
            out@ == input@.subrange(0, i as int),
        decreases stem - i,
    {
        out.push(cs[i]);
        assert(out@ =~= input@.subrange(0, i + 1 as int));
        i = i + 1;
    }
    out.push('.');
    out.push('c');
    out.push('o');
    out.push('n');
    out.push('t');
    out.push('e');
    out.push('n');
    out.push('t');
    out.push('.');
    out.push('j');
    out.push('s');
    out.push('o');
    out.push('n');
    proof {
        assert(out@ =~= spec_output_filename(input@));
    }
    string_from_chars(&out)
}

/// The output path for one record, relative to the output base: the
/// sanitized category, the sanitized title, and the file name, joined by
/// `/`.
pub fn output_relative_path(category: &str, title: &str, filename: &str) -> (r: String)
    ensures
        r@ == spec_sanitize(category@) + seq!['/'] + spec_sanitize(title@) + seq!['/']
            + filename@,
{
    let cat = sanitize(category);
    let tit = sanitize(title);
    let mut out: Vec<char> = Vec::new();
    push_str_chars(&mut out, cat.as_str());
    out.push('/');
    push_str_chars(&mut out, tit.as_str());
    out.push('/');
    push_str_chars(&mut out, filename);
    proof {
        assert(out@ =~= spec_sanitize(category@) + seq!['/'] + spec_sanitize(title@) + seq!['/']
            + filename@);
    }
    string_from_chars(&out)
}

/// The aggregate output document: the merged records, in order, under one
/// `contexts` field.
pub fn build_output_document(records: Vec<Record>) -> (r: Value)
    ensures
        r@ == Val::Obj(
            seq![
                (
                    "contexts"@,
                    Val::Arr(
                        Seq::new(records@.len(), |i: int| Val::Obj((#[trigger] records@[i])@)),
                    ),
                ),
            ],
        ),
{
    let ghost orig = records@;
    let mut rest = records;
    let mut arr: Vec<Value> = Vec::new();
    while rest.len() > 0
        invariant
            arr@.len() + rest@.len() == orig.len(),
            rest@ == orig.subrange(arr@.len() as int, orig.len() as int),
            forall|j: int| 0 <= j < arr@.len() ==> (#[trigger] arr@[j])@ == Val::Obj(orig[j]@),
        decreases rest@.len(),
    {
        let rec = rest.remove(0);
        proof {
            assert(rec == orig[arr@.len() as int]);
        }
        arr.push(Value::Obj(rec.fields));
        proof {
            assert(rest@ =~= orig.subrange(arr@.len() as int, orig.len() as int));
        }
    }
    let mut fields: Vec<(String, Value)> = Vec::new();
    fields.push((String::from_str("contexts"), Value::Arr(arr)));
    let r = Value::Obj(fields);
    proof {
        assert(crate::value::vals_of(arr@) =~= Seq::new(
            orig.len(),
            |i: int| Val::Obj((#[trigger] orig[i])@),
        ));
        assert(crate::value::fields_of(fields@) =~= seq![
            ("contexts"@, Val::Arr(crate::value::vals_of(arr@))),
        ]);
    }
    r
}

} // verus!
