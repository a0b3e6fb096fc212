//! Folding completions back into the records they answer.
//!
//! After a prompt template has been materialized for every record and the
//! provider's answers assembled, the i-th completion belongs to the i-th
//! record and is stored there under the template's name.  The record list
//! keeps its length and its order; a completion list of the wrong length is
//! refused outright, before any record is touched, since a partial merge
//! would break the position correlation for the whole run.

use vstd::prelude::*;

use crate::errors::Error;
use crate::value::obj_get;
use crate::value::obj_set;
use crate::value::lemma_obj_set_get;
use crate::value::Record;
use crate::value::Val;
use crate::value::Value;

verus! {

/// Store `completions[i]` in `records[i]` under the field named `key`,
/// overwriting a pre-existing field of that name, for every position at
/// once.  Exactly one completion per record is accepted; any other number
/// leaves every record unchanged and reports the misalignment.
pub fn merge_completions(records: &mut Vec<Record>, key: &str, completions: &Vec<String>) -> (r:
    Result<(), Error>)
    ensures
        match r {
            Result::Ok(()) => {
                &&& completions@.len() == old(records)@.len()
                &&& final(records)@.len() == old(records)@.len()
                &&& forall|i: int|
                    0 <= i < old(records)@.len() ==> (#[trigger] final(records)@[i])@ == obj_set(
                        old(records)@[i]@,
                        key@,
                        Val::Str(completions@[i]@),
                    )
            },
            Result::Err(e) => {
                &&& completions@.len() != old(records)@.len()
                &&& e == (Error::Alignment {
                    expected: old(records)@.len() as usize,
                    got: completions@.len() as usize,
                })
                &&& final(records)@ == old(records)@
            },
        },
{
    let n = records.len();
    if completions.len() != n {
        return Err(Error::Alignment { expected: n, got: completions.len() });
    }
    let mut i: usize = 0;
    while i < n
        invariant
            i <= n,
            n == old(records)@.len(),
            n == completions@.len(),
            records@.len() == n,
            forall|j: int| i <= j < n ==> #[trigger] records@[j] == old(records)@[j],
            forall|j: int|
                0 <= j < i ==> (#[trigger] records@[j])@ == obj_set(
                    old(records)@[j]@,
                    key@,
                    Val::Str(completions@[j]@),
                ),
        decreases n - i,
    {
        let text = completions[i].clone();
        records[i].set(key, Value::Str(text));
        i = i + 1;
    }
    Ok(())
}

/// Law: after a merge, every record answers the template's name with its
/// own completion, and every other field reads as it did before.
pub proof fn lemma_merge_reads_back(
    fields: Seq<(Seq<char>, Val)>,
    key: Seq<char>,
    completion: Seq<char>,
)
    ensures
        obj_get(obj_set(fields, key, Val::Str(completion)), key) == Some(Val::Str(completion)),
        forall|k2: Seq<char>|
            k2 != key ==> #[trigger] obj_get(obj_set(fields, key, Val::Str(completion)), k2)
                == obj_get(fields, k2),
{
    lemma_obj_set_get(fields, key, Val::Str(completion));
}

} // verus!
