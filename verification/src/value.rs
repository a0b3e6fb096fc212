//! The dynamic value model.
//!
//! Records carry arbitrary structured data, so the pipeline keeps fields as
//! a tagged union of the JSON shapes: null, booleans, integers, other
//! numbers (kept as their literal text), strings, lists and objects.  An
//! object is an ordered list of key/value pairs; a lookup finds the first
//! pair with the key, and an update rewrites that pair in place, so field
//! order is preserved end to end.
//!
//! The mathematical model of a [`Value`] is [`Val`], the same tree over
//! `Seq<char>` and `int`; [`Record`] models an object's pairs directly.

use vstd::prelude::*;

use crate::text::str_eq;

verus! {

broadcast use vstd::seq::group_seq_axioms, vstd::std_specs::vec::group_vec_axioms;

/// The mathematical model of a [`Value`].
#[verifier::ext_equal]
pub enum Val {
    Null,
    Bool(bool),
    Int(int),
    Num(Seq<char>),
    Str(Seq<char>),
    Arr(Seq<Val>),
    Obj(Seq<(Seq<char>, Val)>),
}

/// A dynamically typed field value: one JSON shape per variant.  An
/// integer is kept exactly; any other numeric literal is kept as its text,
/// so nothing is rounded on the way through the pipeline.
#[derive(Debug, PartialEq, Eq)]
pub enum Value {
    Null,
    Bool(bool),
    Int(i64),
    Num(String),
    Str(String),
    Arr(Vec<Value>),
    Obj(Vec<(String, Value)>),
}

/// The models of a sequence of values, elementwise.
pub open spec fn vals_of(s: Seq<Value>) -> Seq<Val>
    decreases s, 0int,
{
    Seq::new(
        s.len(),
        |i: int|
            if 0 <= i < s.len() {
                s[i]@
            } else {
                Val::Null
            },
    )
}

/// The models of a sequence of named fields, elementwise.
pub open spec fn fields_of(s: Seq<(String, Value)>) -> Seq<(Seq<char>, Val)>
    decreases s, 0int,
{
    Seq::new(
        s.len(),
        |i: int|
            if 0 <= i < s.len() {
                (s[i].0@, s[i].1@)
            } else {
                (Seq::empty(), Val::Null)
            },
    )
}

impl View for Value {
    type V = Val;

    open spec fn view(&self) -> Val
        decreases self, 1int,
    {
        match self {
            Value::Null => Val::Null,
            Value::Bool(b) => Val::Bool(*b),
            Value::Int(i) => Val::Int(*i as int),
            Value::Num(s) => Val::Num(s@),
            Value::Str(s) => Val::Str(s@),
            Value::Arr(a) => Val::Arr(vals_of(a@)),
            Value::Obj(o) => Val::Obj(fields_of(o@)),
        }
    }
}

/// The first index at which `fields` holds `key`, or -1 if it does not.
pub open spec fn obj_key_idx(fields: Seq<(Seq<char>, Val)>, key: Seq<char>) -> int
    decreases fields.len(),
{
    if fields.len() == 0 {
        -1
    } else if fields[0].0 == key {
        0
    } else {
        let rest = obj_key_idx(fields.drop_first(), key);
        if rest < 0 {
            -1
        } else {
            rest + 1
        }
    }
}

/// The value that `fields` holds under `key`, going by the first pair that
/// carries it.
pub open spec fn obj_get(fields: Seq<(Seq<char>, Val)>, key: Seq<char>) -> Option<Val> {
    let idx = obj_key_idx(fields, key);
    if idx < 0 {
        None
    } else {
        Some(fields[idx].1)
    }
}

/// `fields` with `key` bound to `v`: the first pair carrying `key` is
/// rewritten in place, or a new pair is appended if there is none.
pub open spec fn obj_set(fields: Seq<(Seq<char>, Val)>, key: Seq<char>, v: Val) -> Seq<
    (Seq<char>, Val),
> {
    let idx = obj_key_idx(fields, key);
    if idx < 0 {
        fields.push((key, v))
    } else {
        fields.update(idx, (fields[idx].0, v))
    }
}

pub broadcast proof fn lemma_obj_key_idx_bounds(fields: Seq<(Seq<char>, Val)>, key: Seq<char>)
    ensures
        -1 <= #[trigger] obj_key_idx(fields, key) < fields.len(),
        obj_key_idx(fields, key) >= 0 ==> fields[obj_key_idx(fields, key)].0 == key,
        obj_key_idx(fields, key) >= 0 ==> forall|j: int|
            0 <= j < obj_key_idx(fields, key) ==> (#[trigger] fields[j]).0 != key,
        obj_key_idx(fields, key) < 0 ==> forall|j: int|
            0 <= j < fields.len() ==> (#[trigger] fields[j]).0 != key,
    decreases fields.len(),
{
    if fields.len() > 0 && fields[0].0 != key {
        lemma_obj_key_idx_bounds(fields.drop_first(), key);
        assert forall|j: int| 1 <= j < fields.len() implies (#[trigger] fields[j])
            == fields.drop_first()[j - 1] by {}
    }
}

/// If position `i` carries `key` and no earlier position does, then `i` is
/// the first index of `key`.
pub proof fn lemma_obj_key_idx_witness(fields: Seq<(Seq<char>, Val)>, key: Seq<char>, i: int)
    requires
        0 <= i < fields.len(),
        fields[i].0 == key,
        forall|j: int| 0 <= j < i ==> (#[trigger] fields[j]).0 != key,
    ensures
        obj_key_idx(fields, key) == i,
    decreases i,
{
    if i > 0 {
        assert(fields.drop_first()[i - 1] == fields[i]);
        assert forall|j: int| 0 <= j < i - 1 implies (#[trigger] fields.drop_first()[j]).0
            != key by {
            assert(fields.drop_first()[j] == fields[j + 1]);
        }
        lemma_obj_key_idx_witness(fields.drop_first(), key, i - 1);
    }
}

/// The first index of a key depends on the keys alone.
proof fn lemma_obj_key_idx_same_keys(
    f1: Seq<(Seq<char>, Val)>,
    f2: Seq<(Seq<char>, Val)>,
    key: Seq<char>,
)
    requires
        f1.len() == f2.len(),
        forall|j: int| 0 <= j < f1.len() ==> (#[trigger] f1[j]).0 == f2[j].0,
    ensures
        obj_key_idx(f1, key) == obj_key_idx(f2, key),
    decreases f1.len(),
{
    if f1.len() > 0 && f1[0].0 != key {
        assert forall|j: int| 0 <= j < f1.drop_first().len() implies (#[trigger] f1.drop_first()[j]).0
            == f2.drop_first()[j].0 by {
            assert(f1.drop_first()[j] == f1[j + 1]);
            assert(f2.drop_first()[j] == f2[j + 1]);
        }
        lemma_obj_key_idx_same_keys(f1.drop_first(), f2.drop_first(), key);
    }
}

/// How appending a pair moves the first index of any key.
proof fn lemma_obj_key_idx_push(
    fields: Seq<(Seq<char>, Val)>,
    p: (Seq<char>, Val),
    k2: Seq<char>,
)
    ensures
        obj_key_idx(fields, k2) >= 0 ==> obj_key_idx(fields.push(p), k2) == obj_key_idx(
            fields,
            k2,
        ),
        obj_key_idx(fields, k2) < 0 && p.0 == k2 ==> obj_key_idx(fields.push(p), k2)
            == fields.len(),
        obj_key_idx(fields, k2) < 0 && p.0 != k2 ==> obj_key_idx(fields.push(p), k2) == -1,
    decreases fields.len(),
{
    broadcast use lemma_obj_key_idx_bounds;

    if fields.len() == 0 {
        assert(fields.push(p)[0] == p);
        assert(fields.push(p).drop_first() =~= Seq::<(Seq<char>, Val)>::empty());
    } else {
        assert(fields.push(p)[0] == fields[0]);
        assert(fields.push(p).drop_first() =~= fields.drop_first().push(p));
        if fields[0].0 != k2 {
            lemma_obj_key_idx_push(fields.drop_first(), p, k2);
        }
    }
}

/// Setting a key then reading it back gives the new value; every other key
/// reads as before; the number of fields grows only when the key was new;
/// and every key keeps its position.
pub proof fn lemma_obj_set_get(fields: Seq<(Seq<char>, Val)>, key: Seq<char>, v: Val)
    ensures
        obj_get(obj_set(fields, key, v), key) == Some(v),
        forall|k2: Seq<char>|
            k2 != key ==> #[trigger] obj_get(obj_set(fields, key, v), k2) == obj_get(fields, k2),
        obj_key_idx(fields, key) >= 0 ==> obj_set(fields, key, v).len() == fields.len(),
        obj_key_idx(fields, key) < 0 ==> obj_set(fields, key, v).len() == fields.len() + 1,
        forall|j: int|
            0 <= j < fields.len() ==> (#[trigger] obj_set(fields, key, v)[j]).0 == fields[j].0,
{
    broadcast use lemma_obj_key_idx_bounds;

    let out = obj_set(fields, key, v);
    let idx = obj_key_idx(fields, key);
    if idx < 0 {
        assert forall|k2: Seq<char>| true implies #[trigger] obj_key_idx(out, k2) == (
        if obj_key_idx(fields, k2) >= 0 {
            obj_key_idx(fields, k2)
        } else if k2 == key {
            fields.len() as int
        } else {
            -1
        }) by {
            lemma_obj_key_idx_push(fields, (key, v), k2);
        }
    } else {
        assert forall|k2: Seq<char>| true implies #[trigger] obj_key_idx(out, k2) == obj_key_idx(
            fields,
            k2,
        ) by {
            lemma_obj_key_idx_same_keys(fields, out, k2);
        }
    }
}

impl Value {
    /// A structurally equal copy of this value.
    pub fn deep_copy(&self) -> (r: Value)
        ensures
            r@ == self@,
        decreases self,
    {
        match self {
            Value::Null => Value::Null,
            Value::Bool(b) => Value::Bool(*b),
            Value::Int(i) => Value::Int(*i),
            Value::Num(s) => Value::Num(s.clone()),
            Value::Str(s) => Value::Str(s.clone()),
            Value::Arr(items) => {
                let n = items.len();
                let mut out: Vec<Value> = Vec::new();
                let mut i: usize = 0;
                while i < n
                    invariant
                        i <= n,
                        n == items@.len(),
                        out@.len() == i,
                        forall|j: int| 0 <= j < i ==> (#[trigger] out@[j])@ == items@[j]@,
                        *self == Value::Arr(*items),
                    decreases n - i,
                {
                    proof {
                        assert(decreases_to!(*self => self->Arr_0));
                        assert(*items == self->Arr_0);
                        assert(decreases_to!(*items => items@));
                        assert(decreases_to!(items@ => items@[i as int]));
                    }
                    out.push(items[i].deep_copy());
                    i = i + 1;
                }
                let r = Value::Arr(out);
                proof {
                    assert(vals_of(out@) =~= vals_of(items@));
                }
                r
            },
            Value::Obj(fields) => {
                proof {
                    assert(decreases_to!(*self => *fields));
                }
                let r = Value::Obj(copy_fields(fields));
                proof {
                    assert(r@ == self@);
                }
                r
            },
        }
    }
}

/// A copy of a field list whose keys and values model the same way.
pub fn copy_fields(fields: &Vec<(String, Value)>) -> (r: Vec<(String, Value)>)
    ensures
        fields_of(r@) == fields_of(fields@),
    decreases fields,
{
    let n = fields.len();
    let mut out: Vec<(String, Value)> = Vec::new();
    let mut i: usize = 0;
    while i < n
        invariant
            i <= n,
            n == fields@.len(),
            out@.len() == i,
            forall|j: int|
                0 <= j < i ==> (#[trigger] out@[j]).0@ == fields@[j].0@ && out@[j].1@
                    == fields@[j].1@,
        decreases n - i,
    {
        let pair = &fields[i];
        proof {
            assert(decreases_to!(*fields => fields@));
            assert(decreases_to!(fields@ => fields@[i as int]));
            assert(decreases_to!(fields@[i as int] => fields@[i as int].1));
        }
        out.push((pair.0.clone(), pair.1.deep_copy()));
        i = i + 1;
    }
    proof {
        assert(fields_of(out@) =~= fields_of(fields@));
    }
    out
}

/// One input or output record: an ordered mapping from field names to
/// values.  A record's identity is its position in the run's record list.
#[derive(Debug, PartialEq, Eq)]
pub struct Record {
    pub fields: Vec<(String, Value)>,
}

impl View for Record {
    type V = Seq<(Seq<char>, Val)>;

    open spec fn view(&self) -> Seq<(Seq<char>, Val)> {
        fields_of(self.fields@)
    }
}

impl Record {
    /// A record with no fields.
    pub fn new() -> (r: Record)
        ensures
            r@ == Seq::<(Seq<char>, Val)>::empty(),
    {
        let r = Record { fields: Vec::new() };
        proof {
            assert(r@ =~= Seq::<(Seq<char>, Val)>::empty());
        }
        r
    }

    /// The position of the first field named `key`, if any.
    pub fn key_index(&self, key: &str) -> (r: Option<usize>)
        ensures
            match r {
                Some(i) => obj_key_idx(self@, key@) == i as int,
                None => obj_key_idx(self@, key@) < 0,
            },
    {
        let n = self.fields.len();
        let mut i: usize = 0;
        while i < n
            invariant
                i <= n,
                n == self.fields@.len(),
                self@.len() == n,
                forall|j: int| 0 <= j < i ==> (#[trigger] self@[j]).0 != key@,
            decreases n - i,
        {
            let pair = &self.fields[i];
            if str_eq(pair.0.as_str(), key) {
                proof {
                    lemma_obj_key_idx_witness(self@, key@, i as int);
                }
                return Some(i);
            }
            i = i + 1;
        }
        proof {
            broadcast use lemma_obj_key_idx_bounds;

        }
        None
    }

    /// The value of the field named `key`, going by the first such field.
    pub fn get<'a>(&'a self, key: &str) -> (r: Option<&'a Value>)
        ensures
            match r {
                Some(v) => obj_get(self@, key@) == Some(v@),
                None => obj_get(self@, key@) is None,
            },
    {
        proof {
            broadcast use lemma_obj_key_idx_bounds;

        }
        match self.key_index(key) {
            Some(i) => Some(&self.fields[i].1),
            None => None,
        }
    }

    /// Bind `key` to `val`: rewrite the first field of that name in place,
    /// or append a new field if there is none.
    pub fn set(&mut self, key: &str, val: Value)
        ensures
            final(self)@ == obj_set(old(self)@, key@, val@),
    {
        proof {
            broadcast use lemma_obj_key_idx_bounds;

        }
        match self.key_index(key) {
            Some(i) => {
                let pair = self.fields.remove(i);
                self.fields.insert(i, (pair.0, val));
                proof {
                    assert(self@ =~= obj_set(old(self)@, key@, val@));
                }
            },
            None => {
                self.fields.push((String::from_str(key), val));
                proof {
                    assert(self@ =~= obj_set(old(self)@, key@, val@));
                }
            },
        }
    }
}

} // verus!
