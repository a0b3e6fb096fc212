//! The context store: the parsed input document and what the pipeline
//! reads out of it.
//!
//! The input document is one object.  Its required `contexts` field lists
//! the records to expand; its optional `prompt_templates` field maps a
//! template name to the prompt text, the token budget, and an optional
//! model and temperature.  Everything here works on an already-parsed
//! [`Value`]; reading the file and parsing its text belong to the caller.

use vstd::prelude::*;

use crate::errors::Error;
use crate::text::str_eq;
use crate::value::copy_fields;
use crate::value::fields_of;
use crate::value::obj_get;
use crate::value::Record;
use crate::value::Val;
use crate::value::Value;

verus! {

broadcast use vstd::seq::group_seq_axioms, vstd::std_specs::vec::group_vec_axioms;

/// The input formats the store can hold.
#[derive(Debug, PartialEq, Eq, Structural)]
pub enum SupportedType {
    Json,
}

/// The format a file extension names, if the store supports it.
pub fn supported_type(extension: &str) -> (r: Option<SupportedType>)
    ensures
        r == if extension@ == "json"@ {
            Some(SupportedType::Json)
        } else {
            Option::<SupportedType>::None
        },
{
    if str_eq(extension, "json") {
        Some(SupportedType::Json)
    } else {
        None
    }
}

/// One named prompt template: the prompt text, the token budget for each
/// completion, and an optional model identifier and temperature.  The
/// temperature is carried as the numeric [`Value`] it was configured as,
/// never rounded by the library.
#[derive(Debug, PartialEq, Eq)]
pub struct TemplateDef {
    pub prompt: String,
    pub tokens: u64,
    pub model: Option<String>,
    pub temperature: Option<Value>,
}

/// The mathematical model of a [`TemplateDef`].
pub struct TDef {
    pub prompt: Seq<char>,
    pub tokens: int,
    pub model: Option<Seq<char>>,
    pub temperature: Option<Val>,
}

impl View for TemplateDef {
    type V = TDef;

    open spec fn view(&self) -> TDef {
        TDef {
            prompt: self.prompt@,
            tokens: self.tokens as int,
            model: match self.model {
                Option::Some(m) => Some(m@),
                Option::None => None,
            },
            temperature: match self.temperature {
                Option::Some(v) => Some(v@),
                Option::None => None,
            },
        }
    }
}

/// What reading one prompt-template definition yields.
pub enum TemplateOut {
    Done(TDef),
    NotObject,
    MissingPrompt,
    MissingTokens,
    BadModel,
    BadTemperature,
}

/// What one named prompt-template entry must hold: an object with a string
/// `prompt`, a non-negative integer `tokens`, an optional string `model`
/// and an optional numeric `temperature`.
pub open spec fn spec_template_def(v: Val) -> TemplateOut {
    match v {
        Val::Obj(f) => {
            match obj_get(f, "prompt"@) {
                Option::Some(Val::Str(p)) => {
                    match obj_get(f, "tokens"@) {
                        Option::Some(Val::Int(tk)) => {
                            if tk < 0 {
                                TemplateOut::MissingTokens
                            } else {
                                match obj_get(f, "model"@) {
                                    Option::Some(Val::Str(m)) => spec_template_tail(
                                        f,
                                        p,
                                        tk,
                                        Some(m),
                                    ),
                                    Option::None => spec_template_tail(f, p, tk, None),
                                    _ => TemplateOut::BadModel,
                                }
                            }
                        },
                        _ => TemplateOut::MissingTokens,
                    }
                },
                _ => TemplateOut::MissingPrompt,
            }
        },
        _ => TemplateOut::NotObject,
    }
}

/// The temperature part of a prompt-template definition.
pub open spec fn spec_template_tail(
    f: Seq<(Seq<char>, Val)>,
    prompt: Seq<char>,
    tokens: int,
    model: Option<Seq<char>>,
) -> TemplateOut {
    match obj_get(f, "temperature"@) {
        Option::Some(Val::Int(t)) => TemplateOut::Done(
            TDef { prompt, tokens, model, temperature: Some(Val::Int(t)) },
        ),
        Option::Some(Val::Num(t)) => TemplateOut::Done(
            TDef { prompt, tokens, model, temperature: Some(Val::Num(t)) },
        ),
        Option::None => TemplateOut::Done(TDef { prompt, tokens, model, temperature: None }),
        _ => TemplateOut::BadTemperature,
    }
}

/// What extracting the record list yields.
pub enum RecordsOut {
    Done(Seq<Seq<(Seq<char>, Val)>>),
    Missing,
    NotList,
    NotObject(int),
}

/// The records among the `contexts` entries: every entry must be an
/// object; the first that is not fails with its position.
pub open spec fn spec_recs(items: Seq<Val>) -> RecordsOut
    decreases items.len(),
{
    if items.len() == 0 {
        RecordsOut::Done(Seq::empty())
    } else {
        match spec_recs(items.drop_last()) {
            RecordsOut::Done(rs) => match items.last() {
                Val::Obj(f) => RecordsOut::Done(rs.push(f)),
                _ => RecordsOut::NotObject(items.len() - 1),
            },
            other => other,
        }
    }
}

/// What the document's `contexts` field must hold: a list of objects.
pub open spec fn spec_records(doc: Seq<(Seq<char>, Val)>) -> RecordsOut {
    match obj_get(doc, "contexts"@) {
        Option::None => RecordsOut::Missing,
        Option::Some(Val::Arr(items)) => spec_recs(items),
        Option::Some(_) => RecordsOut::NotList,
    }
}

/// What extracting the prompt templates yields: the named definitions in
/// entry order, or the name of the first entry refused and why.
pub enum TemplatesOut {
    Done(Seq<(Seq<char>, TDef)>),
    NotObject,
    Entry(Seq<char>, TemplateOut),
}

/// The definitions among the `prompt_templates` entries, in order; the
/// first entry refused fails with its name.
pub open spec fn spec_template_entries(entries: Seq<(Seq<char>, Val)>) -> TemplatesOut
    decreases entries.len(),
{
    if entries.len() == 0 {
        TemplatesOut::Done(Seq::empty())
    } else {
        match spec_template_entries(entries.drop_last()) {
            TemplatesOut::Done(ts) => match spec_template_def(entries.last().1) {
                TemplateOut::Done(td) => TemplatesOut::Done(ts.push((entries.last().0, td))),
                fail => TemplatesOut::Entry(entries.last().0, fail),
            },
            other => other,
        }
    }
}

/// What the document's optional `prompt_templates` field must hold.  Its
/// absence is no error: there is simply nothing to expand.
pub open spec fn spec_templates(doc: Seq<(Seq<char>, Val)>) -> TemplatesOut {
    match obj_get(doc, "prompt_templates"@) {
        Option::None => TemplatesOut::Done(Seq::empty()),
        Option::Some(Val::Obj(entries)) => spec_template_entries(entries),
        Option::Some(_) => TemplatesOut::NotObject,
    }
}

/// The models of a sequence of named template definitions.
pub open spec fn tdefs_of(s: Seq<(String, TemplateDef)>) -> Seq<(Seq<char>, TDef)> {
    Seq::new(s.len(), |i: int| (s[i].0@, s[i].1@))
}

/// The parsed input document, held as its top-level fields.
#[derive(Debug)]
pub struct WrappedContext {
    ctx: Record,
}

impl View for WrappedContext {
    type V = Seq<(Seq<char>, Val)>;

    closed spec fn view(&self) -> Seq<(Seq<char>, Val)> {
        self.ctx@
    }
}

/// `base` with every addition bound in order, each overwriting an earlier
/// field of the same name.
pub open spec fn spec_append(
    base: Seq<(Seq<char>, Val)>,
    adds: Seq<(Seq<char>, Val)>,
) -> Seq<(Seq<char>, Val)>
    decreases adds.len(),
{
    if adds.len() == 0 {
        base
    } else {
        crate::value::obj_set(
            spec_append(base, adds.drop_last()),
            adds.last().0,
            adds.last().1,
        )
    }
}

impl WrappedContext {
    /// Wrap a parsed document, which must be an object.
    pub fn new(doc: Value) -> (r: Result<WrappedContext, Error>)
        ensures
            match r {
                Result::Ok(w) => doc@ is Obj && w@ == doc@->Obj_0,
                Result::Err(e) => !(doc@ is Obj) && e == Error::DocumentNotObject,
            },
    {
        match doc {
            Value::Obj(fields) => Ok(WrappedContext { ctx: Record { fields } }),
            _ => Err(Error::DocumentNotObject),
        }
    }

    /// The document's top-level fields.
    pub fn context(&self) -> (r: &Record)
        ensures
            r@ == self@,
    {
        &self.ctx
    }

    /// Merge the fields of another object into the document, each
    /// overwriting an earlier field of the same name.
    pub fn append(&mut self, additions: &Vec<(String, Value)>)
        ensures
            final(self)@ == spec_append(old(self)@, fields_of(additions@)),
    {
        let n = additions.len();
        let ghost adds = fields_of(additions@);
        let mut i: usize = 0;
        while i < n
            invariant
                i <= n,
                n == additions@.len(),
                adds == fields_of(additions@),
                adds.len() == n,
                self@ == spec_append(old(self)@, adds.subrange(0, i as int)),
            decreases n - i,
        {
            let pair = &additions[i];
            self.ctx.set(pair.0.as_str(), pair.1.deep_copy());
            proof {
                assert(adds.subrange(0, i + 1 as int).drop_last() =~= adds.subrange(0, i as int));
                assert(adds.subrange(0, i + 1 as int).last() == adds[i as int]);
                assert(adds[i as int] == (additions@[i as int].0@, additions@[i as int].1@));
            }
            i = i + 1;
        }
        proof {
            assert(adds.subrange(0, n as int) =~= adds);
        }
    }

    /// The record list under `contexts`: required, a list, every entry an
    /// object.  The errors name what is wrong — the field missing, the
    /// field not a list, or the position of the first non-object entry.
    pub fn records(&self) -> (r: Result<Vec<Record>, Error>)
        ensures
            match r {
                Result::Ok(recs) => spec_records(self@) == RecordsOut::Done(
                    Seq::new(recs@.len(), |i: int| recs@[i]@),
                ),
                Result::Err(e) => match e {
                    Error::MissingContexts => spec_records(self@) == RecordsOut::Missing,
                    Error::ContextsNotList => spec_records(self@) == RecordsOut::NotList,
                    Error::RecordNotObject(i) => spec_records(self@) == RecordsOut::NotObject(
                        i as int,
                    ),
                    _ => false,
                },
            },
    {
        let list = match self.ctx.get("contexts") {
            Option::None => {
                return Err(Error::MissingContexts);
            },
            Option::Some(v) => match v {
                Value::Arr(items) => items,
                _ => {
                    return Err(Error::ContextsNotList);
                },
            },
        };
        let ghost items = obj_get(self@, "contexts"@)->Some_0->Arr_0;
        proof {
            assert(items =~= crate::value::vals_of(list@));
        }
        let n = list.len();
        let mut recs: Vec<Record> = Vec::new();
        proof {
            assert(items.subrange(0, 0) =~= Seq::<Val>::empty());
            assert(Seq::new(recs@.len(), |j: int| recs@[j]@) =~= Seq::<
                Seq<(Seq<char>, Val)>,
            >::empty());
        }
        let mut i: usize = 0;
        while i < n
            invariant
                i <= n,
                n == list@.len(),
                items == crate::value::vals_of(list@),
                items.len() == n,
                recs@.len() == i,
                spec_records(self@) == spec_recs(items),
                spec_recs(items.subrange(0, i as int)) == RecordsOut::Done(
                    Seq::new(recs@.len(), |j: int| recs@[j]@),
                ),
            decreases n - i,
        {
            proof {
                assert(items.subrange(0, i + 1 as int).drop_last() =~= items.subrange(0, i as int));
                assert(items.subrange(0, i + 1 as int).last() == items[i as int]);
                assert(items[i as int] == list@[i as int]@);
            }
            match &list[i] {
                Value::Obj(f) => {
                    let ghost prev = Seq::new(recs@.len() as nat, |j: int| recs@[j]@);
                    let rec = Record { fields: copy_fields(f) };
                    let ghost grec = rec@;
                    recs.push(rec);
                    proof {
                        assert(Seq::new(recs@.len() as nat, |j: int| recs@[j]@) =~= prev.push(
                            grec,
                        ));
                    }
                },
                _ => {
                    proof {
                        lemma_recs_error(items, i as int, n as int);
                        assert(items.subrange(0, n as int) =~= items);
                    }
                    return Err(Error::RecordNotObject(i));
                },
            }
            i = i + 1;
        }
        proof {
            assert(items.subrange(0, n as int) =~= items);
        }
        Ok(recs)
    }

    /// The named prompt templates under `prompt_templates`, in entry
    /// order; an absent field means nothing to expand.  The errors name
    /// the field or the first entry refused.
    pub fn prompt_templates(&self) -> (r: Result<Vec<(String, TemplateDef)>, Error>)
        ensures
            match r {
                Result::Ok(ts) => spec_templates(self@) == TemplatesOut::Done(tdefs_of(ts@)),
                Result::Err(e) => match e {
                    Error::TemplatesNotObject => spec_templates(self@) == TemplatesOut::NotObject,
                    Error::TemplateNotObject(name) => spec_templates(self@) == TemplatesOut::Entry(
                        name@,
                        TemplateOut::NotObject,
                    ),
                    Error::TemplateMissingPrompt(name) => spec_templates(self@)
                        == TemplatesOut::Entry(name@, TemplateOut::MissingPrompt),
                    Error::TemplateMissingTokens(name) => spec_templates(self@)
                        == TemplatesOut::Entry(name@, TemplateOut::MissingTokens),
                    Error::TemplateBadModel(name) => spec_templates(self@) == TemplatesOut::Entry(
                        name@,
                        TemplateOut::BadModel,
                    ),
                    Error::TemplateBadTemperature(name) => spec_templates(self@)
                        == TemplatesOut::Entry(name@, TemplateOut::BadTemperature),
                    _ => false,
                },
            },
    {
        let entries = match self.ctx.get("prompt_templates") {
            Option::None => {
                let r: Vec<(String, TemplateDef)> = Vec::new();
                proof {
                    assert(tdefs_of(r@) =~= Seq::<(Seq<char>, TDef)>::empty());
                }
                return Ok(r);
            },
            Option::Some(v) => match v {
                Value::Obj(entries) => entries,
                _ => {
                    return Err(Error::TemplatesNotObject);
                },
            },
        };
        let ghost fentries = obj_get(self@, "prompt_templates"@)->Some_0->Obj_0;
        proof {
            assert(fentries =~= fields_of(entries@));
        }
        let n = entries.len();
        let mut ts: Vec<(String, TemplateDef)> = Vec::new();
        proof {
            assert(fentries.subrange(0, 0) =~= Seq::<(Seq<char>, Val)>::empty());
            assert(tdefs_of(ts@) =~= Seq::<(Seq<char>, TDef)>::empty());
        }
        let mut i: usize = 0;
        while i < n
            invariant
                i <= n,
                n == entries@.len(),
                fentries == fields_of(entries@),
                fentries.len() == n,
                ts@.len() == i,
                spec_templates(self@) == spec_template_entries(fentries),
                spec_template_entries(fentries.subrange(0, i as int)) == TemplatesOut::Done(
                    tdefs_of(ts@),
                ),
            decreases n - i,
        {
            proof {
                assert(fentries.subrange(0, i + 1 as int).drop_last() =~= fentries.subrange(
                    0,
                    i as int,
                ));
                assert(fentries.subrange(0, i + 1 as int).last() == fentries[i as int]);
                assert(fentries[i as int] == (entries@[i as int].0@, entries@[i as int].1@));
            }
            let pair = &entries[i];
            let name = pair.0.clone();
            match template_def(&name, &pair.1) {
                Result::Ok(td) => {
                    let ghost prev = tdefs_of(ts@);
                    let ghost gname = name@;
                    let ghost gtd = td@;
                    ts.push((name, td));
                    proof {
                        assert(tdefs_of(ts@) =~= prev.push((gname, gtd)));
                    }
                },
                Result::Err(e) => {
                    proof {
                        lemma_templates_error(fentries, i as int, n as int);
                        assert(fentries.subrange(0, n as int) =~= fentries);
                    }
                    return Err(e);
                },
            }
            i = i + 1;
        }
        proof {
            assert(fentries.subrange(0, n as int) =~= fentries);
        }
        Ok(ts)
    }
}

/// Once entry `i` is refused after a clean prefix, every longer prefix is
/// refused the same way.
proof fn lemma_recs_error(items: Seq<Val>, i: int, j: int)
    requires
        0 <= i < j <= items.len(),
        spec_recs(items.subrange(0, i)) is Done,
        !(items[i] is Obj),
    ensures
        spec_recs(items.subrange(0, j)) == RecordsOut::NotObject(i),
    decreases j,
{
    if j == i + 1 {
        assert(items.subrange(0, j).drop_last() =~= items.subrange(0, i));
        assert(items.subrange(0, j).last() == items[i]);
    } else {
        lemma_recs_error(items, i, j - 1);
        assert(items.subrange(0, j).drop_last() =~= items.subrange(0, j - 1));
    }
}

/// The template form of [`lemma_recs_error`].
proof fn lemma_templates_error(entries: Seq<(Seq<char>, Val)>, i: int, j: int)
    requires
        0 <= i < j <= entries.len(),
        spec_template_entries(entries.subrange(0, i)) is Done,
        !(spec_template_def(entries[i].1) is Done),
    ensures
        spec_template_entries(entries.subrange(0, j)) == TemplatesOut::Entry(
            entries[i].0,
            spec_template_def(entries[i].1),
        ),
    decreases j,
{
    if j == i + 1 {
        assert(entries.subrange(0, j).drop_last() =~= entries.subrange(0, i));
        assert(entries.subrange(0, j).last() == entries[i]);
    } else {
        lemma_templates_error(entries, i, j - 1);
        assert(entries.subrange(0, j).drop_last() =~= entries.subrange(0, j - 1));
    }
}

/// Read one named prompt-template definition out of its value.
fn template_def(name: &String, v: &Value) -> (r: Result<TemplateDef, Error>)
    ensures
        match r {
            Result::Ok(td) => spec_template_def(v@) == TemplateOut::Done(td@),
            Result::Err(e) => match e {
                Error::TemplateNotObject(n) => n@ == name@ && spec_template_def(v@)
                    == TemplateOut::NotObject,
                Error::TemplateMissingPrompt(n) => n@ == name@ && spec_template_def(v@)
                    == TemplateOut::MissingPrompt,
                Error::TemplateMissingTokens(n) => n@ == name@ && spec_template_def(v@)
                    == TemplateOut::MissingTokens,
                Error::TemplateBadModel(n) => n@ == name@ && spec_template_def(v@)
                    == TemplateOut::BadModel,
                Error::TemplateBadTemperature(n) => n@ == name@ && spec_template_def(v@)
                    == TemplateOut::BadTemperature,
                _ => false,
            },
        },
{
    let f = match v {
        Value::Obj(f) => f,
        _ => {
            return Err(Error::TemplateNotObject(name.clone()));
        },
    };
    let rec = Record { fields: copy_fields(f) };
    proof {
        assert(rec@ == v@->Obj_0);
    }
    let prompt = match rec.get("prompt") {
        Option::Some(Value::Str(p)) => p.clone(),
        _ => {
            return Err(Error::TemplateMissingPrompt(name.clone()));
        },
    };
    let tokens = match rec.get("tokens") {
        Option::Some(Value::Int(tk)) => {
            if *tk < 0 {
                return Err(Error::TemplateMissingTokens(name.clone()));
            }
            *tk as u64
        },
        _ => {
            return Err(Error::TemplateMissingTokens(name.clone()));
        },
    };
    let model = match rec.get("model") {
        Option::Some(Value::Str(m)) => Some(m.clone()),
        Option::None => None,
        _ => {
            return Err(Error::TemplateBadModel(name.clone()));
        },
    };
    let temperature = match rec.get("temperature") {
        Option::Some(Value::Int(t)) => Some(Value::Int(*t)),
        Option::Some(Value::Num(t)) => Some(Value::Num(t.clone())),
        Option::None => None,
        _ => {
            return Err(Error::TemplateBadTemperature(name.clone()));
        },
    };
    Ok(TemplateDef { prompt, tokens, model, temperature })
}

/// The arguments of one embedded completion call, as the template engine
/// hands them over: a string `prompt` and a non-negative integer `tokens`.
/// A missing or differently-typed argument is refused by its name.
pub fn completion_call_args(args: &Record) -> (r: Result<(String, u64), Error>)
    ensures
        match r {
            Result::Ok(pt) => obj_get(args@, "prompt"@) == Some(Val::Str(pt.0@)) && obj_get(
                args@,
                "tokens"@,
            ) == Some(Val::Int(pt.1 as int)),
            Result::Err(e) => match e {
                Error::MissingField(k) => (k@ == "prompt"@ && !(obj_get(args@, "prompt"@) matches
                Some(Val::Str(_)))) || (k@ == "tokens"@ && (obj_get(args@, "prompt"@) matches Some(
                    Val::Str(_),
                )) && !(obj_get(args@, "tokens"@) matches Some(Val::Int(t)) && t >= 0)),
                _ => false,
            },
        },
{
    let prompt = match args.get("prompt") {
        Option::Some(Value::Str(p)) => p.clone(),
        _ => {
            return Err(Error::MissingField(String::from_str("prompt")));
        },
    };
    let tokens = match args.get("tokens") {
        Option::Some(Value::Int(tk)) => {
            if *tk < 0 {
                return Err(Error::MissingField(String::from_str("tokens")));
            }
            *tk as u64
        },
        _ => {
            return Err(Error::MissingField(String::from_str("tokens")));
        },
    };
    Ok((prompt, tokens))
}

} // verus!
