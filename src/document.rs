//! The filter document: a JSON-like value tree and its mathematical model.
use vstd::prelude::*;

verus! {

/// A JSON number as the filter holds it.
#[derive(Debug, PartialEq)]
pub enum Number {
    /// A non-negative integer.
    PosInt(u64),
    /// A negative integer.
    NegInt(i64),
    /// Any other number, kept as its canonical decimal text.
    Real(String),
}

/// One node of a filter document.
#[derive(Debug, PartialEq)]
pub enum Value {
    Null,
    Bool(bool),
    Number(Number),
    String(String),
    Array(Vec<Value>),
    /// Entries in the document's order.
    Object(Vec<(String, Value)>),
}

/// The mathematical model of a `Value`.
pub enum JsonModel {
    Null,
    Bool(bool),
    Int(int),
    Real(Seq<char>),
    Str(Seq<char>),
    Array(Seq<JsonModel>),
    Object(Seq<(Seq<char>, JsonModel)>),
}

impl Number {
    pub open spec fn model(&self) -> JsonModel {
        match self {
            Number::PosInt(n) => JsonModel::Int(*n as int),
            Number::NegInt(n) => JsonModel::Int(*n as int),
            Number::Real(t) => JsonModel::Real(t@),
        }
    }
}

/// The models of a sequence of values.
pub open spec fn items_model(items: Seq<Value>) -> Seq<JsonModel>
    decreases items, 0int,
{
    if items.len() == 0 {
        Seq::empty()
    } else {
        items_model(items.drop_last()).push(value_model(items.last()))
    }
}

/// The models of a sequence of entries.
pub open spec fn entries_model(entries: Seq<(String, Value)>) -> Seq<(Seq<char>, JsonModel)>
    decreases entries, 0int,
{
    if entries.len() == 0 {
        Seq::empty()
    } else {
        let e = entries.last();
        entries_model(entries.drop_last()).push((e.0@, value_model(e.1)))
    }
}

/// The model of a value.
pub open spec fn value_model(v: Value) -> JsonModel
    decreases v, 0int,
{
    match v {
        Value::Null => JsonModel::Null,
        Value::Bool(b) => JsonModel::Bool(b),
        Value::Number(n) => n.model(),
        Value::String(s) => JsonModel::Str(s@),
        Value::Array(items) => JsonModel::Array(items_model(items@)),
        Value::Object(entries) => JsonModel::Object(entries_model(entries@)),
    }
}

/// `items_model` keeps the length and models each item.
pub proof fn lemma_items_model(items: Seq<Value>)
    ensures
        items_model(items).len() == items.len(),
        forall|i: int| 0 <= i < items.len() ==> #[trigger] items_model(items)[i] == value_model(items[i]),
    decreases items.len(),
{
    if items.len() > 0 {
        lemma_items_model(items.drop_last());
    }
}

/// `entries_model` keeps the length and models each entry.
pub proof fn lemma_entries_model(entries: Seq<(String, Value)>)
    ensures
        entries_model(entries).len() == entries.len(),
        forall|i: int|
            0 <= i < entries.len() ==> #[trigger] entries_model(entries)[i] == (
            entries[i].0@,
            value_model(entries[i].1),
        ),
    decreases entries.len(),
{
    if entries.len() > 0 {
        lemma_entries_model(entries.drop_last());
    }
}

impl View for Value {
    type V = JsonModel;

    open spec fn view(&self) -> JsonModel {
        value_model(*self)
    }
}

impl Number {
    /// A copy of this number with the same model.
    pub fn duplicate(&self) -> (r: Number)
        ensures
            r.model() == self.model(),
    {
        match self {
            Number::PosInt(u) => Number::PosInt(*u),
            Number::NegInt(i) => Number::NegInt(*i),
            Number::Real(t) => Number::Real(t.clone()),
        }
    }
}

impl Value {
    /// A copy of this value with the same model.
    pub fn duplicate(&self) -> (r: Value)
        ensures
            r@ == self@,
        decreases self,
    {
        match self {
            Value::Null => Value::Null,
            Value::Bool(b) => Value::Bool(*b),
            Value::Number(n) => Value::Number(n.duplicate()),
            Value::String(s) => Value::String(s.clone()),
            Value::Array(items) => {
                let mut out: Vec<Value> = Vec::new();
                let mut k: usize = 0;
                while k < items.len()
                    invariant
                        k <= items.len(),
                        *self == Value::Array(*items),
                        out@.len() == k,
                        forall|i: int| 0 <= i < k ==> value_model(#[trigger] out@[i]) == value_model(items@[i]),
                    decreases items.len() - k,
                {
                    proof {
                        assert(decreases_to!(*self => (*self)->Array_0));
                        assert(decreases_to!(*items => items[k as int]));
                    }
                    let c = items[k].duplicate();
                    out.push(c);
                    k = k + 1;
                }
                proof {
                    lemma_items_model(out@);
                    lemma_items_model(items@);
                    assert(items_model(out@) =~= items_model(items@));
                }
                Value::Array(out)
            },
            Value::Object(entries) => {
                let mut out: Vec<(String, Value)> = Vec::new();
                let mut k: usize = 0;
                while k < entries.len()
                    invariant
                        k <= entries.len(),
                        *self == Value::Object(*entries),
                        out@.len() == k,
                        forall|i: int|
                            0 <= i < k ==> #[trigger] out@[i].0@ == entries@[i].0@ && out@[i].1@
                                == entries@[i].1@,
                    decreases entries.len() - k,
                {
                    proof {
                        assert(decreases_to!(*self => (*self)->Object_0));
                        assert(decreases_to!(*entries => entries[k as int]));
                    }
                    let key = entries[k].0.clone();
                    let c = entries[k].1.duplicate();
                    out.push((key, c));
                    k = k + 1;
                }
                proof {
                    lemma_entries_model(out@);
                    lemma_entries_model(entries@);
                    assert(entries_model(out@) =~= entries_model(entries@));
                }
                Value::Object(out)
            },
        }
    }
}

} // verus!
