//! The value tree shared by query literals and responses.
use vstd::prelude::*;
use crate::util::{find_first, lemma_first_match_at, models};

verus! {

/// A GraphQL value: a literal of a query document or a node of a response.
///
/// An object keeps its entries in insertion order. A floating-point literal is
/// held as the bit pattern of its 64-bit encoding and is never interpreted.
#[derive(Debug, PartialEq)]
pub enum Value {
    Variable(String),
    Int(i64),
    Float(u64),
    String(String),
    Boolean(bool),
    Null,
    Enum(String),
    List(Vec<Value>),
    Object(Vec<(String, Value)>),
}

/// The mathematical model of a [`Value`].
pub enum ValueModel {
    Variable(Seq<char>),
    Int(int),
    Float(int),
    String(Seq<char>),
    Boolean(bool),
    Null,
    Enum(Seq<char>),
    List(Seq<ValueModel>),
    Object(Seq<(Seq<char>, ValueModel)>),
}

/// The model of a value: its tree with every string and list read as a
/// sequence.
pub open spec fn value_model(v: Value) -> ValueModel
    decreases v,
{
    match v {
        Value::Variable(name) => ValueModel::Variable(name@),
        Value::Int(i) => ValueModel::Int(i as int),
        Value::Float(bits) => ValueModel::Float(bits as int),
        Value::String(s) => ValueModel::String(s@),
        Value::Boolean(b) => ValueModel::Boolean(b),
        Value::Null => ValueModel::Null,
        Value::Enum(name) => ValueModel::Enum(name@),
        Value::List(items) => ValueModel::List(
            Seq::new(
                items.len() as nat,
                |i: int|
                    if 0 <= i < items.len() {
                        value_model(items[i])
                    } else {
                        ValueModel::Null
                    },
            ),
        ),
        Value::Object(entries) => ValueModel::Object(
            Seq::new(
                entries.len() as nat,
                |i: int|
                    if 0 <= i < entries.len() {
                        (entries[i].0@, value_model(entries[i].1))
                    } else {
                        (Seq::empty(), ValueModel::Null)
                    },
            ),
        ),
    }
}

impl View for Value {
    type V = ValueModel;

    open spec fn view(&self) -> ValueModel {
        value_model(*self)
    }
}

/// The models of a sequence of values, one for one.
pub open spec fn values_view(items: Seq<Value>) -> Seq<ValueModel> {
    models(items)
}

/// The models of a sequence of named values, one for one.
pub open spec fn entries_view(entries: Seq<(String, Value)>) -> Seq<(Seq<char>, ValueModel)> {
    Seq::new(entries.len(), |i: int| (entries[i].0@, entries[i].1@))
}

/// The test that a named value has the name `key`.
pub open spec fn entry_keyed(key: Seq<char>) -> spec_fn((Seq<char>, ValueModel)) -> bool {
    |e: (Seq<char>, ValueModel)| e.0 == key
}

/// The value of the first entry named `key`, if there is one.
pub open spec fn entry_value(entries: Seq<(Seq<char>, ValueModel)>, key: Seq<char>) -> Option<
    ValueModel,
> {
    match find_first(entries, entry_keyed(key)) {
        Some(e) => Some(e.1),
        None => None,
    }
}

impl Value {
    /// The view of a list value, element by element.
    pub proof fn lemma_list_view(items: Vec<Value>)
        ensures
            Value::List(items)@ == ValueModel::List(values_view(items@)),
    {
        assert(Value::List(items)@->List_0 =~= values_view(items@));
    }

    /// The view of an object value, entry by entry.
    pub proof fn lemma_object_view(entries: Vec<(String, Value)>)
        ensures
            Value::Object(entries)@ == ValueModel::Object(entries_view(entries@)),
    {
        assert(Value::Object(entries)@->Object_0 =~= entries_view(entries@));
    }

    /// Whether this value is `Null`.
    pub fn is_null(&self) -> (b: bool)
        ensures
            b == (self@ == ValueModel::Null),
    {
        match self {
            Value::Null => true,
            _ => false,
        }
    }

    /// Looks `key` up in an object's entries: the value of the first entry with
    /// that name.
    pub fn get<'a>(entries: &'a Vec<(String, Value)>, key: &String) -> (found: Option<&'a Value>)
        ensures
            match found {
                Some(v) => entry_value(entries_view(entries@), key@) == Some(v@),
                None => entry_value(entries_view(entries@), key@).is_none(),
            },
    {
        let mut i: usize = 0;
        while i < entries.len()
            invariant
                i <= entries.len(),
                forall|j: int| 0 <= j < i ==> (#[trigger] entries_view(entries@)[j]).0 != key@,
            decreases entries.len() - i,
        {
            if entries[i].0 == *key {
                proof {
                    lemma_first_match_at(entries_view(entries@), entry_keyed(key@), i as int);
                }
                return Some(&entries[i].1);
            }
            i += 1;
        }
        proof {
            lemma_first_match_at(entries_view(entries@), entry_keyed(key@), i as int);
        }
        None
    }
}

impl Clone for Value {
    fn clone(&self) -> (copy: Value)
        ensures
            copy@ == self@,
        decreases self,
    {
        match self {
            Value::Variable(name) => Value::Variable(name.clone()),
            Value::Int(i) => Value::Int(*i),
            Value::Float(bits) => Value::Float(*bits),
            Value::String(s) => Value::String(s.clone()),
            Value::Boolean(b) => Value::Boolean(*b),
            Value::Null => Value::Null,
            Value::Enum(name) => Value::Enum(name.clone()),
            Value::List(items) => {
                let mut out: Vec<Value> = Vec::new();
                let mut i: usize = 0;
                while i < items.len()
                    invariant
                        i <= items.len(),
                        out.len() == i,
                        self->List_0 == *items,
                        self is List,
                        forall|j: int| 0 <= j < i ==> out[j]@ == items[j]@,
                    decreases items.len() - i,
                {
                    proof {
                        assert(decreases_to!(*items => items[i as int]));
                        assert(decreases_to!(*self => self->List_0));
                    }
                    let item = items[i].clone();
                    out.push(item);
                    i += 1;
                }
                proof {
                    Value::lemma_list_view(out);
                    Value::lemma_list_view(*items);
                    assert(values_view(out@) =~= values_view(items@));
                }
                Value::List(out)
            },
            Value::Object(entries) => {
                let mut out: Vec<(String, Value)> = Vec::new();
                let mut i: usize = 0;
                while i < entries.len()
                    invariant
                        i <= entries.len(),
                        out.len() == i,
                        self->Object_0 == *entries,
                        self is Object,
                        forall|j: int|
                            0 <= j < i ==> out[j].0@ == entries[j].0@ && out[j].1@ == entries[j].1@,
                    decreases entries.len() - i,
                {
                    proof {
                        assert(decreases_to!(*entries => entries[i as int]));
                        assert(decreases_to!(entries[i as int] => entries[i as int].1));
                        assert(decreases_to!(*self => self->Object_0));
                    }
                    let item = entries[i].1.clone();
                    out.push((entries[i].0.clone(), item));
                    i += 1;
                }
                proof {
                    Value::lemma_object_view(out);
                    Value::lemma_object_view(*entries);
                    assert(entries_view(out@) =~= entries_view(entries@));
                }
                Value::Object(out)
            },
        }
    }
}

/// Copies a list of named values.
pub fn clone_entries(entries: &Vec<(String, Value)>) -> (copy: Vec<(String, Value)>)
    ensures
        entries_view(copy@) == entries_view(entries@),
{
    let mut out: Vec<(String, Value)> = Vec::new();
    let mut i: usize = 0;
    while i < entries.len()
        invariant
            i <= entries.len(),
            out.len() == i,
            forall|j: int| 0 <= j < i ==> out[j].0@ == entries[j].0@ && out[j].1@ == entries[j].1@,
        decreases entries.len() - i,
    {
        out.push((entries[i].0.clone(), entries[i].1.clone()));
        i += 1;
    }
    assert(entries_view(out@) =~= entries_view(entries@));
    out
}

/// Compares two values by their models.
pub fn value_eq(a: &Value, b: &Value) -> (same: bool)
    ensures
        same == (a@ == b@),
    decreases a,
{
    match (a, b) {
        (Value::Variable(x), Value::Variable(y)) => *x == *y,
        (Value::Int(x), Value::Int(y)) => *x == *y,
        (Value::Float(x), Value::Float(y)) => *x == *y,
        (Value::String(x), Value::String(y)) => *x == *y,
        (Value::Boolean(x), Value::Boolean(y)) => *x == *y,
        (Value::Null, Value::Null) => true,
        (Value::Enum(x), Value::Enum(y)) => *x == *y,
        (Value::List(xs), Value::List(ys)) => {
            proof {
                Value::lemma_list_view(*xs);
                Value::lemma_list_view(*ys);
            }
            if xs.len() != ys.len() {
                assert(values_view(xs@).len() != values_view(ys@).len());
                return false;
            }
            let mut i: usize = 0;
            while i < xs.len()
                invariant
                    i <= xs.len(),
                    xs.len() == ys.len(),
                    a->List_0 == *xs,
                    a is List,
                    b->List_0 == *ys,
                    b is List,
                    forall|j: int| 0 <= j < i ==> xs[j]@ == ys[j]@,
                decreases xs.len() - i,
            {
                proof {
                    assert(decreases_to!(*xs => xs[i as int]));
                    assert(decreases_to!(*a => a->List_0));
                }
                if !value_eq(&xs[i], &ys[i]) {
                    proof {
                        Value::lemma_list_view(*xs);
                        Value::lemma_list_view(*ys);
                    }
                    assert(values_view(xs@)[i as int] != values_view(ys@)[i as int]);
                    return false;
                }
                i += 1;
            }
            assert(values_view(xs@) =~= values_view(ys@));
            true
        },
        (Value::Object(xs), Value::Object(ys)) => {
            proof {
                Value::lemma_object_view(*xs);
                Value::lemma_object_view(*ys);
            }
            if xs.len() != ys.len() {
                assert(entries_view(xs@).len() != entries_view(ys@).len());
                return false;
            }
            let mut i: usize = 0;
            while i < xs.len()
                invariant
                    i <= xs.len(),
                    xs.len() == ys.len(),
                    a->Object_0 == *xs,
                    a is Object,
                    b->Object_0 == *ys,
                    b is Object,
                    forall|j: int| 0 <= j < i ==> xs[j].0@ == ys[j].0@ && xs[j].1@ == ys[j].1@,
                decreases xs.len() - i,
            {
                proof {
                    assert(decreases_to!(*xs => xs[i as int]));
                    assert(decreases_to!(xs[i as int] => xs[i as int].1));
                    assert(decreases_to!(*a => a->Object_0));
                }
                if !(xs[i].0 == ys[i].0) || !value_eq(&xs[i].1, &ys[i].1) {
                    proof {
                        Value::lemma_object_view(*xs);
                        Value::lemma_object_view(*ys);
                    }
                    assert(entries_view(xs@)[i as int] != entries_view(ys@)[i as int]);
                    return false;
                }
                i += 1;
            }
            assert(entries_view(xs@) =~= entries_view(ys@));
            true
        },
        _ => false,
    }
}

} // verus!
