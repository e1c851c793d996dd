use vstd::prelude::*;
use crate::engine::names::same_name;

verus! {

/// The kind of a record value, as schema inference distinguishes them.
#[derive(Clone, Copy, Debug, PartialEq, Eq, Structural)]
pub enum ValueType {
    Null,
    Bool,
    I64,
    U64,
    F64,
    String,
    Array,
    Object,
}

/// One semi-structured value. A floating value is held by its IEEE 754 bit
/// pattern; an object is the list of its entries in iteration order.
#[derive(Debug, PartialEq)]
pub enum Record {
    Null,
    Bool(bool),
    I64(i64),
    U64(u64),
    F64(u64),
    Utf8(String),
    Array(Vec<Record>),
    Object(Vec<(String, Record)>),
}

/// The value of the first entry that bears the given name.
pub open spec fn find_entry(entries: Seq<(String, Record)>, name: Seq<char>) -> Option<Record>
    decreases entries.len(),
{
    if entries.len() == 0 {
        None
    } else if entries[0].0@ == name {
        Some(entries[0].1)
    } else {
        find_entry(entries.drop_first(), name)
    }
}

/// A name that no entry bears is not found, and one found is borne by an
/// entry.
pub proof fn lemma_find_entry(entries: Seq<(String, Record)>, name: Seq<char>)
    ensures
        find_entry(entries, name) is None <==> forall|i: int|
            0 <= i < entries.len() ==> (#[trigger] entries[i]).0@ != name,
        find_entry(entries, name) is Some ==> exists|i: int|
            0 <= i < entries.len() && (#[trigger] entries[i]).0@ == name && entries[i].1
                == find_entry(entries, name).unwrap(),
    decreases entries.len(),
{
    if entries.len() > 0 {
        if entries[0].0@ != name {
            let rest = entries.drop_first();
            lemma_find_entry(rest, name);
            assert(forall|i: int| 0 <= i < rest.len() ==> rest[i] == entries[i + 1]);
            if find_entry(rest, name) is Some {
                let i = choose|i: int|
                    0 <= i < rest.len() && (#[trigger] rest[i]).0@ == name && rest[i].1
                        == find_entry(rest, name).unwrap();
                assert(entries[i + 1].0@ == name);
            } else {
                assert forall|i: int| 0 <= i < entries.len() implies (#[trigger] entries[i]).0@
                    != name by {
                    if i > 0 {
                        assert(rest[i - 1] == entries[i]);
                    }
                }
            }
        } else {
            assert(entries[0].0@ == name);
        }
    }
}

/// What a record is, as contracts see it: the same value with every string
/// taken as its sequence of characters.
pub enum Value {
    Null,
    Bool(bool),
    I64(i64),
    U64(u64),
    F64(u64),
    Utf8(Seq<char>),
    Array(Seq<Value>),
    Object(Seq<(Seq<char>, Value)>),
}

impl View for Record {
    type V = Value;

    open spec fn view(&self) -> Value {
        self.value()
    }
}

impl Record {
    /// What the record is, as contracts see it.
    pub open spec fn value(&self) -> Value
        decreases self,
    {
        match *self {
            Record::Null => Value::Null,
            Record::Bool(b) => Value::Bool(b),
            Record::I64(i) => Value::I64(i),
            Record::U64(u) => Value::U64(u),
            Record::F64(bits) => Value::F64(bits),
            Record::Utf8(s) => Value::Utf8(s@),
            Record::Array(items) => Value::Array(
                Seq::new(
                    items@.len(),
                    |i: int|
                        if 0 <= i < items@.len() {
                            items@[i].value()
                        } else {
                            Value::Null
                        },
                ),
            ),
            Record::Object(entries) => Value::Object(
                Seq::new(
                    entries@.len(),
                    |i: int|
                        if 0 <= i < entries@.len() {
                            (entries@[i].0@, entries@[i].1.value())
                        } else {
                            (Seq::empty(), Value::Null)
                        },
                ),
            ),
        }
    }
}

/// The places `0` to `n - 1`, each exactly once, in some order.
pub open spec fn is_permutation(places: Seq<int>, n: nat) -> bool {
    &&& places.len() == n
    &&& forall|i: int| 0 <= i < n ==> 0 <= #[trigger] places[i] < n
    &&& forall|i: int, j: int| 0 <= i < j < n ==> #[trigger] places[i] != #[trigger] places[j]
}

/// Two values are the same but for the order in which their objects, at any
/// depth, hold their entries: scalars are equal, arrays hold the same items
/// at the same places, and the entries of an object are those of the other in
/// some order.
pub open spec fn same_content(a: Value, b: Value) -> bool
    decreases a,
{
    match a {
        Value::Array(items) => b is Array && b->Array_0.len() == items.len() && forall|i: int|
            0 <= i < items.len() ==> same_content(#[trigger] items[i], b->Array_0[i]),
        Value::Object(entries) => b is Object && b->Object_0.len() == entries.len() && exists|
            places: Seq<int>,
        |
            #![auto]
            is_permutation(places, entries.len()) && forall|i: int|
                0 <= i < entries.len() ==> (#[trigger] entries[i]).0 == b->Object_0[places[i]].0
                    && same_content(entries[i].1, b->Object_0[places[i]].1),
        _ => a == b,
    }
}

/// An array is seen as the sequence of its items, each as it is seen.
pub proof fn lemma_array_view(items: Vec<Record>)
    ensures
        Record::Array(items)@ is Array,
        Record::Array(items)@->Array_0.len() == items@.len(),
        forall|j: int|
            0 <= j < items@.len() ==> Record::Array(items)@->Array_0[j] == (#[trigger] items@[j])@,
{
    reveal_with_fuel(Record::value, 2);
}

/// An object is seen as the sequence of its entries, each as its name and its
/// value as it is seen.
pub proof fn lemma_object_view(entries: Vec<(String, Record)>)
    ensures
        Record::Object(entries)@ is Object,
        Record::Object(entries)@->Object_0.len() == entries@.len(),
        forall|j: int|
            0 <= j < entries@.len() ==> Record::Object(entries)@->Object_0[j] == ((
                #[trigger] entries@[j]).0@, entries@[j].1@),
{
    reveal_with_fuel(Record::value, 2);
}

impl Record {
    /// A record equal to this one.
    pub fn duplicate(&self) -> (copy: Record)
        ensures
            copy@ == self@,
        decreases self,
    {
        match self {
            Record::Null => Record::Null,
            Record::Bool(b) => Record::Bool(*b),
            Record::I64(i) => Record::I64(*i),
            Record::U64(u) => Record::U64(*u),
            Record::F64(bits) => Record::F64(*bits),
            Record::Utf8(s) => Record::Utf8(s.clone()),
            Record::Array(items) => {
                let mut copies: Vec<Record> = Vec::new();
                let mut i: usize = 0;
                proof {
                    lemma_array_view(*items);
                }
                while i < items.len()
                    invariant
                        i <= items@.len(),
                        copies@.len() == i,
                        decreases_to!(*self => *items),
                        self@ is Array,
                        self@->Array_0.len() == items@.len(),
                        forall|j: int|
                            0 <= j < items@.len() ==> self@->Array_0[j] == (#[trigger] items@[j])@,
                        forall|j: int| 0 <= j < i ==> (#[trigger] copies@[j])@ == items@[j]@,
                    decreases items.len() - i,
                {
                    proof {
                        vstd::std_specs::vec::axiom_vec_index_decreases(*items, i as int);
                    }
                    copies.push(items[i].duplicate());
                    i += 1;
                }
                let copy = Record::Array(copies);
                proof {
                    lemma_array_view(copies);
                    assert(copy@->Array_0 =~= self@->Array_0);
                }
                copy
            },
            Record::Object(entries) => {
                let mut copies: Vec<(String, Record)> = Vec::new();
                let mut i: usize = 0;
                proof {
                    lemma_object_view(*entries);
                }
                while i < entries.len()
                    invariant
                        i <= entries@.len(),
                        copies@.len() == i,
                        decreases_to!(*self => *entries),
                        self@ is Object,
                        self@->Object_0.len() == entries@.len(),
                        forall|j: int|
                            0 <= j < entries@.len() ==> self@->Object_0[j] == ((
                                #[trigger] entries@[j]).0@, entries@[j].1@),
                        forall|j: int|
                            0 <= j < i ==> (#[trigger] copies@[j]).0@ == entries@[j].0@
                                && copies@[j].1@ == entries@[j].1@,
                    decreases entries.len() - i,
                {
                    proof {
                        vstd::std_specs::vec::axiom_vec_index_decreases(*entries, i as int);
                    }
                    copies.push((entries[i].0.clone(), entries[i].1.duplicate()));
                    i += 1;
                }
                let copy = Record::Object(copies);
                proof {
                    lemma_object_view(copies);
                    assert(copy@->Object_0 =~= self@->Object_0);
                }
                copy
            },
        }
    }

    /// The value under a name in a top-level object: that of the first entry
    /// with the name. `None` where no entry bears it or the value is no
    /// object.
    pub open spec fn lookup(&self, name: Seq<char>) -> Option<Record> {
        find_entry(self.entries(), name)
    }

    pub fn get(&self, name: &str) -> (v: Option<&Record>)
        ensures
            match v {
                Some(found) => self.lookup(name@) == Some(*found),
                None => self.lookup(name@) is None,
            },
    {
        match self {
            Record::Object(entries) => {
                let mut i: usize = 0;
                assert(entries@.skip(0) =~= entries@);
                while i < entries.len()
                    invariant
                        i <= entries@.len(),
                        entries@ == self.entries(),
                        find_entry(entries@, name@) == find_entry(entries@.skip(i as int), name@),
                    decreases entries.len() - i,
                {
                    assert(entries@.skip(i as int)[0] == entries@[i as int]);
                    assert(entries@.skip(i as int).drop_first() =~= entries@.skip(i + 1));
                    if same_name(entries[i].0.as_str(), name) {
                        return Some(&entries[i].1);
                    }
                    i += 1;
                }
                None
            },
            _ => None,
        }
    }

    pub fn is_object(&self) -> (b: bool)
        ensures
            b == (self is Object),
    {
        match self {
            Record::Object(_) => true,
            _ => false,
        }
    }

    /// The kind of this value.
    pub open spec fn spec_value_type(&self) -> ValueType {
        match *self {
            Record::Null => ValueType::Null,
            Record::Bool(_) => ValueType::Bool,
            Record::I64(_) => ValueType::I64,
            Record::U64(_) => ValueType::U64,
            Record::F64(_) => ValueType::F64,
            Record::Utf8(_) => ValueType::String,
            Record::Array(_) => ValueType::Array,
            Record::Object(_) => ValueType::Object,
        }
    }

    /// The entries of an object; no entries for any other value.
    pub open spec fn entries(&self) -> Seq<(String, Record)> {
        match *self {
            Record::Object(e) => e@,
            _ => Seq::empty(),
        }
    }

    #[verifier::when_used_as_spec(spec_value_type)]
    pub fn value_type(&self) -> (t: ValueType)
        ensures
            t == self.spec_value_type(),
    {
        match self {
            Record::Null => ValueType::Null,
            Record::Bool(_) => ValueType::Bool,
            Record::I64(_) => ValueType::I64,
            Record::U64(_) => ValueType::U64,
            Record::F64(_) => ValueType::F64,
            Record::Utf8(_) => ValueType::String,
            Record::Array(_) => ValueType::Array,
            Record::Object(_) => ValueType::Object,
        }
    }
}

} // verus!
