use vstd::prelude::*;
use crate::engine::names::same_name;
use crate::engine::record::{lemma_object_view, Record, Value};
use crate::engine::schema::{views, Field, FieldView, Schema};

verus! {

/// The names of a list, each as contracts see it.
pub open spec fn names_of(names: Seq<String>) -> Seq<Seq<char>> {
    Seq::new(names.len(), |i: int| names[i]@)
}

/// The first field that bears the name.
pub open spec fn find_field(fields: Seq<FieldView>, name: Seq<char>) -> Option<FieldView>
    decreases fields.len(),
{
    if fields.len() == 0 {
        None
    } else if fields[0].name == name {
        Some(fields[0])
    } else {
        find_field(fields.drop_first(), name)
    }
}

/// The fields that a ranking selects from a schema: for each name of the
/// ranking, in its order, the first field of the schema that bears it; a name
/// that no field bears selects nothing.
pub open spec fn selected(fields: Seq<FieldView>, ranking: Seq<Seq<char>>) -> Seq<FieldView>
    decreases ranking.len(),
{
    if ranking.len() == 0 {
        Seq::empty()
    } else {
        match find_field(fields, ranking.last()) {
            Some(field) => selected(fields, ranking.drop_last()).push(field),
            None => selected(fields, ranking.drop_last()),
        }
    }
}

/// The schema after pruning: the selected fields, or the whole schema where
/// the ranking selects none.
pub open spec fn pruned(fields: Seq<FieldView>, ranking: Seq<Seq<char>>) -> Seq<FieldView> {
    if selected(fields, ranking).len() == 0 {
        fields
    } else {
        selected(fields, ranking)
    }
}

/// The entries of an object that are kept: those whose name is among the
/// names to keep, in their order.
pub open spec fn retained(entries: Seq<(Seq<char>, Value)>, keep: Seq<Seq<char>>) -> Seq<
    (Seq<char>, Value),
>
    decreases entries.len(),
{
    if entries.len() == 0 {
        Seq::empty()
    } else if keep.contains(entries.last().0) {
        retained(entries.drop_last(), keep).push(entries.last())
    } else {
        retained(entries.drop_last(), keep)
    }
}

/// The record after pruning: an object keeps the entries whose names are to
/// be kept, any other value stays as it is.
pub open spec fn pruned_record(value: Value, keep: Seq<Seq<char>>) -> Value {
    match value {
        Value::Object(entries) => Value::Object(retained(entries, keep)),
        _ => value,
    }
}

/// The first field that bears a name is the one at the first position where
/// the name stands.
proof fn lemma_find_field_at(fields: Seq<FieldView>, name: Seq<char>, i: int)
    requires
        0 <= i < fields.len(),
        fields[i].name == name,
        forall|j: int| 0 <= j < i ==> fields[j].name != name,
    ensures
        find_field(fields, name) == Some(fields[i]),
    decreases fields.len(),
{
    if i > 0 {
        let rest = fields.drop_first();
        assert(forall|j: int| 0 <= j < rest.len() ==> rest[j] == fields[j + 1]);
        lemma_find_field_at(rest, name, i - 1);
    }
}

/// A name that no field bears finds none.
proof fn lemma_find_field_none(fields: Seq<FieldView>, name: Seq<char>)
    requires
        forall|j: int| 0 <= j < fields.len() ==> fields[j].name != name,
    ensures
        find_field(fields, name) is None,
    decreases fields.len(),
{
    if fields.len() > 0 {
        let rest = fields.drop_first();
        assert(forall|j: int| 0 <= j < rest.len() ==> rest[j] == fields[j + 1]);
        lemma_find_field_none(rest, name);
    }
}

/// Whether a name is among the names of a list.
pub fn contains_name(names: &Vec<String>, name: &str) -> (found: bool)
    ensures
        found == names_of(names@).contains(name@),
{
    let mut i: usize = 0;
    while i < names.len()
        invariant
            i <= names@.len(),
            forall|j: int| 0 <= j < i ==> names_of(names@)[j] != name@,
        decreases names.len() - i,
    {
        if same_name(names[i].as_str(), name) {
            assert(names_of(names@)[i as int] == name@);
            return true;
        }
        i += 1;
    }
    false
}

/// Prunes a schema to the columns of a ranking: the fields that the ranked
/// names select, in the order of the ranking. Where they select none, the
/// schema stays whole. The flag says whether anything was selected.
pub fn prune_schema(schema: &Schema, ranking: &Vec<String>) -> (r: (Schema, bool))
    ensures
        r.0@ == pruned(schema@, names_of(ranking@)),
        r.1 == (selected(schema@, names_of(ranking@)).len() > 0),
{
    let mut fields: Vec<Field> = Vec::new();
    let mut i: usize = 0;
    let ghost names = names_of(ranking@);
    assert(names.take(0) =~= Seq::empty());
    assert(views(fields@) =~= Seq::empty());
    while i < ranking.len()
        invariant
            i <= ranking@.len(),
            names == names_of(ranking@),
            views(fields@) == selected(schema@, names.take(i as int)),
        decreases ranking.len() - i,
    {
        let ghost before = views(fields@);
        proof {
            assert(names.take(i + 1).drop_last() =~= names.take(i as int));
            assert(names.take(i + 1).last() == ranking@[i as int]@);
        }
        match schema.index_of(ranking[i].as_str()) {
            Some(at) => {
                proof {
                    lemma_find_field_at(schema@, ranking@[i as int]@, at as int);
                }
                fields.push(schema.fields[at].duplicate());
                assert(views(fields@) =~= before.push(schema@[at as int]));
            },
            None => {
                proof {
                    lemma_find_field_none(schema@, ranking@[i as int]@);
                }
            },
        }
        i += 1;
    }
    assert(names.take(i as int) =~= names);
    if fields.len() == 0 {
        (schema.duplicate(), false)
    } else {
        (Schema { fields }, true)
    }
}

/// Prunes a record to the columns to keep.
pub fn retain_columns(record: &Record, keep: &Vec<String>) -> (out: Record)
    ensures
        out@ == pruned_record(record@, names_of(keep@)),
{
    match record {
        Record::Object(entries) => {
            let mut kept: Vec<(String, Record)> = Vec::new();
            let mut i: usize = 0;
            let ghost all = record@->Object_0;
            let ghost names = names_of(keep@);
            proof {
                lemma_object_view(*entries);
                lemma_object_view(kept);
                assert(all.take(0) =~= Seq::empty());
                assert(Record::Object(kept)@->Object_0 =~= retained(all.take(0), names));
            }
            while i < entries.len()
                invariant
                    i <= entries@.len(),
                    all.len() == entries@.len(),
                    names == names_of(keep@),
                    forall|j: int|
                        0 <= j < entries@.len() ==> all[j] == ((#[trigger] entries@[j]).0@,
                            entries@[j].1@),
                    Record::Object(kept)@ is Object,
                    Record::Object(kept)@->Object_0 == retained(all.take(i as int), names),
                decreases entries.len() - i,
            {
                let ghost before = Record::Object(kept)@->Object_0;
                proof {
                    lemma_object_view(kept);
                    assert(all.take(i + 1).drop_last() =~= all.take(i as int));
                    assert(all.take(i + 1).last() == all[i as int]);
                }
                if contains_name(keep, entries[i].0.as_str()) {
                    kept.push((entries[i].0.clone(), entries[i].1.duplicate()));
                    proof {
                        lemma_object_view(kept);
                        assert(Record::Object(kept)@->Object_0 =~= before.push(all[i as int]));
                    }
                }
                i += 1;
            }
            assert(all.take(i as int) =~= all);
            Record::Object(kept)
        },
        _ => record.duplicate(),
    }
}

} // verus!
