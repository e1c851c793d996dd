use vstd::prelude::*;
use vstd::string::*;
use crate::engine::error::UdoError;
use crate::engine::names::{compare_names, name_before, same_name, NameOrder, lemma_name_order_total,
    lemma_name_before_transitive};
use crate::engine::record::{Record, ValueType};
use crate::utils::json::{expected_array_error, json_error_text};
use vstd::utf8::encode_utf8;

verus! {

/// The type of a column.
#[derive(Clone, Copy, Debug, PartialEq, Eq, Structural)]
pub enum DataType {
    Int64,
    Float64,
    Utf8,
    Boolean,
}

/// A named, typed column of a schema.
#[derive(Debug, PartialEq, Eq)]
pub struct Field {
    pub name: String,
    pub data_type: DataType,
    pub nullable: bool,
}

/// What a field is, as contracts see it.
pub struct FieldView {
    pub name: Seq<char>,
    pub data_type: DataType,
    pub nullable: bool,
}

impl View for Field {
    type V = FieldView;

    open spec fn view(&self) -> FieldView {
        FieldView { name: self.name@, data_type: self.data_type, nullable: self.nullable }
    }
}

impl Field {
    pub fn new(name: &str, data_type: DataType, nullable: bool) -> (f: Field)
        ensures
            f@ == (FieldView { name: name@, data_type, nullable }),
    {
        Field { name: String::from_str(name), data_type, nullable }
    }

    pub fn name(&self) -> (n: &String)
        ensures
            n@ == self@.name,
    {
        &self.name
    }

    pub fn data_type(&self) -> (t: &DataType)
        ensures
            *t == self@.data_type,
    {
        &self.data_type
    }

    pub fn is_nullable(&self) -> (b: bool)
        ensures
            b == self@.nullable,
    {
        self.nullable
    }

    /// A field equal to this one.
    pub fn duplicate(&self) -> (f: Field)
        ensures
            f@ == self@,
    {
        Field { name: self.name.clone(), data_type: self.data_type, nullable: self.nullable }
    }
}

/// An ordered list of fields.
#[derive(Debug, PartialEq, Eq)]
pub struct Schema {
    pub fields: Vec<Field>,
}

impl View for Schema {
    type V = Seq<FieldView>;

    open spec fn view(&self) -> Seq<FieldView> {
        views(self.fields@)
    }
}

/// The fields of a list, each as contracts see it.
pub open spec fn views(fields: Seq<Field>) -> Seq<FieldView> {
    Seq::new(fields.len(), |i: int| fields[i]@)
}

/// The column type that one observed value of the given kind calls for.
pub open spec fn column_type_of(kind: ValueType) -> DataType {
    match kind {
        ValueType::I64 | ValueType::U64 => DataType::Int64,
        ValueType::F64 => DataType::Float64,
        ValueType::Bool => DataType::Boolean,
        _ => DataType::Utf8,
    }
}

/// The type of a column after one more observation: the first observation
/// decides, except that an integer column becomes floating once a floating
/// value is seen.
pub open spec fn widen(known: Option<DataType>, seen: DataType) -> DataType {
    match known {
        None => seen,
        Some(DataType::Int64) => if seen == DataType::Float64 {
            DataType::Float64
        } else {
            DataType::Int64
        },
        Some(t) => t,
    }
}

/// The observations that one row contributes: name and column type of each
/// entry of a top-level object, none for any other value.
pub open spec fn row_observations(row: Record) -> Seq<(Seq<char>, DataType)> {
    Seq::new(
        row.entries().len(),
        |i: int| (row.entries()[i].0@, column_type_of(row.entries()[i].1.spec_value_type())),
    )
}

/// The observations of a sequence of rows, in row order.
pub open spec fn observations(rows: Seq<Record>) -> Seq<(Seq<char>, DataType)>
    decreases rows.len(),
{
    if rows.len() == 0 {
        Seq::empty()
    } else {
        observations(rows.drop_last()) + row_observations(rows.last())
    }
}

/// The type inferred for a name from a sequence of observations, or `None`
/// where the name was never observed.
pub open spec fn inferred_type(obs: Seq<(Seq<char>, DataType)>, name: Seq<char>) -> Option<
    DataType,
>
    decreases obs.len(),
{
    if obs.len() == 0 {
        None
    } else if obs.last().0 == name {
        Some(widen(inferred_type(obs.drop_last(), name), obs.last().1))
    } else {
        inferred_type(obs.drop_last(), name)
    }
}

/// The fields stand in strictly increasing order of their names.
pub open spec fn sorted_by_name(fields: Seq<FieldView>) -> bool {
    forall|i: int, j: int|
        0 <= i < j < fields.len() ==> name_before(
            (#[trigger] fields[i]).name,
            (#[trigger] fields[j]).name,
        )
}

/// The fields are exactly the names observed, each with its inferred type and
/// nullable, in the order of their names.
pub open spec fn schema_of(fields: Seq<FieldView>, obs: Seq<(Seq<char>, DataType)>) -> bool {
    &&& sorted_by_name(fields)
    &&& forall|i: int|
        0 <= i < fields.len() ==> (#[trigger] fields[i]).nullable && inferred_type(
            obs,
            fields[i].name,
        ) == Some(fields[i].data_type)
    &&& forall|name: Seq<char>| #[trigger]
        inferred_type(obs, name).is_some() ==> exists|i: int|
            0 <= i < fields.len() && (#[trigger] fields[i]).name == name
}

/// How many rows inference scans: all of them, or the first `max_rows`.
pub open spec fn scan_len(len: nat, max_rows: Option<usize>) -> nat {
    match max_rows {
        Some(n) => if (n as nat) < len {
            n as nat
        } else {
            len
        },
        None => len,
    }
}

/// One more observation changes the inferred type of its own name only.
pub proof fn lemma_inferred_push(
    obs: Seq<(Seq<char>, DataType)>,
    name: Seq<char>,
    seen: DataType,
    other: Seq<char>,
)
    ensures
        inferred_type(obs.push((name, seen)), other) == if other == name {
            Some(widen(inferred_type(obs, name), seen))
        } else {
            inferred_type(obs, other)
        },
{
    assert(obs.push((name, seen)).drop_last() =~= obs);
}

/// All observations so far change, by one more, at the observed name only.
proof fn lemma_inferred_push_all(obs: Seq<(Seq<char>, DataType)>, name: Seq<char>, seen: DataType)
    ensures
        forall|other: Seq<char>| #[trigger]
            inferred_type(obs.push((name, seen)), other) == if other == name {
                Some(widen(inferred_type(obs, name), seen))
            } else {
                inferred_type(obs, other)
            },
{
    assert forall|other: Seq<char>| #[trigger]
        inferred_type(obs.push((name, seen)), other) == if other == name {
            Some(widen(inferred_type(obs, name), seen))
        } else {
            inferred_type(obs, other)
        } by {
        lemma_inferred_push(obs, name, seen, other);
    }
}

/// A new name enters a schema at the place that its order gives it.
proof fn lemma_insert_keeps_schema(
    before: Seq<FieldView>,
    obs: Seq<(Seq<char>, DataType)>,
    name: Seq<char>,
    seen: DataType,
    i: int,
)
    requires
        schema_of(before, obs),
        0 <= i <= before.len(),
        forall|j: int| 0 <= j < i ==> name_before((#[trigger] before[j]).name, name),
        forall|j: int| i <= j < before.len() ==> name_before(name, (#[trigger] before[j]).name),
    ensures
        schema_of(
            before.insert(i, FieldView { name, data_type: seen, nullable: true }),
            obs.push((name, seen)),
        ),
{
    let added = FieldView { name, data_type: seen, nullable: true };
    let after = before.insert(i, added);
    let next = obs.push((name, seen));
    lemma_inferred_push_all(obs, name, seen);
    assert forall|j: int| 0 <= j < before.len() implies (#[trigger] before[j]).name != name by {
        if j < i {
            lemma_name_order_total(before[j].name, name);
        } else {
            lemma_name_order_total(name, before[j].name);
        }
    }
    assert(inferred_type(obs, name).is_none());
    assert forall|a: int, b: int| 0 <= a < b < after.len() implies name_before(
        (#[trigger] after[a]).name,
        (#[trigger] after[b]).name,
    ) by {
        if a < i && b > i {
            assert(after[a] == before[a]);
            assert(after[b] == before[b - 1]);
            lemma_name_before_transitive(before[a].name, name, before[b - 1].name);
        } else if a < i && b < i {
            assert(after[a] == before[a]);
            assert(after[b] == before[b]);
        } else if a > i {
            assert(after[a] == before[a - 1]);
            assert(after[b] == before[b - 1]);
        } else if a == i {
            assert(after[b] == before[b - 1]);
        } else {
            assert(after[a] == before[a]);
        }
    }
    assert forall|j: int| 0 <= j < after.len() implies (#[trigger] after[j]).nullable
        && inferred_type(next, after[j].name) == Some(after[j].data_type) by {
        if j < i {
            assert(after[j] == before[j]);
        } else if j > i {
            assert(after[j] == before[j - 1]);
        }
    }
    assert forall|other: Seq<char>| #[trigger]
        inferred_type(next, other).is_some() implies exists|j: int|
        0 <= j < after.len() && (#[trigger] after[j]).name == other by {
        if other == name {
            assert(after[i].name == other);
        } else {
            let j = choose|j: int| 0 <= j < before.len() && (#[trigger] before[j]).name == other;
            if j < i {
                assert(after[j] == before[j]);
            } else {
                assert(after[j + 1] == before[j]);
            }
        }
    }
}

/// A name seen again keeps its place, and its type is widened by what was
/// seen.
proof fn lemma_update_keeps_schema(
    before: Seq<FieldView>,
    obs: Seq<(Seq<char>, DataType)>,
    name: Seq<char>,
    seen: DataType,
    i: int,
)
    requires
        schema_of(before, obs),
        0 <= i < before.len(),
        before[i].name == name,
    ensures
        schema_of(
            before.update(
                i,
                FieldView {
                    name,
                    data_type: widen(Some(before[i].data_type), seen),
                    nullable: true,
                },
            ),
            obs.push((name, seen)),
        ),
{
    let replaced = FieldView {
        name,
        data_type: widen(Some(before[i].data_type), seen),
        nullable: true,
    };
    let after = before.update(i, replaced);
    let next = obs.push((name, seen));
    lemma_inferred_push_all(obs, name, seen);
    assert(forall|j: int|
        0 <= j < after.len() ==> (#[trigger] after[j]).name == before[j].name);
    assert forall|a: int, b: int| 0 <= a < b < after.len() implies name_before(
        (#[trigger] after[a]).name,
        (#[trigger] after[b]).name,
    ) by {
        assert(name_before(before[a].name, before[b].name));
    }
    assert forall|j: int| 0 <= j < after.len() implies (#[trigger] after[j]).nullable
        && inferred_type(next, after[j].name) == Some(after[j].data_type) by {
        assert(before[j].nullable);
        assert(inferred_type(obs, before[j].name) == Some(before[j].data_type));
        if j < i {
            assert(name_before(before[j].name, before[i].name));
            lemma_name_order_total(before[j].name, name);
        } else if j > i {
            assert(name_before(before[i].name, before[j].name));
            lemma_name_order_total(name, before[j].name);
        }
    }
    assert forall|other: Seq<char>| #[trigger]
        inferred_type(next, other).is_some() implies exists|j: int|
        0 <= j < after.len() && (#[trigger] after[j]).name == other by {
        if other == name {
            assert(after[i].name == other);
        } else {
            let j = choose|j: int| 0 <= j < before.len() && (#[trigger] before[j]).name == other;
            assert(after[j].name == other);
        }
    }
}

/// Finds where a name stands in a sorted list of fields: the position of the
/// field that bears it, or the position at which it would enter.
fn locate(fields: &Vec<Field>, name: &str) -> (r: (usize, bool))
    requires
        sorted_by_name(views(fields@)),
    ensures
        r.0 <= fields@.len(),
        forall|j: int| 0 <= j < r.0 ==> name_before((#[trigger] views(fields@)[j]).name, name@),
        r.1 ==> r.0 < fields@.len() && views(fields@)[r.0 as int].name == name@,
        !r.1 ==> forall|j: int|
            r.0 <= j < fields@.len() ==> name_before(name@, (#[trigger] views(fields@)[j]).name),
{
    let ghost all = views(fields@);
    let mut i: usize = 0;
    while i < fields.len()
        invariant
            i <= fields.len(),
            all == views(fields@),
            sorted_by_name(all),
            forall|j: int| 0 <= j < i ==> name_before((#[trigger] all[j]).name, name@),
        decreases fields.len() - i,
    {
        assert(all[i as int] == fields@[i as int]@);
        match compare_names(fields[i].name.as_str(), name) {
            NameOrder::Before => {
                i += 1;
            },
            NameOrder::Same => {
                return (i, true);
            },
            NameOrder::After => {
                proof {
                    assert forall|j: int| i <= j < all.len() implies name_before(
                        name@,
                        (#[trigger] all[j]).name,
                    ) by {
                        if j > i {
                            assert(name_before(all[i as int].name, all[j].name));
                            lemma_name_before_transitive(name@, all[i as int].name, all[j].name);
                        }
                    }
                }
                return (i, false);
            },
        }
    }
    (i, false)
}

/// Takes one observation into a list of fields that stands for the
/// observations before it.
fn observe(
    fields: &mut Vec<Field>,
    name: &str,
    seen: DataType,
    Ghost(obs): Ghost<Seq<(Seq<char>, DataType)>>,
)
    requires
        schema_of(views(old(fields)@), obs),
    ensures
        schema_of(views(final(fields)@), obs.push((name@, seen))),
{
    let ghost before = views(fields@);
    let (i, found) = locate(fields, name);
    if found {
        assert(before[i as int] == fields@[i as int]@);
        let known = fields[i].data_type;
        let widened = match (known, seen) {
            (DataType::Int64, DataType::Float64) => DataType::Float64,
            _ => known,
        };
        let replaced = Field { name: String::from_str(name), data_type: widened, nullable: true };
        let _ = fields.remove(i);
        fields.insert(i, replaced);
        proof {
            assert(views(fields@) =~= before.update(i as int, replaced@));
            lemma_update_keeps_schema(before, obs, name@, seen, i as int);
        }
    } else {
        let added = Field { name: String::from_str(name), data_type: seen, nullable: true };
        fields.insert(i, added);
        proof {
            assert(views(fields@) =~= before.insert(i as int, added@));
            lemma_insert_keeps_schema(before, obs, name@, seen, i as int);
        }
    }
}

/// The rows that inference reads from its input: the items of an array.
pub open spec fn rows_of(input: Record) -> Seq<Record> {
    match input {
        Record::Array(items) => items@,
        _ => Seq::empty(),
    }
}

/// The column type that one observed value of the given kind calls for.
pub fn column_type(kind: ValueType) -> (t: DataType)
    ensures
        t == column_type_of(kind),
{
    match kind {
        ValueType::I64 | ValueType::U64 => DataType::Int64,
        ValueType::F64 => DataType::Float64,
        ValueType::Bool => DataType::Boolean,
        _ => DataType::Utf8,
    }
}

/// The observations of a prefix grow by those of the next row.
proof fn lemma_observations_step(rows: Seq<Record>, r: int)
    requires
        0 <= r < rows.len(),
    ensures
        observations(rows.take(r + 1)) == observations(rows.take(r)) + row_observations(rows[r]),
{
    assert(rows.take(r + 1).drop_last() =~= rows.take(r));
}

/// Some row is an object.
pub open spec fn has_object(rows: Seq<Record>) -> bool {
    exists|i: int| 0 <= i < rows.len() && #[trigger] rows[i] is Object
}

/// The message of the failure of an inference that saw no object.
pub open spec fn no_object_message() -> Seq<char> {
    "No object among the scanned rows, cannot infer schema"@
}

/// Derives the schema of the first `limit` rows, or of all rows where there
/// are fewer: one nullable field for each name that occurs as a key of a
/// top-level object among them, in the order of the names, typed by what was
/// observed of it. `None` where none of those rows is an object.
pub fn infer_prefix(rows: &Vec<Record>, limit: usize) -> (r: Option<Schema>)
    ensures
        r is Some <==> has_object(rows@.take(scan_len(rows@.len(), Some(limit)) as int)),
        r matches Some(schema) ==> schema_of(
            schema@,
            observations(rows@.take(scan_len(rows@.len(), Some(limit)) as int)),
        ),
{
    let limit = if limit < rows.len() {
        limit
    } else {
        rows.len()
    };
    let mut fields: Vec<Field> = Vec::new();
    let mut seen_object = false;
    let mut r: usize = 0;
    assert(observations(rows@.take(0)) =~= Seq::empty());
    while r < limit
        invariant
            r <= limit <= rows@.len(),
            schema_of(views(fields@), observations(rows@.take(r as int))),
            seen_object <==> has_object(rows@.take(r as int)),
        decreases limit - r,
    {
        proof {
            let shorter = rows@.take(r as int);
            let longer = rows@.take(r + 1);
            assert(forall|i: int| 0 <= i < r ==> shorter[i] == longer[i]);
            assert(longer[r as int] == rows@[r as int]);
            if has_object(shorter) {
                let i = choose|i: int| 0 <= i < shorter.len() && #[trigger] shorter[i] is Object;
                assert(longer[i] is Object);
            }
            if has_object(longer) && !(rows@[r as int] is Object) {
                let i = choose|i: int| 0 <= i < longer.len() && #[trigger] longer[i] is Object;
                assert(shorter[i] is Object);
            }
        }
        let ghost seen_before = observations(rows@.take(r as int));
        let ghost row_obs = row_observations(rows@[r as int]);
        proof {
            lemma_observations_step(rows@, r as int);
            assert(seen_before + row_obs.take(0) =~= seen_before);
        }
        match &rows[r] {
            Record::Object(entries) => {
                let mut e: usize = 0;
                while e < entries.len()
                    invariant
                        e <= entries@.len(),
                        entries@ == rows@[r as int].entries(),
                        row_obs == row_observations(rows@[r as int]),
                        schema_of(views(fields@), seen_before + row_obs.take(e as int)),
                    decreases entries.len() - e,
                {
                    let seen = column_type(entries[e].1.value_type());
                    observe(
                        &mut fields,
                        entries[e].0.as_str(),
                        seen,
                        Ghost(seen_before + row_obs.take(e as int)),
                    );
                    proof {
                        assert((seen_before + row_obs.take(e as int)).push(row_obs[e as int])
                            =~= seen_before + row_obs.take(e + 1));
                    }
                    e += 1;
                }
                assert(row_obs.take(e as int) =~= row_obs);
                seen_object = true;
            },
            _ => {
                assert(row_obs =~= Seq::empty());
            },
        }
        r += 1;
    }
    if seen_object {
        Some(Schema { fields })
    } else {
        None
    }
}

/// The rows that inference scans of its input.
pub open spec fn scanned(input: Record, max_rows: Option<usize>) -> Seq<Record> {
    rows_of(input).take(scan_len(rows_of(input).len(), max_rows) as int)
}

/// Derives a schema from the rows of an array: one nullable field for each
/// name that occurs as a key of a top-level object among the scanned rows, in
/// the order of the names, typed by what was observed of it. The first
/// `max_rows` rows are scanned, or all of them.
///
/// An input that is no array is refused with a `JsonParse` error, an empty
/// array with a `Pipeline` error, and so are scanned rows without an object
/// among them.
pub fn infer_schema(json_val: &Record, max_rows: Option<usize>) -> (r: Result<Schema, UdoError>)
    ensures
        r is Ok <==> json_val is Array && has_object(scanned(*json_val, max_rows)),
        match r {
            Ok(schema) => schema_of(schema@, observations(scanned(*json_val, max_rows))),
            Err(e) => if !(json_val is Array) {
                e is JsonParse
            } else if rows_of(*json_val).len() == 0 {
                e is Pipeline && e.detail() == "Empty JSON array, cannot infer schema"@
            } else {
                e is Pipeline && e.detail() == no_object_message()
            },
        },
{
    let rows = match json_val {
        Record::Array(items) => items,
        _ => {
            let error = expected_array_error();
            return Err(UdoError::JsonParse(json_error_text(&error)));
        },
    };
    if rows.len() == 0 {
        assert(!has_object(scanned(*json_val, max_rows)));
        return Err(
            UdoError::Pipeline(String::from_str("Empty JSON array, cannot infer schema")),
        );
    }
    let limit = match max_rows {
        Some(n) => n,
        None => rows.len(),
    };
    match infer_prefix(rows, limit) {
        Some(schema) => Ok(schema),
        None => Err(
            UdoError::Pipeline(
                String::from_str("No object among the scanned rows, cannot infer schema"),
            ),
        ),
    }
}

impl Schema {
    pub fn new(fields: Vec<Field>) -> (s: Schema)
        ensures
            s.fields == fields,
    {
        Schema { fields }
    }

    /// A schema without fields.
    pub fn empty() -> (s: Schema)
        ensures
            s@.len() == 0,
    {
        Schema { fields: Vec::new() }
    }

    pub fn fields(&self) -> (f: &Vec<Field>)
        ensures
            *f == self.fields,
    {
        &self.fields
    }

    pub fn len(&self) -> (n: usize)
        ensures
            n == self@.len(),
    {
        self.fields.len()
    }

    /// The position of the first field with the given name.
    pub fn index_of(&self, name: &str) -> (r: Option<usize>)
        ensures
            match r {
                Some(i) => i < self@.len() && self@[i as int].name == name@ && forall|j: int|
                    0 <= j < i ==> self@[j].name != name@,
                None => forall|j: int| 0 <= j < self@.len() ==> self@[j].name != name@,
            },
    {
        let mut i: usize = 0;
        while i < self.fields.len()
            invariant
                i <= self.fields.len(),
                forall|j: int| 0 <= j < i ==> self@[j].name != name@,
            decreases self.fields.len() - i,
        {
            if same_name(self.fields[i].name.as_str(), name) {
                return Some(i);
            }
            i += 1;
        }
        None
    }

    /// The first field with the given name; an `Arrow` error where the schema
    /// has none.
    pub fn field_with_name(&self, name: &str) -> (r: Result<&Field, UdoError>)
        ensures
            match r {
                Ok(f) => exists|i: int|
                    0 <= i < self@.len() && self.fields@[i] == *f && f@.name == name@ && forall|
                        j: int,
                    |
                        0 <= j < i ==> self@[j].name != name@,
                Err(e) => e is Arrow && e.detail() == "Unable to get field named "@ + name@
                    && forall|j: int| 0 <= j < self@.len() ==> self@[j].name != name@,
            },
    {
        match self.index_of(name) {
            Some(i) => Ok(&self.fields[i]),
            None => Err(UdoError::Arrow(String::from_str("Unable to get field named ").concat(name))),
        }
    }

    /// A schema equal to this one.
    pub fn duplicate(&self) -> (s: Schema)
        ensures
            s@ == self@,
    {
        let mut fields: Vec<Field> = Vec::new();
        let mut i: usize = 0;
        while i < self.fields.len()
            invariant
                i <= self.fields.len(),
                fields@.len() == i,
                forall|j: int| 0 <= j < i ==> fields@[j]@ == self.fields@[j]@,
            decreases self.fields.len() - i,
        {
            fields.push(self.fields[i].duplicate());
            i += 1;
        }
        let s = Schema { fields };
        assert(s@ =~= self@);
        s
    }
}

/// Some observation gives the name the type.
pub open spec fn observed(obs: Seq<(Seq<char>, DataType)>, name: Seq<char>, seen: DataType) -> bool {
    exists|k: int| 0 <= k < obs.len() && #[trigger] obs[k] == (name, seen)
}

/// A type that an integer column can be widened to, or is.
pub open spec fn numeric(t: DataType) -> bool {
    t == DataType::Int64 || t == DataType::Float64
}

/// The observations of a name do not contradict each other: any two give the
/// same type, or two numeric types.
pub open spec fn coherent(obs: Seq<(Seq<char>, DataType)>, name: Seq<char>) -> bool {
    forall|a: int, b: int|
        0 <= a < obs.len() && 0 <= b < obs.len() && (#[trigger] obs[a]).0 == name && (
        #[trigger] obs[b]).0 == name ==> obs[a].1 == obs[b].1 || (numeric(obs[a].1) && numeric(
            obs[b].1,
        ))
}

/// The type that the first observation of a name gives it, widened where the
/// first observation is an integer and some observation of the name is
/// floating.
pub open spec fn first_or_widened(obs: Seq<(Seq<char>, DataType)>, name: Seq<char>, first: int) -> DataType {
    if obs[first].1 == DataType::Int64 && observed(obs, name, DataType::Float64) {
        DataType::Float64
    } else {
        obs[first].1
    }
}

/// What inference makes of any observations: a name never observed has no
/// type; any other name has the type of its first observation, except that an
/// integer becomes floating where any observation of the name is floating.
pub proof fn lemma_first_type_wins(obs: Seq<(Seq<char>, DataType)>, name: Seq<char>)
    ensures
        match inferred_type(obs, name) {
            None => forall|k: int| 0 <= k < obs.len() ==> (#[trigger] obs[k]).0 != name,
            Some(t) => exists|first: int|
                0 <= first < obs.len() && (#[trigger] obs[first]).0 == name && (forall|j: int|
                    0 <= j < first ==> (#[trigger] obs[j]).0 != name) && t == first_or_widened(
                    obs,
                    name,
                    first,
                ),
        },
    decreases obs.len(),
{
    if obs.len() > 0 {
        let prev = obs.drop_last();
        let last = obs.last();
        let n = obs.len() - 1;
        lemma_first_type_wins(prev, name);
        assert(forall|k: int| 0 <= k < prev.len() ==> prev[k] == obs[k]);
        assert(obs[n] == last);
        let float = (name, DataType::Float64);
        if observed(prev, name, DataType::Float64) {
            let k = choose|k: int| 0 <= k < prev.len() && #[trigger] prev[k] == float;
            assert(obs[k] == float);
        }
        if observed(obs, name, DataType::Float64) {
            let k = choose|k: int| 0 <= k < obs.len() && #[trigger] obs[k] == float;
            if k < n {
                assert(prev[k] == float);
            }
        }
        match inferred_type(prev, name) {
            None => {
                if last.0 == name {
                    assert(forall|j: int| 0 <= j < n ==> (#[trigger] obs[j]).0 != name) by {
                        assert(forall|j: int| 0 <= j < n ==> prev[j].0 != name);
                    }
                    if observed(obs, name, DataType::Float64) {
                        let k = choose|k: int| 0 <= k < obs.len() && #[trigger] obs[k] == float;
                        if k < n {
                            assert(prev[k].0 == name);
                        }
                    }
                    assert(obs[n].0 == name && inferred_type(obs, name).unwrap()
                        == first_or_widened(obs, name, n));
                } else {
                    assert forall|k: int| 0 <= k < obs.len() implies (#[trigger] obs[k]).0
                        != name by {
                        if k < n {
                            assert(prev[k].0 != name);
                        }
                    }
                }
            },
            Some(p) => {
                let first = choose|first: int|
                    0 <= first < prev.len() && (#[trigger] prev[first]).0 == name && (forall|
                        j: int,
                    |
                        0 <= j < first ==> (#[trigger] prev[j]).0 != name) && p
                        == first_or_widened(prev, name, first);
                assert(obs[first] == prev[first]);
                assert(forall|j: int| 0 <= j < first ==> (#[trigger] obs[j]).0 != name) by {
                    assert(forall|j: int| 0 <= j < first ==> prev[j].0 != name);
                }
                if last.0 == name && last.1 == DataType::Float64 {
                    assert(obs[n] == float);
                }
                assert(obs[first].0 == name && inferred_type(obs, name).unwrap()
                    == first_or_widened(obs, name, first));
            },
        }
    }
}

/// What inference makes of the observations of a name that do not contradict
/// each other: nothing where the name was never observed, a floating column
/// where a floating value was observed, and else the one type observed.
pub proof fn lemma_inferred_from_observed(obs: Seq<(Seq<char>, DataType)>, name: Seq<char>)
    requires
        coherent(obs, name),
    ensures
        match inferred_type(obs, name) {
            None => forall|k: int| 0 <= k < obs.len() ==> (#[trigger] obs[k]).0 != name,
            Some(t) => observed(obs, name, t) && (observed(obs, name, DataType::Float64) ==> t
                == DataType::Float64),
        },
    decreases obs.len(),
{
    if obs.len() > 0 {
        let prev = obs.drop_last();
        let last = obs.last();
        assert(forall|k: int| 0 <= k < prev.len() ==> prev[k] == obs[k]);
        assert(coherent(prev, name)) by {
            assert forall|a: int, b: int|
                0 <= a < prev.len() && 0 <= b < prev.len() && (#[trigger] prev[a]).0 == name && (
                #[trigger] prev[b]).0 == name implies prev[a].1 == prev[b].1 || (numeric(
                prev[a].1,
            ) && numeric(prev[b].1)) by {
                assert(obs[a].0 == name && obs[b].0 == name);
            }
        }
        lemma_inferred_from_observed(prev, name);
        let n = obs.len() - 1;
        assert(obs[n] == last);
        if observed(obs, name, DataType::Float64) {
            let k = choose|k: int|
                0 <= k < obs.len() && #[trigger] obs[k] == (name, DataType::Float64);
            if k < n {
                assert(prev[k] == (name, DataType::Float64));
            }
        }
        match inferred_type(prev, name) {
            None => {
                if last.0 == name {
                    assert(obs[n] == (name, last.1));
                    if observed(obs, name, DataType::Float64) {
                        let k = choose|k: int|
                            0 <= k < obs.len() && #[trigger] obs[k] == (name, DataType::Float64);
                        if k < n {
                            assert(prev[k].0 == name);
                        }
                    }
                } else {
                    assert forall|k: int| 0 <= k < obs.len() implies (#[trigger] obs[k]).0
                        != name by {
                        if k < n {
                            assert(prev[k].0 != name);
                        }
                    }
                }
            },
            Some(p) => {
                let k = choose|k: int| 0 <= k < prev.len() && #[trigger] prev[k] == (name, p);
                assert(obs[k] == (name, p));
                if last.0 == name {
                    assert(obs[n] == (name, last.1));
                    assert(obs[k].1 == obs[n].1 || (numeric(obs[k].1) && numeric(obs[n].1)));
                }
            },
        }
    }
}

/// Some field of the list bears the name.
#[verifier::opaque]
pub open spec fn has_name(fields: Seq<FieldView>, name: Seq<char>) -> bool {
    exists|i: int| 0 <= i < fields.len() && (#[trigger] fields[i]).name == name
}

/// Sorted lists of fields that bear the same names bear them at the same
/// places.
proof fn lemma_sorted_names_agree(f1: Seq<FieldView>, f2: Seq<FieldView>, i: int)
    requires
        sorted_by_name(f1),
        sorted_by_name(f2),
        forall|a: int| 0 <= a < f1.len() ==> has_name(f2, (#[trigger] f1[a]).name),
        forall|b: int| 0 <= b < f2.len() ==> has_name(f1, (#[trigger] f2[b]).name),
        0 <= i < f1.len(),
    ensures
        i < f2.len(),
        f1[i].name == f2[i].name,
    decreases i,
{
    assert forall|k: int| 0 <= k < i implies k < f2.len() && (#[trigger] f1[k]).name
        == f2[k].name by {
        lemma_sorted_names_agree(f1, f2, k);
    }
    assert(exists|j: int| 0 <= j < f2.len() && (#[trigger] f2[j]).name == f1[i].name) by {
        reveal(has_name);
        assert(has_name(f2, f1[i].name));
    }
    let j = choose|j: int| 0 <= j < f2.len() && (#[trigger] f2[j]).name == f1[i].name;
    if j < i {
        assert(f1[j].name == f2[j].name);
        assert(name_before(f1[j].name, f1[i].name));
        lemma_name_order_total(f1[j].name, f1[i].name);
        assert(false);
    }
    if j > i {
        assert(exists|m: int| 0 <= m < f1.len() && (#[trigger] f1[m]).name == f2[i].name) by {
            reveal(has_name);
            assert(has_name(f1, f2[i].name));
        }
        let m = choose|m: int| 0 <= m < f1.len() && (#[trigger] f1[m]).name == f2[i].name;
        if m < i {
            assert(f1[m].name == f2[m].name);
            assert(name_before(f2[m].name, f2[i].name));
            lemma_name_order_total(f2[m].name, f2[i].name);
            assert(false);
        } else if m > i {
            assert(name_before(f1[i].name, f1[m].name));
            assert(name_before(f2[i].name, f2[j].name));
            lemma_name_order_total(f1[i].name, f1[m].name);
            assert(false);
        }
    }
}

/// The schema of given observations is unique: two lists of fields that
/// stand for observations with the same inferred types are the same list.
pub proof fn lemma_schema_unique(
    f1: Seq<FieldView>,
    obs1: Seq<(Seq<char>, DataType)>,
    f2: Seq<FieldView>,
    obs2: Seq<(Seq<char>, DataType)>,
)
    requires
        schema_of(f1, obs1),
        schema_of(f2, obs2),
        forall|name: Seq<char>| inferred_type(obs1, name) == inferred_type(obs2, name),
    ensures
        f1 == f2,
{
    assert forall|a: int| 0 <= a < f1.len() implies has_name(f2, (#[trigger] f1[a]).name) by {
        reveal(has_name);
        assert(inferred_type(obs1, f1[a].name) == Some(f1[a].data_type));
        assert(inferred_type(obs2, f1[a].name).is_some());
    }
    assert forall|b: int| 0 <= b < f2.len() implies has_name(f1, (#[trigger] f2[b]).name) by {
        reveal(has_name);
        assert(inferred_type(obs2, f2[b].name) == Some(f2[b].data_type));
        assert(inferred_type(obs1, f2[b].name).is_some());
    }
    if f1.len() > 0 {
        lemma_sorted_names_agree(f1, f2, f1.len() - 1);
    }
    if f2.len() > 0 {
        lemma_sorted_names_agree(f2, f1, f2.len() - 1);
    }
    assert(f1.len() == f2.len());
    assert forall|i: int| 0 <= i < f1.len() implies f1[i] == f2[i] by {
        lemma_sorted_names_agree(f1, f2, i);
        assert(f1[i].nullable && f2[i].nullable);
        assert(inferred_type(obs1, f1[i].name) == Some(f1[i].data_type));
        assert(inferred_type(obs2, f2[i].name) == Some(f2[i].data_type));
    }
    assert(f1 =~= f2);
}

/// Inference is determined by what was observed, not by the order in which
/// it was observed: two sequences of observations that hold the same pairs of
/// name and type, and in which no name is observed with contradicting types,
/// give the same schema, field for field.
pub proof fn lemma_schema_determined_by_observations(
    f1: Seq<FieldView>,
    obs1: Seq<(Seq<char>, DataType)>,
    f2: Seq<FieldView>,
    obs2: Seq<(Seq<char>, DataType)>,
)
    requires
        schema_of(f1, obs1),
        schema_of(f2, obs2),
        forall|name: Seq<char>, t: DataType| observed(obs1, name, t) <==> observed(obs2, name, t),
        forall|name: Seq<char>| coherent(obs1, name),
    ensures
        f1 == f2,
{
    assert forall|name: Seq<char>| inferred_type(obs1, name) == inferred_type(obs2, name) by {
        assert(coherent(obs1, name));
        assert(coherent(obs2, name)) by {
            assert forall|a: int, b: int|
                0 <= a < obs2.len() && 0 <= b < obs2.len() && (#[trigger] obs2[a]).0 == name && (
                #[trigger] obs2[b]).0 == name implies obs2[a].1 == obs2[b].1 || (numeric(
                obs2[a].1,
            ) && numeric(obs2[b].1)) by {
                assert(obs2[a] == (name, obs2[a].1));
                assert(obs2[b] == (name, obs2[b].1));
                assert(observed(obs2, name, obs2[a].1));
                assert(observed(obs2, name, obs2[b].1));
                assert(observed(obs1, name, obs2[a].1));
                assert(observed(obs1, name, obs2[b].1));
                let x = choose|k: int|
                    0 <= k < obs1.len() && #[trigger] obs1[k] == (name, obs2[a].1);
                let y = choose|k: int|
                    0 <= k < obs1.len() && #[trigger] obs1[k] == (name, obs2[b].1);
                assert(obs1[x].0 == name && obs1[y].0 == name);
            }
        }
        lemma_inferred_from_observed(obs1, name);
        lemma_inferred_from_observed(obs2, name);
        match inferred_type(obs1, name) {
            None => {
                if inferred_type(obs2, name) is Some {
                    let t = inferred_type(obs2, name).unwrap();
                    assert(observed(obs1, name, t));
                    let k = choose|k: int| 0 <= k < obs1.len() && #[trigger] obs1[k] == (name, t);
                    assert(obs1[k].0 == name);
                }
            },
            Some(t1) => {
                assert(observed(obs2, name, t1));
                let k = choose|k: int| 0 <= k < obs2.len() && #[trigger] obs2[k] == (name, t1);
                assert(obs2[k].0 == name);
                let t2 = inferred_type(obs2, name).unwrap();
                assert(observed(obs1, name, t2));
                let x = choose|k: int| 0 <= k < obs1.len() && #[trigger] obs1[k] == (name, t1);
                let y = choose|k: int| 0 <= k < obs1.len() && #[trigger] obs1[k] == (name, t2);
                assert(obs1[x].0 == name && obs1[y].0 == name);
            },
        }
    }
    lemma_schema_unique(f1, obs1, f2, obs2);
}

/// A name without an inferred type was never observed.
pub proof fn lemma_unobserved(obs: Seq<(Seq<char>, DataType)>, name: Seq<char>, k: int)
    requires
        inferred_type(obs, name) is None,
        0 <= k < obs.len(),
    ensures
        obs[k].0 != name,
    decreases obs.len(),
{
    if k < obs.len() - 1 {
        assert(obs.drop_last()[k] == obs[k]);
        lemma_unobserved(obs.drop_last(), name, k);
    }
}

/// A column inferred as integer saw no floating value: no observation of its
/// name is floating.
pub proof fn lemma_integer_column_saw_no_float(
    obs: Seq<(Seq<char>, DataType)>,
    name: Seq<char>,
    k: int,
)
    requires
        inferred_type(obs, name) == Some(DataType::Int64),
        0 <= k < obs.len(),
        obs[k].0 == name,
    ensures
        obs[k].1 != DataType::Float64,
    decreases obs.len(),
{
    let prev = obs.drop_last();
    let last = obs.last();
    if k < obs.len() - 1 {
        assert(prev[k] == obs[k]);
        if last.0 == name {
            if inferred_type(prev, name) is None {
                lemma_unobserved(prev, name, k);
            } else {
                lemma_integer_column_saw_no_float(prev, name, k);
            }
        } else {
            lemma_integer_column_saw_no_float(prev, name, k);
        }
    }
}

/// Every entry of every row is among the observations of the rows.
pub proof fn lemma_entry_is_observed(rows: Seq<Record>, r: int, e: int)
    requires
        0 <= r < rows.len(),
        0 <= e < rows[r].entries().len(),
    ensures
        observed(
            observations(rows),
            rows[r].entries()[e].0@,
            column_type_of(rows[r].entries()[e].1.spec_value_type()),
        ),
    decreases rows.len(),
{
    let prev = observations(rows.drop_last());
    let own = row_observations(rows.last());
    if r == rows.len() - 1 {
        assert(observations(rows)[prev.len() + e] == own[e]);
    } else {
        lemma_entry_is_observed(rows.drop_last(), r, e);
        let name = rows[r].entries()[e].0@;
        let seen = column_type_of(rows[r].entries()[e].1.spec_value_type());
        let k = choose|k: int| 0 <= k < prev.len() && #[trigger] prev[k] == (name, seen);
        assert(observations(rows)[k] == prev[k]);
    }
}

/// In a schema inferred from rows, no row holds a floating value under the
/// name of an integer column.
pub proof fn lemma_integer_column_holds_no_float(
    fields: Seq<FieldView>,
    rows: Seq<Record>,
    c: int,
    r: int,
    e: int,
)
    requires
        schema_of(fields, observations(rows)),
        0 <= c < fields.len(),
        fields[c].data_type == DataType::Int64,
        0 <= r < rows.len(),
        0 <= e < rows[r].entries().len(),
        rows[r].entries()[e].0@ == fields[c].name,
    ensures
        !(rows[r].entries()[e].1 is F64),
{
    lemma_entry_is_observed(rows, r, e);
    let obs = observations(rows);
    let seen = column_type_of(rows[r].entries()[e].1.spec_value_type());
    let k = choose|k: int| 0 <= k < obs.len() && #[trigger] obs[k] == (fields[c].name, seen);
    lemma_integer_column_saw_no_float(obs, fields[c].name, k);
}

} // verus!
