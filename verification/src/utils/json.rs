use vstd::prelude::*;
use vstd::string::*;
use vstd::seq_lib::*;
use simd_json::{OwnedValue, StaticNode};
use crate::engine::batch::{column_views, conforms, Batch, Cell, CellView};
use crate::engine::error::UdoError;
use crate::engine::record::{lemma_find_entry, same_content, Record, Value};
use crate::engine::schema::{DataType, FieldView, Schema};

verus! {

/// `simd_json::OwnedValue`, a parsed document, carried as an opaque value.
#[verifier::external_type_specification]
#[verifier::external_body]
pub struct ExOwnedValue(simd_json::OwnedValue);

/// `simd_json::Error`, the failure of a parse, carried as an opaque value.
#[verifier::external_type_specification]
#[verifier::external_body]
pub struct ExJsonError(simd_json::Error);

/// The document that `simd_json::to_owned_value` reads from a sequence of
/// bytes, with the entries of every object in the order of the text; `None`
/// where the parser refuses the bytes.
pub uninterp spec fn json_document(bytes: Seq<u8>) -> Option<Value>;

/// What a `simd_json::OwnedValue` holds, variant for variant, with a floating
/// value taken by its bits and the entries of an object in the order in which
/// the value hands them out.
pub uninterp spec fn held_by(value: simd_json::OwnedValue) -> Value;

/// Whether the parser accepts a sequence of bytes as a JSON document.
pub open spec fn json_parses(bytes: Seq<u8>) -> bool {
    json_document(bytes) is Some
}

/// `simd_json::to_owned_value`: parses bytes into a value. It succeeds
/// exactly on the bytes that hold a document, and the value holds that
/// document; only the order of an object's entries is the value's own, since
/// an object with many entries is a hash map.
#[verifier::external_body]
fn to_owned_value(bytes: &[u8]) -> (r: Result<simd_json::OwnedValue, simd_json::Error>)
    ensures
        r is Ok <==> json_document(bytes@) is Some,
        r matches Ok(value) ==> same_content(held_by(value), json_document(bytes@)->Some_0),
{
    let mut data = bytes.to_vec();
    simd_json::to_owned_value(&mut data)
}

/// Carries a `simd_json::OwnedValue` over into a record, variant for variant,
/// with a floating value taken by its bits and an object's entries in the
/// order in which the value hands them out: the record is what the value
/// holds.
#[verifier::external_body]
fn record_of(value: &OwnedValue) -> (record: Record)
    ensures
        record@ == held_by(*value),
{
    match value {
        OwnedValue::Static(StaticNode::Null) => Record::Null,
        OwnedValue::Static(StaticNode::Bool(b)) => Record::Bool(*b),
        OwnedValue::Static(StaticNode::I64(i)) => Record::I64(*i),
        OwnedValue::Static(StaticNode::U64(u)) => Record::U64(*u),
        OwnedValue::Static(StaticNode::F64(x)) => Record::F64(x.to_bits()),
        OwnedValue::String(s) => Record::Utf8(s.clone()),
        OwnedValue::Array(a) => Record::Array(a.iter().map(record_of).collect()),
        OwnedValue::Object(o) => Record::Object(
            o.iter().map(|(k, v)| (k.clone(), record_of(v))).collect(),
        ),
    }
}

/// The rendering of a `simd_json::Error`. Nothing is claimed of the text.
#[verifier::external_body]
pub(crate) fn json_error_text(error: &simd_json::Error) -> (text: String) {
    error.to_string()
}

/// `simd_json::Error::generic` with `ErrorType::ExpectedArray`: the parser's
/// own error for a value that should have been an array. Nothing is claimed
/// of it.
#[verifier::external_body]
pub(crate) fn expected_array_error() -> (error: simd_json::Error) {
    simd_json::Error::generic(simd_json::ErrorType::ExpectedArray)
}

/// Parses a JSON document into a record. It succeeds exactly where the
/// parser accepts the bytes, and the record is then the document, but for the
/// order of the entries of its objects; every failure is a `JsonParse` error.
pub fn parse_json(json_data: &[u8]) -> (r: Result<Record, UdoError>)
    ensures
        r is Ok <==> json_parses(json_data@),
        r matches Ok(record) ==> same_content(record@, json_document(json_data@)->Some_0),
        r matches Err(e) ==> e is JsonParse,
{
    match to_owned_value(json_data) {
        Ok(value) => Ok(record_of(&value)),
        Err(e) => Err(UdoError::JsonParse(json_error_text(&e))),
    }
}

/// The cell that a value, or its absence, gives in a column of a type.
///
/// An integer column takes the integers that a signed 64-bit integer can hold
/// and nothing else. A floating column takes floating values and every
/// integer, signed or unsigned. A text column takes strings, a boolean column
/// booleans. Everything else, and an absent value, gives a null.
pub open spec fn cell_for(value: Option<Record>, data_type: DataType) -> CellView {
    match (data_type, value) {
        (DataType::Int64, Some(Record::I64(i))) => CellView::Int64(i),
        (DataType::Int64, Some(Record::U64(u))) => if u <= 0x7fff_ffff_ffff_ffff {
            CellView::Int64(u as i64)
        } else {
            CellView::Null
        },
        (DataType::Float64, Some(Record::F64(bits))) => CellView::Float64(bits),
        (DataType::Float64, Some(Record::I64(i))) => CellView::Float64FromInt(i),
        (DataType::Float64, Some(Record::U64(u))) => if u <= 0x7fff_ffff_ffff_ffff {
            CellView::Float64FromInt(u as i64)
        } else {
            CellView::Float64FromUnsigned(u)
        },
        (DataType::Utf8, Some(Record::Utf8(s))) => CellView::Utf8(s@),
        (DataType::Boolean, Some(Record::Bool(b))) => CellView::Boolean(b),
        _ => CellView::Null,
    }
}

/// The cell that a row gives in the column of a field: that of the value
/// under the field's name in a top-level object, a null for any other row.
pub open spec fn cell_at(row: Record, field: FieldView) -> CellView {
    cell_for(row.lookup(field.name), field.data_type)
}

/// The column that a sequence of rows gives for a field, in row order.
pub open spec fn column_of(rows: Seq<Record>, field: FieldView) -> Seq<CellView> {
    Seq::new(rows.len(), |r: int| cell_at(rows[r], field))
}

/// The columns that a sequence of rows gives against a schema: one column for
/// each field, in the order of the fields.
pub open spec fn encoded(rows: Seq<Record>, schema: Seq<FieldView>) -> Seq<Seq<CellView>> {
    Seq::new(schema.len(), |c: int| column_of(rows, schema[c]))
}

/// Makes the cell that a value, or its absence, gives in a column of a type.
pub fn make_cell(value: Option<&Record>, data_type: DataType) -> (cell: Cell)
    ensures
        cell@ == cell_for(
            match value {
                Some(v) => Some(*v),
                None => None,
            },
            data_type,
        ),
{
    match (data_type, value) {
        (DataType::Int64, Some(Record::I64(i))) => Cell::Int64(*i),
        (DataType::Int64, Some(Record::U64(u))) => {
            if *u <= 0x7fff_ffff_ffff_ffff {
                Cell::Int64(*u as i64)
            } else {
                Cell::Null
            }
        },
        (DataType::Float64, Some(Record::F64(bits))) => Cell::Float64(*bits),
        (DataType::Float64, Some(Record::I64(i))) => Cell::Float64FromInt(*i),
        (DataType::Float64, Some(Record::U64(u))) => {
            if *u <= 0x7fff_ffff_ffff_ffff {
                Cell::Float64FromInt(*u as i64)
            } else {
                Cell::Float64FromUnsigned(*u)
            }
        },
        (DataType::Utf8, Some(Record::Utf8(s))) => Cell::Utf8(s.clone()),
        (DataType::Boolean, Some(Record::Bool(b))) => Cell::Boolean(*b),
        _ => Cell::Null,
    }
}

/// Every cell made for a column conforms to the column's type.
pub proof fn lemma_cell_conforms(value: Option<Record>, data_type: DataType)
    ensures
        conforms(cell_for(value, data_type), data_type),
{
}

/// Appends a null to a column.
pub fn append_null(column: &mut Vec<Cell>)
    ensures
        final(column)@ == old(column)@.push(Cell::Null),
{
    column.push(Cell::Null);
}

/// Turns a sequence of rows into a batch against a schema: one column for
/// each field, one cell for each row, each cell the one that the row gives for
/// the field.
pub fn json_rows_to_batch(rows: &[Record], schema: &Schema) -> (r: Result<Batch, UdoError>)
    ensures
        r is Ok,
        r.unwrap().schema@ == schema@,
        r.unwrap().rows == rows@.len(),
        r.unwrap().cells() == encoded(rows@, schema@),
        r.unwrap().well_formed(),
{
    let row_count = rows.len();
    let mut columns: Vec<Vec<Cell>> = Vec::new();
    let mut c: usize = 0;
    while c < schema.fields.len()
        invariant
            c <= schema.fields@.len(),
            row_count == rows@.len(),
            columns@.len() == c,
            forall|k: int| 0 <= k < c ==> (#[trigger] columns@[k])@.len() == rows@.len(),
            forall|k: int, j: int|
                0 <= k < c && 0 <= j < rows@.len() ==> (#[trigger] columns@[k]@[j])@ == cell_at(
                    rows@[j],
                    schema@[k],
                ),
        decreases schema.fields.len() - c,
    {
        let field = &schema.fields[c];
        assert(field@ == schema@[c as int]);
        let mut column: Vec<Cell> = Vec::new();
        let mut r: usize = 0;
        while r < row_count
            invariant
                r <= row_count,
                row_count == rows@.len(),
                column@.len() == r,
                forall|k: int| 0 <= k < r ==> (#[trigger] column@[k])@ == cell_at(rows@[k], field@),
            decreases row_count - r,
        {
            let row = &rows[r];
            if row.is_object() {
                let cell = make_cell(row.get(field.name.as_str()), field.data_type);
                column.push(cell);
            } else {
                assert(row.entries() =~= Seq::empty());
                append_null(&mut column);
            }
            r += 1;
        }
        columns.push(column);
        c += 1;
    }
    let batch = Batch { schema: schema.duplicate(), columns, rows: row_count };
    proof {
        assert forall|k: int| 0 <= k < schema@.len() implies #[trigger] batch.cells()[k]
            =~= encoded(rows@, schema@)[k] by {
            assert(batch.columns@[k]@.len() == rows@.len());
        }
        assert(batch.cells() =~= encoded(rows@, schema@));
        assert forall|c: int, r: int|
            0 <= c < batch.cells().len() && 0 <= r < batch.rows implies conforms(
            #[trigger] batch.cells()[c][r],
            batch.schema@[c].data_type,
        ) by {
            lemma_cell_conforms(rows@[r].lookup(schema@[c].name), schema@[c].data_type);
        }
    }
    Ok(batch)
}

/// A row that has none of the fields of a schema gives a null in every
/// column: where no entry of the row bears the name of any field, the row's
/// cells are all null.
pub proof fn lemma_missing_fields_give_nulls(row: Record, schema: Seq<FieldView>)
    requires
        forall|c: int, e: int|
            0 <= c < schema.len() && 0 <= e < row.entries().len() ==> (
            #[trigger] row.entries()[e]).0@ != (#[trigger] schema[c]).name,
    ensures
        encoded(seq![row], schema).len() == schema.len(),
        forall|c: int|
            0 <= c < schema.len() ==> #[trigger] encoded(seq![row], schema)[c] == seq![
                CellView::Null,
            ],
{
    assert forall|c: int| 0 <= c < schema.len() implies #[trigger] encoded(seq![row], schema)[c]
        == seq![CellView::Null] by {
        lemma_find_entry(row.entries(), schema[c].name);
        assert(forall|e: int|
            0 <= e < row.entries().len() ==> (#[trigger] row.entries()[e]).0@ != schema[c].name);
        assert(row.lookup(schema[c].name) is None);
        assert(encoded(seq![row], schema)[c] =~= seq![CellView::Null]);
    }
}

/// The column of rows written in two batches is the column of the first
/// batch followed by that of the second.
pub proof fn lemma_column_of_concat(first: Seq<Record>, second: Seq<Record>, field: FieldView)
    ensures
        column_of(first + second, field) == column_of(first, field) + column_of(second, field),
{
    assert(column_of(first + second, field) =~= column_of(first, field) + column_of(
        second,
        field,
    ));
}

/// The order of the rows does not change what a column holds: two sequences
/// of the same rows, in any two orders, give columns with the same cells, each
/// as many times.
pub proof fn lemma_column_ignores_row_order(
    rows1: Seq<Record>,
    rows2: Seq<Record>,
    field: FieldView,
)
    requires
        rows1.to_multiset() == rows2.to_multiset(),
    ensures
        column_of(rows1, field).to_multiset() == column_of(rows2, field).to_multiset(),
    decreases rows1.len(),
{
    broadcast use group_to_multiset_ensures;

    if rows1.len() > 0 {
        let last = rows1.last();
        assert(rows1.to_multiset().count(last) > 0) by {
            assert(rows1[rows1.len() - 1] == last);
            assert(rows1.contains(last));
        }
        assert(rows2.contains(last));
        let i = rows2.index_of(last);
        let rest1 = rows1.drop_last();
        let rest2 = rows2.remove(i);
        assert(rest1 =~= rows1.remove(rows1.len() - 1));
        to_multiset_remove(rows1, rows1.len() - 1);
        to_multiset_remove(rows2, i);
        lemma_column_ignores_row_order(rest1, rest2, field);
        let cell = cell_at(last, field);
        assert(column_of(rows1, field) =~= column_of(rest1, field).push(cell));
        assert(column_of(rows2, field) =~= column_of(rest2, field).insert(i, cell));
        to_multiset_build(column_of(rest1, field), cell);
        to_multiset_insert(column_of(rest2, field), i, cell);
    } else {
        assert(rows2.to_multiset().len() == 0);
        assert(rows2.len() == 0);
        assert(column_of(rows1, field) =~= column_of(rows2, field));
    }
}

/// The rows of a sequence of batches, one batch after another.
pub open spec fn all_rows(rows: Seq<Seq<Record>>) -> Seq<Record>
    decreases rows.len(),
{
    if rows.len() == 0 {
        Seq::empty()
    } else {
        all_rows(rows.drop_last()) + rows.last()
    }
}

/// The cells that a sequence of batches holds in one column, one batch after
/// another.
pub open spec fn column_over(batches: Seq<Batch>, c: int) -> Seq<CellView>
    decreases batches.len(),
{
    if batches.len() == 0 {
        Seq::empty()
    } else {
        column_over(batches.drop_last(), c) + batches.last().cells()[c]
    }
}

/// Each batch holds the rows of its place, encoded against the schema.
pub open spec fn batches_encode(
    batches: Seq<Batch>,
    rows: Seq<Seq<Record>>,
    schema: Seq<FieldView>,
) -> bool {
    &&& batches.len() == rows.len()
    &&& forall|i: int|
        0 <= i < batches.len() ==> (#[trigger] batches[i]).cells() == encoded(rows[i], schema)
}

/// What batches hold in a column is the column of all their rows.
pub proof fn lemma_column_over_batches(
    batches: Seq<Batch>,
    rows: Seq<Seq<Record>>,
    schema: Seq<FieldView>,
    c: int,
)
    requires
        batches_encode(batches, rows, schema),
        0 <= c < schema.len(),
    ensures
        column_over(batches, c) == column_of(all_rows(rows), schema[c]),
    decreases batches.len(),
{
    if batches.len() == 0 {
        assert(column_of(all_rows(rows), schema[c]) =~= Seq::empty());
    } else {
        let n = batches.len() - 1;
        assert(batches[n].cells() == encoded(rows[n], schema));
        assert(batches_encode(batches.drop_last(), rows.drop_last(), schema)) by {
            assert forall|i: int| 0 <= i < n implies (#[trigger] batches.drop_last()[i]).cells()
                == encoded(rows.drop_last()[i], schema) by {
                assert(batches[i].cells() == encoded(rows[i], schema));
            }
        }
        lemma_column_over_batches(batches.drop_last(), rows.drop_last(), schema, c);
        lemma_column_of_concat(all_rows(rows.drop_last()), rows.last(), schema[c]);
    }
}

/// Two runs that write the same rows hold the same cells: where the batches
/// of one run and those of another encode, against one schema, rows that are
/// the same but for their order and for how they are cut into batches, every
/// column holds the same cells in both, each as many times.
pub proof fn lemma_runs_hold_same_cells(
    first: Seq<Batch>,
    first_rows: Seq<Seq<Record>>,
    second: Seq<Batch>,
    second_rows: Seq<Seq<Record>>,
    schema: Seq<FieldView>,
    c: int,
)
    requires
        batches_encode(first, first_rows, schema),
        batches_encode(second, second_rows, schema),
        all_rows(first_rows).to_multiset() == all_rows(second_rows).to_multiset(),
        0 <= c < schema.len(),
    ensures
        column_over(first, c).to_multiset() == column_over(second, c).to_multiset(),
{
    lemma_column_over_batches(first, first_rows, schema, c);
    lemma_column_over_batches(second, second_rows, schema, c);
    lemma_column_ignores_row_order(all_rows(first_rows), all_rows(second_rows), schema[c]);
}

} // verus!
