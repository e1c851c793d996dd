use udo::engine::error::UdoError;
use udo::engine::names::{compare_names, same_name, NameOrder};
use udo::engine::record::{Record, ValueType};
use udo::engine::schema::{column_type, infer_prefix, infer_schema, DataType, Field, Schema};

fn object(entries: Vec<(&str, Record)>) -> Record {
    Record::Object(entries.into_iter().map(|(k, v)| (k.to_string(), v)).collect())
}

fn text(s: &str) -> Record {
    Record::Utf8(s.to_string())
}

fn float(x: f64) -> Record {
    Record::F64(x.to_bits())
}

#[test]
fn test_schema_drift_new_field() {
    let row1 = object(vec![("a", Record::I64(1)), ("b", text("foo"))]);
    let row2 = object(vec![("a", Record::I64(2)), ("c", float(3.0))]);
    let data = Record::Array(vec![row1, row2]);

    let schema = infer_schema(&data, None).unwrap();

    assert!(schema.field_with_name("a").is_ok());
    assert!(schema.field_with_name("b").is_ok());
    assert!(schema.field_with_name("c").is_ok());

    assert_eq!(schema.field_with_name("a").unwrap().data_type(), &DataType::Int64);
    assert_eq!(
        schema,
        Schema::new(vec![
            Field::new("a", DataType::Int64, true),
            Field::new("b", DataType::Utf8, true),
            Field::new("c", DataType::Float64, true),
        ])
    );
}

#[test]
fn test_type_widening() {
    let row1 = object(vec![("a", Record::I64(1))]);
    let row2 = object(vec![("a", float(2.5))]);
    let data = Record::Array(vec![row1, row2]);

    let schema = infer_schema(&data, None).unwrap();

    // Int64 + Float64 -> Float64
    assert_eq!(schema.field_with_name("a").unwrap().data_type(), &DataType::Float64);
}

#[test]
fn floating_column_is_not_demoted() {
    let data = Record::Array(vec![
        object(vec![("a", float(2.5))]),
        object(vec![("a", Record::I64(1))]),
    ]);
    let schema = infer_schema(&data, None).unwrap();
    assert_eq!(schema, Schema::new(vec![Field::new("a", DataType::Float64, true)]));
}

#[test]
fn first_type_wins_between_unrelated_types() {
    let data = Record::Array(vec![
        object(vec![("a", Record::I64(1))]),
        object(vec![("a", text("x"))]),
        object(vec![("a", float(1.5))]),
    ]);
    let schema = infer_schema(&data, None).unwrap();
    assert_eq!(schema, Schema::new(vec![Field::new("a", DataType::Float64, true)]));

    let data = Record::Array(vec![
        object(vec![("a", text("x"))]),
        object(vec![("a", Record::I64(1))]),
    ]);
    let schema = infer_schema(&data, None).unwrap();
    assert_eq!(schema, Schema::new(vec![Field::new("a", DataType::Utf8, true)]));
}

#[test]
fn nested_and_null_values_fall_back_to_text() {
    let data = Record::Array(vec![object(vec![
        ("n", Record::Null),
        ("l", Record::Array(vec![])),
        ("o", object(vec![])),
        ("t", Record::Bool(true)),
        ("u", Record::U64(3)),
    ])]);
    let schema = infer_schema(&data, None).unwrap();
    assert_eq!(
        schema,
        Schema::new(vec![
            Field::new("l", DataType::Utf8, true),
            Field::new("n", DataType::Utf8, true),
            Field::new("o", DataType::Utf8, true),
            Field::new("t", DataType::Boolean, true),
            Field::new("u", DataType::Int64, true),
        ])
    );
}

#[test]
fn fields_are_sorted_whatever_the_order_of_arrival() {
    let forward = Record::Array(vec![
        object(vec![("b", Record::I64(1)), ("a", text("x"))]),
        object(vec![("c", Record::Bool(true)), ("B", Record::I64(2)), ("ab", Record::I64(2))]),
    ]);
    let backward = Record::Array(vec![
        object(vec![("ab", Record::I64(2)), ("B", Record::I64(2)), ("c", Record::Bool(true))]),
        object(vec![("a", text("x")), ("b", Record::I64(1))]),
    ]);
    let expected = Schema::new(vec![
        Field::new("B", DataType::Int64, true),
        Field::new("a", DataType::Utf8, true),
        Field::new("ab", DataType::Int64, true),
        Field::new("b", DataType::Int64, true),
        Field::new("c", DataType::Boolean, true),
    ]);
    assert_eq!(infer_schema(&forward, None).unwrap(), expected);
    assert_eq!(infer_schema(&backward, None).unwrap(), expected);
}

#[test]
fn scan_limit_bounds_the_rows_read() {
    let rows = vec![
        object(vec![("a", Record::I64(1))]),
        object(vec![("a", float(2.5)), ("b", text("x"))]),
    ];
    let data = Record::Array(rows);
    assert_eq!(
        infer_schema(&data, Some(1)).unwrap(),
        Schema::new(vec![Field::new("a", DataType::Int64, true)])
    );
    assert_eq!(
        infer_schema(&data, Some(0)),
        Err(UdoError::Pipeline(
            "No object among the scanned rows, cannot infer schema".to_string()
        ))
    );
    assert_eq!(
        infer_schema(&data, Some(5)).unwrap(),
        Schema::new(vec![
            Field::new("a", DataType::Float64, true),
            Field::new("b", DataType::Utf8, true),
        ])
    );
    match data {
        Record::Array(rows) => {
            assert_eq!(
                infer_prefix(&rows, 1),
                Some(Schema::new(vec![Field::new("a", DataType::Int64, true)]))
            );
            assert_eq!(infer_prefix(&rows, 0), None);
        }
        _ => unreachable!(),
    }
}

#[test]
fn rows_that_are_no_objects_add_nothing() {
    let data = Record::Array(vec![Record::I64(1), text("x"), object(vec![("a", Record::I64(1))])]);
    assert_eq!(
        infer_schema(&data, None).unwrap(),
        Schema::new(vec![Field::new("a", DataType::Int64, true)])
    );
}

#[test]
fn empty_array_is_refused() {
    let r = infer_schema(&Record::Array(vec![]), None);
    assert_eq!(
        r,
        Err(UdoError::Pipeline("Empty JSON array, cannot infer schema".to_string()))
    );
    assert_eq!(
        r.unwrap_err().message(),
        "Pipeline Error: Empty JSON array, cannot infer schema"
    );
}

#[test]
fn input_that_is_no_array_is_refused() {
    let r = infer_schema(&object(vec![("a", Record::I64(1))]), None);
    assert_eq!(r, Err(UdoError::JsonParse("ExpectedArray at character 0".to_string())));
    let r = infer_schema(&Record::Null, Some(3));
    assert!(matches!(r, Err(UdoError::JsonParse(_))));
}

#[test]
fn names_are_ordered_by_their_bytes() {
    assert_eq!(compare_names("a", "b"), NameOrder::Before);
    assert_eq!(compare_names("b", "a"), NameOrder::After);
    assert_eq!(compare_names("a", "a"), NameOrder::Same);
    assert_eq!(compare_names("", "a"), NameOrder::Before);
    assert_eq!(compare_names("ab", "a"), NameOrder::After);
    assert_eq!(compare_names("Z", "a"), NameOrder::Before);
    assert_eq!(compare_names("é", "z"), NameOrder::After);
    assert!(same_name("hash", "hash"));
    assert!(!same_name("hash", "Hash"));
}

#[test]
fn column_type_of_each_kind() {
    assert_eq!(column_type(ValueType::I64), DataType::Int64);
    assert_eq!(column_type(ValueType::U64), DataType::Int64);
    assert_eq!(column_type(ValueType::F64), DataType::Float64);
    assert_eq!(column_type(ValueType::Bool), DataType::Boolean);
    assert_eq!(column_type(ValueType::String), DataType::Utf8);
    assert_eq!(column_type(ValueType::Null), DataType::Utf8);
    assert_eq!(column_type(ValueType::Array), DataType::Utf8);
    assert_eq!(column_type(ValueType::Object), DataType::Utf8);
    assert_eq!(Record::U64(1).value_type(), ValueType::U64);
}

#[test]
fn schema_lookups() {
    let schema = Schema::new(vec![
        Field::new("a", DataType::Int64, true),
        Field::new("b", DataType::Utf8, false),
    ]);
    assert_eq!(schema.len(), 2);
    assert_eq!(schema.index_of("b"), Some(1));
    assert_eq!(schema.index_of("c"), None);
    assert!(matches!(schema.field_with_name("c"), Err(UdoError::Arrow(_))));
    assert_eq!(schema.field_with_name("b").unwrap().name(), "b");
    assert!(!schema.field_with_name("b").unwrap().is_nullable());
    assert_eq!(schema.duplicate(), schema);
    assert_eq!(Schema::empty().len(), 0);
}

#[test]
fn rows_without_any_object_are_refused() {
    let data = Record::Array(vec![Record::I64(1), text("x")]);
    assert_eq!(
        infer_schema(&data, None),
        Err(UdoError::Pipeline(
            "No object among the scanned rows, cannot infer schema".to_string()
        ))
    );
    let late = Record::Array(vec![Record::I64(1), object(vec![("a", Record::I64(1))])]);
    assert!(infer_schema(&late, Some(1)).is_err());
    assert!(infer_schema(&late, Some(2)).is_ok());
    let empty_object = Record::Array(vec![object(vec![])]);
    assert_eq!(infer_schema(&empty_object, None), Ok(Schema::new(vec![])));
}
