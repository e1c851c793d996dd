use udo::api::auth::{Role, User};
use udo::api::metrics::MetricsDb;
use udo::engine::batch::Batch;
use udo::engine::config::{default_batch_size, PipelineConfig, SinkConfig, SourceConfig};
use udo::engine::error::UdoError;
use udo::engine::pipeline::Outcome;
use udo::engine::processor::{process_record_sequential, process_to_outcome, thread_schema};
use udo::engine::processor::DataProcessor;
use udo::engine::record::Record;
use udo::engine::schema::{DataType, Field, Schema};
use udo::io::dlq::dead_letter_line;
use udo::io::sink::AvroSink;
use udo::io::source::LineSource;
use udo::processors::pii::PiiMasker;
use udo::processors::semantic::{contains_name, prune_schema, retain_columns};

fn object(entries: Vec<(&str, Record)>) -> Record {
    Record::Object(entries.into_iter().map(|(k, v)| (k.to_string(), v)).collect())
}

fn text(s: &str) -> Record {
    Record::Utf8(s.to_string())
}

struct DropFlagged;

impl DataProcessor for DropFlagged {
    fn schema_yields(&self, _schema: Schema, _result: Result<Schema, UdoError>) -> bool {
        true
    }

    fn process(&self, record: Record) -> Result<Option<Record>, UdoError> {
        if record.get("drop") == Some(&Record::Bool(true)) {
            Ok(None)
        } else if record.get("bad") == Some(&Record::Bool(true)) {
            Err(UdoError::Pipeline("bad record".to_string()))
        } else {
            Ok(Some(object(vec![("seen", Record::Bool(true))])))
        }
    }

    fn update_schema(&self, schema: &Schema) -> Result<Schema, UdoError> {
        if schema.len() == 0 {
            Err(UdoError::Config("no columns".to_string()))
        } else {
            Ok(Schema::new(vec![schema.fields()[0].duplicate()]))
        }
    }
}

struct Plain;

impl DataProcessor for Plain {
    fn process(&self, record: Record) -> Result<Option<Record>, UdoError> {
        Ok(Some(record))
    }
}

#[test]
fn processor_leaves_the_schema_alone_by_default() {
    let schema = Schema::new(vec![
        Field::new("a", DataType::Int64, true),
        Field::new("b", DataType::Utf8, false),
    ]);
    assert_eq!(Plain.update_schema(&schema), Ok(schema.duplicate()));
    assert_eq!(thread_schema(&vec![Plain, Plain], schema.duplicate()), Ok(schema.duplicate()));
    let masker = PiiMasker::new("mask").unwrap();
    assert_eq!(masker.update_schema(&schema), Ok(schema));
}

#[test]
fn corrupt_lines_are_skipped() {
    let mut source = LineSource::new(vec![
        br#"{"id": 1, "name": "Valid 1"}"#.to_vec(),
        b"This is not JSON".to_vec(),
        br#"{"id": 2, "name": "Valid 2"}"#.to_vec(),
    ]);
    let first = source.next_record().unwrap().unwrap();
    assert_eq!(first.get("id"), Some(&Record::U64(1)));
    assert_eq!(source.next, 1);
    let second = source.next_record().unwrap().unwrap();
    assert_eq!(second.get("name"), Some(&text("Valid 2")));
    assert_eq!(source.next, 3);
    assert_eq!(source.next_record(), Ok(None));
    assert_eq!(source.next_record(), Ok(None));
}

#[test]
fn source_of_garbage_ends_at_once() {
    let mut source = LineSource::new(vec![b"nope".to_vec(), b"{".to_vec()]);
    assert_eq!(source.next_record(), Ok(None));
    assert_eq!(source.next, 2);
    let mut empty = LineSource::new(vec![]);
    assert_eq!(empty.next_record(), Ok(None));
}

#[test]
fn dead_letter_line_holds_reason_and_record() {
    assert_eq!(
        dead_letter_line("Pipeline Error: bad record", r#"{"bad":true}"#),
        r#"{"error": "Pipeline Error: bad record", "record": {"bad":true}}"#
    );
    assert_eq!(dead_letter_line("", ""), r#"{"error": "", "record": }"#);
}

#[test]
fn empty_chain_forwards_the_record() {
    let chain: Vec<PiiMasker> = vec![];
    let r = object(vec![("a", Record::I64(1))]);
    assert_eq!(process_record_sequential(&chain, r.duplicate()), Ok(Some(r.duplicate())));
    assert_eq!(process_to_outcome(&chain, r.duplicate()), Outcome::Forward(r));
    let schema = Schema::new(vec![Field::new("a", DataType::Int64, true)]);
    assert_eq!(thread_schema(&chain, schema.duplicate()), Ok(schema));
}

#[test]
fn chain_of_maskers_masks() {
    let chain = vec![PiiMasker::new("mask").unwrap(), PiiMasker::new("hash").unwrap()];
    let r = object(vec![("email", text("test@example.com")), ("n", Record::I64(1))]);
    let expected = object(vec![("email", text("****@masked.com")), ("n", Record::I64(1))]);
    assert_eq!(process_record_sequential(&chain, r.duplicate()), Ok(Some(expected.duplicate())));
    assert_eq!(process_to_outcome(&chain, r), Outcome::Forward(expected));
    let schema = Schema::new(vec![Field::new("email", DataType::Utf8, true)]);
    assert_eq!(thread_schema(&chain, schema.duplicate()), Ok(schema));
}

#[test]
fn chain_stops_at_the_first_filter_or_failure() {
    let chain = vec![DropFlagged, DropFlagged];
    let dropped = object(vec![("drop", Record::Bool(true))]);
    let bad = object(vec![("bad", Record::Bool(true))]);
    let fine = object(vec![("a", Record::I64(1))]);
    assert_eq!(process_record_sequential(&chain, dropped.duplicate()), Ok(None));
    assert_eq!(process_to_outcome(&chain, dropped), Outcome::Filtered);
    assert_eq!(
        process_record_sequential(&chain, bad.duplicate()),
        Err(UdoError::Pipeline("bad record".to_string()))
    );
    assert_eq!(
        process_to_outcome(&chain, bad.duplicate()),
        Outcome::Failed(bad, "Pipeline Error: bad record".to_string())
    );
    assert_eq!(
        process_record_sequential(&chain, fine),
        Ok(Some(object(vec![("seen", Record::Bool(true))])))
    );
}

#[test]
fn schema_is_threaded_in_order() {
    let chain = vec![DropFlagged, DropFlagged];
    let schema = Schema::new(vec![
        Field::new("a", DataType::Int64, true),
        Field::new("b", DataType::Utf8, true),
    ]);
    assert_eq!(
        thread_schema(&chain, schema),
        Ok(Schema::new(vec![Field::new("a", DataType::Int64, true)]))
    );
    assert_eq!(
        thread_schema(&chain, Schema::empty()),
        Err(UdoError::Config("no columns".to_string()))
    );
}

#[test]
fn pruning_keeps_ranked_columns_in_rank_order() {
    let schema = Schema::new(vec![
        Field::new("a", DataType::Int64, true),
        Field::new("b", DataType::Utf8, true),
        Field::new("c", DataType::Float64, true),
    ]);
    let ranking = vec!["c".to_string(), "zz".to_string(), "a".to_string()];
    let (pruned, any) = prune_schema(&schema, &ranking);
    assert!(any);
    assert_eq!(
        pruned,
        Schema::new(vec![
            Field::new("c", DataType::Float64, true),
            Field::new("a", DataType::Int64, true),
        ])
    );
    let (whole, any) = prune_schema(&schema, &vec!["zz".to_string()]);
    assert!(!any);
    assert_eq!(whole, schema);
    let (whole, any) = prune_schema(&schema, &vec![]);
    assert!(!any);
    assert_eq!(whole, schema);
}

#[test]
fn pruning_a_record_keeps_the_named_entries() {
    let keep = vec!["a".to_string(), "c".to_string()];
    let r = object(vec![("a", Record::I64(1)), ("b", text("x")), ("c", Record::Null)]);
    assert_eq!(
        retain_columns(&r, &keep),
        object(vec![("a", Record::I64(1)), ("c", Record::Null)])
    );
    assert_eq!(retain_columns(&r, &vec![]), object(vec![]));
    assert_eq!(retain_columns(&Record::I64(3), &keep), Record::I64(3));
    assert!(contains_name(&keep, "c"));
    assert!(!contains_name(&keep, "b"));
}

#[test]
fn token_gives_its_role() {
    assert_eq!(User::from_token("k1", "k1", "k2").map(|u| u.role), Some(Role::Admin));
    assert_eq!(User::from_token("k2", "k1", "k2").map(|u| u.role), Some(Role::Viewer));
    assert_eq!(User::from_token("k3", "k1", "k2").map(|u| u.role), None);
    assert_eq!(User::from_token("k", "k", "k").map(|u| u.role), Some(Role::Admin));
    assert_eq!(User::from_token("", "k1", "k2").map(|u| u.role), None);
}

#[test]
fn metrics_handle_keeps_its_path() {
    let db = MetricsDb::new("udo_metrics.duckdb").unwrap();
    assert_eq!(db.path(), "udo_metrics.duckdb");
}

#[test]
fn config_defaults() {
    assert_eq!(default_batch_size(), 10000);
    let config = PipelineConfig::new(
        SourceConfig::File { path: "in.jsonl".to_string() },
        SinkConfig::File { path: "out.parquet".to_string() },
    );
    assert_eq!(config.batch_size, 10000);
    assert!(config.processors.is_empty());
    assert!(config.dlq.is_none());
}

#[test]
fn avro_sink_refuses_every_batch() {
    let schema = Schema::new(vec![Field::new("a", DataType::Int64, true)]);
    let mut sink = AvroSink::new("out.avro", &schema).unwrap();
    let batch = Batch { schema: schema.duplicate(), columns: vec![vec![]], rows: 0 };
    assert_eq!(
        sink.write_batch(batch),
        Err(UdoError::Pipeline("Avro output not yet implemented".to_string()))
    );
    assert_eq!(sink.close(), Ok(()));
    assert_eq!(sink.path, "out.avro");
}

#[test]
fn errors_render_with_their_kind() {
    let m = |e: UdoError| e.message();
    assert_eq!(m(UdoError::Io("x".to_string())), "IO Error: x");
    assert_eq!(m(UdoError::Arrow("x".to_string())), "Arrow Error: x");
    assert_eq!(m(UdoError::Parquet("x".to_string())), "Parquet Error: x");
    assert_eq!(m(UdoError::JsonParse("x".to_string())), "JSON Parsing Error: x");
    assert_eq!(m(UdoError::Config("x".to_string())), "Configuration Error: x");
    assert_eq!(m(UdoError::Pipeline("x".to_string())), "Pipeline Error: x");
    assert_eq!(m(UdoError::AiModel("x".to_string())), "AI Model Error: x");
    assert_eq!(m(UdoError::Unknown("x".to_string())), "Unknown Error: x");
}
