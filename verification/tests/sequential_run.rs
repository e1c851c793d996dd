use udo::engine::batch::Cell;
use udo::engine::error::UdoError;
use udo::engine::pipeline::{Phase, PipelineRunner, Tally};
use udo::engine::processor::DataProcessor;
use udo::engine::record::Record;
use udo::engine::schema::{DataType, Field, Schema};
use udo::engine::sequential::{run_sequential, SequentialRun};
use udo::io::dlq::dead_letter_line;
use udo::io::source::LineSource;
use udo::processors::pii::PiiMasker;

struct Gate;

impl DataProcessor for Gate {
    fn schema_yields(&self, _schema: Schema, _result: Result<Schema, UdoError>) -> bool {
        true
    }

    fn process(&self, record: Record) -> Result<Option<Record>, UdoError> {
        if record.get("drop") == Some(&Record::Bool(true)) {
            Ok(None)
        } else if record.get("bad") == Some(&Record::Bool(true)) {
            Err(UdoError::Pipeline("bad record".to_string()))
        } else {
            Ok(Some(record))
        }
    }

    fn update_schema(&self, schema: &Schema) -> Result<Schema, UdoError> {
        let kept: Vec<Field> = schema
            .fields()
            .iter()
            .filter(|f| f.name() != "drop" && f.name() != "bad")
            .map(|f| f.duplicate())
            .collect();
        if kept.is_empty() {
            Err(UdoError::Config("no column is left".to_string()))
        } else {
            Ok(Schema::new(kept))
        }
    }
}

fn lines(text: &[&str]) -> LineSource {
    LineSource::new(text.iter().map(|l| l.as_bytes().to_vec()).collect())
}

fn rows(run: &SequentialRun) -> Vec<usize> {
    run.batches.iter().map(|b| b.num_rows()).collect()
}

#[test]
fn corrupt_line_costs_no_row() {
    let source = lines(&[
        r#"{"id": 1, "name": "Valid 1"}"#,
        "This is not JSON",
        r#"{"id": 2, "name": "Valid 2"}"#,
    ]);
    let chain: Vec<Gate> = vec![];
    let run = run_sequential(PipelineRunner::new(10), source, &chain, None);
    assert_eq!(run.error, None);
    assert_eq!(run.runner.phase(), Phase::Closed);
    assert_eq!(rows(&run), vec![2]);
    assert!(run.dead_letters.is_empty());
    assert_eq!(
        run.batches[0].schema(),
        &Schema::new(vec![
            Field::new("id", DataType::Int64, true),
            Field::new("name", DataType::Utf8, true),
        ])
    );
    assert_eq!(run.batches[0].column(0), &vec![Cell::Int64(1), Cell::Int64(2)]);
    assert_eq!(
        run.runner.tally(),
        Tally { emitted: 2, written: 2, dead_lettered: 0, filtered: 0, dropped: 0, lost: 0 }
    );
}

#[test]
fn filter_and_failure_in_one_run() {
    let source = lines(&[
        r#"{"id": 1}"#,
        r#"{"id": 2, "drop": true}"#,
        r#"{"id": 3, "bad": true}"#,
        r#"{"id": 4}"#,
        r#"{"id": 5}"#,
    ]);
    let mut runner = PipelineRunner::new(2);
    runner.set_dlq(true);
    runner.set_warmup_rows(3);
    let run = run_sequential(runner, source, &vec![Gate], None);
    assert_eq!(run.error, None);
    assert_eq!(run.runner.phase(), Phase::Closed);
    assert_eq!(rows(&run), vec![1, 2]);
    assert_eq!(run.warmup_batches, 1);
    for b in &run.batches {
        assert_eq!(b.schema(), &Schema::new(vec![Field::new("id", DataType::Int64, true)]));
    }
    assert_eq!(run.batches[1].column(0), &vec![Cell::Int64(4), Cell::Int64(5)]);
    assert_eq!(run.dead_letters.len(), 1);
    let (record, reason) = &run.dead_letters[0];
    assert_eq!(record.get("id"), Some(&Record::U64(3)));
    assert_eq!(reason, "Pipeline Error: bad record");
    let line = dead_letter_line(reason, r#"{"id":3,"bad":true}"#);
    assert!(line.contains(r#"{"id":3,"bad":true}"#));
    assert!(line.contains("Pipeline Error: bad record"));
    assert_eq!(
        run.runner.tally(),
        Tally { emitted: 5, written: 3, dead_lettered: 1, filtered: 1, dropped: 0, lost: 0 }
    );
}

#[test]
fn masking_run_writes_masked_rows() {
    let source = lines(&[
        r#"{"email": "test@example.com", "name": "John"}"#,
        r#"{"email": "nobody", "name": "a@b.org"}"#,
    ]);
    let chain = vec![PiiMasker::new("mask").unwrap()];
    let run = run_sequential(PipelineRunner::new(1), source, &chain, None);
    assert_eq!(run.error, None);
    assert_eq!(rows(&run), vec![2]);
    assert_eq!(
        run.batches[0].column(0),
        &vec![Cell::Utf8("****@masked.com".to_string()), Cell::Utf8("nobody".to_string())]
    );
    assert_eq!(
        run.batches[0].column(1),
        &vec![Cell::Utf8("John".to_string()), Cell::Utf8("****@masked.com".to_string())]
    );
}

#[test]
fn run_without_records_fails_and_writes_nothing() {
    let chain: Vec<Gate> = vec![];
    let run = run_sequential(PipelineRunner::new(10), lines(&["garbage", ""]), &chain, None);
    assert_eq!(
        run.error,
        Some(UdoError::Pipeline("Source yielded no records during warm-up".to_string()))
    );
    assert_eq!(run.runner.phase(), Phase::Error);
    assert!(run.batches.is_empty());
    assert_eq!(run.runner.tally().emitted, 0);
}

#[test]
fn failing_setup_ends_the_run_before_any_batch() {
    let source = lines(&[r#"{"drop": false}"#, r#"{"drop": false}"#]);
    let run = run_sequential(PipelineRunner::new(10), source, &vec![Gate], None);
    assert_eq!(run.error, Some(UdoError::Config("no column is left".to_string())));
    assert_eq!(run.runner.phase(), Phase::Error);
    assert!(run.batches.is_empty());
}

#[test]
fn given_schema_skips_the_warmup() {
    let source = lines(&[r#"{"id": 1, "x": 2}"#, r#"{"id": 2}"#, r#"{"id": 3}"#]);
    let schema = Schema::new(vec![Field::new("id", DataType::Int64, true)]);
    let chain: Vec<Gate> = vec![];
    let run = run_sequential(PipelineRunner::new(2), source, &chain, Some(schema.duplicate()));
    assert_eq!(run.error, None);
    assert_eq!(rows(&run), vec![2, 1]);
    assert_eq!(run.warmup_batches, 0);
    assert_eq!(run.runner.schema, schema);
    assert_eq!(run.source.next, 3);
}

#[test]
fn batch_size_one_gives_one_batch_for_each_record() {
    let source = lines(&[r#"{"id": 1}"#, r#"{"id": 2, "drop": true}"#, r#"{"id": 3}"#, "x"]);
    let schema = Schema::new(vec![Field::new("id", DataType::Int64, true)]);
    let run = run_sequential(PipelineRunner::new(1), source, &vec![Gate], Some(schema));
    assert_eq!(run.error, None);
    assert_eq!(rows(&run), vec![1, 1]);
    assert_eq!(run.runner.tally().written, 2);
    assert_eq!(run.runner.tally().filtered, 1);
}

#[test]
fn lines_without_an_object_fail_the_run() {
    let chain: Vec<Gate> = vec![];
    let run = run_sequential(PipelineRunner::new(10), lines(&["1", "\"x\"", "[2]"]), &chain, None);
    assert_eq!(
        run.error,
        Some(UdoError::Pipeline(
            "No object among the scanned rows, cannot infer schema".to_string()
        ))
    );
    assert_eq!(run.runner.phase(), Phase::Error);
    assert!(run.batches.is_empty());
    assert_eq!(run.runner.tally().emitted, 3);
    assert!(run.inferred);
    assert_eq!(run.first_line, 0);
}

#[test]
fn object_beyond_the_prefix_does_not_save_the_run() {
    let chain: Vec<Gate> = vec![];
    let mut runner = PipelineRunner::new(10);
    runner.set_warmup_rows(2);
    let text = ["1", "junk", "2", r#"{"a": 1}"#];
    let run = run_sequential(runner, lines(&text), &chain, None);
    assert_eq!(run.runner.phase(), Phase::Error);
    let mut runner = PipelineRunner::new(10);
    runner.set_warmup_rows(3);
    let run = run_sequential(runner, lines(&text), &chain, None);
    assert_eq!(run.error, None);
    assert_eq!(run.runner.phase(), Phase::Closed);
    assert_eq!(rows(&run), vec![3]);
    assert_eq!(run.runner.tally().emitted, 3);
    assert_eq!(run.batches[0].column(0), &vec![Cell::Null, Cell::Null, Cell::Int64(1)]);
}

#[test]
fn with_a_dead_letter_queue_nothing_is_discarded() {
    let source = lines(&[r#"{"id": 1}"#, r#"{"id": 2, "bad": true}"#, r#"{"id": 3, "bad": true}"#]);
    let mut runner = PipelineRunner::new(10);
    runner.set_dlq(true);
    let run = run_sequential(runner, source, &vec![Gate], None);
    assert_eq!(run.runner.phase(), Phase::Closed);
    assert_eq!(run.runner.tally().dropped, 0);
    assert!(run.discarded.is_empty());
    assert_eq!(run.dead_letters.len(), 2);
    assert_eq!(run.runner.tally().emitted, 3);
}
