use std::collections::VecDeque;
use udo::engine::batch::{Batch, Cell};
use udo::engine::error::UdoError;
use udo::engine::pipeline::{
    in_flight_limit, Action, Demand, Outcome, Phase, PipelineRunner, Tally,
};
use udo::engine::record::Record;
use udo::engine::schema::{DataType, Field, Schema};

fn object(entries: Vec<(&str, Record)>) -> Record {
    Record::Object(entries.into_iter().map(|(k, v)| (k.to_string(), v)).collect())
}

fn numbered(n: i64) -> Record {
    object(vec![("id", Record::I64(n))])
}

fn id_schema() -> Schema {
    Schema::new(vec![Field::new("id", DataType::Int64, true)])
}

struct Run {
    runner: PipelineRunner,
    batches: Vec<Batch>,
    dead: Vec<(Record, String)>,
    discarded: Vec<(Record, String)>,
    error: Option<UdoError>,
    closed: usize,
    prepared: usize,
}

fn forward(record: Record) -> Outcome {
    Outcome::Forward(record)
}

fn drive(
    mut runner: PipelineRunner,
    records: Vec<Record>,
    mut schema: Option<Schema>,
    process: &dyn Fn(Record) -> Outcome,
    newest_first: bool,
) -> Run {
    let mut source = records.into_iter();
    let mut queue: VecDeque<Record> = VecDeque::new();
    let mut pending: Option<Schema> = None;
    let mut run = Run {
        runner: PipelineRunner::new(1),
        batches: vec![],
        dead: vec![],
        discarded: vec![],
        error: None,
        closed: 0,
        prepared: 0,
    };
    loop {
        let actions = match runner.demand() {
            Demand::Start => runner.start(schema.take()),
            Demand::Record => {
                assert!(runner.in_flight < runner.parallelism || runner.phase() == Phase::Warmup);
                match source.next() {
                    Some(r) => runner.on_record(r),
                    None => runner.on_source_end(),
                }
            }
            Demand::Schema => runner.schema_ready(pending.take().unwrap()),
            Demand::Outcome => {
                let next = if newest_first && runner.phase() != Phase::SchemaFrozen {
                    queue.pop_back()
                } else {
                    queue.pop_front()
                };
                runner.on_processed(process(next.unwrap()))
            }
            Demand::Closed => {
                runner.on_closed();
                vec![]
            }
            Demand::Nothing => break,
        };
        for action in actions {
            match action {
                Action::Prepare(s) => {
                    run.prepared += 1;
                    pending = Some(s);
                }
                Action::Replay(v) => queue.extend(v),
                Action::Dispatch(r) => queue.push_back(r),
                Action::Write(b) => run.batches.push(b),
                Action::DeadLetter(r, why) => run.dead.push((r, why)),
                Action::Discard(r, why) => run.discarded.push((r, why)),
                Action::Close => run.closed += 1,
                Action::Fail(e) => run.error = Some(e),
            }
        }
    }
    run.runner = runner;
    run
}

fn rows_of(run: &Run) -> Vec<usize> {
    run.batches.iter().map(|b| b.num_rows()).collect()
}

fn check_tally(run: &Run) {
    let t = run.runner.tally();
    assert_eq!(t.written + t.dead_lettered + t.filtered + t.dropped + t.lost, t.emitted);
    assert_eq!(t.written, run.batches.iter().map(|b| b.num_rows()).sum::<usize>());
    assert_eq!(t.dead_lettered, run.dead.len());
}

#[test]
fn schema_widening_run() {
    let records = vec![
        object(vec![("a", Record::U64(1))]),
        object(vec![("a", Record::F64(2.5f64.to_bits()))]),
    ];
    let run = drive(PipelineRunner::new(10), records, None, &forward, false);
    assert_eq!(run.error, None);
    assert_eq!(run.runner.phase(), Phase::Closed);
    assert_eq!(run.closed, 1);
    assert_eq!(run.prepared, 1);
    assert_eq!(run.batches.len(), 1);
    let batch = &run.batches[0];
    assert_eq!(batch.schema(), &Schema::new(vec![Field::new("a", DataType::Float64, true)]));
    assert_eq!(
        batch.column(0),
        &vec![Cell::Float64FromInt(1), Cell::Float64(2.5f64.to_bits())]
    );
    check_tally(&run);
}

#[test]
fn schema_drift_run() {
    let records = vec![
        object(vec![("a", Record::U64(1)), ("b", Record::Utf8("foo".to_string()))]),
        object(vec![("a", Record::U64(2)), ("c", Record::F64(3.0f64.to_bits()))]),
    ];
    let run = drive(PipelineRunner::new(10), records, None, &forward, false);
    assert_eq!(run.batches.len(), 1);
    let batch = &run.batches[0];
    assert_eq!(
        batch.schema(),
        &Schema::new(vec![
            Field::new("a", DataType::Int64, true),
            Field::new("b", DataType::Utf8, true),
            Field::new("c", DataType::Float64, true),
        ])
    );
    assert_eq!(batch.column(0), &vec![Cell::Int64(1), Cell::Int64(2)]);
    assert_eq!(batch.column(1), &vec![Cell::Utf8("foo".to_string()), Cell::Null]);
    assert_eq!(batch.column(2), &vec![Cell::Null, Cell::Float64(3.0f64.to_bits())]);
}

#[test]
fn filtered_record_is_not_written() {
    let records = vec![
        numbered(1),
        object(vec![("id", Record::I64(2)), ("drop", Record::Bool(true))]),
        numbered(3),
    ];
    let filter = |r: Record| {
        if r.get("drop") == Some(&Record::Bool(true)) {
            Outcome::Filtered
        } else {
            Outcome::Forward(r)
        }
    };
    let run = drive(PipelineRunner::new(10), records, None, &filter, false);
    assert_eq!(run.error, None);
    assert_eq!(rows_of(&run), vec![2]);
    assert_eq!(run.runner.tally().filtered, 1);
    assert_eq!(run.dead.len(), 0);
    check_tally(&run);
}

#[test]
fn failed_record_goes_to_the_dead_letter_queue() {
    let bad = object(vec![("id", Record::I64(2)), ("bad", Record::Bool(true))]);
    let records = vec![numbered(1), bad.duplicate(), numbered(3)];
    let fail = |r: Record| {
        if r.get("bad") == Some(&Record::Bool(true)) {
            Outcome::Failed(r, "Pipeline Error: bad record".to_string())
        } else {
            Outcome::Forward(r)
        }
    };
    let mut runner = PipelineRunner::new(10);
    runner.set_dlq(true);
    let run = drive(runner, records, None, &fail, false);
    assert_eq!(run.error, None);
    assert_eq!(run.runner.phase(), Phase::Closed);
    assert_eq!(rows_of(&run), vec![2]);
    assert_eq!(run.dead, vec![(bad, "Pipeline Error: bad record".to_string())]);
    assert!(run.discarded.is_empty());
    assert_eq!(
        run.runner.tally(),
        Tally { emitted: 3, written: 2, dead_lettered: 1, filtered: 0, dropped: 0, lost: 0 }
    );
}

#[test]
fn failed_record_is_dropped_without_a_dead_letter_queue() {
    let records = vec![numbered(1), numbered(2), numbered(3), numbered(4)];
    let fail = |r: Record| {
        if r.get("id") == Some(&Record::I64(3)) {
            Outcome::Failed(r, "no".to_string())
        } else if r.get("id") == Some(&Record::I64(4)) {
            Outcome::Lost
        } else {
            Outcome::Forward(r)
        }
    };
    let mut runner = PipelineRunner::new(10);
    runner.set_warmup_rows(1);
    let run = drive(runner, records, None, &fail, false);
    assert_eq!(run.error, None);
    assert_eq!(run.dead.len(), 0);
    assert_eq!(run.discarded, vec![(numbered(3), "no".to_string())]);
    assert_eq!(rows_of(&run), vec![1, 1]);
    assert_eq!(
        run.runner.tally(),
        Tally { emitted: 4, written: 2, dead_lettered: 0, filtered: 0, dropped: 1, lost: 1 }
    );
    check_tally(&run);
}

#[test]
fn warmup_of_zero_rows_fails() {
    let mut runner = PipelineRunner::new(10);
    runner.set_warmup_rows(0);
    let run = drive(runner, vec![numbered(1)], None, &forward, false);
    assert_eq!(
        run.error,
        Some(UdoError::Pipeline("Source yielded no records during warm-up".to_string()))
    );
    assert_eq!(run.runner.phase(), Phase::Error);
    assert_eq!(run.prepared, 0);
    assert_eq!(run.closed, 0);
    assert!(run.batches.is_empty());
}

#[test]
fn empty_source_fails_in_warmup() {
    let run = drive(PipelineRunner::new(10), vec![], None, &forward, false);
    assert_eq!(
        run.error,
        Some(UdoError::Pipeline("Source yielded no records during warm-up".to_string()))
    );
    assert_eq!(run.runner.phase(), Phase::Error);
    assert_eq!(run.prepared, 0);
    assert_eq!(run.closed, 0);
    assert!(run.batches.is_empty());
}

#[test]
fn empty_source_with_a_schema_closes_without_a_batch() {
    let run = drive(PipelineRunner::new(10), vec![], Some(id_schema()), &forward, false);
    assert_eq!(run.error, None);
    assert_eq!(run.runner.phase(), Phase::Closed);
    assert_eq!(run.prepared, 1);
    assert_eq!(run.closed, 1);
    assert!(run.batches.is_empty());
}

#[test]
fn batch_size_one_writes_each_record_alone() {
    let records: Vec<Record> = (0..5).map(numbered).collect();
    let filter = |r: Record| {
        if r.get("id") == Some(&Record::I64(2)) {
            Outcome::Filtered
        } else {
            Outcome::Forward(r)
        }
    };
    let run = drive(PipelineRunner::new(1), records, Some(id_schema()), &filter, false);
    assert_eq!(run.error, None);
    assert_eq!(rows_of(&run), vec![1, 1, 1, 1]);
    assert_eq!(run.closed, 1);
    check_tally(&run);
}

#[test]
fn batches_are_full_but_the_last() {
    let records: Vec<Record> = (0..10).map(numbered).collect();
    let mut runner = PipelineRunner::new(3);
    runner.set_parallelism(2);
    let run = drive(runner, records, Some(id_schema()), &forward, false);
    assert_eq!(rows_of(&run), vec![3, 3, 3, 1]);
    for b in &run.batches {
        assert_eq!(b.schema(), &id_schema());
    }
    assert_eq!(run.closed, 1);
    check_tally(&run);
}

#[test]
fn warmup_prefix_is_one_batch_in_input_order() {
    let records: Vec<Record> = (0..7).map(numbered).collect();
    let mut runner = PipelineRunner::new(2);
    runner.set_warmup_rows(3);
    runner.set_parallelism(4);
    let run = drive(runner, records, None, &forward, true);
    assert_eq!(rows_of(&run), vec![3, 2, 2]);
    assert_eq!(
        run.batches[0].column(0),
        &vec![Cell::Int64(0), Cell::Int64(1), Cell::Int64(2)]
    );
    check_tally(&run);
}

#[test]
fn order_of_completion_does_not_change_what_columns_hold() {
    let records = |n: i64| -> Vec<Record> {
        (0..n)
            .map(|i| {
                object(vec![
                    ("id", Record::I64(i % 4)),
                    ("name", Record::Utf8(format!("n{}", i % 3))),
                ])
            })
            .collect()
    };
    let schema = || {
        Schema::new(vec![
            Field::new("id", DataType::Int64, true),
            Field::new("name", DataType::Utf8, true),
        ])
    };
    let column = |run: &Run, c: usize| -> Vec<String> {
        let mut cells: Vec<String> = run
            .batches
            .iter()
            .flat_map(|b| b.column(c).iter().map(|cell| format!("{:?}", cell)))
            .collect();
        cells.sort();
        cells
    };
    let mut first = PipelineRunner::new(4);
    first.set_parallelism(5);
    let mut second = PipelineRunner::new(4);
    second.set_parallelism(5);
    let a = drive(first, records(13), Some(schema()), &forward, false);
    let b = drive(second, records(13), Some(schema()), &forward, true);
    assert_ne!(a.batches, b.batches);
    assert_eq!(column(&a, 0), column(&b, 0));
    assert_eq!(column(&a, 1), column(&b, 1));
    assert_eq!(column(&a, 0).len(), 13);
}

#[test]
fn failure_ends_the_run_in_error() {
    let mut runner = PipelineRunner::new(10);
    assert_eq!(runner.start(None), vec![]);
    assert_eq!(runner.demand(), Demand::Record);
    assert_eq!(runner.on_record(numbered(1)), vec![]);
    let actions = runner.on_failure(UdoError::Io("disk gone".to_string()));
    assert_eq!(actions, vec![Action::Fail(UdoError::Io("disk gone".to_string()))]);
    assert_eq!(runner.phase(), Phase::Error);
    assert_eq!(runner.demand(), Demand::Nothing);
}

#[test]
fn runner_starts_with_its_defaults() {
    let mut runner = PipelineRunner::new(10_000);
    assert_eq!(runner.phase(), Phase::Init);
    assert_eq!(runner.demand(), Demand::Start);
    assert_eq!(runner.batch_size, 10_000);
    assert_eq!(runner.warmup_rows, 100);
    assert!(!runner.dlq);
    assert!(runner.parallelism >= 2);
    assert_eq!(runner.parallelism % 2, 0);
    runner.set_parallelism(0);
    assert_eq!(runner.parallelism, 1);
    runner.set_warmup_rows(7);
    assert_eq!(runner.warmup_rows, 7);
    let _ = runner.start(None);
    runner.set_warmup_rows(9);
    assert_eq!(runner.warmup_rows, 7);
}

#[test]
fn in_flight_limit_is_twice_the_processors() {
    assert_eq!(in_flight_limit(1), 2);
    assert_eq!(in_flight_limit(4), 8);
    assert_eq!(in_flight_limit(0), 0);
    assert_eq!(in_flight_limit(usize::MAX), usize::MAX);
    assert_eq!(in_flight_limit(usize::MAX / 2 + 1), usize::MAX);
}

#[test]
fn runner_waits_for_outcomes_at_the_bound() {
    let mut runner = PipelineRunner::new(10);
    runner.set_parallelism(2);
    assert_eq!(runner.start(Some(id_schema())), vec![Action::Prepare(id_schema())]);
    assert_eq!(runner.demand(), Demand::Schema);
    assert_eq!(runner.schema_ready(id_schema()), vec![]);
    assert_eq!(runner.phase(), Phase::Main);
    assert_eq!(runner.on_record(numbered(1)), vec![Action::Dispatch(numbered(1))]);
    assert_eq!(runner.demand(), Demand::Record);
    assert_eq!(runner.on_record(numbered(2)), vec![Action::Dispatch(numbered(2))]);
    assert_eq!(runner.demand(), Demand::Outcome);
    assert_eq!(runner.on_processed(Outcome::Forward(numbered(2))), vec![]);
    assert_eq!(runner.demand(), Demand::Record);
    assert_eq!(runner.on_source_end(), vec![]);
    assert_eq!(runner.phase(), Phase::Draining);
    assert_eq!(runner.demand(), Demand::Outcome);
    let actions = runner.on_processed(Outcome::Forward(numbered(1)));
    assert_eq!(actions.len(), 2);
    match &actions[0] {
        Action::Write(b) => {
            assert_eq!(b.column(0), &vec![Cell::Int64(2), Cell::Int64(1)]);
        }
        other => panic!("expected a batch, got {:?}", other),
    }
    assert_eq!(actions[1], Action::Close);
    assert_eq!(runner.demand(), Demand::Closed);
    runner.on_closed();
    assert_eq!(runner.phase(), Phase::Closed);
    assert_eq!(runner.demand(), Demand::Nothing);
}

#[test]
fn warmup_prefix_without_an_object_fails_the_run() {
    let records = vec![Record::I64(1), Record::Utf8("x".to_string())];
    let run = drive(PipelineRunner::new(10), records, None, &forward, false);
    assert_eq!(
        run.error,
        Some(UdoError::Pipeline(
            "No object among the scanned rows, cannot infer schema".to_string()
        ))
    );
    assert_eq!(run.runner.phase(), Phase::Error);
    assert_eq!(run.prepared, 0);
    assert_eq!(run.closed, 0);
    assert!(run.batches.is_empty());

    let mut runner = PipelineRunner::new(10);
    runner.set_warmup_rows(1);
    let _ = runner.start(None);
    let actions = runner.on_record(Record::Null);
    assert_eq!(
        actions,
        vec![Action::Fail(UdoError::Pipeline(
            "No object among the scanned rows, cannot infer schema".to_string()
        ))]
    );
    assert_eq!(runner.phase(), Phase::Error);
}
