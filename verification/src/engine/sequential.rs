use vstd::prelude::*;
use crate::engine::batch::Batch;
use crate::engine::error::UdoError;
use crate::engine::pipeline::{
    no_records_message, Action, Demand, Outcome, Phase, PipelineRunner,
};
use crate::engine::processor::{
    chain_outcome, chain_schema_yields, lemma_chain_loses_nothing, lemma_setup_succeeds,
    process_to_outcome, setup_never_fails, thread_schema, DataProcessor,
};
use crate::engine::record::{same_content, Record};
use crate::engine::schema::{
    has_object, lemma_schema_unique, no_object_message, observations, schema_of, Schema,
};
use crate::utils::json::{all_rows, batches_encode, column_over, lemma_runs_hold_same_cells};
use crate::io::source::{next_valid, LineSource};
use crate::utils::json::{json_document, json_parses};

verus! {

/// What a run has read and written, as contracts see it: the rows of each
/// batch; the records that the source gave, in their order, and the line that
/// each of them was read from; the outcomes of the records processed so far,
/// in the same order; the warm-up prefix, once the warm-up is over; and the
/// schema that was handed to the processors.
pub struct Trace {
    pub rows: Seq<Seq<Record>>,
    pub pulled: Seq<Record>,
    pub at: Seq<int>,
    pub outcomes: Seq<Outcome>,
    pub prefix: Seq<Record>,
    pub prepared: Option<Schema>,
}

/// The records that the outcomes forward, in their order.
pub open spec fn forwarded(outcomes: Seq<Outcome>) -> Seq<Record>
    decreases outcomes.len(),
{
    if outcomes.len() == 0 {
        Seq::empty()
    } else {
        match outcomes.last() {
            Outcome::Forward(record) => forwarded(outcomes.drop_last()).push(record),
            _ => forwarded(outcomes.drop_last()),
        }
    }
}

/// The records that the outcomes tell as failed, each with its reason, in
/// their order.
pub open spec fn failed(outcomes: Seq<Outcome>) -> Seq<(Record, String)>
    decreases outcomes.len(),
{
    if outcomes.len() == 0 {
        Seq::empty()
    } else {
        match outcomes.last() {
            Outcome::Failed(record, reason) => failed(outcomes.drop_last()).push((record, reason)),
            _ => failed(outcomes.drop_last()),
        }
    }
}

/// How many of the outcomes tell of a record filtered out.
pub open spec fn filtered_among(outcomes: Seq<Outcome>) -> int
    decreases outcomes.len(),
{
    if outcomes.len() == 0 {
        0
    } else {
        filtered_among(outcomes.drop_last()) + if outcomes.last() is Filtered {
            1int
        } else {
            0int
        }
    }
}

/// One more outcome forwards its record, or tells it as failed, or neither.
proof fn lemma_outcome_push(outcomes: Seq<Outcome>, outcome: Outcome)
    ensures
        filtered_among(outcomes.push(outcome)) == filtered_among(outcomes) + if outcome
            is Filtered {
            1int
        } else {
            0int
        },
        forwarded(outcomes.push(outcome)) == match outcome {
            Outcome::Forward(record) => forwarded(outcomes).push(record),
            _ => forwarded(outcomes),
        },
        failed(outcomes.push(outcome)) == match outcome {
            Outcome::Failed(record, reason) => failed(outcomes).push((record, reason)),
            _ => failed(outcomes),
        },
{
    assert(outcomes.push(outcome).drop_last() =~= outcomes);
}

/// Without processors every outcome forwards its record unchanged: the
/// records forwarded are the records processed.
pub proof fn lemma_forwarded_without_processors<P: DataProcessor>(
    processors: Seq<P>,
    pulled: Seq<Record>,
    outcomes: Seq<Outcome>,
)
    requires
        processors.len() == 0,
        outcomes.len() <= pulled.len(),
        forall|k: int|
            0 <= k < outcomes.len() ==> chain_outcome(processors, pulled[k], #[trigger] outcomes[k]),
    ensures
        forwarded(outcomes) == pulled.take(outcomes.len() as int),
    decreases outcomes.len(),
{
    if outcomes.len() == 0 {
        assert(pulled.take(0) =~= Seq::empty());
    } else {
        let n = outcomes.len() - 1;
        let rest = outcomes.drop_last();
        assert forall|k: int| 0 <= k < rest.len() implies chain_outcome(
            processors,
            pulled[k],
            #[trigger] rest[k],
        ) by {
            assert(rest[k] == outcomes[k]);
        }
        lemma_forwarded_without_processors(processors, pulled, rest);
        assert(chain_outcome(processors, pulled[n], outcomes[n]));
        assert(pulled.take(n).push(pulled[n]) =~= pulled.take(n + 1));
    }
}


/// A run over lines held in memory, one record processed at a time: the
/// runner, its source, and what the run has brought forth so far.
pub struct SequentialRun {
    pub runner: PipelineRunner,
    pub source: LineSource,
    /// The line at which the source stood when the run began.
    pub first_line: usize,
    /// Whether the run began without a schema, and so with a warm-up.
    pub inferred: bool,
    /// The records handed out for processing whose outcome is not in yet.
    pub queue: Vec<Record>,
    /// The schema that waits to be threaded through the processors.
    pub prepared: Option<Schema>,
    pub batches: Vec<Batch>,
    /// How many of the batches hold the warm-up prefix: one or none.
    pub warmup_batches: usize,
    pub dead_letters: Vec<(Record, String)>,
    pub discarded: Vec<(Record, String)>,
    pub error: Option<UdoError>,
    pub trace: Ghost<Trace>,
}

/// The rows of a sequence of batches, all together.
pub open spec fn rows_in(batches: Seq<Batch>) -> int
    decreases batches.len(),
{
    if batches.len() == 0 {
        0
    } else {
        rows_in(batches.drop_last()) + batches.last().rows
    }
}

/// How many of the lines from one place up to another parse.
pub open spec fn valid_count(lines: Seq<Vec<u8>>, from: int, to: int) -> int
    decreases to - from,
{
    if to <= from || to > lines.len() || from < 0 {
        0
    } else {
        valid_count(lines, from, to - 1) + if json_parses(lines[to - 1]@) {
            1int
        } else {
            0int
        }
    }
}

/// Whether an object is among the documents of the first `want` lines that
/// parse, from a line on.
pub open spec fn prefix_object(lines: Seq<Vec<u8>>, from: int, want: int) -> bool
    decreases lines.len() - from,
{
    if from < 0 || from >= lines.len() || want <= 0 {
        false
    } else if !json_parses(lines[from]@) {
        prefix_object(lines, from + 1, want)
    } else {
        json_document(lines[from]@)->Some_0 is Object || prefix_object(lines, from + 1, want - 1)
    }
}

/// The lines that do not parse add nothing to a prefix: the prefix from a
/// line on is that from the next line that parses on.
proof fn lemma_prefix_skips(lines: Seq<Vec<u8>>, from: int, want: int)
    requires
        0 <= from <= lines.len(),
        want > 0,
    ensures
        prefix_object(lines, from, want) == if next_valid(lines, from) < lines.len() {
            json_document(lines[next_valid(lines, from)]@)->Some_0 is Object || prefix_object(
                lines,
                next_valid(lines, from) + 1,
                want - 1,
            )
        } else {
            false
        },
    decreases lines.len() - from,
{
    if from < lines.len() && !json_parses(lines[from]@) {
        lemma_prefix_skips(lines, from + 1, want);
    }
}

/// A record is an object exactly where the document it was read from is one.
proof fn lemma_object_of_document(record: Record, document: crate::engine::record::Value)
    requires
        same_content(record@, document),
    ensures
        record is Object <==> document is Object,
{
}

/// One more row holds an object where the rows before did or the row is one.
proof fn lemma_has_object_push(rows: Seq<Record>, row: Record)
    ensures
        has_object(rows.push(row)) <==> has_object(rows) || row is Object,
{
    let longer = rows.push(row);
    if has_object(rows) {
        let i = choose|i: int| 0 <= i < rows.len() && #[trigger] rows[i] is Object;
        assert(longer[i] is Object);
    }
    if row is Object {
        assert(longer[rows.len() as int] is Object);
    }
    if has_object(longer) {
        let i = choose|i: int| 0 <= i < longer.len() && #[trigger] longer[i] is Object;
        if i < rows.len() {
            assert(rows[i] is Object);
        }
    }
}

/// One more batch adds its rows to all the rows.
proof fn lemma_all_rows_push(rows: Seq<Seq<Record>>, more: Seq<Record>)
    ensures
        all_rows(rows.push(more)) == all_rows(rows) + more,
{
    assert(rows.push(more).drop_last() =~= rows);
}

/// The rows of a full batch: the batch size, or one where the batch size is
/// zero.
pub open spec fn full_batch(batch_size: usize) -> int {
    if batch_size == 0 {
        1
    } else {
        batch_size as int
    }
}

/// The error is a `Pipeline` error of the given message.
pub open spec fn error_is(error: Option<UdoError>, message: Seq<char>) -> bool {
    error matches Some(e) && e is Pipeline && e.detail() == message
}

/// Counts of lines add up over adjoining stretches, and are never negative.
proof fn lemma_valid_count_split(lines: Seq<Vec<u8>>, a: int, b: int, c: int)
    requires
        0 <= a <= b <= c <= lines.len(),
    ensures
        valid_count(lines, a, c) == valid_count(lines, a, b) + valid_count(lines, b, c),
        0 <= valid_count(lines, a, b) <= b - a,
        0 <= valid_count(lines, b, c) <= c - b,
    decreases c - a,
{
    if c > b {
        lemma_valid_count_split(lines, a, b, c - 1);
    } else if b > a {
        lemma_valid_count_split(lines, a, b - 1, b - 1);
    }
}

/// Up to the next line that parses no line parses, and that line does.
proof fn lemma_next_valid(lines: Seq<Vec<u8>>, from: int)
    requires
        0 <= from <= lines.len(),
    ensures
        from <= next_valid(lines, from) <= lines.len(),
        next_valid(lines, from) < lines.len() ==> json_parses(lines[next_valid(lines, from)]@),
        valid_count(lines, from, next_valid(lines, from)) == 0,
        next_valid(lines, from) < lines.len() ==> valid_count(
            lines,
            from,
            next_valid(lines, from) + 1,
        ) == 1,
    decreases lines.len() - from,
{
    if from < lines.len() && !json_parses(lines[from]@) {
        lemma_next_valid(lines, from + 1);
        let next = next_valid(lines, from);
        lemma_valid_count_split(lines, from, from + 1, next);
        assert(valid_count(lines, from, from) == 0);
        if next < lines.len() {
            lemma_valid_count_split(lines, from, from + 1, next + 1);
        }
    } else if from < lines.len() {
        assert(valid_count(lines, from, from) == 0);
    }
}

/// What reading the source from a line does to the count of lines that
/// parse: a line found adds one, the end of the lines adds nothing.
proof fn lemma_pull(lines: Seq<Vec<u8>>, first: int, from: int)
    requires
        0 <= first <= from <= lines.len(),
    ensures
        from <= next_valid(lines, from) <= lines.len(),
        next_valid(lines, from) < lines.len() ==> json_parses(lines[next_valid(lines, from)]@),
        next_valid(lines, from) < lines.len() ==> valid_count(
            lines,
            first,
            next_valid(lines, from) + 1,
        ) == valid_count(lines, first, from) + 1 && valid_count(lines, first, lines.len() as int)
            >= 1,
        next_valid(lines, from) == lines.len() ==> valid_count(lines, first, lines.len() as int)
            == valid_count(lines, first, from),
        0 <= valid_count(lines, first, from) <= from - first,
{
    let next = next_valid(lines, from);
    lemma_next_valid(lines, from);
    lemma_valid_count_split(lines, first, from, next);
    if next < lines.len() {
        lemma_valid_count_split(lines, first, from, next + 1);
        lemma_valid_count_split(lines, first, next + 1, lines.len() as int);
    }
}

/// How far a phase is from the end of a run.
pub open spec fn phase_weight(runner: PipelineRunner) -> int {
    match runner.phase {
        Phase::Init => 7,
        Phase::Warmup => 6,
        Phase::SchemaFrozen => if runner.schema_set {
            4
        } else {
            5
        },
        Phase::Main => 3,
        Phase::Draining => if runner.closing {
            1
        } else {
            2
        },
        Phase::Closed | Phase::Error => 0,
    }
}

impl SequentialRun {
    /// What the run has brought forth agrees with the runner's counts: the
    /// batches hold the rows written, each against the runner's schema; every
    /// batch after the warm-up prefix has at least one row and no more than
    /// the batch size, or one row where the batch size is zero, and only the
    /// last batch of a run that closes may have fewer than a full batch; the dead
    /// letters and the discarded records are those counted; no record was
    /// lost; and an error is there exactly when the run ended in one. The
    /// batches hold the rows of the trace, encoded against the schema; and the
    /// records of the trace are the documents of the lines that parse, from
    /// the first line up to where the source stands, one for each and in
    /// their order, but for the order of the entries of their objects.
    pub open spec fn consistent(&self) -> bool {
        &&& self.runner.well_formed()
        &&& self.first_line <= self.source.next <= self.source.lines@.len()
        &&& self.runner.tally.emitted == valid_count(
            self.source.lines@,
            self.first_line as int,
            self.source.next as int,
        )
        &&& (self.runner.phase == Phase::Draining || self.runner.phase == Phase::Closed
            ==> self.source.next == self.source.lines@.len())
        &&& (self.runner.phase == Phase::Warmup ==> self.inferred && self.runner.warmup_rows > 0
            && self.runner.warmup@.len() == self.runner.tally.emitted)
        &&& (self.runner.phase == Phase::Error ==> self.batches@.len() == 0)
        &&& (self.runner.phase == Phase::Warmup ==> (has_object(self.runner.warmup@)
            || prefix_object(
            self.source.lines@,
            self.source.next as int,
            self.runner.warmup_rows - self.runner.warmup@.len(),
        )) == self.prefix_has_object())
        &&& (self.inferred && (self.runner.phase == Phase::SchemaFrozen || self.runner.phase
            == Phase::Main || self.runner.phase == Phase::Draining || self.runner.phase
            == Phase::Closed) ==> self.prefix_has_object())
        &&& (self.inferred && self.doomed() ==> (self.runner.phase == Phase::Warmup
            && self.runner.tally.emitted == 0) || (self.runner.phase == Phase::Error && error_is(
            self.error,
            no_records_message(),
        )))
        &&& (self.runner.phase == Phase::Error && self.trace@.prepared is None ==> self.inferred
            && ((error_is(self.error, no_records_message()) && self.doomed()) || (error_is(
            self.error,
            no_object_message(),
        ) && !self.prefix_has_object())))
        &&& (!self.inferred ==> self.trace@.prepared is Some && self.warmup_batches == 0
            && self.runner.warmup@.len() == 0 && self.runner.replaying == 0)
        &&& (self.inferred && self.trace@.prepared is Some ==> self.prefix_has_object())
        &&& self.queue@.len() == self.runner.replaying + self.runner.in_flight
        &&& (self.runner.phase == Phase::SchemaFrozen && !self.runner.schema_set
            ==> self.prepared is Some && self.prepared == self.trace@.prepared)
        &&& (self.runner.phase == Phase::Warmup ==> self.trace@.prepared is None
            && self.trace@.outcomes.len() == 0)
        &&& (self.runner.schema_set ==> self.trace@.prepared is Some)
        &&& rows_in(self.batches@) == self.runner.tally.written
        &&& self.dead_letters@.len() == self.runner.tally.dead_lettered
        &&& self.discarded@.len() == self.runner.tally.dropped
        &&& self.runner.tally.lost == 0
        &&& forall|i: int|
            0 <= i < self.batches@.len() ==> (#[trigger] self.batches@[i]).schema@
                == self.runner.schema@ && self.batches@[i].well_formed() && self.batches@[i].rows
                == self.trace@.rows[i].len()
        &&& batches_encode(self.batches@, self.trace@.rows, self.runner.schema@)
        &&& self.trace@.pulled.len() == self.runner.tally.emitted
        &&& self.trace@.at.len() == self.runner.tally.emitted
        &&& forall|k: int|
            0 <= k < self.trace@.at.len() ==> self.first_line <= (#[trigger] self.trace@.at[k])
                < self.source.next && json_parses(self.source.lines@[self.trace@.at[k]]@)
                && same_content(
                self.trace@.pulled[k]@,
                json_document(self.source.lines@[self.trace@.at[k]]@)->Some_0,
            )
        &&& forall|j: int, k: int|
            0 <= j < k < self.trace@.at.len() ==> (#[trigger] self.trace@.at[j]) < (
            #[trigger] self.trace@.at[k])
        &&& (!self.runner.schema_set ==> self.batches@.len() == 0)
        &&& self.warmup_batches <= 1
        &&& self.warmup_batches <= self.batches@.len()
        &&& (self.runner.phase == Phase::SchemaFrozen ==> self.batches@.len() == 0)
        &&& forall|i: int|
            self.warmup_batches <= i < self.batches@.len() ==> 1 <= (#[trigger] self.batches@[i]).rows
                && (self.batches@[i].rows <= self.runner.batch_size || self.batches@[i].rows == 1)
        &&& forall|i: int|
            self.warmup_batches <= i < self.batches@.len() ==> (#[trigger] self.batches@[i]).rows
                == full_batch(self.runner.batch_size) || (i == self.batches@.len() - 1 && (
            self.runner.closing || self.runner.phase == Phase::Closed))
        &&& (self.error is Some <==> self.runner.phase == Phase::Error)
    }

    /// The warm-up cannot get a record: its size is zero, or no line from the
    /// first one on parses.
    pub open spec fn doomed(&self) -> bool {
        self.runner.warmup_rows == 0 || valid_count(
            self.source.lines@,
            self.first_line as int,
            self.source.lines@.len() as int,
        ) == 0
    }

    /// Nothing is out of its place: the records that wait are those that the
    /// source gave and that have no outcome yet; the rows written and
    /// buffered are the records forwarded, and the records counted as
    /// filtered are those filtered out; the dead letters, or without a
    /// dead-letter queue the discarded records, are the records that failed;
    /// and the warm-up prefix holds the first records of the source, as many
    /// as the warm-up has rows or all of them, and gave the schema that was
    /// handed to the processors.
    pub open spec fn accounted(&self) -> bool {
        &&& self.trace@.outcomes.len() <= self.trace@.pulled.len()
        &&& self.runner.warmup@ + self.queue@ == self.trace@.pulled.skip(
            self.trace@.outcomes.len() as int,
        )
        &&& all_rows(self.trace@.rows) + self.runner.row_buffer@ == forwarded(self.trace@.outcomes)
        &&& self.runner.tally.written + self.runner.row_buffer@.len() == forwarded(
            self.trace@.outcomes,
        ).len()
        &&& self.runner.tally.filtered == filtered_among(self.trace@.outcomes)
        &&& self.dead_letters@ == if self.runner.dlq {
            failed(self.trace@.outcomes)
        } else {
            Seq::empty()
        }
        &&& self.discarded@ == if self.runner.dlq {
            Seq::empty()
        } else {
            failed(self.trace@.outcomes)
        }
        &&& (self.inferred && self.trace@.prepared is Some ==> {
            &&& self.trace@.prefix.len() <= self.trace@.pulled.len()
            &&& forall|k: int|
                0 <= k < self.trace@.prefix.len() ==> #[trigger] self.trace@.prefix[k]
                    == self.trace@.pulled[k]
            &&& (self.trace@.prefix.len() == self.runner.warmup_rows || (self.trace@.prefix.len()
                < self.runner.warmup_rows && self.trace@.prefix.len() == valid_count(
                self.source.lines@,
                self.first_line as int,
                self.source.lines@.len() as int,
            )))
            &&& schema_of(self.trace@.prepared->Some_0@, observations(self.trace@.prefix))
        })
    }

    /// The warm-up prefix went out as one batch: once the prefix is replayed,
    /// the first batch holds the records that the prefix forwarded, and there
    /// is no such batch where it forwarded none.
    pub open spec fn warmed(&self) -> bool {
        self.inferred ==> match self.runner.phase {
            Phase::SchemaFrozen => if self.runner.schema_set {
                self.trace@.outcomes.len() + self.runner.replaying == self.trace@.prefix.len()
            } else {
                self.trace@.prefix == self.runner.warmup@ && self.trace@.outcomes.len() == 0
            },
            Phase::Main | Phase::Draining | Phase::Closed => {
                &&& self.trace@.prefix.len() <= self.trace@.outcomes.len()
                &&& if self.warmup_batches == 1 {
                    self.trace@.rows.len() >= 1 && self.trace@.rows[0] == forwarded(
                        self.trace@.outcomes.take(self.trace@.prefix.len() as int),
                    )
                } else {
                    forwarded(self.trace@.outcomes.take(self.trace@.prefix.len() as int)).len()
                        == 0
                }
            },
            _ => true,
        }
    }

    /// The run keeps to its processors: every outcome is one that the chain
    /// may give for its record, the schema of the run is one that the chain
    /// may derive from the schema handed to it, and a run that failed after a
    /// schema was handed over failed with an error that the chain may give.
    pub open spec fn faithful<P: DataProcessor>(&self, processors: Seq<P>) -> bool {
        &&& forall|k: int|
            0 <= k < self.trace@.outcomes.len() && k < self.trace@.pulled.len() ==> chain_outcome(
                processors,
                self.trace@.pulled[k],
                #[trigger] self.trace@.outcomes[k],
            )
        &&& (self.runner.schema_set ==> self.trace@.prepared is Some && chain_schema_yields(
            processors,
            self.trace@.prepared->Some_0,
            Ok(self.runner.schema),
        ))
        &&& (self.runner.phase == Phase::Error && self.trace@.prepared is Some ==> self.error
            is Some && chain_schema_yields(
            processors,
            self.trace@.prepared->Some_0,
            Err(self.error->Some_0),
        ))
    }

    /// Whether an object is among the documents of the warm-up prefix: of
    /// the first lines that parse, as many as the warm-up has rows.
    pub open spec fn prefix_has_object(&self) -> bool {
        prefix_object(self.source.lines@, self.first_line as int, self.runner.warmup_rows as int)
    }

    /// Every error of the run is the library's own: that of a warm-up
    /// without a record, which comes exactly where the warm-up cannot get
    /// one, or that of a warm-up prefix without an object, which comes only
    /// where the prefix has none. A run that failed before a schema was
    /// handed to the processors has only such errors.
    pub open spec fn only_own_errors(&self) -> bool {
        self.runner.phase == Phase::Error ==> self.inferred && ((error_is(
            self.error,
            no_records_message(),
        ) && self.doomed()) || (error_is(self.error, no_object_message())
            && !self.prefix_has_object()))
    }

    /// What is left to do: lines to read, records to replay or to process,
    /// and phases to pass.
    pub open spec fn measure(&self) -> int {
        10 * (4 * (self.source.lines@.len() - self.source.next) + 3 * self.runner.warmup@.len() + 2
            * self.queue@.len()) + phase_weight(self.runner)
    }

    /// What the run has brought forth so far.
    pub open spec fn yield_so_far(&self) -> Yield {
        Yield {
            batches: self.batches@,
            dead_letters: self.dead_letters@,
            discarded: self.discarded@,
            queue: self.queue@,
            prepared: self.prepared,
            error: self.error,
        }
    }

    /// Performs one action in memory.
    fn apply(&mut self, action: Option<Action>)
        ensures
            final(self).runner == old(self).runner,
            final(self).source == old(self).source,
            final(self).warmup_batches == old(self).warmup_batches,
            final(self).first_line == old(self).first_line,
            final(self).inferred == old(self).inferred,
            final(self).trace == old(self).trace,
            final(self).yield_so_far() == old(self).yield_so_far().after(action),
    {
        match action {
            Some(Action::Write(batch)) => {
                self.batches.push(batch);
            },
            Some(Action::DeadLetter(record, reason)) => {
                self.dead_letters.push((record, reason));
            },
            Some(Action::Discard(record, reason)) => {
                self.discarded.push((record, reason));
            },
            Some(Action::Replay(records)) => {
                let mut records = records;
                self.queue.append(&mut records);
            },
            Some(Action::Dispatch(record)) => {
                self.queue.push(record);
            },
            Some(Action::Prepare(schema)) => {
                self.prepared = Some(schema);
            },
            Some(Action::Fail(e)) => {
                self.error = Some(e);
            },
            Some(Action::Close) => {},
            None => {},
        }
    }

    /// Performs the actions of one decision, in their order.
    fn perform(&mut self, actions: Vec<Action>)
        requires
            actions@.len() <= 3,
        ensures
            final(self).runner == old(self).runner,
            final(self).source == old(self).source,
            final(self).warmup_batches == old(self).warmup_batches,
            final(self).first_line == old(self).first_line,
            final(self).inferred == old(self).inferred,
            final(self).trace == old(self).trace,
            final(self).yield_so_far() == old(self).yield_so_far().after(nth(actions@, 0)).after(
                nth(actions@, 1),
            ).after(nth(actions@, 2)),
    {
        let (first, second, third) = split3(actions);
        self.apply(first);
        self.apply(second);
        self.apply(third);
    }
}

/// What a run has brought forth, as contracts see it: the batches written,
/// the dead letters and the discarded records, the records that
/// wait for their outcome, the schema that waits to be prepared, and the
/// error that ended the run.
pub struct Yield {
    pub batches: Seq<Batch>,
    pub dead_letters: Seq<(Record, String)>,
    pub discarded: Seq<(Record, String)>,
    pub queue: Seq<Record>,
    pub prepared: Option<Schema>,
    pub error: Option<UdoError>,
}

impl Yield {
    /// The yield once one more action is performed: a batch joins the
    /// batches, a dead letter and a discarded record are counted, records to
    /// replay or to process join the queue, a schema to prepare is kept, a
    /// failure is noted. Closing leaves everything as it is.
    pub open spec fn after(self, action: Option<Action>) -> Yield {
        match action {
            Some(Action::Write(batch)) => Yield { batches: self.batches.push(batch), ..self },
            Some(Action::DeadLetter(record, reason)) => Yield {
                dead_letters: self.dead_letters.push((record, reason)),
                ..self
            },
            Some(Action::Discard(record, reason)) => Yield {
                discarded: self.discarded.push((record, reason)),
                ..self
            },
            Some(Action::Replay(records)) => Yield { queue: self.queue + records@, ..self },
            Some(Action::Dispatch(record)) => Yield { queue: self.queue.push(record), ..self },
            Some(Action::Prepare(schema)) => Yield { prepared: Some(schema), ..self },
            Some(Action::Fail(e)) => Yield { error: Some(e), ..self },
            _ => self,
        }
    }
}

/// The action at a place of a list, if the list is that long.
pub open spec fn nth(actions: Seq<Action>, at: int) -> Option<Action> {
    if 0 <= at < actions.len() {
        Some(actions[at])
    } else {
        None
    }
}

/// The first three actions of a list, in their order.
fn split3(actions: Vec<Action>) -> (r: (Option<Action>, Option<Action>, Option<Action>))
    requires
        actions@.len() <= 3,
    ensures
        r.0 == if actions@.len() > 0 {
            Some(actions@[0])
        } else {
            None
        },
        r.1 == if actions@.len() > 1 {
            Some(actions@[1])
        } else {
            None
        },
        r.2 == if actions@.len() > 2 {
            Some(actions@[2])
        } else {
            None
        },
{
    let mut rest = actions;
    let mut first: Option<Action> = None;
    let mut second: Option<Action> = None;
    let mut third: Option<Action> = None;
    if rest.len() == 3 {
        third = rest.pop();
    }
    if rest.len() == 2 {
        second = rest.pop();
    }
    if rest.len() == 1 {
        first = rest.pop();
    }
    (first, second, third)
}

/// Two runners with the same settings.
pub open spec fn same_settings(a: PipelineRunner, b: PipelineRunner) -> bool {
    &&& a.batch_size == b.batch_size
    &&& a.warmup_rows == b.warmup_rows
    &&& a.parallelism == b.parallelism
    &&& a.dlq == b.dlq
}

/// One more batch adds its rows.
proof fn lemma_rows_in_push(batches: Seq<Batch>, batch: Batch)
    ensures
        rows_in(batches.push(batch)) == rows_in(batches) + batch.rows,
{
    assert(batches.push(batch).drop_last() =~= batches);
}

impl SequentialRun {
    /// The run is consistent and under way.
    pub open spec fn started(&self) -> bool {
        self.consistent() && self.runner.phase != Phase::Init
    }

    /// Reads the source for the runner: the next record, or its end.
    #[verifier::rlimit(80)]
    fn pull<P: DataProcessor>(&mut self, Ghost(processors): Ghost<Seq<P>>)
        requires
            old(self).started(),
            old(self).runner.demand_spec() == Demand::Record,
        ensures
            final(self).started(),
            0 <= final(self).measure() < old(self).measure(),
            final(self).source.lines == old(self).source.lines,
            final(self).first_line == old(self).first_line,
            final(self).inferred == old(self).inferred,
            same_settings(final(self).runner, old(self).runner),
            old(self).accounted() ==> final(self).accounted(),
            old(self).accounted() && old(self).warmed() ==> final(self).warmed(),
            old(self).accounted() && old(self).faithful(processors)
                ==> final(self).faithful(processors),
            old(self).runner.phase != Phase::Warmup
                ==> final(self).trace@.prepared == old(self).trace@.prepared,
    {
        let ghost before = *self;
        proof {
            lemma_pull(self.source.lines@, self.first_line as int, self.source.next as int);
            if self.runner.phase == Phase::Warmup {
                lemma_prefix_skips(
                    self.source.lines@,
                    self.source.next as int,
                    self.runner.warmup_rows - self.runner.warmup@.len(),
                );
            }
        }
        let next = self.source.next_record();
        proof {
            if next is Ok && next->Ok_0 is Some {
                let record = next->Ok_0->Some_0;
                let at = next_valid(before.source.lines@, before.source.next as int);
                lemma_object_of_document(record, json_document(before.source.lines@[at]@)->Some_0);
                lemma_has_object_push(before.runner.warmup@, record);
            }
        }
        let ghost got = next;
        let actions = match next {
            Ok(Some(record)) => self.runner.on_record(record),
            Ok(None) => self.runner.on_source_end(),
            Err(e) => self.runner.on_failure(e),
        };
        let ghost shown = actions@;
        self.perform(actions);
        let ghost flushed = shown.len() > 0 && shown[0] is Write;
        let ghost frozen = shown.len() > 0 && shown[0] is Prepare;
        let ghost found = got is Ok && got->Ok_0 is Some;
        self.trace = Ghost(
            Trace {
                rows: if flushed {
                    before.trace@.rows.push(before.runner.row_buffer@)
                } else {
                    before.trace@.rows
                },
                pulled: if found {
                    before.trace@.pulled.push(got->Ok_0->Some_0)
                } else {
                    before.trace@.pulled
                },
                at: if found {
                    before.trace@.at.push(
                        next_valid(before.source.lines@, before.source.next as int),
                    )
                } else {
                    before.trace@.at
                },
                outcomes: before.trace@.outcomes,
                prefix: if frozen {
                    self.runner.warmup@
                } else {
                    before.trace@.prefix
                },
                prepared: if frozen {
                    Some(shown[0]->Prepare_0)
                } else {
                    before.trace@.prepared
                },
            },
        );
        proof {
            if flushed {
                lemma_rows_in_push(before.batches@, shown[0]->Write_0);
                lemma_all_rows_push(before.trace@.rows, before.runner.row_buffer@);
            }
            if before.accounted() {
                let n = before.trace@.outcomes.len() as int;
                assert(self.runner.warmup@ + self.queue@ =~= self.trace@.pulled.skip(n));
                assert(all_rows(self.trace@.rows) + self.runner.row_buffer@ =~= forwarded(
                    self.trace@.outcomes,
                ));
                if frozen {
                    assert(self.trace@.pulled.skip(0) =~= self.trace@.pulled);
                    assert(self.runner.warmup@ + self.queue@ =~= self.runner.warmup@);
                    lemma_valid_count_split(
                        self.source.lines@,
                        self.first_line as int,
                        self.source.next as int,
                        self.source.lines@.len() as int,
                    );
                }
                assert(self.accounted());
                if before.warmed() {
                    assert(self.warmed());
                }
            }
            if before.accounted() && before.faithful(processors) {
                assert forall|k: int|
                    0 <= k < self.trace@.outcomes.len() && k
                        < self.trace@.pulled.len() implies chain_outcome(
                    processors,
                    self.trace@.pulled[k],
                    #[trigger] self.trace@.outcomes[k],
                ) by {
                    assert(self.trace@.pulled[k] == before.trace@.pulled[k]);
                }
                assert(self.faithful(processors));
            }
        }
    }

    /// Threads the prepared schema through the processors for the runner.
    #[verifier::rlimit(80)]
    fn prepare<P: DataProcessor>(&mut self, processors: &Vec<P>)
        requires
            old(self).started(),
            old(self).runner.demand_spec() == Demand::Schema,
        ensures
            final(self).started(),
            0 <= final(self).measure() < old(self).measure(),
            final(self).source.lines == old(self).source.lines,
            final(self).first_line == old(self).first_line,
            final(self).inferred == old(self).inferred,
            same_settings(final(self).runner, old(self).runner),
            old(self).accounted() ==> final(self).accounted(),
            old(self).accounted() && old(self).warmed() ==> final(self).warmed(),
            old(self).faithful(processors@) ==> final(self).faithful(processors@),
            final(self).trace@.prepared == old(self).trace@.prepared,
    {
        let mut taken: Option<Schema> = None;
        core::mem::swap(&mut taken, &mut self.prepared);
        let schema = taken.unwrap();
        let ghost before = *self;
        let made = thread_schema(processors, schema);
        let actions = match made {
            Ok(made) => self.runner.schema_ready(made),
            Err(e) => self.runner.on_failure(e),
        };
        self.perform(actions);
        proof {
            if before.accounted() {
                let n = before.trace@.outcomes.len() as int;
                assert(self.runner.warmup@ + self.queue@ =~= self.trace@.pulled.skip(n));
                assert(self.accounted());
                if before.warmed() {
                    assert(self.trace@.outcomes.take(0) =~= Seq::<Outcome>::empty());
                    assert(self.warmed());
                }
            }
        }
    }

    /// Processes the record that has waited longest and hands its outcome to
    /// the runner.
    #[verifier::rlimit(100)]
    fn process<P: DataProcessor>(&mut self, processors: &Vec<P>)
        requires
            old(self).started(),
            old(self).runner.demand_spec() == Demand::Outcome,
        ensures
            final(self).started(),
            0 <= final(self).measure() < old(self).measure(),
            final(self).source.lines == old(self).source.lines,
            final(self).first_line == old(self).first_line,
            final(self).inferred == old(self).inferred,
            same_settings(final(self).runner, old(self).runner),
            old(self).accounted() ==> final(self).accounted(),
            old(self).accounted() && old(self).warmed() ==> final(self).warmed(),
            old(self).accounted() && old(self).faithful(processors@)
                ==> final(self).faithful(processors@),
            final(self).trace@.prepared == old(self).trace@.prepared,
    {
        let ghost before = *self;
        let record = self.queue.remove(0);
        let outcome = process_to_outcome(processors, record);
        proof {
            lemma_chain_loses_nothing(processors@, record, outcome);
        }
        let replayed = self.runner.phase() == Phase::SchemaFrozen;
        let ghost settled = self.runner.settled_rows(outcome);
        let ghost due = self.runner.flush_due(outcome);
        let actions = self.runner.on_processed(outcome);
        let ghost shown = actions@;
        self.perform(actions);
        if replayed {
            self.warmup_batches = self.batches.len();
        }
        self.trace = Ghost(
            Trace {
                rows: if due {
                    before.trace@.rows.push(settled)
                } else {
                    before.trace@.rows
                },
                outcomes: before.trace@.outcomes.push(outcome),
                ..before.trace@
            },
        );
        proof {
            if due {
                lemma_all_rows_push(before.trace@.rows, settled);
            }
            if shown.len() > 0 && shown[0] is Write {
                lemma_rows_in_push(before.batches@, shown[0]->Write_0);
            }
            if shown.len() > 1 && shown[1] is Write {
                lemma_rows_in_push(before.batches@, shown[1]->Write_0);
            }
            if before.accounted() {
                let n = before.trace@.outcomes.len() as int;
                lemma_outcome_push(before.trace@.outcomes, outcome);
                assert(before.runner.warmup@.len() == 0);
                assert(before.runner.warmup@ + before.queue@ =~= before.queue@);
                assert(before.queue@[0] == record);
                assert(before.trace@.pulled.skip(n)[0] == before.trace@.pulled[n]);
                assert(self.runner.warmup@ + self.queue@ =~= self.trace@.pulled.skip(n + 1));
                assert(all_rows(self.trace@.rows) + self.runner.row_buffer@ =~= forwarded(
                    self.trace@.outcomes,
                ));
                assert(self.dead_letters@ =~= if self.runner.dlq {
                    failed(self.trace@.outcomes)
                } else {
                    Seq::empty()
                });
                assert(self.discarded@ =~= if self.runner.dlq {
                    Seq::empty()
                } else {
                    failed(self.trace@.outcomes)
                });
                assert(self.accounted());
                if before.warmed() && self.inferred {
                    let k = self.trace@.prefix.len() as int;
                    if before.runner.phase == Phase::SchemaFrozen {
                        if before.runner.replaying == 1 {
                            assert(self.trace@.outcomes.take(k) =~= self.trace@.outcomes);
                            assert(before.trace@.rows.len() == 0);
                            assert(all_rows(before.trace@.rows) =~= Seq::<Record>::empty());
                            assert(before.runner.row_buffer@ =~= forwarded(before.trace@.outcomes));
                        }
                    } else {
                        assert(self.trace@.outcomes.take(k) =~= before.trace@.outcomes.take(k));
                    }
                    assert(self.warmed());
                }
                if before.faithful(processors@) {
                    assert forall|k: int|
                        0 <= k < self.trace@.outcomes.len() && k
                            < self.trace@.pulled.len() implies chain_outcome(
                        processors@,
                        self.trace@.pulled[k],
                        #[trigger] self.trace@.outcomes[k],
                    ) by {
                        if k < n {
                            assert(self.trace@.outcomes[k] == before.trace@.outcomes[k]);
                        }
                    }
                    assert(self.faithful(processors@));
                }
            }
        }
    }

    /// Tells the runner that the sink is closed; in memory there is nothing
    /// to close.
    fn finish<P: DataProcessor>(&mut self, Ghost(processors): Ghost<Seq<P>>)
        requires
            old(self).started(),
            old(self).runner.demand_spec() == Demand::Closed,
        ensures
            final(self).started(),
            0 <= final(self).measure() < old(self).measure(),
            final(self).source.lines == old(self).source.lines,
            final(self).first_line == old(self).first_line,
            final(self).inferred == old(self).inferred,
            same_settings(final(self).runner, old(self).runner),
            old(self).accounted() ==> final(self).accounted(),
            old(self).accounted() && old(self).warmed() ==> final(self).warmed(),
            old(self).faithful(processors) ==> final(self).faithful(processors),
            final(self).trace@.prepared == old(self).trace@.prepared,
    {
        self.runner.on_closed();
    }
}

/// Two runs that wrote the same rows hold the same cells: where two runs
/// with one schema have written rows that are the same but for their order
/// and for how they are cut into batches, every column holds the same cells
/// in the batches of both, each as many times.
pub proof fn lemma_two_runs_hold_same_cells(first: SequentialRun, second: SequentialRun, c: int)
    requires
        first.consistent(),
        second.consistent(),
        first.runner.schema@ == second.runner.schema@,
        all_rows(first.trace@.rows).to_multiset() == all_rows(second.trace@.rows).to_multiset(),
        0 <= c < first.runner.schema@.len(),
    ensures
        column_over(first.batches@, c).to_multiset() == column_over(
            second.batches@,
            c,
        ).to_multiset(),
{
    lemma_runs_hold_same_cells(
        first.batches@,
        first.trace@.rows,
        second.batches@,
        second.trace@.rows,
        first.runner.schema@,
        c,
    );
}

/// A closed run without processors has written the records of the source,
/// all of them and in their order, against the schema that was handed over.
pub proof fn lemma_plain_run<P: DataProcessor>(run: SequentialRun, processors: Seq<P>)
    requires
        run.consistent(),
        run.accounted(),
        run.faithful(processors),
        processors.len() == 0,
        run.runner.phase == Phase::Closed,
    ensures
        all_rows(run.trace@.rows) == run.trace@.pulled,
        run.trace@.prepared == Some(run.runner.schema),
{
    let n = run.trace@.outcomes.len() as int;
    assert(run.runner.warmup@ + run.queue@ =~= Seq::<Record>::empty());
    assert(run.trace@.pulled.skip(n).len() == 0);
    assert(all_rows(run.trace@.rows) + run.runner.row_buffer@ =~= all_rows(run.trace@.rows));
    lemma_forwarded_without_processors(processors, run.trace@.pulled, run.trace@.outcomes);
    assert(run.trace@.pulled.take(n) =~= run.trace@.pulled);
    assert(run.runner.schema_set);
    assert(chain_schema_yields(
        processors,
        run.trace@.prepared->Some_0,
        Ok::<Schema, UdoError>(run.runner.schema),
    ));
}

/// Two runs of the same records hold the same cells: where two closed runs
/// without processors, with warm-ups of one size and both without a schema or
/// both with the same one, got the same records from their sources, they have
/// the same schema, and every column holds the same cells in the batches of
/// both, each as many times, however the rows are cut into batches.
pub proof fn lemma_same_records_same_cells<P: DataProcessor>(
    first: SequentialRun,
    second: SequentialRun,
    processors: Seq<P>,
)
    requires
        first.consistent() && first.accounted() && first.faithful(processors),
        second.consistent() && second.accounted() && second.faithful(processors),
        processors.len() == 0,
        first.runner.phase == Phase::Closed,
        second.runner.phase == Phase::Closed,
        first.inferred == second.inferred,
        !first.inferred ==> first.trace@.prepared->Some_0@ == second.trace@.prepared->Some_0@,
        first.runner.warmup_rows == second.runner.warmup_rows,
        first.trace@.pulled == second.trace@.pulled,
    ensures
        first.runner.schema@ == second.runner.schema@,
        forall|c: int|
            0 <= c < first.runner.schema@.len() ==> #[trigger] column_over(
                first.batches@,
                c,
            ).to_multiset() == column_over(second.batches@, c).to_multiset(),
{
    lemma_plain_run(first, processors);
    lemma_plain_run(second, processors);
    if first.inferred {
        assert(first.trace@.prefix.len() == second.trace@.prefix.len());
        assert(first.trace@.prefix =~= second.trace@.prefix);
        lemma_schema_unique(
            first.runner.schema@,
            observations(first.trace@.prefix),
            second.runner.schema@,
            observations(second.trace@.prefix),
        );
    }
    assert forall|c: int| 0 <= c < first.runner.schema@.len() implies #[trigger] column_over(
        first.batches@,
        c,
    ).to_multiset() == column_over(second.batches@, c).to_multiset() by {
        lemma_two_runs_hold_same_cells(first, second, c);
    }
}

/// Runs the lines of a source through the processors, one record at a time,
/// and collects what a sink and a dead-letter queue would be given. A source
/// that stands behind its last line counts as one at its end.
///
/// The run ends closed or in error, and in error before any batch is
/// written. Without a schema, a warm-up of zero rows or a source without a
/// line that parses ends the run in the error of a warm-up without a record,
/// and a warm-up prefix without an object among its documents ends it in the
/// error of such a prefix. Every other error is one that the processors may
/// give when the schema is threaded through them: with processors that never
/// fail there, a run started with a schema always closes, and one started
/// without closes exactly where the warm-up gets a record and an object is
/// among the documents of its prefix.
///
/// The schema handed to the processors is the one given, or the one inferred
/// from the warm-up prefix; the schema of the run, and of every batch, is one
/// that the processors may derive from it. Every record of the source gets an
/// outcome that the processors may give for it; the rows written are the
/// records forwarded, in their order, and the dead letters, or without a
/// dead-letter queue the discarded records, are the records that failed. The
/// records that the warm-up prefix forwarded go out as the first batch; every
/// later batch is full, but for the last one of a run that closes. A closed
/// run has taken in every line that parses and has an outcome for each.
pub fn run_sequential<P: DataProcessor>(
    runner: PipelineRunner,
    source: LineSource,
    processors: &Vec<P>,
    initial_schema: Option<Schema>,
) -> (run: SequentialRun)
    requires
        runner.well_formed(),
        runner.phase == Phase::Init,
    ensures
        run.consistent(),
        run.accounted(),
        run.warmed(),
        run.faithful(processors@),
        run.runner.phase == Phase::Closed || run.runner.phase == Phase::Error,
        run.source.lines == source.lines,
        run.first_line == if source.next <= source.lines@.len() {
            source.next
        } else {
            source.lines@.len() as usize
        },
        run.inferred == (initial_schema is None),
        same_settings(run.runner, runner),
        initial_schema is Some ==> run.trace@.prepared == initial_schema,
        initial_schema is None && run.doomed() ==> run.runner.phase == Phase::Error && error_is(
            run.error,
            no_records_message(),
        ),
        initial_schema is None && !run.doomed() && !run.prefix_has_object() ==> run.runner.phase
            == Phase::Error && error_is(run.error, no_object_message()),
        setup_never_fails(processors@) ==> run.only_own_errors(),
        setup_never_fails(processors@) && initial_schema is Some ==> run.runner.phase
            == Phase::Closed,
        setup_never_fails(processors@) && initial_schema is None && !run.doomed() ==> (
        run.runner.phase == Phase::Closed <==> run.prefix_has_object()),
        run.runner.phase == Phase::Error ==> run.batches@.len() == 0,
        run.runner.phase == Phase::Closed ==> run.runner.tally.emitted == valid_count(
            source.lines@,
            run.first_line as int,
            source.lines@.len() as int,
        ) && run.runner.tally.written + run.runner.tally.dead_lettered
            + run.runner.tally.filtered + run.runner.tally.dropped == run.runner.tally.emitted,
        run.runner.phase == Phase::Closed ==> run.trace@.outcomes.len() == run.trace@.pulled.len()
            && all_rows(run.trace@.rows) == forwarded(run.trace@.outcomes),
        processors@.len() == 0 && run.runner.phase == Phase::Closed ==> all_rows(run.trace@.rows)
            == run.trace@.pulled,
        runner.dlq ==> run.runner.tally.dropped == 0,
        runner.dlq && run.runner.phase == Phase::Closed ==> run.runner.tally.written
            + run.runner.tally.dead_lettered + run.runner.tally.filtered
            == run.runner.tally.emitted,
{
    let mut source = source;
    if source.next > source.lines.len() {
        source.next = source.lines.len();
    }
    let first_line = source.next;
    let inferred = initial_schema.is_none();
    let ghost initial = initial_schema;
    let mut run = SequentialRun {
        runner,
        source,
        first_line,
        inferred,
        queue: Vec::new(),
        prepared: None,
        batches: Vec::new(),
        warmup_batches: 0,
        dead_letters: Vec::new(),
        discarded: Vec::new(),
        error: None,
        trace: Ghost(
            Trace {
                rows: Seq::empty(),
                pulled: Seq::empty(),
                at: Seq::empty(),
                outcomes: Seq::empty(),
                prefix: Seq::empty(),
                prepared: initial,
            },
        ),
    };
    let actions = run.runner.start(initial_schema);
    run.perform(actions);
    proof {
        assert(run.runner.warmup@ + run.queue@ =~= run.trace@.pulled.skip(0));
        assert(all_rows(run.trace@.rows) + run.runner.row_buffer@ =~= forwarded(
            run.trace@.outcomes,
        ));
        assert(run.dead_letters@ =~= Seq::empty());
        assert(run.discarded@ =~= Seq::empty());
    }
    loop
        invariant
            run.started(),
            run.accounted(),
            run.warmed(),
            run.faithful(processors@),
            run.source.lines == source.lines,
            run.first_line == first_line,
            run.inferred == inferred,
            same_settings(run.runner, runner),
            0 <= run.measure(),
            !inferred ==> run.trace@.prepared == initial,
        ensures
            run.runner.demand_spec() == Demand::Nothing,
        decreases run.measure(),
    {
        match run.runner.demand() {
            Demand::Record => run.pull::<P>(Ghost(processors@)),
            Demand::Schema => run.prepare(processors),
            Demand::Outcome => run.process(processors),
            Demand::Closed => run.finish::<P>(Ghost(processors@)),
            _ => {
                break ;
            },
        }
    }
    proof {
        if setup_never_fails(processors@) && run.runner.phase == Phase::Error
            && run.trace@.prepared is Some {
            lemma_setup_succeeds(
                processors@,
                run.trace@.prepared->Some_0,
                Err(run.error->Some_0),
            );
        }
        if run.runner.phase == Phase::Closed {
            let n = run.trace@.outcomes.len() as int;
            assert(run.runner.warmup@ + run.queue@ =~= Seq::<Record>::empty());
            assert(run.trace@.pulled.skip(n).len() == 0);
            assert(all_rows(run.trace@.rows) + run.runner.row_buffer@ =~= all_rows(
                run.trace@.rows,
            ));
            if processors@.len() == 0 {
                lemma_forwarded_without_processors(
                    processors@,
                    run.trace@.pulled,
                    run.trace@.outcomes,
                );
                assert(run.trace@.pulled.take(n) =~= run.trace@.pulled);
            }
        }
    }
    run
}

} // verus!
