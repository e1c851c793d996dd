use vstd::prelude::*;
use vstd::string::*;
use crate::engine::batch::Batch;
use crate::engine::error::UdoError;
use crate::engine::record::Record;
use crate::engine::schema::{
    has_object, infer_prefix, no_object_message, observations, schema_of, FieldView, Schema,
};
use crate::utils::json::{encoded, json_rows_to_batch};

verus! {

/// Where a run stands.
#[derive(Clone, Copy, Debug, PartialEq, Eq, Structural)]
pub enum Phase {
    Init,
    Warmup,
    SchemaFrozen,
    Main,
    Draining,
    Closed,
    Error,
}

/// What came of one record in the processors: it was forwarded, perhaps
/// changed; a processor filtered it out; a processor failed on it, with the
/// record as it went in and the reason; or the task that held it died.
#[derive(Debug, PartialEq)]
pub enum Outcome {
    Forward(Record),
    Filtered,
    Failed(Record, String),
    Lost,
}

/// What the runner asks its driver to do.
#[derive(Debug, PartialEq)]
pub enum Action {
    /// Thread the schema through the processors, in their order, open the
    /// sink against the result, and report the result.
    Prepare(Schema),
    /// Process the records one after another, in this order, and report the
    /// outcome of each.
    Replay(Vec<Record>),
    /// Start processing the record; report its outcome whenever it is there.
    Dispatch(Record),
    /// Append the batch to the sink.
    Write(Batch),
    /// Hand the record and the reason to the dead-letter queue.
    DeadLetter(Record, String),
    /// Let go of a failed record, for want of a dead-letter queue, and note
    /// the reason.
    Discard(Record, String),
    /// Close the sink.
    Close,
    /// Give the run up with this error.
    Fail(UdoError),
}

/// What the runner waits for next.
#[derive(Clone, Copy, Debug, PartialEq, Eq, Structural)]
pub enum Demand {
    Start,
    Record,
    Schema,
    Outcome,
    Closed,
    Nothing,
}

/// Counts of the records that entered the run and of where they went.
#[derive(Clone, Copy, Debug, PartialEq, Eq, Structural)]
pub struct Tally {
    pub emitted: usize,
    pub written: usize,
    pub dead_lettered: usize,
    pub filtered: usize,
    pub dropped: usize,
    pub lost: usize,
}

/// The decisions of a run: it is told what the source, the processors and
/// the sink did, and says what is to be done next.
#[derive(Debug)]
pub struct PipelineRunner {
    pub phase: Phase,
    pub batch_size: usize,
    pub warmup_rows: usize,
    pub parallelism: usize,
    pub dlq: bool,
    pub schema: Schema,
    pub schema_set: bool,
    pub warmup: Vec<Record>,
    pub row_buffer: Vec<Record>,
    pub replaying: usize,
    pub in_flight: usize,
    pub closing: bool,
    pub tally: Tally,
}

/// The message of the failure of a warm-up that saw no record.
pub open spec fn no_records_message() -> Seq<char> {
    "Source yielded no records during warm-up"@
}

/// The action writes the given rows, encoded against the given schema.
pub open spec fn writes(action: Action, rows: Seq<Record>, schema: Seq<FieldView>) -> bool {
    action matches Action::Write(batch) && batch.schema@ == schema && batch.rows == rows.len()
        && batch.cells() == encoded(rows, schema) && batch.well_formed()
}

/// The action prepares a schema inferred from the given rows.
pub open spec fn prepares_inferred(action: Action, rows: Seq<Record>) -> bool {
    action matches Action::Prepare(schema) && schema_of(schema@, observations(rows))
}

/// The action replays the given records, in their order.
pub open spec fn replays(action: Action, rows: Seq<Record>) -> bool {
    action matches Action::Replay(records) && records@ == rows
}

/// The action gives the run up with a `Pipeline` error of the given message.
pub open spec fn fails_with(action: Action, message: Seq<char>) -> bool {
    action matches Action::Fail(e) && e is Pipeline && e.detail() == message
}

/// The bound on records in flight that a machine with the given number of
/// logical processors gets: twice that number.
pub open spec fn in_flight_bound(cpus: usize) -> usize {
    if 2 * cpus <= usize::MAX {
        (2 * cpus) as usize
    } else {
        usize::MAX
    }
}

/// The bound on records in flight for a number of logical processors.
pub fn in_flight_limit(cpus: usize) -> (limit: usize)
    ensures
        limit == in_flight_bound(cpus),
{
    match cpus.checked_mul(2) {
        Some(limit) => limit,
        None => usize::MAX,
    }
}

/// `num_cpus::get`: the number of logical processors available to this
/// process. It depends on the machine; the crate documents that it is at
/// least one, and nothing more is claimed.
#[verifier::external_body]
fn logical_cpus() -> (n: usize)
    ensures
        n >= 1,
{
    num_cpus::get()
}

impl PipelineRunner {
    /// The records that entered the run and have not yet been settled.
    pub open spec fn pending(&self) -> int {
        self.warmup@.len() + self.row_buffer@.len() + self.replaying + self.in_flight
    }

    /// The row buffer is below the batch size, or empty.
    pub open spec fn buffer_in_bounds(&self) -> bool {
        self.row_buffer@.len() < self.batch_size || self.row_buffer@.len() == 0
    }

    /// Every record that entered is counted exactly once: as written, dead
    /// lettered, filtered, dropped, lost or pending; with a dead-letter queue
    /// none is dropped; and the state fits the phase.
    pub open spec fn well_formed(&self) -> bool {
        &&& self.tally.emitted == self.tally.written + self.tally.dead_lettered
            + self.tally.filtered + self.tally.dropped + self.tally.lost + self.pending()
        &&& self.parallelism >= 1
        &&& (self.dlq ==> self.tally.dropped == 0)
        &&& match self.phase {
            Phase::Init => self.pending() == 0 && self.tally.emitted == 0 && !self.schema_set
                && !self.closing,
            Phase::Warmup => self.warmup@.len() < self.warmup_rows && self.row_buffer@.len() == 0
                && self.replaying == 0 && self.in_flight == 0 && !self.schema_set
                && !self.closing,
            Phase::SchemaFrozen => self.in_flight == 0 && !self.closing && if self.schema_set {
                self.warmup@.len() == 0 && self.replaying > 0
            } else {
                self.replaying == 0 && self.row_buffer@.len() == 0
            },
            Phase::Main => self.warmup@.len() == 0 && self.replaying == 0 && self.schema_set
                && !self.closing && self.in_flight <= self.parallelism
                && self.buffer_in_bounds(),
            Phase::Draining => self.warmup@.len() == 0 && self.replaying == 0 && self.schema_set
                && if self.closing {
                self.in_flight == 0 && self.row_buffer@.len() == 0
            } else {
                self.in_flight > 0 && self.buffer_in_bounds()
            },
            Phase::Closed => self.pending() == 0 && self.schema_set,
            Phase::Error => true,
        }
    }

    /// What the runner waits for in its state.
    pub open spec fn demand_spec(&self) -> Demand {
        match self.phase {
            Phase::Init => Demand::Start,
            Phase::Warmup => Demand::Record,
            Phase::SchemaFrozen => if self.schema_set {
                Demand::Outcome
            } else {
                Demand::Schema
            },
            Phase::Main => if self.in_flight < self.parallelism {
                Demand::Record
            } else {
                Demand::Outcome
            },
            Phase::Draining => if self.closing {
                Demand::Closed
            } else {
                Demand::Outcome
            },
            Phase::Closed | Phase::Error => Demand::Nothing,
        }
    }

    /// Whether the runner takes an outcome in its state: while it replays the
    /// warm-up prefix, and while records are in flight.
    pub open spec fn awaits_outcome(&self) -> bool {
        match self.phase {
            Phase::SchemaFrozen => self.schema_set,
            Phase::Main | Phase::Draining => self.in_flight > 0,
            _ => false,
        }
    }

    /// The row buffer once an outcome is taken in: a forwarded record joins
    /// it, nothing else does.
    pub open spec fn settled_rows(&self, outcome: Outcome) -> Seq<Record> {
        match outcome {
            Outcome::Forward(record) => self.row_buffer@.push(record),
            _ => self.row_buffer@,
        }
    }

    /// The counts once an outcome is taken in, before anything is written: a
    /// filtered record, a lost one and a failed one are counted at once, the
    /// failed one as dead lettered where a dead-letter queue is configured
    /// and as dropped where none is.
    pub open spec fn settled_tally(&self, outcome: Outcome) -> Tally {
        match outcome {
            Outcome::Forward(_) => self.tally,
            Outcome::Filtered => Tally {
                filtered: (self.tally.filtered + 1) as usize,
                ..self.tally
            },
            Outcome::Failed(_, _) => if self.dlq {
                Tally { dead_lettered: (self.tally.dead_lettered + 1) as usize, ..self.tally }
            } else {
                Tally { dropped: (self.tally.dropped + 1) as usize, ..self.tally }
            },
            Outcome::Lost => Tally { lost: (self.tally.lost + 1) as usize, ..self.tally },
        }
    }

    /// Whether the next outcome is the last of its stage: the last of the
    /// warm-up prefix, or the last in flight after the source has ended.
    pub open spec fn awaits_last(&self) -> bool {
        match self.phase {
            Phase::SchemaFrozen => self.replaying == 1,
            Phase::Draining => self.in_flight == 1,
            _ => false,
        }
    }

    /// Whether taking in an outcome makes the runner write a batch: there are
    /// rows to write, and either the stage ends, or a record was forwarded
    /// after warm-up and fills the buffer to the batch size.
    pub open spec fn flush_due(&self, outcome: Outcome) -> bool {
        self.settled_rows(outcome).len() > 0 && (self.awaits_last() || (self.phase
            != Phase::SchemaFrozen && outcome is Forward && self.settled_rows(outcome).len()
            >= self.batch_size))
    }

    /// The phase after an outcome is taken in: the end of the warm-up prefix
    /// leads to the main phase, everything else stays.
    pub open spec fn phase_after_outcome(&self) -> Phase {
        if self.phase == Phase::SchemaFrozen && self.replaying == 1 {
            Phase::Main
        } else {
            self.phase
        }
    }

    /// A runner at the start of a run, with a warm-up of 100 rows, no
    /// dead-letter queue, and twice the machine's logical processors as the
    /// bound on records in flight.
    pub fn new(batch_size: usize) -> (runner: PipelineRunner)
        ensures
            runner.well_formed(),
            runner.phase == Phase::Init,
            runner.batch_size == batch_size,
            runner.warmup_rows == 100,
            !runner.dlq,
            exists|cpus: usize| cpus >= 1 && runner.parallelism == in_flight_bound(cpus),
    {
        let cpus = logical_cpus();
        PipelineRunner {
            phase: Phase::Init,
            batch_size,
            warmup_rows: 100,
            parallelism: in_flight_limit(cpus),
            dlq: false,
            schema: Schema::empty(),
            schema_set: false,
            warmup: Vec::new(),
            row_buffer: Vec::new(),
            replaying: 0,
            in_flight: 0,
            closing: false,
            tally: Tally {
                emitted: 0,
                written: 0,
                dead_lettered: 0,
                filtered: 0,
                dropped: 0,
                lost: 0,
            },
        }
    }

    /// Says whether failed records go to a dead-letter queue. Once the run
    /// has started the setting stays as it is.
    pub fn set_dlq(&mut self, configured: bool)
        ensures
            *final(self) == (PipelineRunner {
                dlq: if old(self).phase == Phase::Init {
                    configured
                } else {
                    old(self).dlq
                },
                ..*old(self)
            }),
            old(self).well_formed() ==> final(self).well_formed(),
    {
        if self.phase == Phase::Init {
            self.dlq = configured;
        }
    }

    /// Sets the size of the warm-up prefix. Once the run has started the
    /// size stays as it is.
    pub fn set_warmup_rows(&mut self, rows: usize)
        ensures
            *final(self) == (PipelineRunner {
                warmup_rows: if old(self).phase == Phase::Init {
                    rows
                } else {
                    old(self).warmup_rows
                },
                ..*old(self)
            }),
            old(self).well_formed() ==> final(self).well_formed(),
    {
        if self.phase == Phase::Init {
            self.warmup_rows = rows;
        }
    }

    /// Sets the bound on records in flight; a bound of zero counts as one.
    /// Once the run has started the bound stays as it is.
    pub fn set_parallelism(&mut self, bound: usize)
        ensures
            *final(self) == (PipelineRunner {
                parallelism: if old(self).phase != Phase::Init {
                    old(self).parallelism
                } else if bound == 0 {
                    1usize
                } else {
                    bound
                },
                ..*old(self)
            }),
            old(self).well_formed() ==> final(self).well_formed(),
    {
        if self.phase == Phase::Init {
            self.parallelism = if bound == 0 {
                1
            } else {
                bound
            };
        }
    }

    pub fn phase(&self) -> (p: Phase)
        ensures
            p == self.phase,
    {
        self.phase
    }

    pub fn tally(&self) -> (t: Tally)
        ensures
            t == self.tally,
    {
        self.tally
    }

    /// What the runner waits for next.
    #[verifier::when_used_as_spec(demand_spec)]
    pub fn demand(&self) -> (d: Demand)
        ensures
            d == self.demand_spec(),
    {
        match self.phase {
            Phase::Init => Demand::Start,
            Phase::Warmup => Demand::Record,
            Phase::SchemaFrozen => if self.schema_set {
                Demand::Outcome
            } else {
                Demand::Schema
            },
            Phase::Main => if self.in_flight < self.parallelism {
                Demand::Record
            } else {
                Demand::Outcome
            },
            Phase::Draining => if self.closing {
                Demand::Closed
            } else {
                Demand::Outcome
            },
            Phase::Closed | Phase::Error => Demand::Nothing,
        }
    }

    /// Starts the run. With a schema the warm-up is skipped and the schema
    /// goes to be prepared. Without one the warm-up begins, unless its size
    /// is zero: then the run fails, as a warm-up that saw no record does.
    pub fn start(&mut self, initial_schema: Option<Schema>) -> (actions: Vec<Action>)
        requires
            old(self).well_formed(),
            old(self).phase == Phase::Init,
        ensures
            final(self).well_formed(),
            final(self).tally == old(self).tally,
            final(self).batch_size == old(self).batch_size,
            final(self).warmup_rows == old(self).warmup_rows,
            final(self).parallelism == old(self).parallelism,
            final(self).dlq == old(self).dlq,
            final(self).schema == old(self).schema,
            final(self).schema_set == old(self).schema_set,
            final(self).warmup == old(self).warmup,
            final(self).row_buffer == old(self).row_buffer,
            final(self).replaying == old(self).replaying,
            final(self).in_flight == old(self).in_flight,
            final(self).closing == old(self).closing,
            match initial_schema {
                Some(schema) => final(self).phase == Phase::SchemaFrozen && !final(self).schema_set
                    && actions@ == seq![Action::Prepare(schema)],
                None => if old(self).warmup_rows == 0 {
                    final(self).phase == Phase::Error && actions@.len() == 1 && fails_with(
                        actions@[0],
                        no_records_message(),
                    )
                } else {
                    final(self).phase == Phase::Warmup && actions@.len() == 0
                },
            },
    {
        let mut actions: Vec<Action> = Vec::new();
        match initial_schema {
            Some(schema) => {
                self.phase = Phase::SchemaFrozen;
                actions.push(Action::Prepare(schema));
            },
            None => {
                if self.warmup_rows == 0 {
                    self.phase = Phase::Error;
                    actions.push(
                        Action::Fail(
                            UdoError::Pipeline(
                                String::from_str("Source yielded no records during warm-up"),
                            ),
                        ),
                    );
                } else {
                    self.phase = Phase::Warmup;
                }
            },
        }
        actions
    }

    /// Takes the next record of the source.
    ///
    /// During warm-up the record joins the prefix; once the prefix has the
    /// warm-up size, the schema is inferred from it and goes to be prepared,
    /// or the run fails where the prefix holds no object.
    /// In the main phase the record is dispatched to the processors.
    pub fn on_record(&mut self, record: Record) -> (actions: Vec<Action>)
        requires
            old(self).well_formed(),
            old(self).demand_spec() == Demand::Record,
            old(self).tally.emitted < usize::MAX,
        ensures
            final(self).well_formed(),
            final(self).tally == (Tally { emitted: (old(self).tally.emitted + 1) as usize, ..old(self).tally }),
            final(self).batch_size == old(self).batch_size,
            final(self).warmup_rows == old(self).warmup_rows,
            final(self).parallelism == old(self).parallelism,
            final(self).dlq == old(self).dlq,
            final(self).row_buffer == old(self).row_buffer,
            final(self).schema == old(self).schema,
            final(self).schema_set == old(self).schema_set,
            final(self).replaying == old(self).replaying,
            final(self).closing == old(self).closing,
            match old(self).phase {
                Phase::Warmup => {
                    &&& final(self).warmup@ == old(self).warmup@.push(record)
                    &&& final(self).in_flight == 0
                    &&& if old(self).warmup@.len() + 1 < old(self).warmup_rows {
                        final(self).phase == Phase::Warmup && actions@.len() == 0
                    } else if has_object(final(self).warmup@) {
                        &&& final(self).phase == Phase::SchemaFrozen
                        &&& actions@.len() == 1
                        &&& prepares_inferred(actions@[0], final(self).warmup@)
                    } else {
                        &&& final(self).phase == Phase::Error
                        &&& actions@.len() == 1
                        &&& fails_with(actions@[0], no_object_message())
                    }
                },
                _ => {
                    &&& final(self).phase == Phase::Main
                    &&& final(self).warmup == old(self).warmup
                    &&& final(self).in_flight == old(self).in_flight + 1
                    &&& actions@ == seq![Action::Dispatch(record)]
                },
            },
    {
        let mut actions: Vec<Action> = Vec::new();
        self.tally.emitted = self.tally.emitted + 1;
        match self.phase {
            Phase::Warmup => {
                self.warmup.push(record);
                if self.warmup.len() >= self.warmup_rows {
                    let action = self.freeze();
                    actions.push(action);
                }
            },
            _ => {
                self.in_flight = self.in_flight + 1;
                actions.push(Action::Dispatch(record));
            },
        }
        actions
    }

    /// Ends the warm-up: infers the schema of the prefix and hands it on to
    /// be prepared, or fails the run where the prefix holds no object.
    fn freeze(&mut self) -> (action: Action)
        requires
            old(self).phase == Phase::Warmup,
        ensures
            *final(self) == (PipelineRunner { phase: final(self).phase, ..*old(self) }),
            if has_object(old(self).warmup@) {
                final(self).phase == Phase::SchemaFrozen && prepares_inferred(
                    action,
                    old(self).warmup@,
                )
            } else {
                final(self).phase == Phase::Error && fails_with(action, no_object_message())
            },
    {
        assert(self.warmup@.take(self.warmup@.len() as int) =~= self.warmup@);
        match infer_prefix(&self.warmup, self.warmup.len()) {
            Some(inferred) => {
                self.phase = Phase::SchemaFrozen;
                Action::Prepare(inferred)
            },
            None => {
                self.phase = Phase::Error;
                Action::Fail(
                    UdoError::Pipeline(
                        String::from_str("No object among the scanned rows, cannot infer schema"),
                    ),
                )
            },
        }
    }

    /// Writes the row buffer out as one batch and empties it.
    fn flush(&mut self) -> (action: Action)
        requires
            old(self).tally.written + old(self).row_buffer@.len() <= usize::MAX,
        ensures
            writes(action, old(self).row_buffer@, old(self).schema@),
            final(self).row_buffer@.len() == 0,
            final(self).tally == (Tally {
                written: (old(self).tally.written + old(self).row_buffer@.len()) as usize,
                ..old(self).tally
            }),
            final(self).phase == old(self).phase,
            final(self).batch_size == old(self).batch_size,
            final(self).warmup_rows == old(self).warmup_rows,
            final(self).parallelism == old(self).parallelism,
            final(self).dlq == old(self).dlq,
            final(self).schema == old(self).schema,
            final(self).schema_set == old(self).schema_set,
            final(self).warmup == old(self).warmup,
            final(self).replaying == old(self).replaying,
            final(self).in_flight == old(self).in_flight,
            final(self).closing == old(self).closing,
    {
        let batch = json_rows_to_batch(self.row_buffer.as_slice(), &self.schema).unwrap();
        self.tally.written = self.tally.written + self.row_buffer.len();
        self.row_buffer.clear();
        Action::Write(batch)
    }

    /// Takes the end of the source.
    ///
    /// During warm-up, a prefix without records or without an object among
    /// them fails the run; any other prefix gives the inferred schema to be
    /// prepared. In the main phase the
    /// run drains: once nothing is in flight, what is left in the row buffer
    /// is written and the sink is closed.
    pub fn on_source_end(&mut self) -> (actions: Vec<Action>)
        requires
            old(self).well_formed(),
            old(self).demand_spec() == Demand::Record,
        ensures
            final(self).well_formed(),
            final(self).batch_size == old(self).batch_size,
            final(self).warmup_rows == old(self).warmup_rows,
            final(self).parallelism == old(self).parallelism,
            final(self).dlq == old(self).dlq,
            final(self).schema == old(self).schema,
            final(self).schema_set == old(self).schema_set,
            final(self).warmup == old(self).warmup,
            final(self).in_flight == old(self).in_flight,
            final(self).replaying == old(self).replaying,
            final(self).row_buffer@ == if old(self).phase == Phase::Main && old(self).in_flight
                == 0 {
                Seq::<Record>::empty()
            } else {
                old(self).row_buffer@
            },
            match old(self).phase {
                Phase::Warmup => {
                    &&& final(self).tally == old(self).tally
                    &&& !final(self).closing
                    &&& actions@.len() == 1
                    &&& if old(self).warmup@.len() == 0 {
                        final(self).phase == Phase::Error && fails_with(
                            actions@[0],
                            no_records_message(),
                        )
                    } else if has_object(old(self).warmup@) {
                        final(self).phase == Phase::SchemaFrozen && prepares_inferred(
                            actions@[0],
                            old(self).warmup@,
                        )
                    } else {
                        final(self).phase == Phase::Error && fails_with(
                            actions@[0],
                            no_object_message(),
                        )
                    }
                },
                _ => {
                    &&& final(self).phase == Phase::Draining
                    &&& final(self).closing == (old(self).in_flight == 0)
                    &&& if old(self).in_flight > 0 {
                        &&& actions@.len() == 0
                        &&& final(self).row_buffer == old(self).row_buffer
                        &&& final(self).tally == old(self).tally
                    } else if old(self).row_buffer@.len() > 0 {
                        &&& actions@.len() == 2
                        &&& writes(actions@[0], old(self).row_buffer@, old(self).schema@)
                        &&& actions@[1] is Close
                        &&& final(self).tally == (Tally {
                            written: (old(self).tally.written + old(self).row_buffer@.len()) as usize,
                            ..old(self).tally
                        })
                    } else {
                        &&& actions@.len() == 1
                        &&& actions@[0] is Close
                        &&& final(self).tally == old(self).tally
                    }
                },
            },
    {
        let mut actions: Vec<Action> = Vec::new();
        match self.phase {
            Phase::Warmup => {
                if self.warmup.len() == 0 {
                    self.phase = Phase::Error;
                    actions.push(
                        Action::Fail(
                            UdoError::Pipeline(
                                String::from_str("Source yielded no records during warm-up"),
                            ),
                        ),
                    );
                } else {
                    let action = self.freeze();
                    actions.push(action);
                }
            },
            _ => {
                self.phase = Phase::Draining;
                if self.in_flight == 0 {
                    if self.row_buffer.len() > 0 {
                        let write = self.flush();
                        actions.push(write);
                    }
                    self.closing = true;
                    actions.push(Action::Close);
                }
            },
        }
        actions
    }

    /// Takes the schema that the processors made of the one prepared: the
    /// schema of every batch from here on. A warm-up prefix goes to be
    /// replayed; without one the main phase begins.
    pub fn schema_ready(&mut self, schema: Schema) -> (actions: Vec<Action>)
        requires
            old(self).well_formed(),
            old(self).demand_spec() == Demand::Schema,
        ensures
            final(self).well_formed(),
            final(self).schema == schema,
            final(self).schema_set,
            final(self).tally == old(self).tally,
            final(self).batch_size == old(self).batch_size,
            final(self).warmup_rows == old(self).warmup_rows,
            final(self).parallelism == old(self).parallelism,
            final(self).dlq == old(self).dlq,
            final(self).warmup@.len() == 0,
            final(self).replaying == old(self).warmup@.len(),
            final(self).row_buffer == old(self).row_buffer,
            final(self).in_flight == old(self).in_flight,
            final(self).closing == old(self).closing,
            if old(self).warmup@.len() == 0 {
                final(self).phase == Phase::Main && actions@.len() == 0
            } else {
                &&& final(self).phase == Phase::SchemaFrozen
                &&& actions@.len() == 1
                &&& replays(actions@[0], old(self).warmup@)
            },
    {
        let mut actions: Vec<Action> = Vec::new();
        self.schema = schema;
        self.schema_set = true;
        if self.warmup.len() == 0 {
            self.phase = Phase::Main;
        } else {
            let mut records: Vec<Record> = Vec::new();
            core::mem::swap(&mut records, &mut self.warmup);
            self.replaying = records.len();
            actions.push(Action::Replay(records));
        }
        actions
    }

    /// Takes the outcome of one record.
    ///
    /// A forwarded record joins the row buffer. A failed one goes to the
    /// dead-letter queue where one is configured and is discarded where none
    /// is. The warm-up prefix is written as one batch when its last outcome
    /// is in; after it a batch is written whenever the buffer reaches the
    /// batch size. When the source has ended and the last outcome is in, what
    /// is left is written and the sink is closed.
    pub fn on_processed(&mut self, outcome: Outcome) -> (actions: Vec<Action>)
        requires
            old(self).well_formed(),
            old(self).awaits_outcome(),
        ensures
            final(self).well_formed(),
            final(self).batch_size == old(self).batch_size,
            final(self).warmup_rows == old(self).warmup_rows,
            final(self).parallelism == old(self).parallelism,
            final(self).dlq == old(self).dlq,
            final(self).schema == old(self).schema,
            final(self).schema_set == old(self).schema_set,
            final(self).warmup == old(self).warmup,
            final(self).replaying == if old(self).phase == Phase::SchemaFrozen {
                old(self).replaying - 1
            } else {
                old(self).replaying as int
            },
            final(self).in_flight == if old(self).phase == Phase::SchemaFrozen {
                old(self).in_flight as int
            } else {
                old(self).in_flight - 1
            },
            final(self).phase == old(self).phase_after_outcome(),
            final(self).closing == (old(self).phase == Phase::Draining && old(self).in_flight == 1),
            final(self).tally == if old(self).flush_due(outcome) {
                Tally {
                    written: (old(self).tally.written + old(self).settled_rows(outcome).len()) as usize,
                    ..old(self).settled_tally(outcome)
                }
            } else {
                old(self).settled_tally(outcome)
            },
            final(self).row_buffer@ == if old(self).flush_due(outcome) {
                Seq::<Record>::empty()
            } else {
                old(self).settled_rows(outcome)
            },
            ({
                let dead = if outcome is Failed {
                    1int
                } else {
                    0int
                };
                let flush = if old(self).flush_due(outcome) {
                    1int
                } else {
                    0int
                };
                let close = if final(self).closing {
                    1int
                } else {
                    0int
                };
                &&& actions@.len() == dead + flush + close
                &&& dead == 1 ==> (outcome matches Outcome::Failed(record, reason) && actions@[0]
                    == if old(self).dlq {
                    Action::DeadLetter(record, reason)
                } else {
                    Action::Discard(record, reason)
                })
                &&& flush == 1 ==> writes(
                    actions@[dead],
                    old(self).settled_rows(outcome),
                    old(self).schema@,
                )
                &&& close == 1 ==> actions@[dead + flush] is Close
            }),
    {
        let mut actions: Vec<Action> = Vec::new();
        let replay = self.phase == Phase::SchemaFrozen;
        let last = if replay {
            self.replaying == 1
        } else {
            self.phase == Phase::Draining && self.in_flight == 1
        };
        if replay {
            self.replaying = self.replaying - 1;
        } else {
            self.in_flight = self.in_flight - 1;
        }
        let mut forwarded = false;
        match outcome {
            Outcome::Forward(record) => {
                self.row_buffer.push(record);
                forwarded = true;
            },
            Outcome::Filtered => {
                self.tally.filtered = self.tally.filtered + 1;
            },
            Outcome::Failed(record, reason) => {
                if self.dlq {
                    self.tally.dead_lettered = self.tally.dead_lettered + 1;
                    actions.push(Action::DeadLetter(record, reason));
                } else {
                    self.tally.dropped = self.tally.dropped + 1;
                    actions.push(Action::Discard(record, reason));
                }
            },
            Outcome::Lost => {
                self.tally.lost = self.tally.lost + 1;
            },
        }
        let full = !replay && forwarded && self.row_buffer.len() >= self.batch_size;
        if self.row_buffer.len() > 0 && (last || full) {
            let write = self.flush();
            actions.push(write);
        }
        if last {
            if replay {
                self.phase = Phase::Main;
            } else {
                self.closing = true;
                actions.push(Action::Close);
            }
        }
        actions
    }

    /// Takes the news that the sink is closed: the run is complete.
    pub fn on_closed(&mut self)
        requires
            old(self).well_formed(),
            old(self).demand_spec() == Demand::Closed,
        ensures
            final(self).well_formed(),
            *final(self) == (PipelineRunner { phase: Phase::Closed, ..*old(self) }),
    {
        self.phase = Phase::Closed;
    }

    /// Takes a fatal failure of the source, of the setup, of the sink or of
    /// the dead-letter queue: the run ends in error, and nothing more is
    /// written or closed.
    pub fn on_failure(&mut self, error: UdoError) -> (actions: Vec<Action>)
        requires
            old(self).well_formed(),
        ensures
            final(self).well_formed(),
            *final(self) == (PipelineRunner { phase: Phase::Error, ..*old(self) }),
            actions@ == seq![Action::Fail(error)],
    {
        self.phase = Phase::Error;
        let mut actions: Vec<Action> = Vec::new();
        actions.push(Action::Fail(error));
        actions
    }
}

/// Once a run is complete, every record that the source emitted is counted
/// exactly once: as written, dead lettered, filtered, dropped for want of a
/// dead-letter queue, or lost with a task that died. With a dead-letter
/// queue, and no task that died, the written, the dead lettered and the
/// filtered make up all that the source emitted.
pub proof fn lemma_complete_run_conserves_records(runner: PipelineRunner)
    requires
        runner.well_formed(),
        runner.phase == Phase::Closed,
    ensures
        runner.tally.written + runner.tally.dead_lettered + runner.tally.filtered
            + runner.tally.dropped + runner.tally.lost == runner.tally.emitted,
        runner.dlq && runner.tally.lost == 0 ==> runner.tally.written
            + runner.tally.dead_lettered + runner.tally.filtered == runner.tally.emitted,
{
}

/// After the warm-up, with a batch size of at least one, no batch has more
/// rows than the batch size, and a batch with fewer is the last one: it is
/// written when the source has ended and the last outcome is in.
pub proof fn lemma_batches_within_size(runner: PipelineRunner, outcome: Outcome)
    requires
        runner.well_formed(),
        runner.awaits_outcome(),
        runner.phase != Phase::SchemaFrozen,
        runner.batch_size >= 1,
        runner.flush_due(outcome),
    ensures
        1 <= runner.settled_rows(outcome).len() <= runner.batch_size,
        runner.settled_rows(outcome).len() < runner.batch_size ==> runner.phase == Phase::Draining
            && runner.in_flight == 1,
{
}

/// With a batch size of one, every record forwarded after the warm-up is
/// written at once, as a batch of its own.
pub proof fn lemma_batch_size_one(runner: PipelineRunner, record: Record)
    requires
        runner.well_formed(),
        runner.awaits_outcome(),
        runner.phase != Phase::SchemaFrozen,
        runner.batch_size == 1,
    ensures
        runner.flush_due(Outcome::Forward(record)),
        runner.settled_rows(Outcome::Forward(record)) == seq![record],
{
    assert(runner.row_buffer@ =~= Seq::empty());
    assert(runner.row_buffer@.push(record) =~= seq![record]);
}

/// The runner asks for a record only while fewer records are in flight than
/// its bound allows.
pub proof fn lemma_demand_respects_bound(runner: PipelineRunner)
    requires
        runner.well_formed(),
        runner.phase == Phase::Main,
        runner.demand_spec() == Demand::Record,
    ensures
        runner.in_flight < runner.parallelism,
{
}

} // verus!
