use vstd::prelude::*;
use crate::engine::error::UdoError;
use crate::engine::pipeline::Outcome;
use crate::engine::record::Record;
use crate::engine::schema::Schema;

verus! {

/// A transformation of records, one at a time.
///
/// `yields` and `schema_yields` say which results the processor may give.
/// By default a processor may give any result for a record and leaves the
/// schema as it is; one that changes the schema, or may fail to derive one,
/// says so in `schema_yields`, and whoever writes the two otherwise than by
/// default answers for the methods keeping to them.
pub trait DataProcessor {
    /// Whether `process` may give the result for the record. A processor
    /// that says nothing else may give any result.
    open spec fn yields(&self, record: Record, result: Result<Option<Record>, UdoError>) -> bool {
        true
    }

    /// Whether `update_schema` may give the result for the schema. A
    /// processor that says nothing else leaves the schema as it is.
    open spec fn schema_yields(&self, schema: Schema, result: Result<Schema, UdoError>) -> bool {
        keeps_schema(schema, result)
    }

    /// Transforms a record: `Some` forwards the record, perhaps changed,
    /// `None` filters it out, an error fails it.
    fn process(&self, record: Record) -> (r: Result<Option<Record>, UdoError>)
        ensures
            self.yields(record, r),
    ;

    /// Derives the schema that the processor's records have from the schema
    /// of the records that it is given. A processor that says nothing else
    /// leaves the schema as it is.
    fn update_schema(&self, schema: &Schema) -> (r: Result<Schema, UdoError>)
        ensures
            self.schema_yields(*schema, r) || keeps_schema(*schema, r),
    {
        Ok(schema.duplicate())
    }
}

/// The result is the schema given, unchanged.
pub open spec fn keeps_schema(schema: Schema, result: Result<Schema, UdoError>) -> bool {
    result matches Ok(out) && out@ == schema@
}

/// Whether a processor may derive the result from a schema: what it says it
/// may, or the schema unchanged.
pub open spec fn may_derive<P: DataProcessor>(
    processor: P,
    schema: Schema,
    result: Result<Schema, UdoError>,
) -> bool {
    processor.schema_yields(schema, result) || keeps_schema(schema, result)
}

/// No processor of the chain may fail to derive a schema, whatever schema it
/// is given.
pub open spec fn setup_never_fails<P: DataProcessor>(processors: Seq<P>) -> bool {
    forall|i: int, schema: Schema, result: Result<Schema, UdoError>|
        0 <= i < processors.len() && #[trigger] may_derive(processors[i], schema, result)
            ==> result is Ok
}

/// A chain of processors none of which may fail derives a schema.
pub proof fn lemma_setup_succeeds<P: DataProcessor>(
    processors: Seq<P>,
    schema: Schema,
    result: Result<Schema, UdoError>,
)
    requires
        setup_never_fails(processors),
        chain_schema_yields(processors, schema, result),
    ensures
        result is Ok,
    decreases processors.len(),
{
    if processors.len() > 0 {
        let step = choose|step: Result<Schema, UdoError>| #[trigger]
            may_derive(processors[0], schema, step) && match step {
                Ok(next) => chain_schema_yields(processors.drop_first(), next, result),
                Err(e) => result == Err::<Schema, UdoError>(e),
            };
        assert(step is Ok);
        let rest = processors.drop_first();
        assert forall|i: int, s: Schema, r: Result<Schema, UdoError>|
            0 <= i < rest.len() && #[trigger] may_derive(rest[i], s, r) implies r is Ok by {
            assert(rest[i] == processors[i + 1]);
        }
        lemma_setup_succeeds(rest, step->Ok_0, result);
    }
}

/// Whether a chain of processors, applied in order, may give the result for
/// a record: each processor is given what the one before it forwarded, and the
/// first that filters or fails decides.
pub open spec fn chain_yields<P: DataProcessor>(
    processors: Seq<P>,
    record: Record,
    result: Result<Option<Record>, UdoError>,
) -> bool
    decreases processors.len(),
{
    if processors.len() == 0 {
        result == Ok::<Option<Record>, UdoError>(Some(record))
    } else {
        exists|step: Result<Option<Record>, UdoError>| #[trigger]
            processors[0].yields(record, step) && match step {
                Ok(Some(next)) => chain_yields(processors.drop_first(), next, result),
                Ok(None) => result == Ok::<Option<Record>, UdoError>(None),
                Err(e) => result == Err::<Option<Record>, UdoError>(e),
            }
    }
}

/// Whether a chain of processors may give the outcome for a record: as
/// `chain_yields`, but a failure is told with a copy of the record that the
/// failing processor was given and with the rendered error as the reason.
pub open spec fn chain_outcome<P: DataProcessor>(
    processors: Seq<P>,
    record: Record,
    outcome: Outcome,
) -> bool
    decreases processors.len(),
{
    if processors.len() == 0 {
        outcome == Outcome::Forward(record)
    } else {
        exists|step: Result<Option<Record>, UdoError>| #[trigger]
            processors[0].yields(record, step) && match step {
                Ok(Some(next)) => chain_outcome(processors.drop_first(), next, outcome),
                Ok(None) => outcome == Outcome::Filtered,
                Err(e) => outcome matches Outcome::Failed(given, reason) && given@ == record@
                    && reason@ == e.prefix() + e.detail(),
            }
    }
}

/// Whether a chain of processors may derive the result from a schema: each
/// processor is given the schema that the one before it derived, and derives
/// what it says it may or leaves the schema as it is; the first that fails
/// decides.
pub open spec fn chain_schema_yields<P: DataProcessor>(
    processors: Seq<P>,
    schema: Schema,
    result: Result<Schema, UdoError>,
) -> bool
    decreases processors.len(),
{
    if processors.len() == 0 {
        result == Ok::<Schema, UdoError>(schema)
    } else {
        exists|step: Result<Schema, UdoError>| #[trigger]
            may_derive(processors[0], schema, step) && match step {
                Ok(next) => chain_schema_yields(processors.drop_first(), next, result),
                Err(e) => result == Err::<Schema, UdoError>(e),
            }
    }
}

/// A chain of processors forwards, filters or fails a record; it never loses
/// one.
pub proof fn lemma_chain_loses_nothing<P: DataProcessor>(
    processors: Seq<P>,
    record: Record,
    outcome: Outcome,
)
    requires
        chain_outcome(processors, record, outcome),
    ensures
        !(outcome is Lost),
    decreases processors.len(),
{
    if processors.len() > 0 {
        let step = choose|step: Result<Option<Record>, UdoError>| #[trigger]
            processors[0].yields(record, step) && match step {
                Ok(Some(next)) => chain_outcome(processors.drop_first(), next, outcome),
                Ok(None) => outcome == Outcome::Filtered,
                Err(e) => outcome matches Outcome::Failed(given, reason) && given@ == record@
                    && reason@ == e.prefix() + e.detail(),
            };
        match step {
            Ok(Some(next)) => {
                lemma_chain_loses_nothing(processors.drop_first(), next, outcome);
            },
            _ => {},
        }
    }
}

/// Runs a record through the processors in their order.
pub fn process_record_sequential<P: DataProcessor>(processors: &Vec<P>, record: Record) -> (r:
    Result<Option<Record>, UdoError>)
    ensures
        chain_yields(processors@, record, r),
{
    let mut current = record;
    let mut i: usize = 0;
    assert(processors@.skip(0) =~= processors@);
    while i < processors.len()
        invariant
            i <= processors@.len(),
            forall|res: Result<Option<Record>, UdoError>|
                chain_yields(processors@.skip(i as int), current, res) ==> chain_yields(
                    processors@,
                    record,
                    res,
                ),
        decreases processors.len() - i,
    {
        let ghost given = current;
        let ghost rest = processors@.skip(i as int);
        assert(rest[0] == processors@[i as int]);
        assert(rest.drop_first() =~= processors@.skip(i + 1));
        let step = processors[i].process(current);
        match step {
            Ok(Some(next)) => {
                assert forall|res: Result<Option<Record>, UdoError>|
                    chain_yields(processors@.skip(i + 1), next, res) implies chain_yields(
                    processors@,
                    record,
                    res,
                ) by {
                    assert(rest[0].yields(given, step));
                    assert(chain_yields(rest, given, res));
                }
                current = next;
            },
            Ok(None) => {
                assert(rest[0].yields(given, step));
                assert(chain_yields(rest, given, Ok(None)));
                return Ok(None);
            },
            Err(e) => {
                assert(rest[0].yields(given, step));
                assert(chain_yields(rest, given, Err(e)));
                return Err(e);
            },
        }
        i += 1;
    }
    assert(chain_yields(processors@.skip(i as int), current, Ok(Some(current))));
    Ok(Some(current))
}

/// Runs a record through the processors in their order and tells what came
/// of it. A failure is told with the record as the failing processor got it.
pub fn process_to_outcome<P: DataProcessor>(processors: &Vec<P>, record: Record) -> (outcome:
    Outcome)
    ensures
        chain_outcome(processors@, record, outcome),
{
    let mut current = record;
    let mut i: usize = 0;
    assert(processors@.skip(0) =~= processors@);
    while i < processors.len()
        invariant
            i <= processors@.len(),
            forall|out: Outcome|
                chain_outcome(processors@.skip(i as int), current, out) ==> chain_outcome(
                    processors@,
                    record,
                    out,
                ),
        decreases processors.len() - i,
    {
        let ghost given = current;
        let ghost rest = processors@.skip(i as int);
        assert(rest[0] == processors@[i as int]);
        assert(rest.drop_first() =~= processors@.skip(i + 1));
        let kept = current.duplicate();
        let step = processors[i].process(current);
        match step {
            Ok(Some(next)) => {
                assert forall|out: Outcome|
                    chain_outcome(processors@.skip(i + 1), next, out) implies chain_outcome(
                    processors@,
                    record,
                    out,
                ) by {
                    assert(rest[0].yields(given, step));
                    assert(chain_outcome(rest, given, out));
                }
                current = next;
            },
            Ok(None) => {
                assert(rest[0].yields(given, step));
                assert(chain_outcome(rest, given, Outcome::Filtered));
                return Outcome::Filtered;
            },
            Err(e) => {
                let reason = e.message();
                let outcome = Outcome::Failed(kept, reason);
                assert(rest[0].yields(given, step));
                assert(chain_outcome(rest, given, outcome));
                return outcome;
            },
        }
        i += 1;
    }
    assert(chain_outcome(processors@.skip(i as int), current, Outcome::Forward(current)));
    Outcome::Forward(current)
}

/// Threads a schema through the processors in their order.
pub fn thread_schema<P: DataProcessor>(processors: &Vec<P>, schema: Schema) -> (r: Result<
    Schema,
    UdoError,
>)
    ensures
        chain_schema_yields(processors@, schema, r),
{
    let mut current = schema;
    let mut i: usize = 0;
    assert(processors@.skip(0) =~= processors@);
    while i < processors.len()
        invariant
            i <= processors@.len(),
            forall|res: Result<Schema, UdoError>|
                chain_schema_yields(processors@.skip(i as int), current, res)
                    ==> chain_schema_yields(processors@, schema, res),
        decreases processors.len() - i,
    {
        let ghost given = current;
        let ghost rest = processors@.skip(i as int);
        assert(rest[0] == processors@[i as int]);
        assert(rest.drop_first() =~= processors@.skip(i + 1));
        let step = processors[i].update_schema(&current);
        match step {
            Ok(next) => {
                assert forall|res: Result<Schema, UdoError>|
                    chain_schema_yields(
                        processors@.skip(i + 1),
                        next,
                        res,
                    ) implies chain_schema_yields(processors@, schema, res) by {
                    assert(may_derive(rest[0], given, step));
                    assert(chain_schema_yields(rest, given, res));
                }
                current = next;
            },
            Err(e) => {
                assert(may_derive(rest[0], given, step));
                assert(chain_schema_yields(rest, given, Err(e)));
                return Err(e);
            },
        }
        i += 1;
    }
    assert(chain_schema_yields(processors@.skip(i as int), current, Ok(current)));
    Ok(current)
}

} // verus!
