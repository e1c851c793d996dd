use vstd::prelude::*;
use vstd::string::*;
use crate::engine::batch::Batch;
use crate::engine::error::UdoError;
use crate::engine::schema::Schema;

verus! {

/// A sink for Avro files. Writing is not implemented: every batch is
/// refused.
#[derive(Debug)]
pub struct AvroSink {
    pub path: String,
}

impl AvroSink {
    pub fn new(path: &str, schema: &Schema) -> (r: Result<AvroSink, UdoError>)
        ensures
            r matches Ok(sink) && sink.path@ == path@,
    {
        Ok(AvroSink { path: String::from_str(path) })
    }

    /// Refuses the batch with a `Pipeline` error.
    pub fn write_batch(&mut self, batch: Batch) -> (r: Result<(), UdoError>)
        ensures
            r matches Err(e) && e is Pipeline && e.detail() == "Avro output not yet implemented"@,
            final(self).path == old(self).path,
    {
        Err(UdoError::Pipeline(String::from_str("Avro output not yet implemented")))
    }

    pub fn close(&mut self) -> (r: Result<(), UdoError>)
        ensures
            r is Ok,
            final(self).path == old(self).path,
    {
        Ok(())
    }
}

} // verus!
