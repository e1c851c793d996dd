use vstd::prelude::*;
use vstd::string::*;
use crate::engine::error::UdoError;

verus! {

/// Where the metrics of runs are kept.
#[derive(Clone, Debug)]
pub struct MetricsDb {
    pub path: String,
}

impl MetricsDb {
    /// A handle on the metrics kept at a path. Nothing is opened yet, so this
    /// always succeeds.
    pub fn new(path: &str) -> (r: Result<MetricsDb, UdoError>)
        ensures
            r matches Ok(db) && db.path@ == path@,
    {
        Ok(MetricsDb { path: String::from_str(path) })
    }

    pub fn path(&self) -> (p: &String)
        ensures
            p@ == self.path@,
    {
        &self.path
    }
}

} // verus!
