use vstd::prelude::*;
use crate::engine::error::UdoError;
use crate::engine::record::{same_content, Record};
use crate::utils::json::{json_document, json_parses, parse_json};

verus! {

/// A source over lines held in memory, each of them one JSON document. A
/// line that does not parse is skipped.
#[derive(Debug)]
pub struct LineSource {
    pub lines: Vec<Vec<u8>>,
    pub next: usize,
}

/// The position of the first line that parses, from a position on; the
/// number of lines where none does.
pub open spec fn next_valid(lines: Seq<Vec<u8>>, from: int) -> int
    decreases lines.len() - from,
{
    if from < 0 || from >= lines.len() {
        lines.len() as int
    } else if json_parses(lines[from]@) {
        from
    } else {
        next_valid(lines, from + 1)
    }
}

impl LineSource {
    /// A source at its first line.
    pub fn new(lines: Vec<Vec<u8>>) -> (source: LineSource)
        ensures
            source.lines == lines,
            source.next == 0,
    {
        LineSource { lines, next: 0 }
    }

    /// The next record: the document of the first line, from the current one
    /// on, that parses, but for the order of the entries of its objects; the
    /// source then stands behind that line. `None` at the end of the lines.
    /// It never fails.
    pub fn next_record(&mut self) -> (r: Result<Option<Record>, UdoError>)
        ensures
            final(self).lines == old(self).lines,
            old(self).next <= final(self).next,
            old(self).next <= old(self).lines@.len() ==> final(self).next <= old(self).lines@.len(),
            r is Ok,
            r.unwrap() is Some ==> old(self).next < final(self).next,
            r.unwrap() matches Some(record) ==> same_content(
                record@,
                json_document(
                    old(self).lines@[next_valid(old(self).lines@, old(self).next as int)]@,
                )->Some_0,
            ),
            r.unwrap() is Some <==> next_valid(old(self).lines@, old(self).next as int) < old(
                self,
            ).lines@.len(),
            final(self).next == if r.unwrap() is Some {
                next_valid(old(self).lines@, old(self).next as int) + 1
            } else if old(self).next <= old(self).lines@.len() {
                old(self).lines@.len() as int
            } else {
                old(self).next as int
            },
    {
        while self.next < self.lines.len()
            invariant
                self.lines == old(self).lines,
                old(self).next <= self.next,
                old(self).next <= self.lines@.len() ==> self.next <= self.lines@.len(),
                old(self).next > self.lines@.len() ==> self.next == old(self).next,
                next_valid(old(self).lines@, old(self).next as int) == next_valid(
                    self.lines@,
                    self.next as int,
                ),
            decreases self.lines.len() - self.next,
        {
            let parsed = parse_json(self.lines[self.next].as_slice());
            self.next = self.next + 1;
            match parsed {
                Ok(record) => {
                    return Ok(Some(record));
                },
                Err(_) => {},
            }
        }
        Ok(None)
    }
}

} // verus!
