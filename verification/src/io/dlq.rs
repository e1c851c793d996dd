use vstd::prelude::*;
use vstd::string::*;

verus! {

/// The line that tells of one dead letter: the reason and the record, the
/// record as the JSON text given.
pub open spec fn dead_letter_text(reason: Seq<char>, record_json: Seq<char>) -> Seq<char> {
    "{\"error\": \""@ + reason + "\", \"record\": "@ + record_json + "}"@
}

/// Makes the line that tells of one dead letter.
pub fn dead_letter_line(reason: &str, record_json: &str) -> (line: String)
    ensures
        line@ == dead_letter_text(reason@, record_json@),
{
    let mut line = String::from_str("{\"error\": \"");
    line.append(reason);
    line.append("\", \"record\": ");
    line.append(record_json);
    line.append("}");
    line
}

} // verus!
