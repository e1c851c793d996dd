use vstd::prelude::*;
use vstd::string::*;
use vstd::utf8::encode_utf8;
use crate::engine::error::UdoError;
use crate::engine::record::{lemma_array_view, lemma_object_view, Record, Value};
use crate::engine::names::same_name;
use crate::engine::processor::{may_derive, setup_never_fails, DataProcessor};
use crate::engine::schema::Schema;
use sha2::Digest;

verus! {

/// `regex::Regex`, a compiled expression, carried as an opaque value.
#[verifier::external_type_specification]
#[verifier::external_body]
pub struct ExRegex(regex::Regex);

/// `regex::Error`, the failure of a compilation, carried as an opaque value.
#[verifier::external_type_specification]
#[verifier::external_body]
pub struct ExRegexError(regex::Error);

/// Whether `regex::Regex::new` accepts a pattern.
pub uninterp spec fn regex_compiles(pattern: Seq<char>) -> bool;

/// The pattern that a compiled expression was made from: what
/// `regex::Regex::as_str` returns.
pub uninterp spec fn regex_pattern(re: regex::Regex) -> Seq<char>;

/// Whether an expression matches anywhere in a text: what
/// `regex::Regex::is_match` returns.
pub uninterp spec fn regex_is_match(re: regex::Regex, text: Seq<char>) -> bool;

/// The SHA-256 digest of a sequence of bytes, as the `sha2` crate computes
/// it.
pub uninterp spec fn sha256_digest(data: Seq<u8>) -> Seq<u8>;

/// `regex::Regex::new`: compiles a pattern. It succeeds exactly on the
/// patterns named by `regex_compiles`, and the expression it returns is made
/// from the pattern given.
#[verifier::external_body]
fn compile(pattern: &str) -> (r: Result<regex::Regex, regex::Error>)
    ensures
        r is Ok <==> regex_compiles(pattern@),
        r matches Ok(re) ==> regex_pattern(re) == pattern@,
{
    regex::Regex::new(pattern)
}

/// `regex::Regex::as_str`: the pattern the expression was made from.
#[verifier::external_body]
fn pattern_text(re: &regex::Regex) -> (text: String)
    ensures
        text@ == regex_pattern(*re),
{
    re.as_str().to_string()
}

/// `regex::Regex::is_match`: whether the expression matches anywhere in the
/// text. The result is named by the expression and the text.
#[verifier::external_body]
fn is_match(re: &regex::Regex, text: &str) -> (found: bool)
    ensures
        found == regex_is_match(*re, text@),
{
    re.is_match(text)
}

/// The rendering of a `regex::Error`. Nothing is claimed of the text.
#[verifier::external_body]
fn regex_error_text(error: &regex::Error) -> (text: String) {
    error.to_string()
}

/// `sha2::Sha256`: the digest of the bytes given, which has 32 bytes.
#[verifier::external_body]
fn sha256(data: &[u8]) -> (digest: Vec<u8>)
    ensures
        digest@ == sha256_digest(data@),
        digest@.len() == 32,
{
    let mut hasher = sha2::Sha256::new();
    hasher.update(data);
    hasher.finalize().to_vec()
}

/// The lower-case hexadecimal digit of a number below sixteen.
pub open spec fn hex_char(nibble: u8) -> char {
    if nibble < 10 {
        (0x30 + nibble) as char
    } else {
        (0x57 + nibble) as char
    }
}

/// The lower-case hexadecimal rendering of bytes: two digits for each byte,
/// the high half first.
pub open spec fn hex_of(bytes: Seq<u8>) -> Seq<char> {
    Seq::new(
        2 * bytes.len(),
        |i: int|
            if i % 2 == 0 {
                hex_char(bytes[i / 2] / 16)
            } else {
                hex_char(bytes[i / 2] % 16)
            },
    )
}

/// Whether a character is a lower-case hexadecimal digit.
pub open spec fn is_lower_hex(c: char) -> bool {
    (0x30 <= c as u32 <= 0x39) || (0x61 <= c as u32 <= 0x66)
}

/// The hexadecimal rendering of bytes has two characters for each byte, all
/// of them lower-case hexadecimal digits.
pub proof fn lemma_hex_of_is_hex(bytes: Seq<u8>)
    ensures
        hex_of(bytes).len() == 2 * bytes.len(),
        forall|i: int| 0 <= i < 2 * bytes.len() ==> is_lower_hex(#[trigger] hex_of(bytes)[i]),
{
    assert forall|i: int| 0 <= i < 2 * bytes.len() implies is_lower_hex(
        #[trigger] hex_of(bytes)[i],
    ) by {
        let byte = bytes[i / 2];
        let nibble: u8 = if i % 2 == 0 {
            byte / 16
        } else {
            byte % 16
        };
        assert(nibble < 16);
        assert(hex_of(bytes)[i] == hex_char(nibble));
    }
}

/// The pattern by which an e-mail address is recognised.
pub open spec fn email_pattern() -> Seq<char> {
    "(?i)[A-Z0-9._%+-]+@[A-Z0-9.-]+\\.[A-Z]{2,}"@
}

/// What stands in place of a text that holds an e-mail address: in mode
/// `hash` the hexadecimal SHA-256 digest of the text's UTF-8 bytes, in any
/// other mode a fixed mask.
pub open spec fn replacement(mode: Seq<char>, text: Seq<char>) -> Seq<char> {
    if mode == "hash"@ {
        hex_of(sha256_digest(encode_utf8(text)))
    } else {
        "****@masked.com"@
    }
}

/// A value with every string that the expression matches replaced, at any
/// depth of arrays and objects; names of object entries stay as they are.
pub open spec fn masked(re: regex::Regex, mode: Seq<char>, value: Value) -> Value
    decreases value,
{
    match value {
        Value::Utf8(text) => if regex_is_match(re, text) {
            Value::Utf8(replacement(mode, text))
        } else {
            value
        },
        Value::Array(items) => Value::Array(
            Seq::new(
                items.len(),
                |i: int|
                    if 0 <= i < items.len() {
                        masked(re, mode, items[i])
                    } else {
                        Value::Null
                    },
            ),
        ),
        Value::Object(entries) => Value::Object(
            Seq::new(
                entries.len(),
                |i: int|
                    if 0 <= i < entries.len() {
                        (entries[i].0, masked(re, mode, entries[i].1))
                    } else {
                        (Seq::empty(), Value::Null)
                    },
            ),
        ),
        _ => value,
    }
}

/// A masked array is the array of its masked items.
pub proof fn lemma_masked_array(re: regex::Regex, mode: Seq<char>, items: Seq<Value>)
    ensures
        masked(re, mode, Value::Array(items)) is Array,
        masked(re, mode, Value::Array(items))->Array_0.len() == items.len(),
        forall|j: int|
            0 <= j < items.len() ==> masked(re, mode, Value::Array(items))->Array_0[j]
                == masked(re, mode, #[trigger] items[j]),
{
    reveal_with_fuel(masked, 2);
}

/// A masked object has the entries of the object, each with its name and its
/// masked value.
pub proof fn lemma_masked_object(
    re: regex::Regex,
    mode: Seq<char>,
    entries: Seq<(Seq<char>, Value)>,
)
    ensures
        masked(re, mode, Value::Object(entries)) is Object,
        masked(re, mode, Value::Object(entries))->Object_0.len() == entries.len(),
        forall|j: int|
            0 <= j < entries.len() ==> masked(re, mode, Value::Object(entries))->Object_0[j]
                == ((#[trigger] entries[j]).0, masked(re, mode, entries[j].1)),
{
    reveal_with_fuel(masked, 2);
}

/// The lower-case hexadecimal digit of a number below sixteen, as a string.
fn hex_digit(nibble: u8) -> (digit: &'static str)
    requires
        nibble < 16,
    ensures
        digit@ == seq![hex_char(nibble)],
{
    proof {
        reveal_strlit("0");
        reveal_strlit("1");
        reveal_strlit("2");
        reveal_strlit("3");
        reveal_strlit("4");
        reveal_strlit("5");
        reveal_strlit("6");
        reveal_strlit("7");
        reveal_strlit("8");
        reveal_strlit("9");
        reveal_strlit("a");
        reveal_strlit("b");
        reveal_strlit("c");
        reveal_strlit("d");
        reveal_strlit("e");
        reveal_strlit("f");
    }
    let digit = match nibble {
        0 => "0",
        1 => "1",
        2 => "2",
        3 => "3",
        4 => "4",
        5 => "5",
        6 => "6",
        7 => "7",
        8 => "8",
        9 => "9",
        10 => "a",
        11 => "b",
        12 => "c",
        13 => "d",
        14 => "e",
        _ => "f",
    };
    assert(digit@ =~= seq![hex_char(nibble)]);
    digit
}

/// Renders bytes in lower-case hexadecimal.
pub fn to_hex(bytes: &[u8]) -> (text: String)
    ensures
        text@ == hex_of(bytes@),
{
    let mut text = String::new();
    let mut i: usize = 0;
    assert(text@ =~= hex_of(bytes@.take(0)));
    while i < bytes.len()
        invariant
            i <= bytes@.len(),
            text@ == hex_of(bytes@.take(i as int)),
        decreases bytes.len() - i,
    {
        let byte = bytes[i];
        let ghost before = text@;
        text.append(hex_digit(byte / 16));
        text.append(hex_digit(byte % 16));
        proof {
            let next = hex_of(bytes@.take(i + 1));
            assert(text@.len() == next.len());
            assert forall|k: int| 0 <= k < next.len() implies text@[k] == next[k] by {
                if k < 2 * i {
                    assert(text@[k] == before[k]);
                    assert(bytes@.take(i as int)[k / 2] == bytes@.take(i + 1)[k / 2]);
                } else {
                    assert(bytes@.take(i + 1)[k / 2] == byte);
                }
            }
            assert(text@ =~= next);
        }
        i += 1;
    }
    assert(bytes@.take(i as int) =~= bytes@);
    text
}

/// Masks e-mail addresses in the strings of a record.
pub struct PiiMasker {
    email_regex: regex::Regex,
    mask_mode: String,
}

impl PiiMasker {
    /// The mode of the masker: `hash` replaces by a digest, any other mode by
    /// a fixed mask.
    pub closed spec fn mode(&self) -> Seq<char> {
        self.mask_mode@
    }

    /// The expression that the masker matches strings against.
    pub closed spec fn expression(&self) -> regex::Regex {
        self.email_regex
    }

    /// The pattern of the expression that the masker holds.
    pub open spec fn pattern(&self) -> Seq<char> {
        regex_pattern(self.expression())
    }

    /// The masker recognises e-mail addresses.
    pub open spec fn well_formed(&self) -> bool {
        self.pattern() == email_pattern()
    }

    /// A masker of the given mode. It fails with a `Config` error exactly
    /// where the pattern of e-mail addresses does not compile.
    pub fn new(mask_mode: &str) -> (r: Result<PiiMasker, UdoError>)
        ensures
            r is Ok <==> regex_compiles(email_pattern()),
            r matches Ok(masker) ==> masker.well_formed() && masker.mode() == mask_mode@,
            r matches Err(e) ==> e is Config,
    {
        match compile("(?i)[A-Z0-9._%+-]+@[A-Z0-9.-]+\\.[A-Z]{2,}") {
            Ok(email_regex) => Ok(PiiMasker { email_regex, mask_mode: String::from_str(mask_mode) }),
            Err(e) => {
                let text = regex_error_text(&e);
                Err(UdoError::Config(String::from_str("Invalid regex: ").concat(text.as_str())))
            },
        }
    }

    /// The pattern that the masker matches strings against.
    pub fn pattern_source(&self) -> (text: String)
        ensures
            text@ == self.pattern(),
    {
        pattern_text(&self.email_regex)
    }

    /// What stands in place of a text that holds an e-mail address. In mode
    /// `hash` it has 64 characters, each a lower-case hexadecimal digit.
    pub fn mask_text(&self, text: &str) -> (out: String)
        ensures
            out@ == replacement(self.mode(), text@),
            self.mode() == "hash"@ ==> out@.len() == 64 && forall|i: int|
                0 <= i < 64 ==> is_lower_hex(#[trigger] out@[i]),
    {
        if same_name(self.mask_mode.as_str(), "hash") {
            let digest = sha256(text.as_bytes());
            proof {
                lemma_hex_of_is_hex(digest@);
            }
            to_hex(digest.as_slice())
        } else {
            String::from_str("****@masked.com")
        }
    }

    /// The record with every string that holds an e-mail address replaced,
    /// at any depth.
    pub fn mask_value(&self, value: &Record) -> (out: Record)
        ensures
            out@ == masked(self.expression(), self.mode(), value@),
        decreases value,
    {
        match value {
            Record::Utf8(text) => {
                if is_match(&self.email_regex, text.as_str()) {
                    Record::Utf8(self.mask_text(text.as_str()))
                } else {
                    Record::Utf8(text.clone())
                }
            },
            Record::Array(items) => {
                let mut out: Vec<Record> = Vec::new();
                let mut i: usize = 0;
                proof {
                    lemma_array_view(*items);
                    lemma_masked_array(self.expression(), self.mode(), value@->Array_0);
                }
                while i < items.len()
                    invariant
                        i <= items@.len(),
                        out@.len() == i,
                        decreases_to!(*value => *items),
                        forall|j: int|
                            0 <= j < i ==> (#[trigger] out@[j])@ == masked(self.expression(),
                                self.mode(),
                                items@[j]@,
                            ),
                    decreases items.len() - i,
                {
                    proof {
                        vstd::std_specs::vec::axiom_vec_index_decreases(*items, i as int);
                    }
                    out.push(self.mask_value(&items[i]));
                    i += 1;
                }
                let result = Record::Array(out);
                proof {
                    lemma_array_view(out);
                    assert(result@->Array_0 =~= masked(self.expression(),
                        self.mode(),
                        value@,
                    )->Array_0);
                }
                result
            },
            Record::Object(entries) => {
                let mut out: Vec<(String, Record)> = Vec::new();
                let mut i: usize = 0;
                proof {
                    lemma_object_view(*entries);
                    lemma_masked_object(self.expression(), self.mode(), value@->Object_0);
                }
                while i < entries.len()
                    invariant
                        i <= entries@.len(),
                        out@.len() == i,
                        decreases_to!(*value => *entries),
                        forall|j: int|
                            0 <= j < i ==> (#[trigger] out@[j]).0@ == entries@[j].0@ && out@[j].1@
                                == masked(self.expression(), self.mode(), entries@[j].1@),
                    decreases entries.len() - i,
                {
                    proof {
                        vstd::std_specs::vec::axiom_vec_index_decreases(*entries, i as int);
                    }
                    out.push((entries[i].0.clone(), self.mask_value(&entries[i].1)));
                    i += 1;
                }
                let result = Record::Object(out);
                proof {
                    lemma_object_view(out);
                    assert(result@->Object_0 =~= masked(self.expression(),
                        self.mode(),
                        value@,
                    )->Object_0);
                }
                result
            },
            Record::Null => Record::Null,
            Record::Bool(b) => Record::Bool(*b),
            Record::I64(n) => Record::I64(*n),
            Record::U64(n) => Record::U64(*n),
            Record::F64(bits) => Record::F64(*bits),
        }
    }
}

impl DataProcessor for PiiMasker {
    /// A masker forwards every record, masked, and fails on none.
    open spec fn yields(&self, record: Record, result: Result<Option<Record>, UdoError>) -> bool {
        result matches Ok(Some(out)) && out@ == masked(self.expression(), self.mode(), record@)
    }

    fn process(&self, record: Record) -> (r: Result<Option<Record>, UdoError>) {
        Ok(Some(self.mask_value(&record)))
    }

}

/// Maskers never fail to derive a schema: a chain of them leaves every schema
/// as it is.
pub proof fn lemma_maskers_never_fail(maskers: Seq<PiiMasker>)
    ensures
        setup_never_fails(maskers),
{
    assert forall|i: int, schema: Schema, result: Result<Schema, UdoError>|
        0 <= i < maskers.len() && #[trigger] may_derive(maskers[i], schema, result) implies result
        is Ok by {}
}

} // verus!
