use udo::engine::record::Record;
use udo::engine::processor::DataProcessor;
use udo::processors::pii::{to_hex, PiiMasker};

fn object(entries: Vec<(&str, Record)>) -> Record {
    Record::Object(entries.into_iter().map(|(k, v)| (k.to_string(), v)).collect())
}

fn text(s: &str) -> Record {
    Record::Utf8(s.to_string())
}

fn as_str(r: &Record) -> Option<&str> {
    match r {
        Record::Utf8(s) => Some(s.as_str()),
        _ => None,
    }
}

#[test]
fn test_pii_masking() {
    let masker = PiiMasker::new("mask").expect("Failed to create PiiMasker");

    let record = object(vec![("email", text("test@example.com")), ("name", text("John"))]);

    let processed = masker.process(record).unwrap().unwrap();

    assert_eq!(as_str(processed.get("email").unwrap()).unwrap(), "****@masked.com");
    assert_eq!(as_str(processed.get("name").unwrap()).unwrap(), "John");
}

#[test]
fn test_pii_hashing() {
    let masker = PiiMasker::new("hash").expect("Failed to create PiiMasker");

    let record = object(vec![("email", text("test@example.com"))]);

    let processed = masker.process(record).unwrap().unwrap();

    let hashed = as_str(processed.get("email").unwrap()).unwrap();
    assert_ne!(hashed, "test@example.com");
    assert_eq!(hashed.len(), 64); // SHA-256 hex length
    assert!(hashed.chars().all(|c| matches!(c, '0'..='9' | 'a'..='f')));
    assert_eq!(hashed, "973dfe463ec85785f5f95af5ba3906eedb2d931c24e69824a89ea65dba4e813b");
}

#[test]
fn masking_reaches_into_arrays_and_objects() {
    let masker = PiiMasker::new("mask").unwrap();
    let record = object(vec![
        ("contacts", Record::Array(vec![text("a@b.io"), text("nobody"), Record::I64(3)])),
        ("owner", object(vec![("mail", text("Write to X@Y.ORG today")), ("age", Record::U64(4))])),
        ("flag", Record::Bool(true)),
        ("none", Record::Null),
        ("x", Record::F64(1.5f64.to_bits())),
    ]);
    let out = masker.mask_value(&record);
    assert_eq!(
        out,
        object(vec![
            (
                "contacts",
                Record::Array(vec![text("****@masked.com"), text("nobody"), Record::I64(3)])
            ),
            ("owner", object(vec![("mail", text("****@masked.com")), ("age", Record::U64(4))])),
            ("flag", Record::Bool(true)),
            ("none", Record::Null),
            ("x", Record::F64(1.5f64.to_bits())),
        ])
    );
}

#[test]
fn any_mode_but_hash_masks() {
    let masker = PiiMasker::new("none").unwrap();
    assert_eq!(masker.mask_text("test@example.com"), "****@masked.com");
    let masker = PiiMasker::new("HASH").unwrap();
    assert_eq!(masker.mask_text("test@example.com"), "****@masked.com");
}

#[test]
fn hash_mode_gives_the_digest_in_hex() {
    let masker = PiiMasker::new("hash").unwrap();
    assert_eq!(
        masker.mask_text("abc"),
        "ba7816bf8f01cfea414140de5dae2223b00361a396177a9cb410ff61f20015ad"
    );
}

#[test]
fn masker_holds_the_pattern_of_addresses() {
    let masker = PiiMasker::new("mask").unwrap();
    assert_eq!(masker.pattern_source(), r"(?i)[A-Z0-9._%+-]+@[A-Z0-9.-]+\.[A-Z]{2,}");
}

#[test]
fn hex_renders_two_digits_for_each_byte() {
    assert_eq!(to_hex(&[]), "");
    assert_eq!(to_hex(&[0x00, 0x0f, 0xa0, 0xff, 0x9c]), "000fa0ff9c");
}
