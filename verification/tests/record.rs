use pica_record::primitives::RecordRef;
use pica_record::{ByteRecord, StringRecord};

fn hex(bytes: &[u8]) -> String {
    bytes.iter().map(|b| format!("{b:02x}")).collect()
}

#[test]
fn byte_record_from_bytes() {
    let record = ByteRecord::from_bytes(b"003@ \x1f0abc\x1e\n").unwrap();
    assert_eq!(record.record().fields().len(), 1);
    assert!(ByteRecord::from_bytes(b"003@ \x1f0abc\x1e").is_err());
    assert!(ByteRecord::from_bytes(b"").is_err());
}

#[test]
fn byte_record_write_to() {
    let mut out = Vec::new();
    let record = ByteRecord::from_bytes(b"003@ \x1f0a\x1e\n").unwrap();
    record.write_to(&mut out);
    assert_eq!(String::from_utf8(out).unwrap(), "003@ \x1f0a\x1e\n");
}

#[test]
fn byte_record_retain() {
    let mut record = ByteRecord::from_bytes(b"003@ \x1f0a\x1e002@ \x1f0Olfo\x1e\n").unwrap();
    record.retain(|field| field.tag().as_bytes() == b"003@");
    assert_eq!(record.record().fields().len(), 1);
    assert_eq!(record.to_bytes(), b"003@ \x1f0a\x1e\n".to_vec());
}

#[test]
fn byte_record_sha256() {
    let record = ByteRecord::from_bytes(b"012A \x1fa123\x1e\n").unwrap();
    let hash = hex(&record.sha256());
    assert!(hash.starts_with("95e266"));
    assert_eq!(hash.len(), 64);
}

#[test]
fn byte_record_from_record_writes_the_same_bytes() {
    let record1 = ByteRecord::from_bytes(b"012A \x1fa123\x1e\n").unwrap();
    let record2 = ByteRecord::from_record(RecordRef::new(vec![("012A", None, vec![('a', "123")])]).unwrap());
    assert_eq!(record1.to_bytes(), record2.to_bytes());
    assert_eq!(record1.sha256(), record2.sha256());
}

#[test]
fn string_record_try_from() {
    let record = ByteRecord::from_bytes(b"012A \x1fa123\x1e\n").unwrap();
    let record = StringRecord::try_from(record).unwrap();
    assert_eq!(record.byte_record().record().fields().len(), 1);

    let record = ByteRecord::from_bytes(b"002@ \x1f0Abvz\xff\xfd\x1e\n").unwrap();
    assert!(record.validate().is_err());
    assert!(StringRecord::try_from(record).is_err());
}

#[test]
fn byte_records_compare_by_their_bytes() {
    let record1 = ByteRecord::from_bytes(b"012A \x1fa123\x1e\n").unwrap();
    let record2 = ByteRecord::from_record(RecordRef::new(vec![("012A", None, vec![('a', "123")])]).unwrap());
    assert!(record1 == record2);
    let record3 = ByteRecord::from_bytes(b"012A \x1fa124\x1e\n").unwrap();
    assert!(record1 != record3);
}
