use lolbench::collector::{decode_body, encode_body, Collector, Record, StoredRecord};
use lolbench::error::Error;

fn stored(t: &str, b: &str, body: &[u8]) -> StoredRecord {
    StoredRecord { toolchain: t.to_string(), benchmark: b.to_string(), body: body.to_vec() }
}

fn record(t: &str, b: &str, success: bool, payload: &[u8]) -> Record {
    Record { toolchain: t.to_string(), benchmark: b.to_string(), success, payload: payload.to_vec() }
}

#[test]
fn body_encoding() {
    assert_eq!(encode_body(true, &b"12ns".to_vec()), b"ok\n12ns".to_vec());
    assert_eq!(encode_body(false, &Vec::new()), b"failed\n".to_vec());
    assert_eq!(decode_body(&b"ok\n12ns".to_vec()), Some((true, b"12ns".to_vec())));
    assert_eq!(decode_body(&b"failed\nboom".to_vec()), Some((false, b"boom".to_vec())));
    assert_eq!(decode_body(&b"ok".to_vec()), None);
    assert_eq!(decode_body(&b"maybe\n".to_vec()), None);
    assert_eq!(decode_body(&Vec::new()), None);
}

#[test]
fn body_round_trip() {
    for (s, p) in [(true, b"".to_vec()), (false, b"x\ny".to_vec()), (true, b"failed\n".to_vec())] {
        assert_eq!(decode_body(&encode_body(s, &p)), Some((s, p)));
    }
}

#[test]
fn rehydrate_empty_store() {
    let c = Collector::rehydrate(&Vec::new()).unwrap();
    assert!(c.records().is_empty());
    assert!(!c.is_recorded(&"stable".to_string(), &"a".to_string()));
}

#[test]
fn rehydrate_twice_gives_same_keys() {
    let s = vec![stored("stable", "a", b"ok\n1"), stored("nightly-2024-01-01", "b", b"failed\n")];
    let one = Collector::rehydrate(&s).unwrap();
    let two = Collector::rehydrate(&s).unwrap();
    for (t, b) in [("stable", "a"), ("nightly-2024-01-01", "b"), ("stable", "b"), ("beta", "a")] {
        let (t, b) = (t.to_string(), b.to_string());
        assert_eq!(one.is_recorded(&t, &b), two.is_recorded(&t, &b));
    }
    assert!(one.is_recorded(&"stable".to_string(), &"a".to_string()));
    assert!(!one.is_recorded(&"stable".to_string(), &"b".to_string()));
    assert_eq!(one.records().len(), 2);
}

#[test]
fn rehydrate_rejects_unreadable_body() {
    let s = vec![stored("stable", "a", b"ok\n1"), stored("stable", "b", b"garbage")];
    assert_eq!(Collector::rehydrate(&s).err(), Some(Error::StoreCorrupt));
}

#[test]
fn recorded_key_is_never_replaced() {
    let mut c = Collector::new();
    assert!(c.record(record("stable", "a", true, b"first")));
    assert!(!c.record(record("stable", "a", false, b"second")));
    assert!(c.record(record("beta", "a", true, b"other")));
    assert_eq!(c.records().len(), 2);
    assert_eq!(c.records()[0].payload, b"first".to_vec());
    assert!(c.records()[0].success);
}
