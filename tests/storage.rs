use goosekv::data_type::{GInteger, GString};
use goosekv::processor::increment;
use goosekv::storage::Storage;
use goosekv::value::{Data, Value};

fn text(s: &[u8]) -> Value {
    Value { data: Data::String(GString::copy_from_slice(s)) }
}

fn bytes_of(v: &Option<Value>) -> Option<Vec<u8>> {
    v.as_ref().map(|v| v.data.bytes().to_vec())
}

#[test]
fn get_after_set() {
    let mut storage = Storage::new();
    let key = GString::copy_from_slice(b"k");
    assert!(storage.set(key.clone(), text(b"v1")).is_none());
    assert_eq!(bytes_of(&storage.get(&key)), Some(b"v1".to_vec()));
    assert_eq!(bytes_of(&storage.set(key.clone(), text(b"v2"))), Some(b"v1".to_vec()));
    assert_eq!(bytes_of(&storage.get(&key)), Some(b"v2".to_vec()));
}

#[test]
fn delete_absent_and_present() {
    let mut storage = Storage::new();
    let key = GString::copy_from_slice(b"gone");
    assert!(storage.delete(&key).is_none());
    storage.set(key.clone(), text(b"first"));
    storage.set(key.clone(), text(b"last"));
    assert_eq!(bytes_of(&storage.delete(&key)), Some(b"last".to_vec()));
    assert!(storage.get(&key).is_none());
    assert!(storage.delete(&key).is_none());
}

#[test]
fn many_keys_stay_apart() {
    let mut storage = Storage::new();
    for i in 0..300u32 {
        let key = GString::copy_from_slice(format!("key{}", i).as_bytes());
        storage.set(key, text(format!("value{}", i).as_bytes()));
    }
    for i in (0..300u32).step_by(2) {
        let key = GString::copy_from_slice(format!("key{}", i).as_bytes());
        assert!(storage.delete(&key).is_some());
    }
    for i in 0..300u32 {
        let key = GString::copy_from_slice(format!("key{}", i).as_bytes());
        let found = bytes_of(&storage.get(&key));
        if i % 2 == 0 {
            assert!(found.is_none());
        } else {
            assert_eq!(found, Some(format!("value{}", i).into_bytes()));
        }
    }
}

#[test]
fn update_with_increment() {
    let mut storage = Storage::new();
    let key = GString::copy_from_slice(b"counter");
    let first = storage.update(key.clone(), increment);
    assert!(first.original_value.is_none());
    assert_eq!(bytes_of(&first.updated), Some(b"1".to_vec()));
    let second = storage.update(key.clone(), increment);
    assert_eq!(bytes_of(&second.original_value), Some(b"1".to_vec()));
    assert_eq!(bytes_of(&second.updated), Some(b"2".to_vec()));
}

#[test]
fn update_to_none_removes() {
    let mut storage = Storage::new();
    let key = GString::copy_from_slice(b"k");
    storage.set(key.clone(), text(b"x"));
    let response = storage.update(key.clone(), |_current: Option<Value>| None);
    assert_eq!(bytes_of(&response.original_value), Some(b"x".to_vec()));
    assert!(response.updated.is_none());
    assert!(storage.get(&key).is_none());
}

#[test]
fn classify_written_bytes() {
    assert!(matches!(Data::from_gstring(GString::copy_from_slice(b"-15")), Data::Integer(n) if n.get() == -15));
    assert!(matches!(Data::from_gstring(GString::copy_from_slice(b"15x")), Data::String(_)));
    assert!(matches!(Data::from_gstring(GString::copy_from_slice(b"")), Data::String(_)));
    assert!(matches!(
        Data::from_gstring(GString::copy_from_slice(b"9223372036854775808")),
        Data::String(_)
    ));
    assert_eq!(Data::Integer(GInteger::new(-3)).to_gstring().as_slice(), b"-3");
}

#[test]
fn increment_function() {
    let max = Value { data: Data::Integer(GInteger::new(i64::MAX)) };
    assert!(matches!(increment(Some(max)), Some(Value { data: Data::Integer(n) }) if n.get() == i64::MAX));
    assert!(matches!(increment(None), Some(Value { data: Data::Integer(n) }) if n.get() == 1));
    assert!(matches!(increment(Some(text(b"a"))), Some(Value { data: Data::String(s) }) if s.as_slice() == b"a"));
}
