//! The byte-keyed duplicate-sorted store, the key encoding, and the ordering
//! guarantees of the store layer.

use rkv::backend::impl_safe::{DatabaseFlagsImpl, EnvironmentImpl};
use rkv::backend::traits::BackendEnvironment;
use rkv::error::StoreError;
use rkv::order::{lex_compare, BytesOrder};
use rkv::readwrite::{Reader, Readable, Writer};
use rkv::store::keys::PrimitiveInt;
use rkv::store::multi::MultiStore;
use rkv::store::single::SingleStore;
use rkv::value::Value;

fn dup_flags() -> DatabaseFlagsImpl {
    DatabaseFlagsImpl { dup_sort: true, integer_key: false }
}

#[test]
fn u32_key_encoding_round_trips_and_preserves_order() {
    // encode(a) is lexicographically below encode(b) exactly when a < b, and
    // decoding inverts encoding
    let samples: Vec<u32> = vec![0, 1, 2, 255, 256, 65535, 65536, 1 << 24, u32::MAX - 1, u32::MAX];
    for &a in &samples {
        let ea = a.encode_key();
        assert_eq!(ea.len(), 4);
        assert_eq!(<u32 as PrimitiveInt>::decode_key(&ea), Some(a));
        for &b in &samples {
            let eb = b.encode_key();
            let expected = if a < b {
                BytesOrder::Less
            } else if a == b {
                BytesOrder::Equal
            } else {
                BytesOrder::Greater
            };
            assert_eq!(lex_compare(&ea, &eb), expected);
        }
    }
}

#[test]
fn u32_key_decoding_rejects_wrong_width() {
    assert_eq!(<u32 as PrimitiveInt>::decode_key(&[1, 2, 3]), None);
    assert_eq!(<u32 as PrimitiveInt>::decode_key(&[1, 2, 3, 4, 5]), None);
    assert_eq!(<u32 as PrimitiveInt>::decode_key(&[]), None);
    assert_eq!(<u32 as PrimitiveInt>::decode_key(&[0, 0, 1, 0]), Some(256));
}

#[test]
fn get_first_returns_smallest_value() {
    // the first value of a duplicate run is the lowest by encoded bytes, not
    // the first inserted
    let mut env = EnvironmentImpl::new();
    let db = env.create_db(Some("s"), dup_flags()).expect("open");
    let s = MultiStore::new(db);

    let mut writer = Writer::new(env.begin_rw_txn().expect("writer"));
    s.put(&mut writer, b"k", &Value::Blob(vec![9])).expect("write");
    s.put(&mut writer, b"k", &Value::Blob(vec![3])).expect("write");
    s.put(&mut writer, b"k", &Value::Blob(vec![7])).expect("write");
    assert_eq!(
        s.get_first(&writer, b"k").expect("read"),
        Some(Value::Blob(vec![3]))
    );
}

#[test]
fn get_key_value_checks_exact_pair() {
    let mut env = EnvironmentImpl::new();
    let db = env.create_db(Some("s"), dup_flags()).expect("open");
    let s = MultiStore::new(db);

    let mut writer = Writer::new(env.begin_rw_txn().expect("writer"));
    s.put(&mut writer, b"k", &Value::U64(1)).expect("write");
    s.put(&mut writer, b"k", &Value::U64(2)).expect("write");
    assert!(s.get_key_value(&writer, b"k", &Value::U64(1)).expect("read"));
    assert!(s.get_key_value(&writer, b"k", &Value::U64(2)).expect("read"));
    assert!(!s.get_key_value(&writer, b"k", &Value::U64(3)).expect("read"));
    assert!(!s.get_key_value(&writer, b"x", &Value::U64(1)).expect("read"));
}

#[test]
fn iter_start_walks_keys_then_values_ascending() {
    let mut env = EnvironmentImpl::new();
    let db = env.create_db(Some("s"), dup_flags()).expect("open");
    let s = MultiStore::new(db);

    let mut writer = Writer::new(env.begin_rw_txn().expect("writer"));
    s.put(&mut writer, b"b", &Value::U64(1)).expect("write");
    s.put(&mut writer, b"a", &Value::U64(2)).expect("write");
    s.put(&mut writer, b"a", &Value::U64(1)).expect("write");
    let env2 = writer.commit().expect("committed");

    let reader = Reader::new(env2.begin_ro_txn().expect("reader"));
    let mut iter = s.iter_start(&reader).expect("read");
    let first = iter.next().expect("first").expect("ok");
    assert_eq!((first.0.as_slice(), first.1), (b"a".as_slice(), Value::U64(1)));
    let second = iter.next().expect("second").expect("ok");
    assert_eq!((second.0.as_slice(), second.1), (b"a".as_slice(), Value::U64(2)));
    let third = iter.next().expect("third").expect("ok");
    assert_eq!((third.0.as_slice(), third.1), (b"b".as_slice(), Value::U64(1)));
    assert!(iter.next().is_none());
}

#[test]
fn delete_absent_pair_is_not_found_and_changes_nothing() {
    let mut env = EnvironmentImpl::new();
    let db = env.create_db(Some("s"), dup_flags()).expect("open");
    let s = MultiStore::new(db);

    let mut writer = Writer::new(env.begin_rw_txn().expect("writer"));
    s.put(&mut writer, b"k", &Value::Str(String::from("hello!")))
        .expect("write");
    s.put(&mut writer, b"k", &Value::Str(String::from("hello1!")))
        .expect("write");

    let err = s
        .delete(&mut writer, b"k", &Value::Str(String::from("not-present")))
        .expect_err("deleted");
    assert!(matches!(err, StoreError::NotFound { .. }));

    let mut iter = s.get(&writer, b"k").expect("read");
    assert_eq!(
        iter.next().expect("first").expect("ok").1,
        Value::Str(String::from("hello!"))
    );
    assert_eq!(
        iter.next().expect("second").expect("ok").1,
        Value::Str(String::from("hello1!"))
    );
    assert!(iter.next().is_none());
}

#[test]
fn plain_database_overwrites() {
    // a database created without the duplicate-sorted shape keeps one value
    // per key: put overwrites
    let mut env = EnvironmentImpl::new();
    let plain = DatabaseFlagsImpl { dup_sort: false, integer_key: false };
    let db = env.create_db(Some("p"), plain).expect("open");
    let s = MultiStore::new(db);

    let mut writer = Writer::new(env.begin_rw_txn().expect("writer"));
    s.put(&mut writer, b"k", &Value::U64(1)).expect("write");
    s.put(&mut writer, b"k", &Value::U64(2)).expect("write");
    assert_eq!(s.get_first(&writer, b"k").expect("read"), Some(Value::U64(2)));
    let mut iter = s.get(&writer, b"k").expect("read");
    assert_eq!(iter.next().expect("first").expect("ok").1, Value::U64(2));
    assert!(iter.next().is_none());
}

#[test]
fn open_db_distinguishes_missing_database() {
    let mut env = EnvironmentImpl::new();
    let _ = env.create_db(Some("present"), dup_flags()).expect("open");
    let err = env.open_db(Some("missing")).expect_err("open");
    assert!(matches!(err, rkv::backend::impl_safe::ErrorImpl::DbAbsent));
    let found = env.open_db(Some("present")).expect("open");
    let again = env.create_db(Some("present"), dup_flags()).expect("open");
    assert_eq!(found, again);
}

#[test]
fn readers_see_a_snapshot() {
    // a reader begun before a commit keeps seeing the state at its start
    let mut env = EnvironmentImpl::new();
    let db = env.create_db(Some("s"), dup_flags()).expect("open");
    let s = MultiStore::new(db);

    let mut writer = Writer::new(env.begin_rw_txn().expect("writer"));
    s.put(&mut writer, b"k", &Value::U64(1)).expect("write");
    env = writer.commit().expect("committed");

    let reader_before = Reader::new(env.begin_ro_txn().expect("reader"));
    let mut writer = Writer::new(env.begin_rw_txn().expect("writer"));
    s.put(&mut writer, b"k", &Value::U64(2)).expect("write");
    let env2 = writer.commit().expect("committed");

    assert_eq!(
        s.get_first(&reader_before, b"k").expect("read"),
        Some(Value::U64(1))
    );
    let reader_after = Reader::new(env2.begin_ro_txn().expect("reader"));
    let mut iter = s.get(&reader_after, b"k").expect("read");
    assert_eq!(iter.next().expect("first").expect("ok").1, Value::U64(1));
    assert_eq!(iter.next().expect("second").expect("ok").1, Value::U64(2));
    assert!(iter.next().is_none());
}

#[test]
fn single_store_overwrites_and_deletes() {
    let mut env = EnvironmentImpl::new();
    let plain = DatabaseFlagsImpl { dup_sort: false, integer_key: false };
    let db = env.create_db(Some("cfg"), plain).expect("open");
    let s = SingleStore::new(db);

    let mut writer = Writer::new(env.begin_rw_txn().expect("writer"));
    s.put(&mut writer, b"mode", &Value::Str(String::from("on"))).expect("write");
    s.put(&mut writer, b"mode", &Value::Str(String::from("off"))).expect("write");
    s.put(&mut writer, b"level", &Value::U64(3)).expect("write");
    assert_eq!(
        s.get(&writer, b"mode").expect("read"),
        Some(Value::Str(String::from("off")))
    );

    // deleting an absent key is an error; the present key goes quietly
    let err = s.delete(&mut writer, b"missing").expect_err("deleted");
    assert!(matches!(err, StoreError::NotFound { .. }));
    s.delete(&mut writer, b"mode").expect("deleted");
    assert_eq!(s.get(&writer, b"mode").expect("read"), None);

    s.clear(&mut writer).expect("cleared");
    assert_eq!(s.get(&writer, b"level").expect("read"), None);
    let mut iter = s.iter_start(&writer).expect("read");
    assert!(iter.next().is_none());
}

#[test]
fn foreign_handle_is_a_backend_failure() {
    // a handle that names no database of this environment is an engine
    // failure, not a missing key
    let env = EnvironmentImpl::new();
    let bogus = rkv::backend::impl_safe::DatabaseImpl { id: 7 };
    let s = MultiStore::new(bogus);
    let reader = Reader::new(env.begin_ro_txn().expect("reader"));
    let err = s.get_first(&reader, b"k").expect_err("read");
    assert!(matches!(err, StoreError::BackendFailure));
}
