//! Scenario tests of the integer-keyed duplicate-sorted store over the
//! in-memory engine.

use rkv::backend::impl_safe::{DatabaseFlagsImpl, EnvironmentImpl, WriteFlagsImpl};
use rkv::backend::traits::BackendEnvironment;
use rkv::readwrite::{Reader, Readable, Writer};
use rkv::store::integermulti::MultiIntegerStore;
use rkv::value::Value;

fn dup_flags() -> DatabaseFlagsImpl {
    DatabaseFlagsImpl { dup_sort: true, integer_key: true }
}

#[test]
fn test_integer_keys() {
    let mut env = EnvironmentImpl::new();
    let db = env.create_db(Some("s"), dup_flags()).expect("open");
    let s = MultiIntegerStore::<_, u32>::new(db);

    for key in [u32::MIN, u32::MAX] {
        let mut writer = Writer::new(env.begin_rw_txn().expect("writer"));
        s.put(&mut writer, key, &Value::Str(String::from("hello!")))
            .expect("write");
        assert_eq!(
            s.get_first(&writer, key).expect("read"),
            Some(Value::Str(String::from("hello!")))
        );
        env = writer.commit().expect("committed");

        let reader = Reader::new(env.begin_ro_txn().expect("reader"));
        assert_eq!(
            s.get_first(&reader, key).expect("read"),
            Some(Value::Str(String::from("hello!")))
        );
    }
}

#[test]
fn test_clear() {
    let mut env = EnvironmentImpl::new();
    let db = env.create_db(Some("s"), dup_flags()).expect("open");
    let s = MultiIntegerStore::<_, u32>::new(db);

    {
        let mut writer = Writer::new(env.begin_rw_txn().expect("writer"));
        s.put(&mut writer, 1, &Value::Str(String::from("hello!")))
            .expect("write");
        s.put(&mut writer, 1, &Value::Str(String::from("hello1!")))
            .expect("write");
        s.put(&mut writer, 2, &Value::Str(String::from("hello!")))
            .expect("write");
        assert_eq!(
            s.get_first(&writer, 1).expect("read"),
            Some(Value::Str(String::from("hello!")))
        );
        assert_eq!(
            s.get_first(&writer, 2).expect("read"),
            Some(Value::Str(String::from("hello!")))
        );
        assert_eq!(s.get_first(&writer, 3).expect("read"), None);
        env = writer.commit().expect("committed");
    }

    {
        let mut writer = Writer::new(env.begin_rw_txn().expect("writer"));
        s.clear(&mut writer).expect("cleared");
        env = writer.commit().expect("committed");

        let reader = Reader::new(env.begin_ro_txn().expect("reader"));
        assert_eq!(s.get_first(&reader, 1).expect("read"), None);
        assert_eq!(s.get_first(&reader, 2).expect("read"), None);
        assert_eq!(s.get_first(&reader, 3).expect("read"), None);
    }
}

#[test]
fn test_dup() {
    let mut env = EnvironmentImpl::new();
    let db = env.create_db(Some("s"), dup_flags()).expect("open");
    let s = MultiIntegerStore::<_, u32>::new(db);

    {
        let mut writer = Writer::new(env.begin_rw_txn().expect("writer"));
        s.put(&mut writer, 1, &Value::Str(String::from("hello!")))
            .expect("write");
        s.put(&mut writer, 1, &Value::Str(String::from("hello!")))
            .expect("write");
        s.put(&mut writer, 1, &Value::Str(String::from("hello1!")))
            .expect("write");
        assert_eq!(
            s.get_first(&writer, 1).expect("read"),
            Some(Value::Str(String::from("hello!")))
        );
        assert_eq!(s.get_first(&writer, 2).expect("read"), None);
        assert_eq!(s.get_first(&writer, 3).expect("read"), None);
        env = writer.commit().expect("committed");
    }

    {
        let mut writer = Writer::new(env.begin_rw_txn().expect("writer"));
        s.clear(&mut writer).expect("cleared");
        env = writer.commit().expect("committed");

        let reader = Reader::new(env.begin_ro_txn().expect("reader"));
        assert_eq!(s.get_first(&reader, 1).expect("read"), None);
        assert_eq!(s.get_first(&reader, 2).expect("read"), None);
        assert_eq!(s.get_first(&reader, 3).expect("read"), None);
    }
}

#[test]
fn test_dup_2() {
    let mut env = EnvironmentImpl::new();
    let db = env.create_db(Some("s"), dup_flags()).expect("open");
    let s = MultiIntegerStore::<_, u32>::new(db);

    {
        let mut writer = Writer::new(env.begin_rw_txn().expect("writer"));
        s.put(&mut writer, 1, &Value::Str(String::from("hello!")))
            .expect("write");
        s.put(&mut writer, 1, &Value::Str(String::from("hello!")))
            .expect("write");
        s.put(&mut writer, 1, &Value::Str(String::from("hello1!")))
            .expect("write");

        let mut iter = s.get(&writer, 1).expect("read");
        assert_eq!(
            iter.next().expect("first").expect("ok").1,
            Value::Str(String::from("hello!"))
        );
        assert_eq!(
            iter.next().expect("second").expect("ok").1,
            Value::Str(String::from("hello1!"))
        );
        assert!(iter.next().is_none());
    }
}

#[test]
fn test_dup_iter_integer() {
    // A duplicate store holding keys 1, 2 and 4, each with two distinct
    // values; the reverse duplicate traversal from key 4 yields key 4's
    // duplicates in descending encoded order, then key 2's, then key 1's,
    // then end-of-sequence.
    let mut env = EnvironmentImpl::new();
    let db = env.create_db(Some("expiry"), dup_flags()).expect("open");
    let expiry_store = MultiIntegerStore::<_, u32>::new(db);

    let mut writer = Writer::new(env.begin_rw_txn().expect("writer"));
    expiry_store
        .put(&mut writer, 1, &Value::Blob(vec![104u8, 101u8, 108u8, 108u8]))
        .expect("write");
    expiry_store
        .put(&mut writer, 1, &Value::Blob(vec![104u8, 101u8, 108u8, 108u8]))
        .expect("write");
    expiry_store
        .put(&mut writer, 1, &Value::Blob(vec![104u8, 101u8, 108u8, 107u8]))
        .expect("write");
    expiry_store
        .put(&mut writer, 2, &Value::Blob(vec![2u8, 2u8, 2u8, 2u8]))
        .expect("write");
    expiry_store
        .put(&mut writer, 2, &Value::Blob(vec![2u8, 2u8, 2u8, 3u8]))
        .expect("write");
    expiry_store
        .put(&mut writer, 4, &Value::Blob(vec![4u8, 2u8, 2u8, 4u8]))
        .expect("write");
    expiry_store
        .put(&mut writer, 4, &Value::Blob(vec![4u8, 2u8, 2u8, 3u8]))
        .expect("write");

    let mut iter = expiry_store.get(&writer, 1).expect("firstkey");
    assert_eq!(
        iter.next().expect("firstvalue").expect("ok").1,
        Value::Blob(vec![104, 101, 108, 107])
    );
    assert_eq!(
        iter.next().expect("secondvalue").expect("ok").1,
        Value::Blob(vec![104, 101, 108, 108])
    );
    assert!(iter.next().is_none());

    let mut iter = expiry_store.iter_prev_dup_from(&writer, 4).unwrap();

    let mut sub_iter = iter.next().unwrap().unwrap();
    assert_eq!(
        sub_iter.next().expect("first").expect("ok").1,
        Value::Blob(vec![4, 2, 2, 4])
    );
    assert_eq!(
        sub_iter.next().expect("second").expect("ok").1,
        Value::Blob(vec![4, 2, 2, 3])
    );
    assert!(sub_iter.next().is_none());

    let mut sub_iter2 = iter.next().unwrap().unwrap();
    assert_eq!(
        sub_iter2.next().expect("first").expect("ok").1,
        Value::Blob(vec![2, 2, 2, 3])
    );
    assert_eq!(
        sub_iter2.next().expect("second").expect("ok").1,
        Value::Blob(vec![2, 2, 2, 2])
    );
    assert!(sub_iter2.next().is_none());

    let mut sub_iter3 = iter.next().unwrap().unwrap();
    assert_eq!(
        sub_iter3.next().expect("first").expect("ok").1,
        Value::Blob(vec![104, 101, 108, 108])
    );
    assert_eq!(
        sub_iter3.next().expect("second").expect("ok").1,
        Value::Blob(vec![104, 101, 108, 107])
    );
    assert!(sub_iter3.next().is_none());

    assert!(iter.next().is_none());
}

#[test]
fn test_del() {
    let mut env = EnvironmentImpl::new();
    let db = env.create_db(Some("s"), dup_flags()).expect("open");
    let s = MultiIntegerStore::<_, u32>::new(db);

    {
        let mut writer = Writer::new(env.begin_rw_txn().expect("writer"));
        s.put(&mut writer, 1, &Value::Str(String::from("hello!")))
            .expect("write");
        s.put(&mut writer, 1, &Value::Str(String::from("hello!")))
            .expect("write");
        s.put(&mut writer, 1, &Value::Str(String::from("hello1!")))
            .expect("write");
        {
            let mut iter = s.get(&writer, 1).expect("read");
            assert_eq!(
                iter.next().expect("first").expect("ok").1,
                Value::Str(String::from("hello!"))
            );
            assert_eq!(
                iter.next().expect("second").expect("ok").1,
                Value::Str(String::from("hello1!"))
            );
            assert!(iter.next().is_none());
        }
        env = writer.commit().expect("committed");
    }

    {
        let mut writer = Writer::new(env.begin_rw_txn().expect("writer"));
        s.delete(&mut writer, 1, &Value::Str(String::from("hello!")))
            .expect("deleted");
        env = writer.commit().expect("committed");

        let reader = Reader::new(env.begin_ro_txn().expect("reader"));
        let mut iter = s.get(&reader, 1).expect("read");
        assert_eq!(
            iter.next().expect("first").expect("ok").1,
            Value::Str(String::from("hello1!"))
        );
        assert!(iter.next().is_none());
    }

    {
        let mut writer = Writer::new(env.begin_rw_txn().expect("writer"));
        s.delete(&mut writer, 1, &Value::Str(String::from("hello!")))
            .expect_err("deleted");
        env = writer.commit().expect("committed");

        let reader = Reader::new(env.begin_ro_txn().expect("reader"));
        let mut iter = s.get(&reader, 1).expect("read");
        assert_eq!(
            iter.next().expect("first").expect("ok").1,
            Value::Str(String::from("hello1!"))
        );
        assert!(iter.next().is_none());
    }

    {
        let mut writer = Writer::new(env.begin_rw_txn().expect("writer"));
        s.delete(&mut writer, 1, &Value::Str(String::from("hello1!")))
            .expect("deleted");
        env = writer.commit().expect("committed");

        let reader = Reader::new(env.begin_ro_txn().expect("reader"));
        let mut iter = s.get(&reader, 1).expect("read");
        assert!(iter.next().is_none());
    }

    {
        let mut writer = Writer::new(env.begin_rw_txn().expect("writer"));
        s.delete(&mut writer, 1, &Value::Str(String::from("hello1!")))
            .expect_err("deleted");
        env = writer.commit().expect("committed");

        let reader = Reader::new(env.begin_ro_txn().expect("reader"));
        let mut iter = s.get(&reader, 1).expect("read");
        assert!(iter.next().is_none());
    }
}

#[test]
fn test_persist() {
    // Values written and committed in one write transaction stay visible, in
    // the same sorted order, to every session begun from the environment the
    // commit returned; carrying the environment's bytes across processes is
    // the embedding application's part.
    let mut env = EnvironmentImpl::new();
    let db = env.create_db(Some("s"), dup_flags()).expect("open");
    let s = MultiIntegerStore::<_, u32>::new(db);

    {
        let mut writer = Writer::new(env.begin_rw_txn().expect("writer"));
        s.put(&mut writer, 1, &Value::Str(String::from("hello!")))
            .expect("write");
        s.put(&mut writer, 1, &Value::Str(String::from("hello1!")))
            .expect("write");
        s.put(&mut writer, 2, &Value::Str(String::from("hello!")))
            .expect("write");
        {
            let mut iter = s.get(&writer, 1).expect("read");
            assert_eq!(
                iter.next().expect("first").expect("ok").1,
                Value::Str(String::from("hello!"))
            );
            assert_eq!(
                iter.next().expect("second").expect("ok").1,
                Value::Str(String::from("hello1!"))
            );
            assert!(iter.next().is_none());
        }
        env = writer.commit().expect("committed");
    }

    {
        let reader = Reader::new(env.begin_ro_txn().expect("reader"));
        let mut iter = s.get(&reader, 1).expect("read");
        assert_eq!(
            iter.next().expect("first").expect("ok").1,
            Value::Str(String::from("hello!"))
        );
        assert_eq!(
            iter.next().expect("second").expect("ok").1,
            Value::Str(String::from("hello1!"))
        );
        assert!(iter.next().is_none());
    }
}

#[test]
fn test_put_with_flags_allows_copies() {
    // The duplicate-copy flag is an explicit configuration: with it, a
    // byte-identical pair is stored as an independent, separately deletable
    // copy.
    let mut env = EnvironmentImpl::new();
    let db = env.create_db(Some("s"), dup_flags()).expect("open");
    let s = MultiIntegerStore::<_, u32>::new(db);

    let mut writer = Writer::new(env.begin_rw_txn().expect("writer"));
    let flags = WriteFlagsImpl { allow_dup: true };
    s.put_with_flags(&mut writer, 7, &Value::U64(42), flags)
        .expect("write");
    s.put_with_flags(&mut writer, 7, &Value::U64(42), flags)
        .expect("write");

    let mut iter = s.get(&writer, 7).expect("read");
    assert_eq!(iter.next().expect("first").expect("ok").1, Value::U64(42));
    assert_eq!(iter.next().expect("second").expect("ok").1, Value::U64(42));
    assert!(iter.next().is_none());

    // each copy is separately deletable
    s.delete(&mut writer, 7, &Value::U64(42)).expect("deleted");
    let mut iter = s.get(&writer, 7).expect("read");
    assert_eq!(iter.next().expect("first").expect("ok").1, Value::U64(42));
    assert!(iter.next().is_none());
}

#[test]
fn test_delete_all_absent_key() {
    // delete_all on a key with zero entries succeeds and leaves the table
    // unchanged.
    let mut env = EnvironmentImpl::new();
    let db = env.create_db(Some("s"), dup_flags()).expect("open");
    let s = MultiIntegerStore::<_, u32>::new(db);

    let mut writer = Writer::new(env.begin_rw_txn().expect("writer"));
    s.put(&mut writer, 1, &Value::Str(String::from("hello!")))
        .expect("write");
    s.put(&mut writer, 2, &Value::Str(String::from("hello1!")))
        .expect("write");
    s.delete_all(&mut writer, 99).expect("deleted");

    let mut iter = s.iter_start(&writer).expect("read");
    assert_eq!(
        iter.next().expect("first").expect("ok").1,
        Value::Str(String::from("hello!"))
    );
    assert_eq!(
        iter.next().expect("second").expect("ok").1,
        Value::Str(String::from("hello1!"))
    );
    assert!(iter.next().is_none());

    s.delete_all(&mut writer, 1).expect("deleted");
    assert_eq!(s.get_first(&writer, 1).expect("read"), None);
}

#[test]
fn integer_stores_copy_and_compare_by_handle() {
    // store values are plain copyable handles: copies and stores built from
    // the same database handle compare equal
    let mut env = EnvironmentImpl::new();
    let db = env.create_db(Some("s"), dup_flags()).expect("open");
    let a = MultiIntegerStore::<_, u32>::new(db);
    let b = a;
    assert_eq!(a, b);
    let c = MultiIntegerStore::<_, u32>::new(db);
    assert_eq!(a, c);
    assert_eq!(c.clone(), c);
}

#[test]
fn test_abort_discards_writes() {
    // On abort nothing becomes visible: the environment comes back exactly as
    // committed when the writer began.
    let mut env = EnvironmentImpl::new();
    let db = env.create_db(Some("s"), dup_flags()).expect("open");
    let s = MultiIntegerStore::<_, u32>::new(db);

    {
        let mut writer = Writer::new(env.begin_rw_txn().expect("writer"));
        s.put(&mut writer, 1, &Value::U64(1)).expect("write");
        env = writer.commit().expect("committed");
    }
    {
        let mut writer = Writer::new(env.begin_rw_txn().expect("writer"));
        s.put(&mut writer, 1, &Value::U64(2)).expect("write");
        s.put(&mut writer, 9, &Value::U64(9)).expect("write");
        env = writer.abort();
    }
    let reader = Reader::new(env.begin_ro_txn().expect("reader"));
    let mut iter = s.get(&reader, 1).expect("read");
    assert_eq!(iter.next().expect("first").expect("ok").1, Value::U64(1));
    assert!(iter.next().is_none());
    assert_eq!(s.get_first(&reader, 9).expect("read"), None);
}
