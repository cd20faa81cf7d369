//! Dump and restore: what one session commits, a session restored from the
//! dump sees again, value for value and in the same stored order.

use rkv::backend::impl_safe::{dump, restore, DatabaseFlagsImpl, EnvironmentImpl};
use rkv::backend::traits::BackendEnvironment;
use rkv::readwrite::{Reader, Writer};
use rkv::store::integermulti::MultiIntegerStore;
use rkv::store::multi::MultiStore;
use rkv::value::Value;

#[test]
fn dump_and_restore_reproduce_the_tables() {
    let mut env = EnvironmentImpl::new();
    let dup = env
        .create_db(Some("dup"), DatabaseFlagsImpl { dup_sort: true, integer_key: true })
        .expect("open");
    let plain = env
        .create_db(Some("plain"), DatabaseFlagsImpl { dup_sort: false, integer_key: false })
        .expect("open");
    let multi = MultiIntegerStore::<_, u32>::new(dup);
    let single = MultiStore::new(plain);

    let mut writer = Writer::new(env.begin_rw_txn().expect("writer"));
    multi.put(&mut writer, 2, &Value::Str(String::from("hello1!"))).expect("write");
    multi.put(&mut writer, 1, &Value::Str(String::from("hello!"))).expect("write");
    multi.put(&mut writer, 1, &Value::Str(String::from("hello1!"))).expect("write");
    single.put(&mut writer, b"greeting", &Value::U64(7)).expect("write");
    let env = writer.commit().expect("committed");

    let dumps = dump(&env);
    assert_eq!(dumps.len(), 2);
    let restored = restore(&dumps);

    // the same handles address the same slots of the restored environment
    let before = Reader::new(env.begin_ro_txn().expect("reader"));
    let after = Reader::new(restored.begin_ro_txn().expect("reader"));

    let mut iter_before = multi.iter_start(&before).expect("read");
    let mut iter_after = multi.iter_start(&after).expect("read");
    loop {
        match (iter_before.next(), iter_after.next()) {
            (None, None) => break,
            (Some(a), Some(b)) => {
                assert_eq!(a.expect("ok"), b.expect("ok"));
            },
            _ => panic!("restored table has a different length"),
        }
    }

    assert_eq!(
        single.get_first(&after, b"greeting").expect("read"),
        Some(Value::U64(7))
    );
}
