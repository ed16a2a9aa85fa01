use zenoh_backend_influxdb::config::OnClosure;
use zenoh_backend_influxdb::ingest::{full_key, measurement_of, put_verdict, ChangeKind, PutVerdict};
use zenoh_backend_influxdb::stamp::LogicalTime;
use zenoh_backend_influxdb::store::{
    matches_pattern, Change, MemoryStorage, Outcome, Record, RowKind, StorageError,
};

fn at(secs: u64) -> LogicalTime {
    LogicalTime { time: secs << 32, id: 7 }
}

fn put(path: &str, t: u64, value: &str) -> Change {
    Change {
        path: path.to_string(),
        kind: ChangeKind::Put,
        timestamp: at(t),
        value: Some(value.to_string()),
    }
}

fn delete(path: &str, t: u64) -> Change {
    Change { path: path.to_string(), kind: ChangeKind::Delete, timestamp: at(t), value: None }
}

fn view(records: &[Record]) -> Vec<(String, String, u64)> {
    records
        .iter()
        .map(|r| (r.key.clone(), r.value.clone(), r.timestamp.time >> 32))
        .collect()
}

#[test]
fn physical_time_in_nanoseconds() {
    let t = LogicalTime { time: (5u64 << 32) | 0x8000_0000, id: 0 };
    assert_eq!(5_500_000_000u128, t.physical_time());
    assert_eq!(0, LogicalTime { time: 0, id: 3 }.physical_time());
    let max = LogicalTime { time: u64::MAX, id: 0 };
    assert_eq!(4_294_967_295u128 * 1_000_000_000 + 999_999_999, max.physical_time());
}

#[test]
fn logical_order_is_time_then_id() {
    let a = LogicalTime { time: 10, id: 5 };
    let b = LogicalTime { time: 10, id: 6 };
    let c = LogicalTime { time: 11, id: 0 };
    assert!(a.precedes(&b));
    assert!(b.precedes(&c));
    assert!(!b.precedes(&a));
    assert!(!a.precedes(&a));
}

#[test]
fn put_verdicts() {
    assert_eq!(PutVerdict::Write, put_verdict(&at(5), None, true));
    assert_eq!(PutVerdict::MissingValue, put_verdict(&at(5), None, false));
    assert_eq!(PutVerdict::Stale, put_verdict(&at(5), Some(at(6)), true));
    assert_eq!(PutVerdict::Stale, put_verdict(&at(5), Some(at(6)), false));
    assert_eq!(PutVerdict::Write, put_verdict(&at(6), Some(at(6)), true));
    assert_eq!(PutVerdict::Write, put_verdict(&at(7), Some(at(6)), true));
}

#[test]
fn measurement_strips_prefix() {
    assert_eq!(Some("/x/y".to_string()), measurement_of("/demo/x/y", Some("/demo")));
    assert_eq!(None, measurement_of("/other/x", Some("/demo")));
    assert_eq!(None, measurement_of("/de", Some("/demo")));
    assert_eq!(Some("a/b".to_string()), measurement_of("a/b", None));
    assert_eq!("/demo/x/y", full_key(Some("/demo"), "/x/y"));
    assert_eq!("x", full_key(None, "x"));
}

#[test]
fn wildcards_match_any_run() {
    assert!(matches_pattern("a/*", "a/b"));
    assert!(matches_pattern("a/**", "a/b/c"));
    assert!(matches_pattern("a/*", "a/b/c"));
    assert!(matches_pattern("**", ""));
    assert!(!matches_pattern("a/*", "b/a"));
    assert!(!matches_pattern("a/b", "a/bc"));
}

#[test]
fn end_to_end_scenario() {
    let mut s = MemoryStorage::new(None);
    assert_eq!(Ok(Outcome::Stored), s.apply(&put("a/b", 100, "x")));
    assert_eq!(vec![("a/b".to_string(), "x".to_string(), 100)], view(&s.query("a/*", None, None)));
    assert_eq!(Ok(Outcome::Deleted), s.apply(&delete("a/b", 200)));
    assert!(s.query("a/*", None, None).is_empty());
    assert_eq!(Ok(Outcome::Stale), s.apply(&put("a/b", 150, "y")));
    assert!(s.query("a/*", None, None).is_empty());
    assert_eq!(Ok(Outcome::Stored), s.apply(&put("a/b", 250, "z")));
    assert_eq!(vec![("a/b".to_string(), "z".to_string(), 250)], view(&s.query("a/*", None, None)));
}

#[test]
fn stale_put_after_delete_is_dropped() {
    let mut s = MemoryStorage::new(None);
    s.apply(&delete("k", 50)).unwrap();
    let before = s.rows().len();
    assert_eq!(Ok(Outcome::Stale), s.apply(&put("k", 49, "old")));
    assert_eq!(before, s.rows().len());
    assert!(s.query("k", Some(0), Some(u128::MAX)).is_empty());
}

#[test]
fn later_put_resurrects_key() {
    let mut s = MemoryStorage::new(None);
    s.apply(&put("k", 10, "v1")).unwrap();
    s.apply(&delete("k", 20)).unwrap();
    assert_eq!(Ok(Outcome::Stored), s.apply(&put("k", 30, "v2")));
    assert_eq!(vec![("k".to_string(), "v2".to_string(), 30)], view(&s.query("k", None, None)));
    assert!(!s.reclaim("k"));
    assert_eq!(2, s.rows().len());
}

#[test]
fn delete_purges_older_rows_and_keeps_later_ones() {
    let mut s = MemoryStorage::new(None);
    s.apply(&put("k", 10, "a")).unwrap();
    s.apply(&put("k", 40, "b")).unwrap();
    s.apply(&put("other", 5, "c")).unwrap();
    s.apply(&delete("k", 30)).unwrap();
    let kinds: Vec<(String, RowKind, u64)> = s
        .rows()
        .iter()
        .map(|r| (r.key.clone(), r.kind, r.stamp.time >> 32))
        .collect();
    assert_eq!(
        vec![
            ("k".to_string(), RowKind::Put, 40),
            ("other".to_string(), RowKind::Put, 5),
            ("k".to_string(), RowKind::Del, 30),
        ],
        kinds
    );
    assert_eq!(Some(at(30)), s.latest_tombstone(&"k".to_string()));
    assert_eq!(None, s.latest_tombstone(&"other".to_string()));
}

#[test]
fn latest_tombstone_is_the_most_recent_delete() {
    let mut s = MemoryStorage::new(None);
    s.apply(&delete("k", 30)).unwrap();
    s.apply(&delete("k", 20)).unwrap();
    assert_eq!(Some(at(30)), s.latest_tombstone(&"k".to_string()));
    assert_eq!(Ok(Outcome::Stale), s.apply(&put("k", 25, "v")));
}

#[test]
fn latest_value_without_bounds() {
    let mut s = MemoryStorage::new(None);
    s.apply(&put("a/x", 1, "x1")).unwrap();
    s.apply(&put("a/y", 2, "y2")).unwrap();
    s.apply(&put("a/x", 3, "x3")).unwrap();
    s.apply(&put("a/x", 2, "x2")).unwrap();
    assert_eq!(
        vec![
            ("a/y".to_string(), "y2".to_string(), 2),
            ("a/x".to_string(), "x3".to_string(), 3),
        ],
        view(&s.query("a/*", None, None))
    );
}

#[test]
fn bounded_query_returns_history() {
    let mut s = MemoryStorage::new(None);
    s.apply(&put("a/x", 1, "x1")).unwrap();
    s.apply(&put("a/x", 2, "x2")).unwrap();
    s.apply(&put("a/x", 3, "x3")).unwrap();
    let lo = at(2).physical_time();
    let hi = at(3).physical_time();
    assert_eq!(
        vec![("a/x".to_string(), "x2".to_string(), 2), ("a/x".to_string(), "x3".to_string(), 3)],
        view(&s.query("a/x", Some(lo), None))
    );
    assert_eq!(
        vec![("a/x".to_string(), "x2".to_string(), 2)],
        view(&s.query("a/x", Some(lo), Some(lo)))
    );
    assert_eq!(3, s.query("a/x", None, Some(hi)).len());
}

#[test]
fn reclamation_aborts_when_put_arrives_first() {
    let mut s = MemoryStorage::new(None);
    s.apply(&delete("k", 10)).unwrap();
    s.apply(&put("k", 11, "v")).unwrap();
    assert!(!s.reclaim("k"));
    assert_eq!(2, s.rows().len());
}

#[test]
fn reclamation_drops_all_rows_of_deleted_key() {
    let mut s = MemoryStorage::new(None);
    s.apply(&put("k", 5, "v")).unwrap();
    s.apply(&put("j", 5, "w")).unwrap();
    s.apply(&delete("k", 10)).unwrap();
    assert!(s.reclaim("k"));
    assert_eq!(1, s.rows().len());
    assert_eq!("j", s.rows()[0].key);
    assert_eq!(None, s.latest_tombstone(&"k".to_string()));
}

#[test]
fn prefix_is_stripped_and_restored() {
    let mut s = MemoryStorage::new(Some("/demo".to_string()));
    assert_eq!(Ok(Outcome::Stored), s.apply(&put("/demo/a", 1, "v")));
    assert_eq!("/a", s.rows()[0].key);
    assert_eq!(
        vec![("/demo/a".to_string(), "v".to_string(), 1)],
        view(&s.query("/demo/*", None, None))
    );
    assert_eq!(Err(StorageError::PrefixMismatch), s.apply(&put("/else/a", 2, "v")));
    assert_eq!(1, s.rows().len());
}

#[test]
fn put_without_value_is_refused() {
    let mut s = MemoryStorage::new(None);
    let mut c = put("k", 1, "v");
    c.value = None;
    assert_eq!(Err(StorageError::MissingValue), s.apply(&c));
    assert!(s.rows().is_empty());
}

#[test]
fn patch_is_unsupported_no_op() {
    let mut s = MemoryStorage::new(None);
    let mut c = put("k", 1, "v");
    c.kind = ChangeKind::Patch;
    assert_eq!(Ok(Outcome::Unsupported), s.apply(&c));
    assert!(s.rows().is_empty());
}

#[test]
fn on_closure_policies() {
    assert_eq!(Some(OnClosure::DoNothing), OnClosure::from_property(None));
    assert_eq!(Some(OnClosure::DropDb), OnClosure::from_property(Some("drop_db")));
    assert_eq!(Some(OnClosure::DropSeries), OnClosure::from_property(Some("drop_series")));
    assert_eq!(None, OnClosure::from_property(Some("drop_dbs")));
    assert_eq!(None, OnClosure::from_property(Some("")));
}
