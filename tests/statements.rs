use zenoh_backend_influxdb::statements::{
    drop_series_query, kind_tag, purge_query, reclaim_decision, tombstone_lookup_query,
    value_row_check_query, ValueRowCheck,
};
use zenoh_backend_influxdb::store::RowKind;

#[test]
fn purge_statement_uses_strict_bound() {
    assert_eq!(
        "DELETE FROM \"a/b\" WHERE time < 1604593902226942997",
        purge_query("a/b", 1_604_593_902_226_942_997)
    );
    assert_eq!("DELETE FROM \"k\" WHERE time < 0", purge_query("k", 0));
    assert_eq!(
        "DELETE FROM \"k\" WHERE time < 340282366920938463463374607431768211455",
        purge_query("k", u128::MAX)
    );
}

#[test]
fn tombstone_lookup_statement() {
    assert_eq!(
        "SELECT \"timestamp\" FROM \"a/b\" WHERE kind='DEL' ORDER BY time DESC LIMIT 1",
        tombstone_lookup_query("a/b")
    );
}

#[test]
fn value_row_check_and_drop_statements() {
    assert_eq!(
        "SELECT \"kind\" FROM \"x\" WHERE kind!='DEL' LIMIT 1",
        value_row_check_query("x")
    );
    assert_eq!("DROP MEASUREMENT \"x\"", drop_series_query("x"));
}

#[test]
fn kind_tags() {
    assert_eq!("PUT", kind_tag(RowKind::Put));
    assert_eq!("DEL", kind_tag(RowKind::Del));
}

#[test]
fn reclamation_drops_only_after_a_clean_check() {
    assert!(reclaim_decision(ValueRowCheck::NoneFound));
    assert!(!reclaim_decision(ValueRowCheck::Found));
    assert!(!reclaim_decision(ValueRowCheck::Failed));
}
