use zenoh_backend_influxdb::pattern::path_exprs_to_influx_regex;
use zenoh_backend_influxdb::timerange::{clauses_from_selector, normalize_rfc3339, select_query};

#[test]
fn test_normalize_rfc3339() {
    // test no surrounding with '' if not rfc3339 time
    assert_eq!("now()", normalize_rfc3339("now()"));
    assert_eq!("now()-1h", normalize_rfc3339("now()-1h"));

    // test surrounding with ''
    assert_eq!(
        "'2020-11-05T16:31:42.226942997Z'",
        normalize_rfc3339("2020-11-05T16:31:42.226942997Z")
    );
    assert_eq!(
        "'2020-11-05T16:31:42Z'",
        normalize_rfc3339("2020-11-05T16:31:42Z")
    );
    assert_eq!(
        "'2020-11-05 16:31:42.226942997'",
        normalize_rfc3339("2020-11-05 16:31:42.226942997")
    );
    assert_eq!("'2020-11-05'", normalize_rfc3339("2020-11-05"));

    // test no surrounding with '' if already done
    assert_eq!(
        "'2020-11-05T16:31:42.226942997Z'",
        normalize_rfc3339("'2020-11-05T16:31:42.226942997Z'")
    );

    // test surrounding with '' only the rfc3339 time
    assert_eq!(
        "'2020-11-05T16:31:42.226942997Z'-1h",
        normalize_rfc3339("2020-11-05T16:31:42.226942997Z-1h")
    );
    assert_eq!(
        "'2020-11-05T16:31:42Z'-1h",
        normalize_rfc3339("2020-11-05T16:31:42Z-1h")
    );
    assert_eq!(
        "'2020-11-05 16:31:42.226942997'-1h",
        normalize_rfc3339("2020-11-05 16:31:42.226942997-1h")
    );
    assert_eq!("'2020-11-05'-1h", normalize_rfc3339("2020-11-05-1h"));
}

#[test]
fn normalize_quotes_every_instant_and_keeps_other_text() {
    assert_eq!("", normalize_rfc3339(""));
    assert_eq!(
        "'2020-11-05'/'2021-01-02T03:04:05Z'",
        normalize_rfc3339("2020-11-05/2021-01-02T03:04:05Z")
    );
    // the time part takes every following digit, ':' and '.'
    assert_eq!(
        "'2020-11-05..2021'-01-02T03:04:05Z",
        normalize_rfc3339("2020-11-05..2021-01-02T03:04:05Z")
    );
    // a half-quoted instant gets one pair of quotes
    assert_eq!("'2020-11-05'", normalize_rfc3339("'2020-11-05"));
    assert_eq!("'2020-11-05'", normalize_rfc3339("2020-11-05'"));
    // too short to be a date
    assert_eq!("2020-11-5", normalize_rfc3339("2020-11-5"));
}

#[test]
fn regex_of_single_segment_wildcard() {
    assert_eq!("/^(?:a\\/.*)$/", path_exprs_to_influx_regex(&["a/*"]));
}

#[test]
fn regex_of_multi_segment_wildcard() {
    assert_eq!("/^(?:a\\/.*\\/c)$/", path_exprs_to_influx_regex(&["a/**/c"]));
    assert_eq!("/^(?:.*\\/x.*y)$/", path_exprs_to_influx_regex(&["**/x*y"]));
}

#[test]
fn regex_of_several_patterns_is_their_union() {
    assert_eq!(
        "/^(?:a\\/b|c.*|\\/d)$/",
        path_exprs_to_influx_regex(&["a/b", "c*", "/d"])
    );
    assert_eq!("/^(?:)$/", path_exprs_to_influx_regex(&[""]));
}

#[test]
fn regex_translation_is_idempotent() {
    let patterns = ["demo/**", "x/*/y"];
    let first = path_exprs_to_influx_regex(&patterns);
    let second = path_exprs_to_influx_regex(&patterns);
    assert_eq!(first, second);
    assert_eq!("/^(?:demo\\/.*|x\\/.*\\/y)$/", first);
}

#[test]
fn clauses_without_bounds_ask_for_latest_value() {
    assert_eq!(
        "WHERE kind!='DEL' ORDER BY time DESC LIMIT 1",
        clauses_from_selector(None, None)
    );
}

#[test]
fn clauses_with_both_bounds() {
    assert_eq!(
        "WHERE kind!='DEL' AND time >= now()-1h AND time <= '2020-11-05'",
        clauses_from_selector(Some("now()-1h"), Some("2020-11-05"))
    );
}

#[test]
fn clauses_with_one_bound() {
    assert_eq!(
        "WHERE kind!='DEL' AND time >= '2020-11-05T16:31:42Z'-1h",
        clauses_from_selector(Some("2020-11-05T16:31:42Z-1h"), None)
    );
    assert_eq!(
        "WHERE kind!='DEL' AND time <= now()",
        clauses_from_selector(None, Some("now()"))
    );
}

#[test]
fn select_query_text() {
    assert_eq!(
        "SELECT * FROM /^(?:a\\/.*)$/ WHERE kind!='DEL' ORDER BY time DESC LIMIT 1",
        select_query(&["a/*"], None, None)
    );
}

#[test]
fn normalizing_twice_changes_nothing_more() {
    for bound in [
        "now()-1h",
        "2020-11-05T16:31:42.226942997Z-1h",
        "'2020-11-05 16:31:42.226942997'",
        "'2020-11-05",
        "2020-11-05'",
        "2020-11-05/2021-01-02T03:04:05Z",
        "2020-11-05..2021-01-02T03:04:05Z",
    ] {
        let once = normalize_rfc3339(bound);
        assert_eq!(once, normalize_rfc3339(&once));
    }
}

#[test]
fn regex_union_anchors_every_pattern() {
    // each alternative must match a whole key: the union is grouped
    assert_eq!("/^(?:a|b)$/", path_exprs_to_influx_regex(&["a", "b"]));
}
