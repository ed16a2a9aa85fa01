//! Laws of the series store, stated over its spec model and proved.
use vstd::prelude::*;
use crate::ingest::{ChangeKind, full_key_spec};
use crate::stamp::{LogicalTime, stamp_lt, lemma_later_physical_is_later};
use crate::store::{
    RowKind, RowView, RecordView, Outcome, latest_del, tombstone_of, purged, retained, value_row,
    tomb_row, apply_rows, rows_wf, lemma_retained_rows, lemma_retained_wf, apply_outcome, has_value_row, reclaim_rows, selected, is_latest, record_of,
    query_upto, query_spec,
};

verus! {

/// The latest tombstone of a key is a tombstone row of that key.
proof fn lemma_latest_del_is_tombstone(rows: Seq<RowView>, key: Seq<char>)
    ensures
        latest_del(rows, key) matches Some(i) ==> 0 <= i < rows.len() && rows[i].key == key
            && rows[i].kind == RowKind::Del,
    decreases rows.len(),
{
    if rows.len() > 0 {
        lemma_latest_del_is_tombstone(rows.drop_last(), key);
    }
}

/// After a delete of `key` at time `t`, the key's latest tombstone is either
/// the one just written, or an earlier-written tombstone of a later time.
proof fn lemma_tombstone_after_delete(rows0: Seq<RowView>, key: Seq<char>, t: LogicalTime)
    requires
        rows_wf(rows0),
    ensures
        ({
            let rows1 = apply_rows(rows0, key, ChangeKind::Delete, t, None);
            tombstone_of(rows1, key) matches Some(s) && (s == t || (stamp_lt(t, s) && exists|j: int|
                0 <= j < rows0.len() && rows0[j].key == key && rows0[j].kind == RowKind::Del
                    && rows0[j].stamp == s))
        }),
{
    let kept = retained(rows0, key, Some(t.spec_physical()));
    let rows1 = kept.push(tomb_row(key, t));
    assert(rows1.drop_last() =~= kept);
    assert(rows1[rows1.len() - 1] == tomb_row(key, t));
    lemma_latest_del_is_tombstone(kept, key);
    lemma_retained_rows(rows0, key, Some(t.spec_physical()));
    match latest_del(kept, key) {
        Some(p) => {
            if rows1[rows1.len() - 1].time < kept[p].time {
                assert(latest_del(rows1, key) == Some(p));
                assert(rows1[p] == kept[p]);
                let j = choose|j: int| 0 <= j < rows0.len() && rows0[j] == kept[p];
                assert(rows0[j].time == rows0[j].stamp.spec_physical());
                lemma_later_physical_is_later(t, kept[p].stamp);
            }
        },
        None => {},
    }
}

/// Tombstone precedence: once a delete of `key` at logical time `t` is
/// applied, a put of `key` with an earlier logical time that comes next is
/// dropped without error and leaves the rows as they are.
pub proof fn lemma_tombstone_precedence(
    rows0: Seq<RowView>,
    key: Seq<char>,
    t: LogicalTime,
    earlier: LogicalTime,
    value: Option<Seq<char>>,
)
    requires
        rows_wf(rows0),
        stamp_lt(earlier, t),
    ensures
        ({
            let rows1 = apply_rows(rows0, key, ChangeKind::Delete, t, None);
            &&& apply_rows(rows1, key, ChangeKind::Put, earlier, value) == rows1
            &&& apply_outcome(rows1, key, ChangeKind::Put, earlier, value is Some) == Ok::<
                Outcome,
                crate::store::StorageError,
            >(Outcome::Stale)
        }),
{
    lemma_tombstone_after_delete(rows0, key, t);
}

/// No record of `res` has full key `k` and logical time `stamp`.
pub open spec fn no_record_at(res: Seq<RecordView>, k: Seq<char>, stamp: LogicalTime) -> bool {
    forall|a: int| 0 <= a < res.len() ==> !((#[trigger] res[a]).key == k && res[a].timestamp == stamp)
}

/// Tombstone precedence, as queries see it: after a delete of `key` at `t`
/// and a put of `key` at an earlier logical time whose physical time is also
/// earlier, no query returns a record of `key` at that earlier time.
pub proof fn lemma_stale_put_never_returned(
    rows0: Seq<RowView>,
    key: Seq<char>,
    t: LogicalTime,
    earlier: LogicalTime,
    value: Option<Seq<char>>,
    prefix: Option<Seq<char>>,
    pattern: Seq<char>,
    start: Option<int>,
    stop: Option<int>,
)
    requires
        rows_wf(rows0),
        stamp_lt(earlier, t),
        earlier.spec_physical() < t.spec_physical(),
    ensures
        ({
            let rows1 = apply_rows(rows0, key, ChangeKind::Delete, t, None);
            let rows2 = apply_rows(rows1, key, ChangeKind::Put, earlier, value);
            no_record_at(query_spec(rows2, prefix, pattern, start, stop), full_key_spec(prefix, key), earlier)
        }),
{
    lemma_tombstone_after_delete(rows0, key, t);
    let before = Some(t.spec_physical());
    let kept = retained(rows0, key, before);
    let rows1 = kept.push(tomb_row(key, t));
    lemma_retained_rows(rows0, key, before);
    lemma_retained_wf(rows0, key, before);
    assert(apply_rows(rows1, key, ChangeKind::Put, earlier, value) == rows1);
    lemma_query_sources(rows1, rows1.len() as int, prefix, pattern, start, stop);
    let res = query_spec(rows1, prefix, pattern, start, stop);
    assert forall|a: int| 0 <= a < res.len() implies !((#[trigger] res[a]).key == full_key_spec(
        prefix,
        key,
    ) && res[a].timestamp == earlier) by {
        assert(answer_from(rows1, rows1.len() as int, prefix, pattern, start, stop, a));
        let i = source_of(rows1, rows1.len() as int, prefix, pattern, start, stop, a);
        if res[a].key == full_key_spec(prefix, key) && res[a].timestamp == earlier {
            lemma_full_key_injective(prefix, rows1[i].key, key);
            assert(rows1[i].kind == RowKind::Put);
            assert(i < kept.len());
            assert(rows1[i] == kept[i]);
            assert(!purged(kept[i], key, before));
            assert(kept[i].time == kept[i].stamp.spec_physical());
            assert(false);
        }
    }
}

/// Resurrection: when `t` is the latest delete of `key`, a put of `key` with
/// a logical time not before `t` applied after that delete is written, is
/// returned by a query over its own instant, keeps reclamation from dropping
/// the key, and, when no value row of the key lies after it, is the answer
/// of a query with neither bound.
pub proof fn lemma_resurrection(
    rows0: Seq<RowView>,
    key: Seq<char>,
    t: LogicalTime,
    later: LogicalTime,
    value: Seq<char>,
    prefix: Option<Seq<char>>,
    pattern: Seq<char>,
)
    requires
        rows_wf(rows0),
        !stamp_lt(later, t),
        forall|j: int|
            0 <= j < rows0.len() && rows0[j].key == key && rows0[j].kind == RowKind::Del
                ==> !stamp_lt(t, #[trigger] rows0[j].stamp),
        crate::store::pattern_matches(pattern, full_key_spec(prefix, key)),
    ensures
        ({
            let rows1 = apply_rows(rows0, key, ChangeKind::Delete, t, None);
            let rows2 = apply_rows(rows1, key, ChangeKind::Put, later, Some(value));
            let p = later.spec_physical();
            &&& rows2 == rows1.push(value_row(key, later, value))
            &&& apply_outcome(rows1, key, ChangeKind::Put, later, true) == Ok::<
                Outcome,
                crate::store::StorageError,
            >(Outcome::Stored)
            &&& query_spec(rows2, prefix, pattern, Some(p), Some(p)).last() == record_of(
                prefix,
                value_row(key, later, value),
            )
            &&& reclaim_rows(rows2, key) == rows2
            &&& no_later_value_row(rows0, key, p) ==> query_spec(rows2, prefix, pattern, None, None).last()
                == record_of(prefix, value_row(key, later, value))
        }),
{
    lemma_tombstone_after_delete(rows0, key, t);
    let rows1 = apply_rows(rows0, key, ChangeKind::Delete, t, None);
    let rows2 = rows1.push(value_row(key, later, value));
    let p = later.spec_physical();
    let n = rows2.len() - 1;
    assert(apply_rows(rows1, key, ChangeKind::Put, later, Some(value)) == rows2);
    assert(selected(rows2, n, prefix, pattern, Some(p), Some(p)));
    assert(rows2[n].key == key && rows2[n].kind == RowKind::Put);
    if no_later_value_row(rows0, key, p) {
        let kept = retained(rows0, key, Some(t.spec_physical()));
        lemma_retained_rows(rows0, key, Some(t.spec_physical()));
        assert forall|j: int|
            0 <= j < rows2.len() && rows2[j].kind == RowKind::Put && rows2[j].key == rows2[n].key
                implies rows2[j].time < rows2[n].time || (rows2[j].time == rows2[n].time && j <= n) by {
            if j < kept.len() {
                assert(rows2[j] == kept[j]);
                let i = choose|i: int| 0 <= i < rows0.len() && rows0[i] == kept[j];
                assert(rows0[i].kind == RowKind::Put && rows0[i].key == key);
            }
        }
        assert(is_latest(rows2, n));
        assert(selected(rows2, n, prefix, pattern, None, None));
    }
}

/// No value row of `key` lies after physical time `p`.
pub open spec fn no_later_value_row(rows: Seq<RowView>, key: Seq<char>, p: int) -> bool {
    forall|j: int|
        0 <= j < rows.len() && rows[j].key == key && rows[j].kind == RowKind::Put
            ==> #[trigger] rows[j].time <= p
}

/// Reclamation race, first half: when `t` is the latest delete of `key` and
/// a put of `key` not older than `t` is applied after it, before the
/// reclamation check runs, the put is written and the check keeps every row.
pub proof fn lemma_reclaim_spares_resurrected(
    rows0: Seq<RowView>,
    key: Seq<char>,
    t: LogicalTime,
    later: LogicalTime,
    value: Seq<char>,
)
    requires
        rows_wf(rows0),
        !stamp_lt(later, t),
        forall|j: int|
            0 <= j < rows0.len() && rows0[j].key == key && rows0[j].kind == RowKind::Del
                ==> !stamp_lt(t, #[trigger] rows0[j].stamp),
    ensures
        ({
            let rows1 = apply_rows(rows0, key, ChangeKind::Delete, t, None);
            let rows2 = apply_rows(rows1, key, ChangeKind::Put, later, Some(value));
            &&& apply_outcome(rows1, key, ChangeKind::Put, later, true) == Ok::<
                Outcome,
                crate::store::StorageError,
            >(Outcome::Stored)
            &&& reclaim_rows(rows2, key) == rows2
        }),
{
    lemma_tombstone_after_delete(rows0, key, t);
    let rows1 = apply_rows(rows0, key, ChangeKind::Delete, t, None);
    let rows2 = apply_rows(rows1, key, ChangeKind::Put, later, Some(value));
    assert(rows2 == rows1.push(value_row(key, later, value)));
    assert(rows2[rows2.len() - 1].key == key && rows2[rows2.len() - 1].kind == RowKind::Put);
}

/// Reclamation race, second half: when no value row of `key` survives its
/// delete and none is written before the check, the check removes every row
/// of the key, the tombstone included.
pub proof fn lemma_reclaim_drops_deleted(rows0: Seq<RowView>, key: Seq<char>, t: LogicalTime)
    requires
        forall|j: int|
            0 <= j < rows0.len() && rows0[j].key == key && rows0[j].kind == RowKind::Put
                ==> #[trigger] rows0[j].time < t.spec_physical(),
    ensures
        ({
            let rows1 = apply_rows(rows0, key, ChangeKind::Delete, t, None);
            let rows2 = reclaim_rows(rows1, key);
            forall|i: int| 0 <= i < rows2.len() ==> (#[trigger] rows2[i]).key != key
        }),
{
    let before = Some(t.spec_physical());
    let kept = retained(rows0, key, before);
    let rows1 = kept.push(tomb_row(key, t));
    lemma_retained_rows(rows0, key, before);
    assert(!has_value_row(rows1, key)) by {
        assert forall|i: int| 0 <= i < rows1.len() && rows1[i].key == key implies rows1[i].kind
            != RowKind::Put by {
            if i < kept.len() {
                assert(rows1[i] == kept[i]);
                assert(!purged(kept[i], key, before));
                let j = choose|j: int| 0 <= j < rows0.len() && rows0[j] == kept[i];
                assert(rows0[j].time >= t.spec_physical());
            }
        }
    }
    lemma_retained_rows(rows1, key, None);
    let rows2 = retained(rows1, key, None);
    assert forall|i: int| 0 <= i < rows2.len() implies (#[trigger] rows2[i]).key != key by {
        assert(!purged(rows2[i], key, None));
    }
}

/// Equal full keys under one prefix come from equal series names.
proof fn lemma_full_key_injective(prefix: Option<Seq<char>>, a: Seq<char>, b: Seq<char>)
    requires
        full_key_spec(prefix, a) == full_key_spec(prefix, b),
    ensures
        a == b,
{
    if let Some(p) = prefix {
        assert(a =~= (p + a).subrange(p.len() as int, (p + a).len() as int));
        assert(b =~= (p + b).subrange(p.len() as int, (p + b).len() as int));
    }
}

/// Index of the row that the `a`-th answer among the first `n` rows comes from.
spec fn source_of(
    rows: Seq<RowView>,
    n: int,
    prefix: Option<Seq<char>>,
    pattern: Seq<char>,
    start: Option<int>,
    stop: Option<int>,
    a: int,
) -> int
    decreases n,
{
    if n <= 0 {
        0
    } else if a < query_upto(rows, n - 1, prefix, pattern, start, stop).len() {
        source_of(rows, n - 1, prefix, pattern, start, stop, a)
    } else {
        n - 1
    }
}

/// The `a`-th answer among the first `n` rows is the record of a selected
/// row.
spec fn answer_from(
    rows: Seq<RowView>,
    n: int,
    prefix: Option<Seq<char>>,
    pattern: Seq<char>,
    start: Option<int>,
    stop: Option<int>,
    a: int,
) -> bool {
    let i = source_of(rows, n, prefix, pattern, start, stop, a);
    &&& 0 <= i < n
    &&& selected(rows, i, prefix, pattern, start, stop)
    &&& query_upto(rows, n, prefix, pattern, start, stop)[a] == record_of(prefix, rows[i])
}

/// Each answer among the first `n` rows comes from a selected row, and with
/// neither bound no two answers share a key.
proof fn lemma_query_sources(
    rows: Seq<RowView>,
    n: int,
    prefix: Option<Seq<char>>,
    pattern: Seq<char>,
    start: Option<int>,
    stop: Option<int>,
)
    requires
        0 <= n <= rows.len(),
    ensures
        forall|a: int|
            0 <= a < query_upto(rows, n, prefix, pattern, start, stop).len() ==> #[trigger] answer_from(
                rows,
                n,
                prefix,
                pattern,
                start,
                stop,
                a,
            ),
        forall|a: int, b: int|
            0 <= a < b < query_upto(rows, n, prefix, pattern, start, stop).len() && start is None
                && stop is None ==> (#[trigger] query_upto(rows, n, prefix, pattern, start, stop)[a]).key
                != (#[trigger] query_upto(rows, n, prefix, pattern, start, stop)[b]).key,
    decreases n,
{
    if n > 0 {
        lemma_query_sources(rows, n - 1, prefix, pattern, start, stop);
        let prev = query_upto(rows, n - 1, prefix, pattern, start, stop);
        let res = query_upto(rows, n, prefix, pattern, start, stop);
        assert forall|a: int| 0 <= a < res.len() implies #[trigger] answer_from(
            rows,
            n,
            prefix,
            pattern,
            start,
            stop,
            a,
        ) by {
            if a < prev.len() {
                assert(res[a] == prev[a]);
                assert(answer_from(rows, n - 1, prefix, pattern, start, stop, a));
            } else {
                assert(selected(rows, n - 1, prefix, pattern, start, stop));
                assert(res[a] == record_of(prefix, rows[n - 1]));
            }
        }
        assert forall|a: int, b: int|
            0 <= a < b < res.len() && start is None && stop is None implies (#[trigger] res[a]).key
            != (#[trigger] res[b]).key by {
            if b < prev.len() {
                assert(res[a] == prev[a] && res[b] == prev[b]);
            } else {
                assert(res[a] == prev[a]);
                assert(res[b] == record_of(prefix, rows[n - 1]));
                let i = source_of(rows, n - 1, prefix, pattern, start, stop, a);
                assert(answer_from(rows, n - 1, prefix, pattern, start, stop, a));
                if res[a].key == res[b].key {
                    lemma_full_key_injective(prefix, rows[i].key, rows[n - 1].key);
                    assert(is_latest(rows, i));
                    assert(is_latest(rows, n - 1));
                    assert(rows[i].kind == RowKind::Put && rows[n - 1].kind == RowKind::Put);
                    assert(false);
                }
            }
        }
    } else {
        assert(query_upto(rows, n, prefix, pattern, start, stop).len() == 0);
    }
}

/// No two records share a key.
pub open spec fn one_per_key(res: Seq<RecordView>) -> bool {
    forall|a: int, b: int| 0 <= a < b < res.len() ==> (#[trigger] res[a]).key != (#[trigger] res[b]).key
}

/// No value row of a record's key is more recent than the record.
pub open spec fn most_recent(rows: Seq<RowView>, prefix: Option<Seq<char>>, res: Seq<RecordView>) -> bool {
    forall|a: int, i: int|
        0 <= a < res.len() && 0 <= i < rows.len() && rows[i].kind == RowKind::Put && full_key_spec(
            prefix,
            rows[i].key,
        ) == res[a].key ==> #[trigger] rows[i].time <= (#[trigger] res[a]).timestamp.spec_physical()
}

/// Latest-value default: a query with neither bound returns at most one
/// record per key, and no value row of that key is more recent than it.
pub proof fn lemma_latest_value_default(
    rows: Seq<RowView>,
    prefix: Option<Seq<char>>,
    pattern: Seq<char>,
)
    requires
        rows_wf(rows),
    ensures
        one_per_key(query_spec(rows, prefix, pattern, None, None)),
        most_recent(rows, prefix, query_spec(rows, prefix, pattern, None, None)),
{
    lemma_query_sources(rows, rows.len() as int, prefix, pattern, None, None);
    let res = query_spec(rows, prefix, pattern, None, None);
    assert(res == query_upto(rows, rows.len() as int, prefix, pattern, None, None));
    assert forall|a: int, i: int|
        0 <= a < res.len() && 0 <= i < rows.len() && rows[i].kind == RowKind::Put && full_key_spec(
            prefix,
            rows[i].key,
        ) == res[a].key implies #[trigger] rows[i].time <= (#[trigger] res[a]).timestamp.spec_physical() by {
        assert(answer_from(rows, rows.len() as int, prefix, pattern, None, None, a));
        let s = source_of(rows, rows.len() as int, prefix, pattern, None, None, a);
        assert(selected(rows, s, prefix, pattern, None, None));
        lemma_full_key_injective(prefix, rows[i].key, rows[s].key);
        assert(is_latest(rows, s));
        assert(rows[s].time == rows[s].stamp.spec_physical());
    }
}

} // verus!
