//! An in-memory series store with the adapter's consistency rules.
//!
//! Every key owns a series of rows. A put appends a value row unless it is
//! older than the key's latest tombstone; a delete purges the key's rows that
//! are older than itself and appends a tombstone row; reclamation drops a
//! tombstoned key's whole series unless a value row has reappeared; queries
//! never return tombstone rows, and with no time bound return only the latest
//! value row of each matching key.
use vstd::prelude::*;
use crate::ingest::{
    ChangeKind, PutVerdict, put_verdict, put_verdict_spec, measurement_of, measurement_spec,
    full_key, full_key_spec, opt_string_view,
};
use crate::stamp::{LogicalTime, stamp_lt};
use crate::statements::{ValueRowCheck, reclaim_decision};
use crate::text::chars_of;

verus! {

/// The kind tag of a stored row.
#[derive(Clone, Copy, Debug, PartialEq, Eq, Structural)]
pub enum RowKind {
    Put,
    Del,
}

/// A persisted row: the series name of its key, the physical time that
/// indexes it, its kind, the logical time of the event and the value (empty
/// for a tombstone).
pub struct StoredRow {
    pub key: String,
    pub time: u128,
    pub kind: RowKind,
    pub stamp: LogicalTime,
    pub value: String,
}

pub struct RowView {
    pub key: Seq<char>,
    pub time: int,
    pub kind: RowKind,
    pub stamp: LogicalTime,
    pub value: Seq<char>,
}

impl View for StoredRow {
    type V = RowView;

    open spec fn view(&self) -> RowView {
        RowView {
            key: self.key@,
            time: self.time as int,
            kind: self.kind,
            stamp: self.stamp,
            value: self.value@,
        }
    }
}

impl StoredRow {
    /// A copy of this row.
    pub fn duplicate(&self) -> (r: StoredRow)
        ensures
            r@ == self@,
    {
        StoredRow {
            key: self.key.clone(),
            time: self.time,
            kind: self.kind,
            stamp: self.stamp,
            value: self.value.clone(),
        }
    }
}

/// A change event delivered to the storage.
pub struct Change {
    pub path: String,
    pub kind: ChangeKind,
    pub timestamp: LogicalTime,
    pub value: Option<String>,
}

/// One result of a query: the full key, the value and its logical time.
pub struct Record {
    pub key: String,
    pub value: String,
    pub timestamp: LogicalTime,
}

pub struct RecordView {
    pub key: Seq<char>,
    pub value: Seq<char>,
    pub timestamp: LogicalTime,
}

impl View for Record {
    type V = RecordView;

    open spec fn view(&self) -> RecordView {
        RecordView { key: self.key@, value: self.value@, timestamp: self.timestamp }
    }
}

/// What applying a change did.
#[derive(Clone, Copy, Debug, PartialEq, Eq, Structural)]
pub enum Outcome {
    /// A value row was written.
    Stored,
    /// The put was older than the key's latest tombstone and was dropped.
    Stale,
    /// A tombstone was written: reclamation of the key is now due after the
    /// grace period.
    Deleted,
    /// The change kind is not supported; nothing was done.
    Unsupported,
}

/// Why a change was refused.
#[derive(Clone, Copy, Debug, PartialEq, Eq, Structural)]
pub enum StorageError {
    /// The key does not start with the storage's prefix.
    PrefixMismatch,
    /// A put carried no value.
    MissingValue,
}

/// Index of the key's latest tombstone row: the one with the greatest
/// physical time, the last written among equals.
pub open spec fn latest_del(rows: Seq<RowView>, key: Seq<char>) -> Option<int>
    decreases rows.len(),
{
    if rows.len() == 0 {
        None
    } else {
        let prev = latest_del(rows.drop_last(), key);
        let l = rows.len() - 1;
        if rows[l].key == key && rows[l].kind == RowKind::Del && (prev is None
            || rows[l].time >= rows[prev->0].time) {
            Some(l)
        } else {
            prev
        }
    }
}

/// Logical time of the key's latest tombstone, if it has one.
pub open spec fn tombstone_of(rows: Seq<RowView>, key: Seq<char>) -> Option<LogicalTime> {
    match latest_del(rows, key) {
        Some(i) => Some(rows[i].stamp),
        None => None,
    }
}

/// Whether a row is removed by a purge of `key`: every row of the key when
/// `before` is absent, else those with a physical time below it.
pub open spec fn purged(r: RowView, key: Seq<char>, before: Option<int>) -> bool {
    r.key == key && match before {
        Some(t) => r.time < t,
        None => true,
    }
}

/// The rows left after a purge, in their order.
pub open spec fn retained(rows: Seq<RowView>, key: Seq<char>, before: Option<int>) -> Seq<RowView>
    decreases rows.len(),
{
    if rows.len() == 0 {
        Seq::empty()
    } else {
        let p = retained(rows.drop_last(), key, before);
        if purged(rows.last(), key, before) {
            p
        } else {
            p.push(rows.last())
        }
    }
}

/// Every row is indexed at the physical time of its logical time.
pub open spec fn rows_wf(rows: Seq<RowView>) -> bool {
    forall|i: int| 0 <= i < rows.len() ==> (#[trigger] rows[i]).time == rows[i].stamp.spec_physical()
}

/// Every row kept by a purge is a row of the input that the purge spares.
pub proof fn lemma_retained_rows(rows: Seq<RowView>, key: Seq<char>, before: Option<int>)
    ensures
        forall|i: int|
            0 <= i < retained(rows, key, before).len() ==> !purged(
                #[trigger] retained(rows, key, before)[i],
                key,
                before,
            ) && exists|j: int| 0 <= j < rows.len() && rows[j] == retained(rows, key, before)[i],
    decreases rows.len(),
{
    if rows.len() > 0 {
        let prev = rows.drop_last();
        lemma_retained_rows(prev, key, before);
        let r = retained(rows, key, before);
        assert forall|i: int| 0 <= i < r.len() implies !purged(#[trigger] r[i], key, before)
            && exists|j: int| 0 <= j < rows.len() && rows[j] == r[i] by {
            if i < retained(prev, key, before).len() {
                let x = retained(prev, key, before)[i];
                assert(r[i] == x);
                let j = choose|j: int| 0 <= j < prev.len() && prev[j] == x;
                assert(rows[j] == x);
            } else {
                assert(rows[rows.len() - 1] == r[i]);
            }
        }
    }
}

/// A purge keeps rows well indexed.
pub proof fn lemma_retained_wf(rows: Seq<RowView>, key: Seq<char>, before: Option<int>)
    requires
        rows_wf(rows),
    ensures
        rows_wf(retained(rows, key, before)),
{
    lemma_retained_rows(rows, key, before);
    let r = retained(rows, key, before);
    assert forall|i: int| 0 <= i < r.len() implies (#[trigger] r[i]).time == r[i].stamp.spec_physical() by {
        let j = choose|j: int| 0 <= j < rows.len() && rows[j] == r[i];
        assert(rows[j].time == rows[j].stamp.spec_physical());
    }
}

pub open spec fn value_row(key: Seq<char>, stamp: LogicalTime, value: Seq<char>) -> RowView {
    RowView { key, time: stamp.spec_physical(), kind: RowKind::Put, stamp, value }
}

pub open spec fn tomb_row(key: Seq<char>, stamp: LogicalTime) -> RowView {
    RowView { key, time: stamp.spec_physical(), kind: RowKind::Del, stamp, value: Seq::empty() }
}

pub open spec fn opt_value(v: Option<Seq<char>>) -> Seq<char> {
    match v {
        Some(s) => s,
        None => Seq::empty(),
    }
}

/// The rows after a change of the given kind to series `key`.
pub open spec fn apply_rows(
    rows: Seq<RowView>,
    key: Seq<char>,
    kind: ChangeKind,
    stamp: LogicalTime,
    value: Option<Seq<char>>,
) -> Seq<RowView> {
    match kind {
        ChangeKind::Put => match put_verdict_spec(stamp, tombstone_of(rows, key), value is Some) {
            PutVerdict::Write => rows.push(value_row(key, stamp, opt_value(value))),
            _ => rows,
        },
        ChangeKind::Delete => retained(rows, key, Some(stamp.spec_physical())).push(
            tomb_row(key, stamp),
        ),
        ChangeKind::Patch => rows,
    }
}

/// The result of a change of the given kind to series `key`.
pub open spec fn apply_outcome(
    rows: Seq<RowView>,
    key: Seq<char>,
    kind: ChangeKind,
    stamp: LogicalTime,
    has_value: bool,
) -> Result<Outcome, StorageError> {
    match kind {
        ChangeKind::Put => match put_verdict_spec(stamp, tombstone_of(rows, key), has_value) {
            PutVerdict::Write => Ok(Outcome::Stored),
            PutVerdict::Stale => Ok(Outcome::Stale),
            PutVerdict::MissingValue => Err(StorageError::MissingValue),
        },
        ChangeKind::Delete => Ok(Outcome::Deleted),
        ChangeKind::Patch => Ok(Outcome::Unsupported),
    }
}

/// Whether the key holds a value row.
pub open spec fn has_value_row(rows: Seq<RowView>, key: Seq<char>) -> bool {
    exists|i: int| 0 <= i < rows.len() && rows[i].key == key && rows[i].kind == RowKind::Put
}

/// The rows after the reclamation check of `key` has run.
pub open spec fn reclaim_rows(rows: Seq<RowView>, key: Seq<char>) -> Seq<RowView> {
    if has_value_row(rows, key) {
        rows
    } else {
        retained(rows, key, None)
    }
}

pub open spec fn opt_time(o: Option<u128>) -> Option<int> {
    match o {
        Some(t) => Some(t as int),
        None => None,
    }
}

/// Whether a physical time lies within the optional inclusive bounds.
pub open spec fn in_range(t: int, start: Option<int>, stop: Option<int>) -> bool {
    (match start {
        Some(s) => s <= t,
        None => true,
    }) && (match stop {
        Some(e) => t <= e,
        None => true,
    })
}

/// Whether `p` matches `k` from positions `i` and `j` on, where `*` stands
/// for any run of characters and every other character for itself.
pub open spec fn wild_from(p: Seq<char>, i: int, k: Seq<char>, j: int) -> bool
    decreases p.len() - i, k.len() - j,
{
    if i < 0 || j < 0 || i >= p.len() {
        i >= p.len() && j >= k.len()
    } else if p[i] == '*' {
        wild_from(p, i + 1, k, j) || (j < k.len() && wild_from(p, i, k, j + 1))
    } else {
        j < k.len() && k[j] == p[i] && wild_from(p, i + 1, k, j + 1)
    }
}

/// Whether a key matches a pattern, the wildcards `*` and `**` both standing
/// for any run of characters, as in the translated expression.
///
/// Every other character stands for itself here. The translated expression
/// passes such characters to the store unescaped, where `.`, `+`, `?`, `(`
/// and the like act as regular-expression operators: for patterns holding
/// them, this model and the store's answers differ.
pub open spec fn pattern_matches(p: Seq<char>, k: Seq<char>) -> bool {
    wild_from(p, 0, k, 0)
}

/// Row `i` is the latest value row of its key.
pub open spec fn is_latest(rows: Seq<RowView>, i: int) -> bool {
    forall|j: int|
        0 <= j < rows.len() && rows[j].kind == RowKind::Put && rows[j].key == rows[i].key
            ==> rows[j].time < rows[i].time || (rows[j].time == rows[i].time && j <= i)
}

/// Row `i` answers the query.
pub open spec fn selected(
    rows: Seq<RowView>,
    i: int,
    prefix: Option<Seq<char>>,
    pattern: Seq<char>,
    start: Option<int>,
    stop: Option<int>,
) -> bool {
    &&& rows[i].kind == RowKind::Put
    &&& pattern_matches(pattern, full_key_spec(prefix, rows[i].key))
    &&& in_range(rows[i].time, start, stop)
    &&& (start is None && stop is None ==> is_latest(rows, i))
}

pub open spec fn record_of(prefix: Option<Seq<char>>, r: RowView) -> RecordView {
    RecordView { key: full_key_spec(prefix, r.key), value: r.value, timestamp: r.stamp }
}

/// The records answering a query among the first `n` rows, in row order.
pub open spec fn query_upto(
    rows: Seq<RowView>,
    n: int,
    prefix: Option<Seq<char>>,
    pattern: Seq<char>,
    start: Option<int>,
    stop: Option<int>,
) -> Seq<RecordView>
    decreases n,
{
    if n <= 0 {
        Seq::empty()
    } else {
        let p = query_upto(rows, n - 1, prefix, pattern, start, stop);
        if selected(rows, n - 1, prefix, pattern, start, stop) {
            p.push(record_of(prefix, rows[n - 1]))
        } else {
            p
        }
    }
}

pub open spec fn query_spec(
    rows: Seq<RowView>,
    prefix: Option<Seq<char>>,
    pattern: Seq<char>,
    start: Option<int>,
    stop: Option<int>,
) -> Seq<RecordView> {
    query_upto(rows, rows.len() as int, prefix, pattern, start, stop)
}

fn wild_exec(p: &Vec<char>, i: usize, k: &Vec<char>, j: usize) -> (r: bool)
    requires
        i <= p@.len(),
        j <= k@.len(),
    ensures
        r == wild_from(p@, i as int, k@, j as int),
    decreases p@.len() - i, k@.len() - j,
{
    if i == p.len() {
        j == k.len()
    } else if p[i] == '*' {
        wild_exec(p, i + 1, k, j) || (j < k.len() && wild_exec(p, i, k, j + 1))
    } else {
        j < k.len() && k[j] == p[i] && wild_exec(p, i + 1, k, j + 1)
    }
}

/// Whether `key` matches `pattern`, `*` and `**` standing for any run of
/// characters.
pub fn matches_pattern(pattern: &str, key: &str) -> (r: bool)
    ensures
        r == pattern_matches(pattern@, key@),
{
    let p = chars_of(pattern);
    let k = chars_of(key);
    wild_exec(&p, 0, &k, 0)
}

/// The rows of `rows` that a purge of `key` keeps.
fn retain_rows(rows: &Vec<StoredRow>, key: &String, before: Option<u128>) -> (r: Vec<StoredRow>)
    ensures
        r@.map_values(|x: StoredRow| x@) == retained(
            rows@.map_values(|x: StoredRow| x@),
            key@,
            opt_time(before),
        ),
{
    let ghost all = rows@.map_values(|x: StoredRow| x@);
    let mut out: Vec<StoredRow> = Vec::new();
    let mut i: usize = 0;
    while i < rows.len()
        invariant
            i <= rows@.len(),
            all == rows@.map_values(|x: StoredRow| x@),
            out@.map_values(|x: StoredRow| x@) == retained(all.subrange(0, i as int), key@, opt_time(before)),
        decreases rows@.len() - i,
    {
        let ghost sub = all.subrange(0, i + 1);
        assert(sub.drop_last() =~= all.subrange(0, i as int));
        assert(sub.last() == rows@[i as int]@);
        let drop = rows[i].key == *key && match before {
            Some(t) => rows[i].time < t,
            None => true,
        };
        if !drop {
            let ghost prev = out@.map_values(|x: StoredRow| x@);
            out.push(rows[i].duplicate());
            assert(out@.map_values(|x: StoredRow| x@) =~= prev.push(rows@[i as int]@));
        }
        i = i + 1;
    }
    assert(all.subrange(0, rows@.len() as int) =~= all);
    out
}

/// A storage of change events for the keys under an optional prefix.
pub struct MemoryStorage {
    path_prefix: Option<String>,
    rows: Vec<StoredRow>,
}

pub open spec fn opt_owned_view(o: Option<String>) -> Option<Seq<char>> {
    match o {
        Some(s) => Some(s@),
        None => None,
    }
}

impl MemoryStorage {
    /// The stored rows, in the order they were written.
    pub closed spec fn rows_view(&self) -> Seq<RowView> {
        self.rows@.map_values(|x: StoredRow| x@)
    }

    /// The prefix of the keys of this storage.
    pub closed spec fn prefix_view(&self) -> Option<Seq<char>> {
        opt_owned_view(self.path_prefix)
    }

    /// An empty storage for the keys under `path_prefix`.
    pub fn new(path_prefix: Option<String>) -> (r: MemoryStorage)
        ensures
            r.rows_view() == Seq::<RowView>::empty(),
            rows_wf(r.rows_view()),
            r.prefix_view() == opt_owned_view(path_prefix),
    {
        let r = MemoryStorage { path_prefix, rows: Vec::new() };
        assert(r.rows_view() =~= Seq::<RowView>::empty());
        r
    }

    /// The stored rows, in the order they were written.
    pub fn rows(&self) -> (r: &Vec<StoredRow>)
        ensures
            r@.map_values(|x: StoredRow| x@) == self.rows_view(),
    {
        &self.rows
    }

    fn prefix_str(&self) -> (r: Option<&str>)
        ensures
            opt_string_view(r) == self.prefix_view(),
    {
        match &self.path_prefix {
            Some(p) => Some(p.as_str()),
            None => None,
        }
    }

    /// Logical time of the latest tombstone of series `key`, if any.
    pub fn latest_tombstone(&self, key: &String) -> (r: Option<LogicalTime>)
        ensures
            r == tombstone_of(self.rows_view(), key@),
    {
        let ghost all = self.rows_view();
        let mut best: Option<usize> = None;
        let mut i: usize = 0;
        while i < self.rows.len()
            invariant
                i <= self.rows@.len(),
                all == self.rows_view(),
                match best {
                    Some(b) => b < i && latest_del(all.subrange(0, i as int), key@) == Some(b as int),
                    None => latest_del(all.subrange(0, i as int), key@) is None,
                },
            decreases self.rows@.len() - i,
        {
            let ghost sub = all.subrange(0, i + 1);
            assert(sub.drop_last() =~= all.subrange(0, i as int));
            if self.rows[i].key == *key && self.rows[i].kind == RowKind::Del {
                match best {
                    Some(b) => {
                        if self.rows[i].time >= self.rows[b].time {
                            best = Some(i);
                        }
                    },
                    None => {
                        best = Some(i);
                    },
                }
            }
            i = i + 1;
        }
        assert(all.subrange(0, self.rows@.len() as int) =~= all);
        match best {
            Some(b) => Some(self.rows[b].stamp),
            None => None,
        }
    }

    /// Applies a change event: a put is written unless it is older than the
    /// key's latest tombstone (then dropped) or carries no value (refused); a
    /// delete purges the key's rows older than itself and writes a tombstone;
    /// a patch is not supported and changes nothing.
    pub fn apply(&mut self, change: &Change) -> (r: Result<Outcome, StorageError>)
        requires
            rows_wf(old(self).rows_view()),
        ensures
            rows_wf(final(self).rows_view()),
            final(self).prefix_view() == old(self).prefix_view(),
            match measurement_spec(change.path@, old(self).prefix_view()) {
                None => r == Err::<Outcome, StorageError>(StorageError::PrefixMismatch)
                    && final(self).rows_view() == old(self).rows_view(),
                Some(m) => {
                    &&& r == apply_outcome(
                        old(self).rows_view(),
                        m,
                        change.kind,
                        change.timestamp,
                        change.value is Some,
                    )
                    &&& final(self).rows_view() == apply_rows(
                        old(self).rows_view(),
                        m,
                        change.kind,
                        change.timestamp,
                        opt_owned_view(change.value),
                    )
                },
            },
    {
        let measurement = match measurement_of(change.path.as_str(), self.prefix_str()) {
            Some(m) => m,
            None => {
                return Err(StorageError::PrefixMismatch);
            },
        };
        let ghost rows0 = self.rows_view();
        let time = change.timestamp.physical_time();
        match change.kind {
            ChangeKind::Put => {
                let tomb = self.latest_tombstone(&measurement);
                match put_verdict(&change.timestamp, tomb, change.value.is_some()) {
                    PutVerdict::Stale => Ok(Outcome::Stale),
                    PutVerdict::MissingValue => Err(StorageError::MissingValue),
                    PutVerdict::Write => {
                        let value = match &change.value {
                            Some(v) => v.clone(),
                            None => String::new(),
                        };
                        self.rows.push(StoredRow {
                            key: measurement,
                            time,
                            kind: RowKind::Put,
                            stamp: change.timestamp,
                            value,
                        });
                        assert(self.rows_view() =~= rows0.push(
                            value_row(measurement@, change.timestamp, opt_value(opt_owned_view(change.value))),
                        ));
                        Ok(Outcome::Stored)
                    },
                }
            },
            ChangeKind::Delete => {
                let mut kept = retain_rows(&self.rows, &measurement, Some(time));
                proof {
                    lemma_retained_wf(rows0, measurement@, Some(time as int));
                }
                kept.push(StoredRow {
                    key: measurement,
                    time,
                    kind: RowKind::Del,
                    stamp: change.timestamp,
                    value: String::new(),
                });
                self.rows = kept;
                assert(self.rows_view() =~= retained(rows0, measurement@, Some(time as int)).push(
                    tomb_row(measurement@, change.timestamp),
                ));
                Ok(Outcome::Deleted)
            },
            ChangeKind::Patch => Ok(Outcome::Unsupported),
        }
    }

    /// The reclamation check of series `key`, due a grace period after its
    /// deletion: unless a value row of the key has reappeared, every row of
    /// the key, its tombstones included, is dropped. Returns whether the
    /// series was dropped.
    pub fn reclaim(&mut self, key: &str) -> (r: bool)
        requires
            rows_wf(old(self).rows_view()),
        ensures
            rows_wf(final(self).rows_view()),
            final(self).prefix_view() == old(self).prefix_view(),
            r == !has_value_row(old(self).rows_view(), key@),
            final(self).rows_view() == reclaim_rows(old(self).rows_view(), key@),
    {
        let ghost all = self.rows_view();
        let k = key.to_owned();
        let mut i: usize = 0;
        while i < self.rows.len()
            invariant
                i <= self.rows@.len(),
                all == self.rows_view(),
                rows_wf(all),
                k@ == key@,
                forall|j: int| 0 <= j < i ==> !(all[j].key == key@ && all[j].kind == RowKind::Put),
            decreases self.rows@.len() - i,
        {
            if self.rows[i].key == k && self.rows[i].kind == RowKind::Put {
                assert(all[i as int].key == key@);
                return reclaim_decision(ValueRowCheck::Found);
            }
            i = i + 1;
        }
        if !reclaim_decision(ValueRowCheck::NoneFound) {
            return false;
        }
        self.rows = retain_rows(&self.rows, &k, None);
        proof {
            lemma_retained_wf(all, key@, None);
        }
        true
    }

    /// Answers a query: the value rows whose full key matches `pattern` and
    /// whose physical time lies within the inclusive bounds; with neither
    /// bound, only the latest value row of each key.
    pub fn query(&self, pattern: &str, start: Option<u128>, stop: Option<u128>) -> (r: Vec<Record>)
        ensures
            r@.map_values(|x: Record| x@) == query_spec(
                self.rows_view(),
                self.prefix_view(),
                pattern@,
                opt_time(start),
                opt_time(stop),
            ),
    {
        let ghost all = self.rows_view();
        let prefix = self.prefix_str();
        let latest_only = start.is_none() && stop.is_none();
        let mut out: Vec<Record> = Vec::new();
        let n = self.rows.len();
        let mut i: usize = 0;
        while i < n
            invariant
                n == self.rows@.len(),
                i <= n,
                all == self.rows_view(),
                opt_string_view(prefix) == self.prefix_view(),
                latest_only == (start is None && stop is None),
                out@.map_values(|x: Record| x@) == query_upto(
                    all,
                    i as int,
                    self.prefix_view(),
                    pattern@,
                    opt_time(start),
                    opt_time(stop),
                ),
            decreases n - i,
        {
            let row = &self.rows[i];
            let mut take = row.kind == RowKind::Put;
            let mut full = String::new();
            if take {
                full = full_key(prefix, row.key.as_str());
                take = matches_pattern(pattern, full.as_str());
            }
            if take {
                take = match start {
                    Some(s) => s <= row.time,
                    None => true,
                } && match stop {
                    Some(e) => row.time <= e,
                    None => true,
                };
            }
            if take && latest_only {
                let mut j: usize = 0;
                while j < n
                    invariant
                        n == self.rows@.len(),
                        i < n,
                        j <= n,
                        all == self.rows_view(),
                        take ==> forall|l: int|
                            0 <= l < j && all[l].kind == RowKind::Put && all[l].key == all[i as int].key
                                ==> all[l].time < all[i as int].time || (all[l].time == all[i as int].time
                                    && l <= i),
                        !take ==> !is_latest(all, i as int),
                    decreases n - j,
                {
                    let other = &self.rows[j];
                    if other.kind == RowKind::Put && other.key == self.rows[i].key && (other.time
                        > self.rows[i].time || (other.time == self.rows[i].time && j > i)) {
                        take = false;
                        assert(all[j as int] == self.rows@[j as int]@);
                        assert(all[i as int] == self.rows@[i as int]@);
                        assert(all[j as int].kind == RowKind::Put && all[j as int].key == all[i as int].key);
                    }
                    j = j + 1;
                }
            }
            assert(take == selected(all, i as int, self.prefix_view(), pattern@, opt_time(start), opt_time(stop)));
            if take {
                let ghost prev = out@.map_values(|x: Record| x@);
                out.push(Record { key: full, value: row.value.clone(), timestamp: row.stamp });
                assert(out@.map_values(|x: Record| x@) =~= prev.push(record_of(self.prefix_view(), all[i as int])));
            }
            i = i + 1;
        }
        out
    }
}

} // verus!
