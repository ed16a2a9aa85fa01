//! Text of the store statements that carry the engine's rules, and the
//! reclamation decision taken on the outcome of the value-row check.
use vstd::prelude::*;
use crate::store::RowKind;

verus! {

/// The decimal digit of `d`, which lies in `0..10`.
pub open spec fn digit_char(d: int) -> char {
    if d == 0 { '0' }
    else if d == 1 { '1' }
    else if d == 2 { '2' }
    else if d == 3 { '3' }
    else if d == 4 { '4' }
    else if d == 5 { '5' }
    else if d == 6 { '6' }
    else if d == 7 { '7' }
    else if d == 8 { '8' }
    else { '9' }
}

/// The decimal numeral of `n`, without leading zeros.
pub open spec fn decimal(n: nat) -> Seq<char>
    decreases n,
{
    if n < 10 {
        seq![digit_char(n as int)]
    } else {
        decimal(n / 10) + seq![digit_char(n as int % 10)]
    }
}

fn digit_exec(d: u128) -> (r: char)
    requires
        d < 10,
    ensures
        r == digit_char(d as int),
{
    if d == 0 { '0' }
    else if d == 1 { '1' }
    else if d == 2 { '2' }
    else if d == 3 { '3' }
    else if d == 4 { '4' }
    else if d == 5 { '5' }
    else if d == 6 { '6' }
    else if d == 7 { '7' }
    else if d == 8 { '8' }
    else { '9' }
}

/// Appends the decimal numeral of `n` to `out`.
pub fn push_decimal(out: &mut String, n: u128)
    ensures
        final(out)@ == old(out)@ + decimal(n as nat),
    decreases n,
{
    if n >= 10 {
        push_decimal(out, n / 10);
    }
    out.push(digit_exec(n % 10));
    assert(final(out)@ =~= old(out)@ + decimal(n as nat));
}

/// The tag value that marks a row of the given kind.
pub open spec fn kind_tag_spec(kind: RowKind) -> Seq<char> {
    match kind {
        RowKind::Put => "PUT"@,
        RowKind::Del => "DEL"@,
    }
}

/// The tag value that marks a row of the given kind.
pub fn kind_tag(kind: RowKind) -> (r: &'static str)
    ensures
        r@ == kind_tag_spec(kind),
{
    match kind {
        RowKind::Put => "PUT",
        RowKind::Del => "DEL",
    }
}

pub open spec fn tombstone_lookup_spec(m: Seq<char>) -> Seq<char> {
    "SELECT \"timestamp\" FROM \""@ + m + "\" WHERE kind='DEL' ORDER BY time DESC LIMIT 1"@
}

/// The statement that reads the logical time of the latest tombstone row of
/// series `measurement`.
pub fn tombstone_lookup_query(measurement: &str) -> (r: String)
    ensures
        r@ == tombstone_lookup_spec(measurement@),
{
    let mut q = String::new();
    q.append("SELECT \"timestamp\" FROM \"");
    q.append(measurement);
    q.append("\" WHERE kind='DEL' ORDER BY time DESC LIMIT 1");
    assert(q@ =~= tombstone_lookup_spec(measurement@));
    q
}

pub open spec fn purge_spec(m: Seq<char>, time: nat) -> Seq<char> {
    "DELETE FROM \""@ + m + "\" WHERE time < "@ + decimal(time)
}

/// The statement that removes every row of series `measurement` whose
/// physical time is strictly below `time`.
pub fn purge_query(measurement: &str, time: u128) -> (r: String)
    ensures
        r@ == purge_spec(measurement@, time as nat),
{
    let mut q = String::new();
    q.append("DELETE FROM \"");
    q.append(measurement);
    q.append("\" WHERE time < ");
    push_decimal(&mut q, time);
    assert(q@ =~= purge_spec(measurement@, time as nat));
    q
}

pub open spec fn value_row_check_spec(m: Seq<char>) -> Seq<char> {
    "SELECT \"kind\" FROM \""@ + m + "\" WHERE kind!='DEL' LIMIT 1"@
}

/// The statement that looks for one value row of series `measurement`.
pub fn value_row_check_query(measurement: &str) -> (r: String)
    ensures
        r@ == value_row_check_spec(measurement@),
{
    let mut q = String::new();
    q.append("SELECT \"kind\" FROM \"");
    q.append(measurement);
    q.append("\" WHERE kind!='DEL' LIMIT 1");
    assert(q@ =~= value_row_check_spec(measurement@));
    q
}

pub open spec fn drop_series_spec(m: Seq<char>) -> Seq<char> {
    "DROP MEASUREMENT \""@ + m + "\""@
}

/// The statement that drops every row of series `measurement`.
pub fn drop_series_query(measurement: &str) -> (r: String)
    ensures
        r@ == drop_series_spec(measurement@),
{
    let mut q = String::new();
    q.append("DROP MEASUREMENT \"");
    q.append(measurement);
    q.append("\"");
    assert(q@ =~= drop_series_spec(measurement@));
    q
}

/// What the value-row check of a tombstoned series found.
#[derive(Clone, Copy, Debug, PartialEq, Eq, Structural)]
pub enum ValueRowCheck {
    /// A value row was written after the deletion.
    Found,
    /// The series holds tombstone rows only.
    NoneFound,
    /// The check could not be made or read.
    Failed,
}

/// Whether reclamation drops the series: only when the check ran and found
/// no value row; a failed check leaves the rows in place.
pub fn reclaim_decision(check: ValueRowCheck) -> (r: bool)
    ensures
        r == (check == ValueRowCheck::NoneFound),
{
    match check {
        ValueRowCheck::NoneFound => true,
        _ => false,
    }
}

} // verus!
