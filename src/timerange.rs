//! Time bounds of a query: quoting of absolute instants and the store's
//! time predicates.
//!
//! An absolute instant is four digits, `-`, two digits, `-`, two digits,
//! optionally followed by a space or `T`, a run of digits, `:` and `.`, and a
//! `Z`. Scanning from the left, each instant (with one optional quote before
//! and after it) is replaced by the instant between single quotes; all other
//! text, such as `now()` or a trailing `-1h`, is left untouched.
use vstd::prelude::*;
use crate::pattern::{influx_regex, views_of, path_exprs_to_influx_regex};
use crate::ingest::opt_string_view;
use crate::text::{chars_of, push_range};

verus! {

pub open spec fn is_digit(c: char) -> bool {
    '0' <= c && c <= '9'
}

/// A character that may continue the time-of-day part of an instant.
pub open spec fn is_time_char(c: char) -> bool {
    is_digit(c) || c == ':' || c == '.'
}

/// A calendar date `dddd-dd-dd` starts at index `i` of `s`.
pub open spec fn date_at(s: Seq<char>, i: int) -> bool {
    &&& 0 <= i
    &&& i + 10 <= s.len()
    &&& is_digit(s[i]) && is_digit(s[i + 1]) && is_digit(s[i + 2]) && is_digit(s[i + 3])
    &&& s[i + 4] == '-'
    &&& is_digit(s[i + 5]) && is_digit(s[i + 6])
    &&& s[i + 7] == '-'
    &&& is_digit(s[i + 8]) && is_digit(s[i + 9])
}

/// Length of the run of time characters starting at index `j`.
pub open spec fn run_len(s: Seq<char>, j: int) -> nat
    decreases s.len() - j,
{
    if 0 <= j < s.len() && is_time_char(s[j]) {
        1 + run_len(s, j + 1)
    } else {
        0
    }
}

/// End (exclusive) of the instant whose date starts at index `d`.
pub open spec fn instant_end(s: Seq<char>, d: int) -> int {
    let e = d + 10;
    let e1 = if e < s.len() && (s[e] == ' ' || s[e] == 'T') { e + 1 } else { e };
    let e2 = e1 + run_len(s, e1);
    if e2 < s.len() && s[e2] == 'Z' { e2 + 1 } else { e2 }
}

/// Index just past an optional closing quote at index `g`.
pub open spec fn quote_end(s: Seq<char>, g: int) -> int {
    if 0 <= g < s.len() && s[g] == '\'' { g + 1 } else { g }
}

/// A run of time characters never reaches past the end of the text.
pub proof fn lemma_run_len_bound(s: Seq<char>, j: int)
    requires
        0 <= j <= s.len(),
    ensures
        j + run_len(s, j) <= s.len(),
    decreases s.len() - j,
{
    if j < s.len() && is_time_char(s[j]) {
        lemma_run_len_bound(s, j + 1);
    }
}

/// An instant ends at least ten characters after its date starts, and
/// within the text.
pub proof fn lemma_instant_end_bound(s: Seq<char>, d: int)
    requires
        date_at(s, d),
    ensures
        d + 10 <= instant_end(s, d) <= s.len(),
{
    let e = d + 10;
    let e1 = if e < s.len() && (s[e] == ' ' || s[e] == 'T') { e + 1 } else { e };
    lemma_run_len_bound(s, e1);
}

/// The normalized form of `s` from index `i` on.
pub open spec fn norm_from(s: Seq<char>, i: int) -> Seq<char>
    decreases s.len() - i via norm_from_decreases
{
    if i < 0 || i >= s.len() {
        Seq::empty()
    } else if s[i] == '\'' && date_at(s, i + 1) {
        let g = instant_end(s, i + 1);
        seq!['\''] + s.subrange(i + 1, g) + seq!['\''] + norm_from(s, quote_end(s, g))
    } else if date_at(s, i) {
        let g = instant_end(s, i);
        seq!['\''] + s.subrange(i, g) + seq!['\''] + norm_from(s, quote_end(s, g))
    } else {
        seq![s[i]] + norm_from(s, i + 1)
    }
}

#[via_fn]
proof fn norm_from_decreases(s: Seq<char>, i: int) {
    if date_at(s, i + 1) {
        lemma_instant_end_bound(s, i + 1);
    }
    if date_at(s, i) {
        lemma_instant_end_bound(s, i);
    }
}

/// `s` with every absolute instant single-quoted exactly once.
pub open spec fn normalized(s: Seq<char>) -> Seq<char> {
    norm_from(s, 0)
}

fn is_digit_exec(c: char) -> (r: bool)
    ensures
        r == is_digit(c),
{
    '0' <= c && c <= '9'
}

fn date_at_exec(cs: &Vec<char>, i: usize) -> (r: bool)
    requires
        i <= cs@.len(),
    ensures
        r == date_at(cs@, i as int),
{
    if cs.len() - i < 10 {
        return false;
    }
    is_digit_exec(cs[i]) && is_digit_exec(cs[i + 1]) && is_digit_exec(cs[i + 2])
        && is_digit_exec(cs[i + 3]) && cs[i + 4] == '-' && is_digit_exec(cs[i + 5])
        && is_digit_exec(cs[i + 6]) && cs[i + 7] == '-' && is_digit_exec(cs[i + 8])
        && is_digit_exec(cs[i + 9])
}

fn instant_end_exec(cs: &Vec<char>, d: usize) -> (r: usize)
    requires
        date_at(cs@, d as int),
    ensures
        r as int == instant_end(cs@, d as int),
        d + 10 <= r <= cs@.len(),
{
    let n = cs.len();
    let e = d + 10;
    let e1 = if e < n && (cs[e] == ' ' || cs[e] == 'T') { e + 1 } else { e };
    let mut j: usize = e1;
    while j < n && (is_digit_exec(cs[j]) || cs[j] == ':' || cs[j] == '.')
        invariant
            n == cs@.len(),
            e1 <= j <= n,
            run_len(cs@, e1 as int) == (j - e1) + run_len(cs@, j as int),
        decreases n - j,
    {
        j = j + 1;
    }
    if j < n && cs[j] == 'Z' {
        j + 1
    } else {
        j
    }
}

/// Quotes every absolute instant in a time bound, leaving the surrounding
/// relative-time syntax as it is; an instant already between quotes keeps a
/// single pair of them.
pub fn normalize_rfc3339(time: &str) -> (r: String)
    ensures
        r@ == normalized(time@),
{
    let cs = chars_of(time);
    let n = cs.len();
    let mut out = String::new();
    let mut i: usize = 0;
    assert(out@ + norm_from(cs@, 0) =~= norm_from(cs@, 0));
    while i < n
        invariant
            n == cs@.len(),
            cs@ == time@,
            i <= n,
            out@ + norm_from(cs@, i as int) == norm_from(cs@, 0),
        decreases n - i,
    {
        let ghost before = out@;
        let quoted = cs[i] == '\'' && date_at_exec(&cs, i + 1);
        if quoted || date_at_exec(&cs, i) {
            let d = if quoted { i + 1 } else { i };
            let g = instant_end_exec(&cs, d);
            out.push('\'');
            push_range(&mut out, &cs, d, g);
            out.push('\'');
            let m = if g < n && cs[g] == '\'' { g + 1 } else { g };
            assert(m as int == quote_end(cs@, g as int));
            assert(norm_from(cs@, i as int) == seq!['\''] + cs@.subrange(d as int, g as int)
                + seq!['\''] + norm_from(cs@, m as int));
            assert(out@ + norm_from(cs@, m as int) =~= before + norm_from(cs@, i as int));
            i = m;
        } else {
            out.push(cs[i]);
            assert(out@ + norm_from(cs@, i + 1) =~= before + norm_from(cs@, i as int));
            i = i + 1;
        }
    }
    assert(out@ =~= normalized(time@));
    out
}

/// Text holding no instant from index `i` on is copied as it is.
proof fn lemma_norm_plain(s: Seq<char>, i: int)
    requires
        0 <= i <= s.len(),
        forall|j: int| i <= j < s.len() ==> !date_at(s, j),
    ensures
        norm_from(s, i) == s.subrange(i, s.len() as int),
    decreases s.len() - i,
{
    if i < s.len() {
        lemma_norm_plain(s, i + 1);
        assert(!date_at(s, i));
        assert(s.subrange(i, s.len() as int) =~= seq![s[i]] + s.subrange(i + 1, s.len() as int));
    } else {
        assert(s.subrange(i, s.len() as int) =~= Seq::<char>::empty());
    }
}

/// A purely relative bound, holding no absolute instant, is left unmodified.
pub proof fn lemma_relative_bound_unchanged(s: Seq<char>)
    requires
        forall|j: int| 0 <= j < s.len() ==> !date_at(s, j),
    ensures
        normalized(s) == s,
{
    lemma_norm_plain(s, 0);
    assert(s.subrange(0, s.len() as int) =~= s);
}

/// A bound made of an absolute instant followed by a relative offset (text
/// that neither closes a quote nor holds another instant) has the instant
/// quoted and nothing else changed.
pub proof fn lemma_instant_then_offset(s: Seq<char>)
    requires
        date_at(s, 0),
        instant_end(s, 0) < s.len() ==> s[instant_end(s, 0)] != '\'',
        forall|j: int| instant_end(s, 0) <= j < s.len() ==> !date_at(s, j),
    ensures
        normalized(s) == seq!['\''] + s.subrange(0, instant_end(s, 0)) + seq!['\'']
            + s.subrange(instant_end(s, 0), s.len() as int),
{
    let g = instant_end(s, 0);
    lemma_instant_end_bound(s, 0);
    assert(quote_end(s, g) == g);
    lemma_norm_plain(s, g);
}

/// An instant that is already between quotes is not quoted again.
pub proof fn lemma_quoted_instant_kept(s: Seq<char>)
    requires
        s.len() > 0,
        s[0] == '\'',
        date_at(s, 1),
        instant_end(s, 1) < s.len(),
        s[instant_end(s, 1)] == '\'',
        forall|j: int| instant_end(s, 1) < j < s.len() ==> !date_at(s, j),
    ensures
        normalized(s) == s,
{
    let g = instant_end(s, 1);
    lemma_instant_end_bound(s, 1);
    assert(quote_end(s, g) == g + 1);
    lemma_norm_plain(s, g + 1);
    assert(s =~= seq!['\''] + s.subrange(1, g) + seq!['\''] + s.subrange(g + 1, s.len() as int));
}

/// The text that follows the data source in a query: tombstone rows are
/// always left out; with no bound only the latest row of each series is
/// asked for, otherwise the given bounds are inclusive.
pub open spec fn clauses_spec(start: Option<Seq<char>>, stop: Option<Seq<char>>) -> Seq<char> {
    "WHERE kind!='DEL'"@ + match (start, stop) {
        (Some(a), Some(b)) => " AND time >= "@ + normalized(a) + " AND time <= "@ + normalized(b),
        (Some(a), None) => " AND time >= "@ + normalized(a),
        (None, Some(b)) => " AND time <= "@ + normalized(b),
        (None, None) => " ORDER BY time DESC LIMIT 1"@,
    }
}

/// The filtering and time-range clauses of a query whose optional bounds
/// are `starttime` and `stoptime`.
pub fn clauses_from_selector(starttime: Option<&str>, stoptime: Option<&str>) -> (r: String)
    ensures
        r@ == clauses_spec(opt_string_view(starttime), opt_string_view(stoptime)),
{
    let mut result = String::new();
    result.append("WHERE kind!='DEL'");
    match (starttime, stoptime) {
        (Some(start), Some(stop)) => {
            result.append(" AND time >= ");
            result.append(normalize_rfc3339(start).as_str());
            result.append(" AND time <= ");
            result.append(normalize_rfc3339(stop).as_str());
        },
        (Some(start), None) => {
            result.append(" AND time >= ");
            result.append(normalize_rfc3339(start).as_str());
        },
        (None, Some(stop)) => {
            result.append(" AND time <= ");
            result.append(normalize_rfc3339(stop).as_str());
        },
        (None, None) => {
            result.append(" ORDER BY time DESC LIMIT 1");
        },
    }
    assert(result@ =~= clauses_spec(opt_string_view(starttime), opt_string_view(stoptime)));
    result
}

/// The complete query text for rows whose series name matches one of the
/// patterns, within the optional bounds.
pub open spec fn select_spec(ps: Seq<Seq<char>>, start: Option<Seq<char>>, stop: Option<Seq<char>>) -> Seq<char> {
    "SELECT * FROM "@ + influx_regex(ps) + " "@ + clauses_spec(start, stop)
}

/// Builds the query that reads the rows matching `path_exprs` within the
/// optional bounds `starttime` and `stoptime`.
pub fn select_query(path_exprs: &[&str], starttime: Option<&str>, stoptime: Option<&str>) -> (r: String)
    requires
        path_exprs@.len() >= 1,
    ensures
        r@ == select_spec(views_of(path_exprs@), opt_string_view(starttime), opt_string_view(stoptime)),
{
    let mut q = String::new();
    q.append("SELECT * FROM ");
    q.append(path_exprs_to_influx_regex(path_exprs).as_str());
    q.append(" ");
    q.append(clauses_from_selector(starttime, stoptime).as_str());
    assert(q@ =~= select_spec(views_of(path_exprs@), opt_string_view(starttime), opt_string_view(stoptime)));
    q
}

} // verus!
