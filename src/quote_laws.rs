//! Idempotence of time-bound quoting.
use vstd::prelude::*;
use crate::timerange::{
    date_at, instant_end, is_digit, is_time_char, lemma_instant_end_bound, norm_from, normalized,
    quote_end, run_len,
};

verus! {

/// The text of `x` from index `i` on.
pub open spec fn tail(x: Seq<char>, i: int) -> Seq<char> {
    x.subrange(i, x.len() as int)
}

/// Equal tails stay equal when both start `a` characters later.
proof fn lemma_tail_shift(x: Seq<char>, i: int, y: Seq<char>, j: int, a: int)
    requires
        0 <= i <= x.len(),
        0 <= j <= y.len(),
        tail(x, i) == tail(y, j),
        0 <= a <= x.len() - i,
    ensures
        tail(x, i + a) == tail(y, j + a),
{
    assert(tail(x, i + a) =~= tail(x, i).subrange(a, tail(x, i).len() as int));
    assert(tail(y, j + a) =~= tail(y, j).subrange(a, tail(y, j).len() as int));
}

proof fn lemma_run_agree(x: Seq<char>, i: int, y: Seq<char>, j: int)
    requires
        0 <= i <= x.len(),
        0 <= j <= y.len(),
        tail(x, i) == tail(y, j),
    ensures
        run_len(x, i) == run_len(y, j),
    decreases x.len() - i,
{
    assert(tail(x, i).len() == x.len() - i);
    assert(tail(y, j).len() == y.len() - j);
    assert(x.len() - i == y.len() - j);
    if i < x.len() {
        assert(x[i] == tail(x, i)[0]);
        assert(y[j] == tail(y, j)[0]);
        lemma_tail_shift(x, i, y, j, 1);
        lemma_run_agree(x, i + 1, y, j + 1);
    }
}

proof fn lemma_char_agree(x: Seq<char>, i: int, y: Seq<char>, j: int, l: int)
    requires
        0 <= i <= x.len(),
        0 <= j <= y.len(),
        tail(x, i) == tail(y, j),
        0 <= l < x.len() - i,
    ensures
        j + l < y.len(),
        x[i + l] == y[j + l],
{
    assert(tail(x, i).len() == x.len() - i);
    assert(tail(y, j).len() == y.len() - j);
    assert(x[i + l] == tail(x, i)[l]);
    assert(y[j + l] == tail(y, j)[l]);
}

proof fn lemma_date_agree(x: Seq<char>, i: int, y: Seq<char>, j: int)
    requires
        0 <= i <= x.len(),
        0 <= j <= y.len(),
        tail(x, i) == tail(y, j),
    ensures
        date_at(x, i) == date_at(y, j),
{
    assert(tail(x, i).len() == x.len() - i);
    assert(tail(y, j).len() == y.len() - j);
    if x.len() - i >= 10 {
        lemma_char_agree(x, i, y, j, 0);
        lemma_char_agree(x, i, y, j, 1);
        lemma_char_agree(x, i, y, j, 2);
        lemma_char_agree(x, i, y, j, 3);
        lemma_char_agree(x, i, y, j, 4);
        lemma_char_agree(x, i, y, j, 5);
        lemma_char_agree(x, i, y, j, 6);
        lemma_char_agree(x, i, y, j, 7);
        lemma_char_agree(x, i, y, j, 8);
        lemma_char_agree(x, i, y, j, 9);
    }
}

proof fn lemma_instant_agree(x: Seq<char>, i: int, y: Seq<char>, j: int)
    requires
        0 <= i <= x.len(),
        0 <= j <= y.len(),
        tail(x, i) == tail(y, j),
        date_at(x, i),
    ensures
        instant_end(x, i) - i == instant_end(y, j) - j,
{
    lemma_date_agree(x, i, y, j);
    assert(tail(x, i).len() == x.len() - i);
    assert(tail(y, j).len() == y.len() - j);
    if x.len() - i > 10 {
        lemma_char_agree(x, i, y, j, 10);
    }
    let e = i + 10;
    let e1 = if e < x.len() && (x[e] == ' ' || x[e] == 'T') { e + 1 } else { e };
    lemma_tail_shift(x, i, y, j, e1 - i);
    lemma_run_agree(x, e1, y, j + (e1 - i));
    lemma_instant_end_bound(x, i);
    let e2 = e1 + run_len(x, e1);
    if e2 < x.len() {
        lemma_char_agree(x, i, y, j, e2 - i);
    }
}

/// Normalizing depends only on the text from the starting index on.
proof fn lemma_norm_agree(x: Seq<char>, i: int, y: Seq<char>, j: int)
    requires
        0 <= i <= x.len(),
        0 <= j <= y.len(),
        tail(x, i) == tail(y, j),
    ensures
        norm_from(x, i) == norm_from(y, j),
    decreases x.len() - i,
{
    assert(tail(x, i).len() == x.len() - i);
    assert(tail(y, j).len() == y.len() - j);
    assert(x.len() - i == y.len() - j);
    if i < x.len() {
        lemma_char_agree(x, i, y, j, 0);
        lemma_date_agree(x, i, y, j);
        lemma_tail_shift(x, i, y, j, 1);
        lemma_date_agree(x, i + 1, y, j + 1);
        if x[i] == '\'' && date_at(x, i + 1) {
            lemma_instant_agree(x, i + 1, y, j + 1);
            lemma_instant_end_bound(x, i + 1);
            let g = instant_end(x, i + 1);
            if g < x.len() {
                lemma_char_agree(x, i, y, j, g - i);
            }
            let m = quote_end(x, g);
            lemma_tail_shift(x, i, y, j, m - i);
            lemma_norm_agree(x, m, y, j + (m - i));
            assert forall|l: int| 0 <= l < g - (i + 1) implies #[trigger] x.subrange(i + 1, g)[l]
                == y.subrange(j + 1, j + (g - i))[l] by {
                lemma_char_agree(x, i, y, j, l + 1);
            }
            assert(x.subrange(i + 1, g) =~= y.subrange(j + 1, j + (g - i)));
        } else if date_at(x, i) {
            lemma_instant_agree(x, i, y, j);
            lemma_instant_end_bound(x, i);
            let g = instant_end(x, i);
            if g < x.len() {
                lemma_char_agree(x, i, y, j, g - i);
            }
            let m = quote_end(x, g);
            lemma_tail_shift(x, i, y, j, m - i);
            lemma_norm_agree(x, m, y, j + (m - i));
            assert forall|l: int| 0 <= l < g - i implies #[trigger] x.subrange(i, g)[l]
                == y.subrange(j, j + (g - i))[l] by {
                lemma_char_agree(x, i, y, j, l);
            }
            assert(x.subrange(i, g) =~= y.subrange(j, j + (g - i)));
        } else {
            lemma_norm_agree(x, i + 1, y, j + 1);
        }
    }
}

/// A character that may occur in a calendar date.
pub open spec fn is_date_char(c: char) -> bool {
    is_digit(c) || c == '-'
}

/// The first `l + 1` characters of `n` may all occur in a date.
pub open spec fn date_run(n: Seq<char>, l: int) -> bool {
    l < n.len() && forall|m: int| 0 <= m <= l ==> is_date_char(#[trigger] n[m])
}

/// Up to ten leading date characters of `n` are those of `s` from `i` on.
pub open spec fn prefix_agrees(s: Seq<char>, i: int, n: Seq<char>) -> bool {
    forall|l: int| 0 <= l < 10 && #[trigger] date_run(n, l) ==> i + l < s.len() && n[l] == s[i + l]
}

/// A date at the start of `n` is a date of `s` at `i`.
proof fn lemma_date_from_prefix(s: Seq<char>, i: int, n: Seq<char>)
    requires
        prefix_agrees(s, i, n),
        date_at(n, 0),
        0 <= i,
    ensures
        date_at(s, i),
{
    assert(date_run(n, 0));
    assert(date_run(n, 1));
    assert(date_run(n, 2));
    assert(date_run(n, 3));
    assert(date_run(n, 4));
    assert(date_run(n, 5));
    assert(date_run(n, 6));
    assert(date_run(n, 7));
    assert(date_run(n, 8));
    assert(date_run(n, 9));
}

proof fn lemma_run_len_facts(s: Seq<char>, j: int)
    requires
        0 <= j <= s.len(),
    ensures
        j + run_len(s, j) <= s.len(),
        forall|l: int| 0 <= l < run_len(s, j) ==> is_time_char(#[trigger] s[j + l]),
        j + run_len(s, j) < s.len() ==> !is_time_char(s[j + run_len(s, j)]),
    decreases s.len() - j,
{
    if j < s.len() && is_time_char(s[j]) {
        lemma_run_len_facts(s, j + 1);
        assert forall|l: int| 0 <= l < run_len(s, j) implies is_time_char(#[trigger] s[j + l]) by {
            if l > 0 {
                assert(s[j + l] == s[(j + 1) + (l - 1)]);
            }
        }
    }
}

proof fn lemma_run_len_exact(t: Seq<char>, j: int, r: int)
    requires
        0 <= j,
        0 <= r,
        j + r <= t.len(),
        forall|l: int| 0 <= l < r ==> is_time_char(#[trigger] t[j + l]),
        j + r < t.len() ==> !is_time_char(t[j + r]),
    ensures
        run_len(t, j) == r,
    decreases r,
{
    if r > 0 {
        assert(is_time_char(t[j + 0]));
        assert forall|l: int| 0 <= l < r - 1 implies is_time_char(#[trigger] t[(j + 1) + l]) by {
            assert(t[(j + 1) + l] == t[j + (l + 1)]);
        }
        lemma_run_len_exact(t, j + 1, r - 1);
    } else if j < t.len() {
        assert(!is_time_char(t[j + 0]));
    }
}

/// An instant followed by a quote is recognised again, ending where it
/// ended before.
proof fn lemma_instant_stable(s: Seq<char>, d: int, t: Seq<char>)
    requires
        date_at(s, d),
        t == s.subrange(d, instant_end(s, d)) + seq!['\''] + t.subrange(
            instant_end(s, d) - d + 1,
            t.len() as int,
        ),
    ensures
        date_at(t, 0),
        instant_end(t, 0) == instant_end(s, d) - d,
{
    let g = instant_end(s, d);
    lemma_instant_end_bound(s, d);
    assert forall|k: int| 0 <= k < g - d implies #[trigger] t[k] == s[d + k] by {
        assert(t[k] == s.subrange(d, g)[k]);
    }
    assert(t[g - d] == '\'');
    let e = d + 10;
    let e1 = if e < s.len() && (s[e] == ' ' || s[e] == 'T') { e + 1 } else { e };
    lemma_run_len_facts(s, e1);
    let r = run_len(s, e1) as int;
    let e2 = e1 + r;
    assert forall|l: int| 0 <= l < r implies is_time_char(#[trigger] t[(e1 - d) + l]) by {
        assert(t[(e1 - d) + l] == s[d + ((e1 - d) + l)]);
        assert(s[e1 + l] == s[d + ((e1 - d) + l)]);
    }
    if e2 < g {
        assert(t[e2 - d] == s[d + (e2 - d)]);
    }
    lemma_run_len_exact(t, e1 - d, r);
}

/// The step of the induction below at an instant.
proof fn lemma_idem_piece(s: Seq<char>, i: int)
    requires
        0 <= i < s.len(),
        (s[i] == '\'' && date_at(s, i + 1)) || date_at(s, i),
        ({
            let d = if s[i] == '\'' && date_at(s, i + 1) { i + 1 } else { i };
            let rest = norm_from(s, quote_end(s, instant_end(s, d)));
            norm_from(rest, 0) == rest
        }),
    ensures
        norm_from(norm_from(s, i), 0) == norm_from(s, i),
        prefix_agrees(s, i, norm_from(s, i)),
{
    let n = norm_from(s, i);
    let d = if s[i] == '\'' && date_at(s, i + 1) { i + 1 } else { i };
    lemma_instant_end_bound(s, d);
    let g = instant_end(s, d);
    let m = quote_end(s, g);
    let piece = s.subrange(d, g);
    let rest = norm_from(s, m);
    assert(n == seq!['\''] + piece + seq!['\''] + rest);
    assert forall|l: int| 0 <= l < 10 && #[trigger] date_run(n, l) implies i + l < s.len() && n[l]
        == s[i + l] by {
        assert(n[0] == '\'');
    }
    let t = piece + seq!['\''] + rest;
    assert(t.subrange(g - d + 1, t.len() as int) =~= rest);
    assert(t =~= s.subrange(d, g) + seq!['\''] + t.subrange(g - d + 1, t.len() as int));
    lemma_instant_stable(s, d, t);
    assert(tail(n, 1) =~= tail(t, 0));
    lemma_date_agree(n, 1, t, 0);
    lemma_instant_agree(n, 1, t, 0);
    let g2 = instant_end(n, 1);
    assert(g2 == 1 + (g - d));
    assert(n[g2] == '\'');
    assert(quote_end(n, g2) == g2 + 1);
    assert(tail(n, g2 + 1) =~= tail(rest, 0));
    lemma_norm_agree(n, g2 + 1, rest, 0);
    assert(rest.subrange(0, rest.len() as int) =~= rest);
    assert(n.subrange(1, g2) =~= piece);
    assert(norm_from(n, 0) == seq!['\''] + n.subrange(1, g2) + seq!['\''] + norm_from(n, g2 + 1));
    assert(norm_from(n, 0) =~= n);
}

/// Leading date characters of `[c] + n1` agree with the text when those of
/// `n1` agree with the text one place later.
proof fn lemma_prefix_plain(s: Seq<char>, i: int, n1: Seq<char>)
    requires
        0 <= i < s.len(),
        prefix_agrees(s, i + 1, n1),
    ensures
        prefix_agrees(s, i, seq![s[i]] + n1),
{
    let n = seq![s[i]] + n1;
    assert forall|l: int| 0 <= l < 10 && #[trigger] date_run(n, l) implies i + l < s.len() && n[l]
        == s[i + l] by {
        if l > 0 {
            assert forall|k: int| 0 <= k <= l - 1 implies is_date_char(#[trigger] n1[k]) by {
                assert(n[k + 1] == n1[k]);
                assert(0 <= k + 1 <= l);
            }
            assert(date_run(n1, l - 1));
            assert(n[l] == n1[l - 1]);
            assert(s[(i + 1) + (l - 1)] == s[i + l]);
        }
    }
}

/// The step of the induction below at a character outside any instant.
proof fn lemma_idem_plain(s: Seq<char>, i: int)
    requires
        0 <= i < s.len(),
        !((s[i] == '\'' && date_at(s, i + 1)) || date_at(s, i)),
        norm_from(norm_from(s, i + 1), 0) == norm_from(s, i + 1),
        prefix_agrees(s, i + 1, norm_from(s, i + 1)),
    ensures
        norm_from(norm_from(s, i), 0) == norm_from(s, i),
        prefix_agrees(s, i, norm_from(s, i)),
{
    let n = norm_from(s, i);
    let c = s[i];
    let n1 = norm_from(s, i + 1);
    assert(n == seq![c] + n1);
    lemma_prefix_plain(s, i, n1);
    if date_at(n, 0) {
        lemma_date_from_prefix(s, i, n);
    }
    assert(tail(n, 1) =~= tail(n1, 0));
    if c == '\'' && date_at(n, 1) {
        lemma_date_agree(n, 1, n1, 0);
        lemma_date_from_prefix(s, i + 1, n1);
    }
    lemma_norm_agree(n, 1, n1, 0);
    assert(n1.subrange(0, n1.len() as int) =~= n1);
    assert(norm_from(n, 0) =~= n);
}

/// Normalizing the normalized text from `i` on changes nothing, and its
/// leading date characters are those of the text.
proof fn lemma_norm_idem(s: Seq<char>, i: int)
    requires
        0 <= i <= s.len(),
    ensures
        norm_from(norm_from(s, i), 0) == norm_from(s, i),
        prefix_agrees(s, i, norm_from(s, i)),
    decreases s.len() - i,
{
    let n = norm_from(s, i);
    if i >= s.len() {
        assert(n.len() == 0);
        assert forall|l: int| 0 <= l < 10 && #[trigger] date_run(n, l) implies i + l < s.len() && n[l]
            == s[i + l] by {
            assert(l < n.len());
        }
    } else if (s[i] == '\'' && date_at(s, i + 1)) || date_at(s, i) {
        let d = if s[i] == '\'' && date_at(s, i + 1) { i + 1 } else { i };
        lemma_instant_end_bound(s, d);
        lemma_norm_idem(s, quote_end(s, instant_end(s, d)));
        lemma_idem_piece(s, i);
    } else {
        lemma_norm_idem(s, i + 1);
        lemma_idem_plain(s, i);
    }
}

/// Quoting a time bound a second time changes nothing: every instant of the
/// first result is already quoted exactly once.
pub proof fn lemma_quoting_idempotent(s: Seq<char>)
    ensures
        normalized(normalized(s)) == normalized(s),
{
    lemma_norm_idem(s, 0);
}

} // verus!
