//! Translation of hierarchical key patterns into the store's regular
//! expression syntax, and the matching that such an expression performs.
//!
//! A pattern is a `/`-separated key in which `*` and `**` are wildcards. Both
//! wildcards become "any run of characters" (the segment boundary of `*` is
//! not kept), `/` becomes an escaped slash and every other character stands
//! for itself. The union of several patterns is grouped and the group is
//! anchored at both ends, so that each alternative must match a whole key.
use vstd::prelude::*;
use crate::text::{chars_of, push_all, string_of};

verus! {

/// The store-native expression for one pattern.
pub open spec fn translate_expr(p: Seq<char>) -> Seq<char>
    decreases p.len(),
{
    if p.len() == 0 {
        Seq::empty()
    } else if p[0] == '*' {
        if p.len() >= 2 && p[1] == '*' {
            seq!['.', '*'] + translate_expr(p.subrange(2, p.len() as int))
        } else {
            seq!['.', '*'] + translate_expr(p.subrange(1, p.len() as int))
        }
    } else if p[0] == '/' {
        seq!['\\', '/'] + translate_expr(p.subrange(1, p.len() as int))
    } else {
        seq![p[0]] + translate_expr(p.subrange(1, p.len() as int))
    }
}

/// The translated patterns, separated by `|`.
pub open spec fn join_exprs(ps: Seq<Seq<char>>) -> Seq<char>
    decreases ps.len(),
{
    if ps.len() == 0 {
        Seq::empty()
    } else if ps.len() == 1 {
        translate_expr(ps[0])
    } else {
        join_exprs(ps.drop_last()) + seq!['|'] + translate_expr(ps.last())
    }
}

/// The anchored union of the translated patterns: `/^(?:` ... `)$/`.
pub open spec fn influx_regex(ps: Seq<Seq<char>>) -> Seq<char> {
    seq!['/', '^', '(', '?', ':'] + join_exprs(ps) + seq![')', '$', '/']
}

/// The character views of a slice of patterns.
pub open spec fn views_of(ps: Seq<&str>) -> Seq<Seq<char>> {
    ps.map_values(|s: &str| s@)
}

/// Appends the translation of `p` to `out`.
fn push_translated(out: &mut String, p: &str)
    ensures
        final(out)@ == old(out)@ + translate_expr(p@),
{
    let cs = chars_of(p);
    let n = cs.len();
    let mut i: usize = 0;
    assert(cs@.subrange(0, n as int) =~= cs@);
    assert(out@ =~= old(out)@);
    while i < n
        invariant
            n == cs@.len(),
            cs@ == p@,
            i <= n,
            out@ + translate_expr(cs@.subrange(i as int, n as int)) == old(out)@ + translate_expr(p@),
        decreases n - i,
    {
        let ghost rest = cs@.subrange(i as int, n as int);
        let c = cs[i];
        if c == '*' {
            out.push('.');
            out.push('*');
            if i + 1 < n && cs[i + 1] == '*' {
                assert(rest.subrange(2, rest.len() as int) =~= cs@.subrange(i + 2, n as int));
                i = i + 2;
            } else {
                assert(rest.subrange(1, rest.len() as int) =~= cs@.subrange(i + 1, n as int));
                i = i + 1;
            }
        } else if c == '/' {
            out.push('\\');
            out.push('/');
            assert(rest.subrange(1, rest.len() as int) =~= cs@.subrange(i + 1, n as int));
            i = i + 1;
        } else {
            out.push(c);
            assert(rest.subrange(1, rest.len() as int) =~= cs@.subrange(i + 1, n as int));
            i = i + 1;
        }
    }
    assert(cs@.subrange(0, n as int) =~= p@);
    assert(translate_expr(cs@.subrange(n as int, n as int)) == Seq::<char>::empty());
    assert(out@ =~= old(out)@ + translate_expr(p@));
}

/// Translates one or more key patterns into a single anchored regular
/// expression of the store that matches the union of their keys.
pub fn path_exprs_to_influx_regex(path_exprs: &[&str]) -> (r: String)
    requires
        path_exprs@.len() >= 1,
    ensures
        r@ == influx_regex(views_of(path_exprs@)),
{
    let ghost ps = views_of(path_exprs@);
    let mut result = String::new();
    result.push('/');
    result.push('^');
    result.push('(');
    result.push('?');
    result.push(':');
    let mut i: usize = 0;
    while i < path_exprs.len()
        invariant
            ps == views_of(path_exprs@),
            i <= path_exprs@.len(),
            result@ == seq!['/', '^', '(', '?', ':'] + join_exprs(ps.subrange(0, i as int)),
        decreases path_exprs@.len() - i,
    {
        let ghost before = result@;
        if i != 0 {
            result.push('|');
        }
        push_translated(&mut result, path_exprs[i]);
        let ghost sub = ps.subrange(0, i + 1);
        assert(sub.drop_last() =~= ps.subrange(0, i as int));
        assert(sub.last() == path_exprs@[i as int]@);
        i = i + 1;
        assert(result@ =~= seq!['/', '^', '(', '?', ':'] + join_exprs(ps.subrange(0, i as int)));
    }
    result.push(')');
    result.push('$');
    result.push('/');
    assert(ps.subrange(0, path_exprs@.len() as int) =~= ps);
    assert(result@ =~= influx_regex(ps));
    result
}

/// Translating the same patterns twice gives the same native expression.
pub proof fn lemma_translation_deterministic(a: Seq<Seq<char>>, b: Seq<Seq<char>>)
    requires
        a =~= b,
    ensures
        influx_regex(a) == influx_regex(b),
{
}

} // verus!
