//! Decisions of the ingestion engine, independent of where rows are kept:
//! which series a change goes to, and whether a put is written, dropped as
//! stale, or refused.
use vstd::prelude::*;
use crate::stamp::{LogicalTime, stamp_lt};
use crate::text::{chars_of, push_range, string_of};

verus! {

/// The kind of a change event.
#[derive(Clone, Copy, Debug, PartialEq, Eq, Structural)]
pub enum ChangeKind {
    Put,
    Delete,
    Patch,
}

/// What becomes of a put event.
#[derive(Clone, Copy, Debug, PartialEq, Eq, Structural)]
pub enum PutVerdict {
    /// Older than the latest tombstone of its key: dropped without error.
    Stale,
    /// Carries no value: refused.
    MissingValue,
    /// Written as a value row.
    Write,
}

pub open spec fn put_verdict_spec(stamp: LogicalTime, tombstone: Option<LogicalTime>, has_value: bool) -> PutVerdict {
    match tombstone {
        Some(t) if stamp_lt(stamp, t) => PutVerdict::Stale,
        _ => if has_value { PutVerdict::Write } else { PutVerdict::MissingValue },
    }
}

/// Decides a put with logical time `stamp` against the latest tombstone of
/// its key, if any: a put older than the tombstone is stale; otherwise it is
/// written when it carries a value.
pub fn put_verdict(stamp: &LogicalTime, tombstone: Option<LogicalTime>, has_value: bool) -> (r: PutVerdict)
    ensures
        r == put_verdict_spec(*stamp, tombstone, has_value),
{
    match tombstone {
        Some(t) => {
            if stamp.precedes(&t) {
                return PutVerdict::Stale;
            }
        },
        None => {},
    }
    if has_value {
        PutVerdict::Write
    } else {
        PutVerdict::MissingValue
    }
}

pub open spec fn is_prefix(p: Seq<char>, s: Seq<char>) -> bool {
    p.len() <= s.len() && s.subrange(0, p.len() as int) == p
}

/// The series name of a key: the key with the storage's prefix removed, or
/// nothing when the key does not start with the prefix.
pub open spec fn measurement_spec(path: Seq<char>, prefix: Option<Seq<char>>) -> Option<Seq<char>> {
    match prefix {
        None => Some(path),
        Some(p) => if is_prefix(p, path) {
            Some(path.subrange(p.len() as int, path.len() as int))
        } else {
            None
        },
    }
}

/// The key of a series name: the storage's prefix, if any, then the name.
pub open spec fn full_key_spec(prefix: Option<Seq<char>>, name: Seq<char>) -> Seq<char> {
    match prefix {
        None => name,
        Some(p) => p + name,
    }
}

/// The view of an optional string slice.
pub open spec fn opt_string_view(o: Option<&str>) -> Option<Seq<char>> {
    match o {
        Some(s) => Some(s@),
        None => None,
    }
}

/// Strips the storage's prefix from the key of an incoming change.
pub fn measurement_of(path: &str, prefix: Option<&str>) -> (r: Option<String>)
    ensures
        match measurement_spec(path@, opt_string_view(prefix)) {
            Some(m) => r is Some && r->0@ == m,
            None => r is None,
        },
{
    let cs = chars_of(path);
    match prefix {
        None => Some(string_of(&cs)),
        Some(p) => {
            let ps = chars_of(p);
            if ps.len() > cs.len() {
                return None;
            }
            let mut i: usize = 0;
            while i < ps.len()
                invariant
                    ps@ == p@,
                    cs@ == path@,
                    prefix == Some(p),
                    ps@.len() <= cs@.len(),
                    i <= ps@.len(),
                    forall|k: int| 0 <= k < i ==> ps@[k] == cs@[k],
                decreases ps@.len() - i,
            {
                if ps[i] != cs[i] {
                    assert(cs@.subrange(0, ps@.len() as int)[i as int] == cs@[i as int]);
                    assert(cs@.subrange(0, ps@.len() as int) != ps@);
                    return None;
                }
                i = i + 1;
            }
            assert(cs@.subrange(0, ps@.len() as int) =~= ps@);
            let mut m = String::new();
            push_range(&mut m, &cs, ps.len(), cs.len());
            assert(m@ =~= cs@.subrange(ps@.len() as int, cs@.len() as int));
            Some(m)
        },
    }
}

/// Rebuilds the key of a stored series name by putting the storage's prefix
/// back in front of it.
pub fn full_key(prefix: Option<&str>, name: &str) -> (r: String)
    ensures
        r@ == full_key_spec(opt_string_view(prefix), name@),
{
    let mut r = String::new();
    match prefix {
        Some(p) => r.append(p),
        None => {},
    }
    r.append(name);
    assert(r@ =~= full_key_spec(opt_string_view(prefix), name@));
    r
}

} // verus!
