//! Weekdays, hours and patterns on event kinds.

use vstd::prelude::*;

use crate::text::{
    ends_with, ends_with_seq, occurs_at, same, starts_with, starts_with_seq,
};

verus! {

/// The weekday of a time in seconds since 1970-01-01, a Thursday; Sunday is 0.
pub open spec fn weekday_of(ts: nat) -> nat {
    (ts / 86400 + 4) % 7
}

/// The hour of the day (UTC) of a time in seconds.
pub open spec fn hour_of(ts: nat) -> nat {
    (ts % 86400) / 3600
}

/// Whether `kind` fits `pattern`: `*` and the empty pattern fit all, `prefix.*` fits what goes on
/// behind `prefix.`, anything else fits itself alone.
pub open spec fn kind_fits(pattern: Seq<char>, kind: Seq<char>) -> bool {
    if pattern == "*"@ || pattern.len() == 0 {
        true
    } else if ends_with_seq(pattern, ".*"@) {
        starts_with_seq(kind, pattern.drop_last()) && kind.len() >= pattern.len()
    } else {
        pattern == kind
    }
}

/// The weekday of a time in seconds since 1970-01-01; Sunday is 0.
pub fn weekday_from_unix(ts: u64) -> (r: u8)
    ensures
        r == weekday_of(ts as nat),
        r < 7,
{
    let days: u64 = ts / 86400;
    ((days + 4) % 7) as u8
}

/// The hour of the day (UTC) of a time in seconds.
pub fn hour_from_unix(ts: u64) -> (r: u8)
    ensures
        r == hour_of(ts as nat),
        r < 24,
{
    ((ts % 86400) / 3600) as u8
}

/// Whether `kind` fits `pattern`.
pub fn kind_matches(pattern: &str, kind: &str) -> (r: bool)
    ensures
        r == kind_fits(pattern@, kind@),
{
    if same(pattern, "*") || pattern.is_empty() {
        return true;
    }
    if ends_with(pattern, ".*") {
        proof {
            reveal_strlit(".*");
        }
        let n: usize = pattern.unicode_len();
        let prefix: &str = pattern.substring_char(0, n - 1);
        assert(prefix@ =~= pattern@.drop_last());
        return starts_with(kind, prefix) && kind.unicode_len() >= n;
    }
    same(pattern, kind)
}

/// `prefix.*` fits every kind made of `prefix`, a dot and at least one more character, and none
/// of those made of `prefix` alone or of `prefix` and a dot.
pub proof fn dot_star_needs_something_behind_the_dot(prefix: Seq<char>, rest: Seq<char>)
    ensures
        rest.len() > 0 ==> kind_fits(prefix + ".*"@, prefix + "."@ + rest),
        !kind_fits(prefix + ".*"@, prefix),
        !kind_fits(prefix + ".*"@, prefix + "."@),
{
    reveal_strlit(".*");
    reveal_strlit("*");
    reveal_strlit(".");
    let pattern = prefix + ".*"@;
    assert(pattern.len() >= 2);
    assert(pattern.subrange(pattern.len() - 2, pattern.len() as int) =~= ".*"@);
    assert(occurs_at(pattern, ".*"@, pattern.len() - 2));
    let kind = prefix + "."@ + rest;
    assert(kind.subrange(0, pattern.len() - 1) =~= pattern.drop_last());
    assert(rest.len() > 0 ==> occurs_at(kind, pattern.drop_last(), 0));
}

} // verus!
