//! Identifiers made at random.

use vstd::prelude::*;

use crate::json::texts_view;
use crate::text::{
    decimal, decimal_seq, is_blank_seq, is_space, join, join3, trim_start_seq,
};

verus! {

/// Whether `c` is a lower case hexadecimal digit.
pub open spec fn is_lower_hex(c: char) -> bool {
    '0' <= c <= '9' || 'a' <= c <= 'f'
}

/// Whether `s` is written as a random identifier: groups of 8, 4, 4, 4 and 12 digits, the third of
/// which begins with `4`.
pub open spec fn uuid_shape(s: Seq<char>) -> bool {
    &&& s.len() == 36
    &&& s[14] == '4'
    &&& forall|i: int|
        0 <= i < 36 ==> if i == 8 || i == 13 || i == 18 || i == 23 {
            #[trigger] s[i] == '-'
        } else {
            is_lower_hex(s[i])
        }
}

/// A new identifier: `uuid::Uuid::new_v4` in its usual notation. What is claimed is its notation;
/// which identifier comes is left to chance.
#[verifier::external_body]
pub fn gen_event_id() -> (r: String)
    ensures
        uuid_shape(r@),
{
    uuid::Uuid::new_v4().to_string()
}

/// Whether all of `ids` are written as random identifiers.
pub open spec fn all_uuids(ids: Seq<Seq<char>>) -> bool {
    forall|i: int| 0 <= i < ids.len() ==> uuid_shape(#[trigger] ids[i])
}

/// `n` new identifiers.
pub fn gen_event_ids(n: usize) -> (r: Vec<String>)
    ensures
        r@.len() == n,
        all_uuids(texts_view(r@)),
{
    let mut out: Vec<String> = Vec::new();
    let mut i: usize = 0;
    while i < n
        invariant
            i <= n,
            out@.len() == i,
            forall|k: int| 0 <= k < i ==> uuid_shape((#[trigger] out@[k])@),
        decreases n - i,
    {
        out.push(gen_event_id());
        i += 1;
    }
    out
}

proof fn lemma_trim_start_keeps_last(s: Seq<char>)
    requires
        s.len() > 0,
        !is_space(s.last()),
    ensures
        trim_start_seq(s).len() > 0,
        trim_start_seq(s).last() == s.last(),
    decreases s.len(),
{
    if is_space(s[0]) {
        assert(s.len() > 1);
        assert(s.drop_first().last() == s.last());
        lemma_trim_start_keeps_last(s.drop_first());
    }
}

/// An identifier made of the time in nanoseconds and a counter.
pub open spec fn time_id(prefix: Seq<char>, nanos: u64, n: u64) -> Seq<char> {
    prefix + decimal_seq(nanos as nat) + "-"@ + decimal_seq(n as nat)
}

/// An identifier made of the time in nanoseconds and a counter.
pub fn gen_time_id(prefix: &str, nanos: u64, n: u64) -> (r: String)
    ensures
        r@ == time_id(prefix@, nanos, n),
{
    join(join3(prefix, decimal(nanos).as_str(), "-").as_str(), decimal(n).as_str())
}

/// The number `n` counted on by `i`, from zero again behind the highest number.
pub open spec fn counted_on(n: u64, i: int) -> u64 {
    ((n + i) % 0x1_0000_0000_0000_0000) as u64
}

/// `id`, or `prefix` and a random identifier where `id` is blank.
pub open spec fn id_or_fresh(id: Seq<char>, prefix: Seq<char>, fresh: Seq<char>) -> Seq<char> {
    if is_blank_seq(id) {
        prefix + fresh
    } else {
        id
    }
}

} // verus!
