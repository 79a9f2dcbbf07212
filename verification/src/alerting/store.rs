//! Tables of rows, each row under its own key.

use vstd::prelude::*;

use crate::text::same;

verus! {

/// What a table asks of its rows.
pub trait Row: Sized + View {
    /// The key of a row: no two rows of a table have the same.
    spec fn key(v: Self::V) -> Seq<char>;

    /// What the rows are listed by.
    spec fn rank(v: Self::V) -> int;

    fn row_key(&self) -> (r: &str)
        ensures
            r@ == Self::key(self@),
    ;

    fn row_rank(&self) -> (r: i128)
        ensures
            r == Self::rank(self@),
    ;

    fn copy_row(&self) -> (r: Self)
        ensures
            r@ == self@,
    ;
}

/// The views of rows, in order.
pub open spec fn rows_view<R: View>(s: Seq<R>) -> Seq<R::V> {
    Seq::new(s.len(), |i: int| s[i]@)
}

/// Where the row with key `k` stands.
pub open spec fn position_of<R: Row>(s: Seq<R::V>, k: Seq<char>) -> Option<int>
    decreases s.len(),
{
    if s.len() == 0 {
        None
    } else if R::key(s[0]) == k {
        Some(0)
    } else {
        match position_of::<R>(s.drop_first(), k) {
            Some(i) => Some(i + 1),
            None => None,
        }
    }
}

/// The row with key `k`.
pub open spec fn row_with<R: Row>(s: Seq<R::V>, k: Seq<char>) -> Option<R::V> {
    match position_of::<R>(s, k) {
        Some(i) => Some(s[i]),
        None => None,
    }
}

/// The rows after `v` took the place of the row with its key, or else came last.
pub open spec fn with_row<R: Row>(s: Seq<R::V>, v: R::V) -> Seq<R::V> {
    match position_of::<R>(s, R::key(v)) {
        Some(i) => s.update(i, v),
        None => s.push(v),
    }
}

/// The rows without the one that has key `k`.
pub open spec fn without_row<R: Row>(s: Seq<R::V>, k: Seq<char>) -> Seq<R::V> {
    match position_of::<R>(s, k) {
        Some(i) => s.remove(i),
        None => s,
    }
}

/// Whether no two rows have the same key.
pub open spec fn keys_distinct<R: Row>(s: Seq<R::V>) -> bool {
    forall|i: int, j: int|
        0 <= i < j < s.len() ==> R::key(#[trigger] s[i]) != R::key(#[trigger] s[j])
}

/// `s` with `v` behind all rows of the same or a lower rank.
pub open spec fn rank_insert<R: Row>(s: Seq<R::V>, v: R::V) -> Seq<R::V>
    decreases s.len(),
{
    if s.len() == 0 || R::rank(s.last()) <= R::rank(v) {
        s.push(v)
    } else {
        rank_insert::<R>(s.drop_last(), v).push(s.last())
    }
}

/// The rows by rank; rows of the same rank keep their order.
pub open spec fn by_rank<R: Row>(s: Seq<R::V>) -> Seq<R::V>
    decreases s.len(),
{
    if s.len() == 0 {
        Seq::empty()
    } else {
        rank_insert::<R>(by_rank::<R>(s.drop_last()), s.last())
    }
}

/// Whether ranks never go down along `s`.
pub open spec fn rank_sorted<R: Row>(s: Seq<R::V>) -> bool {
    forall|i: int, j: int| 0 <= i <= j < s.len() ==> R::rank(#[trigger] s[i]) <= R::rank(#[trigger] s[j])
}

pub proof fn lemma_position_of<R: Row>(s: Seq<R::V>, k: Seq<char>)
    ensures
        match position_of::<R>(s, k) {
            Some(i) => 0 <= i < s.len() && R::key(s[i]) == k && (forall|j: int|
                0 <= j < i ==> R::key(#[trigger] s[j]) != k),
            None => forall|j: int| 0 <= j < s.len() ==> R::key(#[trigger] s[j]) != k,
        },
    decreases s.len(),
{
    if s.len() == 0 {
    } else if R::key(s[0]) == k {
    } else {
        lemma_position_of::<R>(s.drop_first(), k);
        let rest = s.drop_first();
        match position_of::<R>(rest, k) {
            Some(i) => {
                assert(rest[i] == s[i + 1]);
                assert forall|j: int| 0 <= j < i + 1 implies R::key(#[trigger] s[j]) != k by {
                    if j > 0 {
                        assert(rest[j - 1] == s[j]);
                    }
                }
            },
            None => {
                assert forall|j: int| 0 <= j < s.len() implies R::key(#[trigger] s[j]) != k by {
                    if j > 0 {
                        assert(rest[j - 1] == s[j]);
                    }
                }
            },
        }
    }
}

pub proof fn lemma_rank_insert<R: Row>(s: Seq<R::V>, v: R::V)
    requires
        rank_sorted::<R>(s),
    ensures
        rank_sorted::<R>(rank_insert::<R>(s, v)),
        rank_insert::<R>(s, v).len() == s.len() + 1,
        rank_insert::<R>(s, v).to_multiset() == s.to_multiset().insert(v),
        s.len() > 0 && R::rank(v) <= R::rank(s.last()) ==> R::rank(rank_insert::<R>(s, v).last()) == R::rank(s.last()),
    decreases s.len(),
{
    broadcast use vstd::seq_lib::group_to_multiset_ensures;

    if s.len() == 0 || R::rank(s.last()) <= R::rank(v) {
    } else {
        lemma_rank_insert::<R>(s.drop_last(), v);
        let t = rank_insert::<R>(s.drop_last(), v);
        assert(s.drop_last().push(s.last()) =~= s);
        assert forall|i: int| 0 <= i < t.len() implies R::rank(#[trigger] t[i]) <= R::rank(s.last()) by {
            assert(R::rank(t[i]) <= R::rank(t.last()));
            if s.drop_last().len() > 0 {
                assert(R::rank(s[s.len() - 2]) <= R::rank(s[s.len() - 1]));
            }
        }
        assert(t.push(s.last()).to_multiset() =~= s.to_multiset().insert(v));
    }
}

/// Listing by rank keeps exactly the rows that are there and never lets the rank go down.
pub proof fn listing_is_sorted_and_complete<R: Row>(s: Seq<R::V>)
    ensures
        rank_sorted::<R>(by_rank::<R>(s)),
        by_rank::<R>(s).to_multiset() == s.to_multiset(),
        by_rank::<R>(s).len() == s.len(),
    decreases s.len(),
{
    broadcast use vstd::seq_lib::group_to_multiset_ensures;

    if s.len() > 0 {
        listing_is_sorted_and_complete::<R>(s.drop_last());
        lemma_rank_insert::<R>(by_rank::<R>(s.drop_last()), s.last());
        assert(s.drop_last().push(s.last()) =~= s);
    } else {
        assert(s =~= Seq::<R::V>::empty());
    }
}

/// After a row was put in, it is what its key leads to; what other keys lead to stays.
pub proof fn put_then_get<R: Row>(s: Seq<R::V>, v: R::V, k: Seq<char>)
    requires
        keys_distinct::<R>(s),
    ensures
        keys_distinct::<R>(with_row::<R>(s, v)),
        row_with::<R>(with_row::<R>(s, v), R::key(v)) == Some(v),
        k != R::key(v) ==> row_with::<R>(with_row::<R>(s, v), k) == row_with::<R>(s, k),
{
    let t = with_row::<R>(s, v);
    lemma_position_of::<R>(s, R::key(v));
    lemma_position_of::<R>(t, R::key(v));
    lemma_position_of::<R>(s, k);
    lemma_position_of::<R>(t, k);
    let at = match position_of::<R>(s, R::key(v)) {
        Some(i) => i,
        None => s.len() as int,
    };
    assert(t[at] == v);
    if k != R::key(v) {
        match position_of::<R>(t, k) {
            Some(j) => {
                assert(j != at);
                assert(t[j] == s[j]);
                let p = position_of::<R>(s, k);
                assert(p is Some);
                if p->0 != j {
                    assert(p->0 < j);
                    assert(t[p->0] == s[p->0]);
                }
            },
            None => {
                assert forall|j: int| 0 <= j < s.len() implies R::key(#[trigger] s[j]) != k by {
                    assert(t[j] == (if j == at {
                        v
                    } else {
                        s[j]
                    }));
                }
            },
        }
    }
}

/// After a row was taken out, its key leads to nothing; what other keys lead to stays.
pub proof fn remove_then_get<R: Row>(s: Seq<R::V>, gone: Seq<char>, k: Seq<char>)
    requires
        keys_distinct::<R>(s),
    ensures
        keys_distinct::<R>(without_row::<R>(s, gone)),
        row_with::<R>(without_row::<R>(s, gone), gone) is None,
        k != gone ==> row_with::<R>(without_row::<R>(s, gone), k) == row_with::<R>(s, k),
{
    let t = without_row::<R>(s, gone);
    lemma_position_of::<R>(s, gone);
    lemma_position_of::<R>(t, gone);
    lemma_position_of::<R>(s, k);
    lemma_position_of::<R>(t, k);
    match position_of::<R>(s, gone) {
        Some(at) => {
            assert forall|j: int| 0 <= j < t.len() implies #[trigger] t[j] == s[if j < at {
                j
            } else {
                j + 1
            }] by {}
            if k != gone {
                match position_of::<R>(s, k) {
                    Some(j) => {
                        let moved = if j < at {
                            j
                        } else {
                            j - 1
                        };
                        assert(t[moved] == s[j]);
                        let p = position_of::<R>(t, k);
                        assert(p is Some);
                        assert(t[p->0] == s[if p->0 < at {
                            p->0
                        } else {
                            p->0 + 1
                        }]);
                    },
                    None => {},
                }
            }
        },
        None => {},
    }
}

/// What of `s` meets `f`, in order.
pub open spec fn kept<V>(s: Seq<V>, f: spec_fn(V) -> bool) -> Seq<V>
    decreases s.len(),
{
    if s.len() == 0 {
        Seq::empty()
    } else if f(s.last()) {
        kept(s.drop_last(), f).push(s.last())
    } else {
        kept(s.drop_last(), f)
    }
}

/// The position of the first of `s` that meets `f`.
pub open spec fn first_index<V>(s: Seq<V>, f: spec_fn(V) -> bool) -> Option<int>
    decreases s.len(),
{
    if s.len() == 0 {
        None
    } else if f(s[0]) {
        Some(0)
    } else {
        match first_index(s.drop_first(), f) {
            Some(i) => Some(i + 1),
            None => None,
        }
    }
}

/// The first of `s` that meets `f`.
pub open spec fn first_of<V>(s: Seq<V>, f: spec_fn(V) -> bool) -> Option<V> {
    match first_index(s, f) {
        Some(i) => Some(s[i]),
        None => None,
    }
}

/// Whether any of `s` meets `f`.
pub open spec fn any_of<V>(s: Seq<V>, f: spec_fn(V) -> bool) -> bool {
    exists|i: int| 0 <= i < s.len() && f(#[trigger] s[i])
}

/// A first match is a match, and nothing in front of it is one.
pub proof fn lemma_first_index<V>(s: Seq<V>, f: spec_fn(V) -> bool)
    ensures
        match first_index(s, f) {
            Some(i) => 0 <= i < s.len() && f(s[i]) && (forall|j: int|
                0 <= j < i ==> !f(#[trigger] s[j])),
            None => forall|j: int| 0 <= j < s.len() ==> !f(#[trigger] s[j]),
        },
        (first_index(s, f) is Some) == any_of(s, f),
    decreases s.len(),
{
    if s.len() > 0 && !f(s[0]) {
        let rest = s.drop_first();
        lemma_first_index(rest, f);
        match first_index(rest, f) {
            Some(i) => {
                assert(rest[i] == s[i + 1]);
                assert forall|j: int| 0 <= j < i + 1 implies !f(#[trigger] s[j]) by {
                    if j > 0 {
                        assert(rest[j - 1] == s[j]);
                    }
                }
            },
            None => {
                assert forall|j: int| 0 <= j < s.len() implies !f(#[trigger] s[j]) by {
                    if j > 0 {
                        assert(rest[j - 1] == s[j]);
                    }
                }
            },
        }
    } else if s.len() > 0 {
        assert(f(s[0]));
    }
}

/// All that is kept meets the test and was there before; keeping a part keeps keys distinct.
pub proof fn lemma_kept<R: Row>(s: Seq<R::V>, f: spec_fn(R::V) -> bool)
    ensures
        kept(s, f).len() <= s.len(),
        forall|i: int|
            0 <= i < kept(s, f).len() ==> f(#[trigger] kept(s, f)[i]) && s.contains(kept(s, f)[i]),
        keys_distinct::<R>(s) ==> keys_distinct::<R>(kept(s, f)),
    decreases s.len(),
{
    if s.len() > 0 {
        let front = s.drop_last();
        lemma_kept::<R>(front, f);
        let k = kept(s, f);
        assert forall|i: int| 0 <= i < k.len() implies f(#[trigger] k[i]) && s.contains(k[i]) by {
            if i < kept(front, f).len() {
                assert(k[i] == kept(front, f)[i]);
                let j = choose|j: int| 0 <= j < front.len() && front[j] == k[i];
                assert(s[j] == k[i]);
            } else {
                assert(s[s.len() - 1] == k[i]);
            }
        }
        if keys_distinct::<R>(s) {
            assert forall|i: int, j: int| 0 <= i < j < front.len() implies R::key(#[trigger] front[i])
                != R::key(#[trigger] front[j]) by {
                assert(R::key(s[i]) != R::key(s[j]));
            }
            assert forall|i: int, j: int| 0 <= i < j < k.len() implies R::key(#[trigger] k[i])
                != R::key(#[trigger] k[j]) by {
                if j < kept(front, f).len() {
                    assert(k[i] == kept(front, f)[i] && k[j] == kept(front, f)[j]);
                } else {
                    assert(k[i] == kept(front, f)[i]);
                    let p = choose|p: int| 0 <= p < front.len() && front[p] == k[i];
                    assert(s[p] == k[i]);
                    assert(R::key(s[p]) != R::key(s[s.len() - 1]));
                }
            }
        }
    }
}

/// Keeping what meets a test drops the rest and nothing else, and leaves the order as it was.
pub proof fn keeping_is_filtering<V>(s: Seq<V>, f: spec_fn(V) -> bool)
    ensures
        kept(s, f) == s.filter(f),
        kept(s, f).to_multiset() == s.to_multiset().filter(f),
    decreases s.len(),
{
    broadcast use vstd::seq_lib::group_to_multiset_ensures;
    broadcast use vstd::multiset::group_multiset_axioms;

    reveal(Seq::filter);
    if s.len() > 0 {
        keeping_is_filtering(s.drop_last(), f);
        assert(s.drop_last().push(s.last()) =~= s);
        assert(kept(s, f).to_multiset() =~= s.to_multiset().filter(f));
    } else {
        assert(s =~= Seq::<V>::empty());
        assert(kept(s, f) =~= s.filter(f));
        assert(kept(s, f).to_multiset() =~= s.to_multiset().filter(f));
    }
}

/// What is kept of a listing by rank is listed by rank.
pub proof fn lemma_kept_sorted<R: Row>(s: Seq<R::V>, f: spec_fn(R::V) -> bool)
    requires
        rank_sorted::<R>(s),
    ensures
        rank_sorted::<R>(kept(s, f)),
    decreases s.len(),
{
    if s.len() > 0 {
        let front = s.drop_last();
        assert forall|i: int, j: int| 0 <= i <= j < front.len() implies R::rank(#[trigger] front[i])
            <= R::rank(#[trigger] front[j]) by {
            assert(R::rank(s[i]) <= R::rank(s[j]));
        }
        lemma_kept_sorted::<R>(front, f);
        lemma_kept::<R>(front, f);
        let k = kept(s, f);
        assert forall|i: int, j: int| 0 <= i <= j < k.len() implies R::rank(#[trigger] k[i]) <= R::rank(#[trigger] k[j]) by {
            if j < kept(front, f).len() {
                assert(k[i] == kept(front, f)[i] && k[j] == kept(front, f)[j]);
            } else if i < j {
                assert(k[i] == kept(front, f)[i]);
                assert(front.contains(k[i]));
                let m = choose|m: int| 0 <= m < front.len() && front[m] == k[i];
                assert(R::rank(s[m]) <= R::rank(s[s.len() - 1]));
            }
        }
    }
}

/// Listing by rank changes nothing where the ranks never go down.
pub proof fn lemma_by_rank_of_sorted<R: Row>(s: Seq<R::V>)
    requires
        rank_sorted::<R>(s),
    ensures
        by_rank::<R>(s) == s,
    decreases s.len(),
{
    if s.len() > 0 {
        let front = s.drop_last();
        assert forall|i: int, j: int| 0 <= i <= j < front.len() implies R::rank(#[trigger] front[i])
            <= R::rank(#[trigger] front[j]) by {
            assert(R::rank(s[i]) <= R::rank(s[j]));
        }
        lemma_by_rank_of_sorted::<R>(front);
        if front.len() > 0 {
            assert(R::rank(s[s.len() - 2]) <= R::rank(s[s.len() - 1]));
        }
        assert(front.push(s.last()) =~= s);
    } else {
        assert(s =~= Seq::<R::V>::empty());
    }
}

/// A listing holds what was there, and keeps keys distinct.
pub proof fn lemma_listing_keys<R: Row>(rows: Seq<R::V>)
    requires
        keys_distinct::<R>(rows),
    ensures
        keys_distinct::<R>(by_rank::<R>(rows)),
        forall|i: int|
            0 <= i < by_rank::<R>(rows).len() ==> rows.contains(
                #[trigger] by_rank::<R>(rows)[i],
            ),
    decreases rows.len(),
{
    if rows.len() > 0 {
        let front = rows.drop_last();
        let v = rows.last();
        assert forall|i: int, j: int| 0 <= i < j < front.len() implies R::key(#[trigger] front[i]) != R::key(#[trigger] front[j]) by {
            assert(R::key(rows[i]) != R::key(rows[j]));
        }
        lemma_listing_keys::<R>(front);
        let s = by_rank::<R>(front);
        assert forall|i: int| 0 <= i < s.len() implies R::key(#[trigger] s[i]) != R::key(v) && rows.contains(s[i]) by {
            let m = choose|m: int| 0 <= m < front.len() && front[m] == s[i];
            assert(R::key(rows[m]) != R::key(rows[rows.len() - 1]));
        }
        lemma_insert_keys::<R>(s, v);
        let r = by_rank::<R>(rows);
        assert forall|i: int| 0 <= i < r.len() implies rows.contains(#[trigger] r[i]) by {
            if r[i] == v {
                assert(rows[rows.len() - 1] == v);
            } else {
                assert(s.contains(r[i]));
                let m = choose|m: int| 0 <= m < s.len() && s[m] == r[i];
                assert(rows.contains(s[m]));
            }
        }
    }
}

proof fn lemma_insert_keys<R: Row>(s: Seq<R::V>, v: R::V)
    requires
        keys_distinct::<R>(s),
        forall|i: int| 0 <= i < s.len() ==> R::key(#[trigger] s[i]) != R::key(v),
    ensures
        keys_distinct::<R>(rank_insert::<R>(s, v)),
        forall|i: int|
            0 <= i < rank_insert::<R>(s, v).len() ==> (#[trigger] rank_insert::<R>(
                s,
                v,
            )[i] == v || s.contains(rank_insert::<R>(s, v)[i])),
    decreases s.len(),
{
    let r = rank_insert::<R>(s, v);
    if s.len() == 0 || R::rank(s.last()) <= R::rank(v) {
        assert forall|i: int| 0 <= i < r.len() implies (#[trigger] r[i] == v || s.contains(r[i])) by {
            if i < s.len() {
                assert(s[i] == r[i]);
            }
        }
    } else {
        let front = s.drop_last();
        assert forall|i: int, j: int| 0 <= i < j < front.len() implies R::key(#[trigger] front[i]) != R::key(#[trigger] front[j]) by {
            assert(R::key(s[i]) != R::key(s[j]));
        }
        assert forall|i: int| 0 <= i < front.len() implies R::key(#[trigger] front[i]) != R::key(v) by {
            assert(R::key(s[i]) != R::key(v));
        }
        lemma_insert_keys::<R>(front, v);
        let t = rank_insert::<R>(front, v);
        assert forall|i: int| 0 <= i < t.len() implies (#[trigger] t[i] == v || s.contains(t[i])) && R::key(t[i])
            != R::key(s.last()) by {
            if t[i] != v {
                let m = choose|m: int| 0 <= m < front.len() && front[m] == t[i];
                assert(s[m] == t[i]);
                assert(R::key(s[m]) != R::key(s[s.len() - 1]));
            } else {
                assert(R::key(s[s.len() - 1]) != R::key(v));
            }
        }
        assert forall|i: int| 0 <= i < r.len() implies (#[trigger] r[i] == v || s.contains(r[i])) by {
            if i < t.len() {
                assert(r[i] == t[i]);
            } else {
                assert(s[s.len() - 1] == r[i]);
            }
        }
        assert forall|i: int, j: int| 0 <= i < j < r.len() implies R::key(#[trigger] r[i]) != R::key(#[trigger] r[j]) by {
            assert(r[i] == t[i]);
            if j < t.len() {
                assert(r[j] == t[j]);
            }
        }
    }
}

/// Copies of the rows that meet `f`, in order.
pub(crate) fn copy_kept<R: Row, F: Fn(&R) -> bool>(
    rows: &Vec<R>,
    f: F,
    Ghost(pred): Ghost<spec_fn(R::V) -> bool>,
) -> (r: Vec<R>)
    requires
        forall|x: &R| f.requires((x,)),
        forall|x: &R, b: bool| f.ensures((x,), b) ==> b == pred(x@),
    ensures
        rows_view(r@) == kept(rows_view(rows@), pred),
{
    let ghost all = rows_view(rows@);
    let mut out: Vec<R> = Vec::new();
    let mut i: usize = 0;
    assert(rows_view(out@) =~= kept(all.take(0), pred));
    while i < rows.len()
        invariant
            i <= rows@.len(),
            all == rows_view(rows@),
            forall|x: &R| f.requires((x,)),
            forall|x: &R, b: bool| f.ensures((x,), b) ==> b == pred(x@),
            rows_view(out@) == kept(all.take(i as int), pred),
        decreases rows@.len() - i,
    {
        let ghost had = rows_view(out@);
        assert(all.take(i + 1).drop_last() =~= all.take(i as int));
        assert(all.take(i + 1).last() == rows@[i as int]@);
        if f(&rows[i]) {
            out.push(rows[i].copy_row());
            assert(rows_view(out@) =~= had.push(rows@[i as int]@));
        }
        i += 1;
    }
    assert(all.take(i as int) =~= all);
    out
}

/// The position of the first item that meets `f`.
pub(crate) fn find_first<T: View, F: Fn(&T) -> bool>(
    items: &Vec<T>,
    f: F,
    Ghost(pred): Ghost<spec_fn(T::V) -> bool>,
) -> (r: Option<usize>)
    requires
        forall|x: &T| f.requires((x,)),
        forall|x: &T, b: bool| f.ensures((x,), b) ==> b == pred(x@),
    ensures
        match r {
            Some(i) => first_index(rows_view(items@), pred) == Some(i as int) && i < items@.len(),
            None => first_index(rows_view(items@), pred) is None,
        },
{
    let ghost all = rows_view(items@);
    proof {
        lemma_first_index(all, pred);
    }
    let mut i: usize = 0;
    while i < items.len()
        invariant
            i <= items@.len(),
            all == rows_view(items@),
            forall|x: &T| f.requires((x,)),
            forall|x: &T, b: bool| f.ensures((x,), b) ==> b == pred(x@),
            forall|j: int| 0 <= j < i ==> !pred(#[trigger] all[j]),
        decreases items@.len() - i,
    {
        assert(all[i as int] == items@[i as int]@);
        if f(&items[i]) {
            proof {
                lemma_first_index(all, pred);
            }
            return Some(i);
        }
        i += 1;
    }
    None
}

/// Rows in the order in which their keys first came in.
#[verifier::reject_recursive_types(R)]
pub struct Table<R: Row> {
    rows: Vec<R>,
}

impl<R: Row> View for Table<R> {
    type V = Seq<R::V>;

    closed spec fn view(&self) -> Seq<R::V> {
        rows_view(self.rows@)
    }
}

impl<R: Row> Table<R> {
    #[verifier::type_invariant]
    spec fn wf(self) -> bool {
        keys_distinct::<R>(rows_view(self.rows@))
    }

    /// A table without rows.
    pub fn new() -> (t: Self)
        ensures
            t@ == Seq::<R::V>::empty(),
    {
        let t: Table<R> = Table { rows: Vec::new() };
        assert(t@ =~= Seq::<R::V>::empty());
        t
    }

    /// The rows, in table order.
    pub fn rows(&self) -> (r: &Vec<R>)
        ensures
            rows_view(r@) == self@,
            keys_distinct::<R>(self@),
    {
        proof {
            use_type_invariant(self);
        }
        &self.rows
    }

    /// Takes `rows` in place of all that was there.
    pub fn replace_rows(&mut self, rows: Vec<R>)
        requires
            keys_distinct::<R>(rows_view(rows@)),
        ensures
            final(self)@ == rows_view(rows@),
    {
        *self = Table { rows };
    }

    /// Where the row with key `k` stands.
    pub fn position(&self, k: &str) -> (r: Option<usize>)
        ensures
            match r {
                Some(i) => position_of::<R>(self@, k@) == Some(i as int) && i < self@.len(),
                None => position_of::<R>(self@, k@) is None,
            },
    {
        let ghost all = self@;
        proof {
            lemma_position_of::<R>(all, k@);
        }
        let mut i: usize = 0;
        while i < self.rows.len()
            invariant
                i <= self.rows@.len(),
                all == rows_view(self.rows@),
                all == self@,
                forall|j: int| 0 <= j < i ==> R::key(#[trigger] all[j]) != k@,
            decreases self.rows@.len() - i,
        {
            assert(all[i as int] == self.rows@[i as int]@);
            if same(self.rows[i].row_key(), k) {
                proof {
                    lemma_position_of::<R>(all, k@);
                    assert(R::key(all[i as int]) == k@);
                }
                return Some(i);
            }
            i += 1;
        }
        None
    }

    /// The row with key `k`.
    pub fn get(&self, k: &str) -> (r: Option<&R>)
        ensures
            match r {
                Some(row) => row_with::<R>(self@, k@) == Some(row@),
                None => row_with::<R>(self@, k@) is None,
            },
    {
        match self.position(k) {
            Some(i) => Some(&self.rows[i]),
            None => None,
        }
    }

    /// Puts `row` in the place of the row with its key, or else last.
    pub fn put(&mut self, row: R)
        ensures
            final(self)@ == with_row::<R>(old(self)@, row@),
    {
        proof {
            use_type_invariant(&*self);
            put_then_get::<R>(self@, row@, R::key(row@));
        }
        let at: Option<usize> = self.position(row.row_key());
        let ghost before = self@;
        let ghost v = row@;
        let mut rows: Vec<R> = Vec::new();
        std::mem::swap(&mut rows, &mut self.rows);
        match at {
            Some(i) => {
                rows.set(i, row);
            },
            None => {
                rows.push(row);
            },
        }
        assert(rows_view(rows@) =~= with_row::<R>(before, v));
        self.rows = rows;
    }

    /// Takes out the row with key `k`; says whether there was one.
    pub fn remove(&mut self, k: &str) -> (r: bool)
        ensures
            final(self)@ == without_row::<R>(old(self)@, k@),
            r == (row_with::<R>(old(self)@, k@) is Some),
    {
        proof {
            use_type_invariant(&*self);
            remove_then_get::<R>(self@, k@, k@);
        }
        let at: Option<usize> = self.position(k);
        let ghost before = self@;
        match at {
            Some(i) => {
                let mut rows: Vec<R> = Vec::new();
                std::mem::swap(&mut rows, &mut self.rows);
                rows.remove(i);
                assert(rows_view(rows@) =~= without_row::<R>(before, k@));
                self.rows = rows;
                true
            },
            None => false,
        }
    }

    /// Takes out all rows; says how many there were.
    pub fn clear(&mut self) -> (r: usize)
        ensures
            final(self)@ == Seq::<R::V>::empty(),
            r == old(self)@.len(),
    {
        let n: usize = self.rows.len();
        *self = Table::new();
        n
    }

    /// The rows by rank; rows of the same rank in table order.
    pub fn list(&self) -> (r: Vec<R>)
        ensures
            rows_view(r@) == by_rank::<R>(self@),
    {
        let ghost all = self@;
        let mut out: Vec<R> = Vec::new();
        let mut i: usize = 0;
        assert(rows_view(out@) =~= by_rank::<R>(all.take(0)));
        while i < self.rows.len()
            invariant
                i <= self.rows@.len(),
                all == rows_view(self.rows@),
                out@.len() == i,
                rows_view(out@) == by_rank::<R>(all.take(i as int)),
            decreases self.rows@.len() - i,
        {
            let row: R = self.rows[i].copy_row();
            let ghost v = row@;
            assert(all.take(i + 1).drop_last() =~= all.take(i as int));
            assert(all.take(i + 1).last() == v);
            let rank: i128 = row.row_rank();
            let ghost sorted = rows_view(out@);
            let mut at: usize = i;
            assert(sorted.take(i as int) =~= sorted);
            assert(rank_insert::<R>(sorted, v) =~= rank_insert::<R>(sorted, v) + sorted.skip(
                i as int,
            ));
            while at > 0 && out[at - 1].row_rank() > rank
                invariant
                    at <= i,
                    out@.len() == i,
                    sorted == rows_view(out@),
                    rank == R::rank(v),
                    rank_insert::<R>(sorted, v) == rank_insert::<R>(sorted.take(at as int), v)
                        + sorted.skip(at as int),
                decreases at,
            {
                assert(sorted[at - 1] == out@[at - 1]@);
                assert(sorted.take(at as int).last() == sorted[at - 1]);
                assert(sorted.take(at as int).drop_last() =~= sorted.take(at - 1));
                assert(rank_insert::<R>(sorted.take(at - 1), v).push(sorted[at - 1]) + sorted.skip(
                    at as int,
                ) =~= rank_insert::<R>(sorted.take(at - 1), v) + sorted.skip(at - 1));
                at -= 1;
            }
            assert(at > 0 ==> sorted.take(at as int).last() == out@[at - 1]@);
            out.insert(at, row);
            assert(rows_view(out@) =~= sorted.take(at as int).push(v) + sorted.skip(at as int));
            i += 1;
        }
        assert(all.take(i as int) =~= all);
        out
    }
}

} // verus!
