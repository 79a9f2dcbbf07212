//! Orders on sequences, sorting, and lists kept in order without repetitions.

use vstd::prelude::*;

use crate::alerting::store::rows_view;

verus! {

/// Whether `less` puts any two different values in order, one before the other.
pub open spec fn strict_total<T>(less: spec_fn(T, T) -> bool) -> bool {
    &&& forall|x: T| !#[trigger] less(x, x)
    &&& forall|x: T, y: T| x == y || #[trigger] less(x, y) || less(y, x)
    &&& forall|x: T, y: T, z: T| #[trigger] less(x, y) && #[trigger] less(y, z) ==> less(x, z)
}

/// Whether `a` stands before `b` in the order of dictionaries.
pub open spec fn lex_before<T>(a: Seq<T>, b: Seq<T>, less: spec_fn(T, T) -> bool) -> bool
    decreases a.len(),
{
    if b.len() == 0 {
        false
    } else if a.len() == 0 {
        true
    } else if a[0] == b[0] {
        lex_before(a.drop_first(), b.drop_first(), less)
    } else {
        less(a[0], b[0])
    }
}

/// Characters by code point.
pub open spec fn char_order() -> spec_fn(char, char) -> bool {
    |a: char, b: char| a < b
}

/// Texts by code points.
pub open spec fn text_order() -> spec_fn(Seq<char>, Seq<char>) -> bool {
    |a: Seq<char>, b: Seq<char>| lex_before(a, b, char_order())
}

/// Lists of texts by their texts.
pub open spec fn texts_order() -> spec_fn(Seq<Seq<char>>, Seq<Seq<char>>) -> bool {
    |a: Seq<Seq<char>>, b: Seq<Seq<char>>| lex_before(a, b, text_order())
}

proof fn lemma_lex_irreflexive<T>(a: Seq<T>, less: spec_fn(T, T) -> bool)
    ensures
        !lex_before(a, a, less),
    decreases a.len(),
{
    if a.len() > 0 {
        lemma_lex_irreflexive(a.drop_first(), less);
    }
}

proof fn lemma_lex_total<T>(a: Seq<T>, b: Seq<T>, less: spec_fn(T, T) -> bool)
    requires
        strict_total(less),
    ensures
        a == b || lex_before(a, b, less) || lex_before(b, a, less),
    decreases a.len(),
{
    if a.len() > 0 && b.len() > 0 {
        if a[0] == b[0] {
            lemma_lex_total(a.drop_first(), b.drop_first(), less);
            if a.drop_first() == b.drop_first() {
                assert(a =~= seq![a[0]] + a.drop_first());
                assert(b =~= seq![b[0]] + b.drop_first());
            }
        } else {
            assert(less(a[0], b[0]) || less(b[0], a[0]));
        }
    } else if a.len() == 0 && b.len() == 0 {
        assert(a =~= b);
    }
}

proof fn lemma_lex_transitive<T>(a: Seq<T>, b: Seq<T>, c: Seq<T>, less: spec_fn(T, T) -> bool)
    requires
        strict_total(less),
        lex_before(a, b, less),
        lex_before(b, c, less),
    ensures
        lex_before(a, c, less),
    decreases a.len(),
{
    if a.len() > 0 {
        if a[0] == b[0] && b[0] == c[0] {
            lemma_lex_transitive(a.drop_first(), b.drop_first(), c.drop_first(), less);
        } else if a[0] == b[0] || b[0] == c[0] {
        } else {
            assert(less(a[0], b[0]) && less(b[0], c[0]));
            assert(less(a[0], c[0]));
            assert(!less(a[0], a[0]));
        }
    }
}

/// The order of dictionaries puts any two different sequences in order.
pub proof fn lemma_lex_strict_total<T>(less: spec_fn(T, T) -> bool)
    requires
        strict_total(less),
    ensures
        strict_total(|a: Seq<T>, b: Seq<T>| lex_before(a, b, less)),
{
    let lex = |a: Seq<T>, b: Seq<T>| lex_before(a, b, less);
    assert forall|a: Seq<T>| !#[trigger] lex(a, a) by {
        lemma_lex_irreflexive(a, less);
    }
    assert forall|a: Seq<T>, b: Seq<T>| a == b || #[trigger] lex(a, b) || lex(b, a) by {
        lemma_lex_total(a, b, less);
    }
    assert forall|a: Seq<T>, b: Seq<T>, c: Seq<T>| #[trigger] lex(a, b) && #[trigger] lex(
        b,
        c,
    ) implies lex(a, c) by {
        lemma_lex_transitive(a, b, c, less);
    }
}

/// Texts, and lists of texts, are in order whenever they differ.
pub proof fn lemma_text_orders()
    ensures
        strict_total(text_order()),
        strict_total(texts_order()),
{
    assert(strict_total(char_order()));
    lemma_lex_strict_total(char_order());
    assert(text_order() =~= |a: Seq<char>, b: Seq<char>| lex_before(a, b, char_order()));
    lemma_lex_strict_total(text_order());
    assert(texts_order() =~= |a: Seq<Seq<char>>, b: Seq<Seq<char>>| lex_before(a, b, text_order()));
}

/// Whether each of `s` stands before all that follow it.
pub open spec fn ascending<T>(s: Seq<T>, less: spec_fn(T, T) -> bool) -> bool {
    forall|i: int, j: int| 0 <= i < j < s.len() ==> less(#[trigger] s[i], #[trigger] s[j])
}

/// `s` with `x` in its place, unless something of the same place is there.
pub open spec fn ordered_insert<T>(s: Seq<T>, x: T, less: spec_fn(T, T) -> bool) -> Seq<T>
    decreases s.len(),
{
    if s.len() == 0 || less(s.last(), x) {
        s.push(x)
    } else if !less(x, s.last()) {
        s
    } else {
        ordered_insert(s.drop_last(), x, less).push(s.last())
    }
}

/// The values of `s` in order; of values of the same place the first.
pub open spec fn ordered<T>(s: Seq<T>, less: spec_fn(T, T) -> bool) -> Seq<T>
    decreases s.len(),
{
    if s.len() == 0 {
        Seq::empty()
    } else {
        ordered_insert(ordered(s.drop_last(), less), s.last(), less)
    }
}

proof fn lemma_ordered_insert<T>(s: Seq<T>, x: T, less: spec_fn(T, T) -> bool)
    requires
        strict_total(less),
        ascending(s, less),
    ensures
        ascending(ordered_insert(s, x, less), less),
        forall|y: T| #[trigger] ordered_insert(s, x, less).contains(y) <==> (s.contains(y) || y == x),
    decreases s.len(),
{
    let r = ordered_insert(s, x, less);
    if s.len() == 0 || less(s.last(), x) {
        assert forall|i: int, j: int| 0 <= i < j < r.len() implies less(
            #[trigger] r[i],
            #[trigger] r[j],
        ) by {
            if j == s.len() && i < s.len() - 1 {
                assert(less(s[i], s[s.len() - 1]));
            }
        }
        assert forall|y: T| #[trigger] r.contains(y) <==> (s.contains(y) || y == x) by {
            assert(r[s.len() as int] == x);
            if s.contains(y) {
                let k = choose|k: int| 0 <= k < s.len() && s[k] == y;
                assert(r[k] == y);
            }
        }
    } else if !less(x, s.last()) {
        assert(x == s.last());
        assert(s[s.len() - 1] == x);
    } else {
        let front = s.drop_last();
        lemma_ordered_insert(front, x, less);
        let t = ordered_insert(front, x, less);
        assert forall|i: int, j: int| 0 <= i < j < r.len() implies less(
            #[trigger] r[i],
            #[trigger] r[j],
        ) by {
            if j == t.len() {
                assert(t.contains(t[i]));
                if t[i] != x {
                    let k = choose|k: int| 0 <= k < front.len() && front[k] == t[i];
                    assert(less(s[k], s[s.len() - 1]));
                }
            } else {
                assert(less(t[i], t[j]));
            }
        }
        assert forall|y: T| #[trigger] r.contains(y) <==> (s.contains(y) || y == x) by {
            assert(r[t.len() as int] == s.last());
            if r.contains(y) {
                let k = choose|k: int| 0 <= k < r.len() && r[k] == y;
                if k < t.len() {
                    assert(t.contains(t[k]));
                    if y != x {
                        let m = choose|m: int| 0 <= m < front.len() && front[m] == y;
                        assert(s[m] == y);
                    }
                } else {
                    assert(s[s.len() - 1] == y);
                }
            }
            if s.contains(y) || y == x {
                if y != s.last() {
                    if s.contains(y) {
                        let m = choose|m: int| 0 <= m < s.len() && s[m] == y;
                        assert(front[m] == y);
                    }
                    assert(t.contains(y));
                    let k = choose|k: int| 0 <= k < t.len() && t[k] == y;
                    assert(r[k] == y);
                }
            }
        }
    }
}

/// Putting values in order keeps exactly the values that were there, each once.
pub proof fn ordering_keeps_each_value_once<T>(s: Seq<T>, less: spec_fn(T, T) -> bool)
    requires
        strict_total(less),
    ensures
        ascending(ordered(s, less), less),
        ordered(s, less).no_duplicates(),
        forall|y: T| #[trigger] ordered(s, less).contains(y) <==> s.contains(y),
    decreases s.len(),
{
    if s.len() > 0 {
        let front = s.drop_last();
        ordering_keeps_each_value_once(front, less);
        lemma_ordered_insert(ordered(front, less), s.last(), less);
        let r = ordered(s, less);
        assert forall|y: T| #[trigger] r.contains(y) <==> s.contains(y) by {
            if s.contains(y) && y != s.last() {
                let m = choose|m: int| 0 <= m < s.len() && s[m] == y;
                assert(front[m] == y);
            }
            if front.contains(y) {
                let m = choose|m: int| 0 <= m < front.len() && front[m] == y;
                assert(s[m] == y);
            }
            assert(s[s.len() - 1] == s.last());
            assert(r.contains(y) <==> (ordered(front, less).contains(y) || y == s.last()));
        }
        assert forall|i: int, j: int| 0 <= i < r.len() && 0 <= j < r.len() && i != j implies r[i] != r[j] by {
            if i < j {
                assert(less(r[i], r[j]));
            } else {
                assert(less(r[j], r[i]));
            }
        }
    }
}

/// Puts `x` in its place in `list`, unless something of the same place is there.
pub(crate) fn insert_ordered<T: View, F: Fn(&T, &T) -> bool>(
    list: &mut Vec<T>,
    x: T,
    before: F,
    Ghost(less): Ghost<spec_fn(T::V, T::V) -> bool>,
)
    requires
        forall|a: &T, b: &T| before.requires((a, b)),
        forall|a: &T, b: &T, r: bool| before.ensures((a, b), r) ==> r == less(a@, b@),
    ensures
        rows_view(final(list)@) == ordered_insert(rows_view(old(list)@), x@, less),
{
    let ghost all = rows_view(list@);
    let ghost v = x@;
    let mut at: usize = list.len();
    assert(all.take(all.len() as int) =~= all);
    assert(all.skip(all.len() as int) =~= Seq::<T::V>::empty());
    assert(ordered_insert(all, v, less) =~= ordered_insert(all, v, less) + all.skip(at as int));
    while at > 0 && before(&x, &list[at - 1]) && !before(&list[at - 1], &x)
        invariant
            at <= list@.len(),
            all == rows_view(list@),
            v == x@,
            forall|a: &T, b: &T| before.requires((a, b)),
            forall|a: &T, b: &T, r: bool| before.ensures((a, b), r) ==> r == less(a@, b@),
            ordered_insert(all, v, less) == ordered_insert(all.take(at as int), v, less) + all.skip(at as int),
        decreases at,
    {
        assert(all[at - 1] == list@[at - 1]@);
        assert(all.take(at as int).last() == all[at - 1]);
        assert(all.take(at as int).drop_last() =~= all.take(at - 1));
        assert(ordered_insert(all.take(at - 1), v, less).push(all[at - 1]) + all.skip(at as int)
            =~= ordered_insert(all.take(at - 1), v, less) + all.skip(at - 1));
        at -= 1;
    }
    assert(at > 0 ==> all.take(at as int).last() == list@[at - 1]@);
    if at > 0 && !before(&list[at - 1], &x) {
        assert(all.take(at as int) + all.skip(at as int) =~= all);
        return ;
    }
    assert(all.take(at as int).push(v) + all.skip(at as int) =~= rows_view(list@.insert(at as int, x)));
    list.insert(at, x);
}

/// Whether `a` stands before `b` by code points.
pub fn text_before(a: &str, b: &str) -> (r: bool)
    ensures
        r == text_order()(a@, b@),
{
    let n: usize = a.unicode_len();
    let m: usize = b.unicode_len();
    let mut i: usize = 0;
    assert(a@.skip(0) =~= a@);
    assert(b@.skip(0) =~= b@);
    while i < n && i < m
        invariant
            n == a@.len(),
            m == b@.len(),
            i <= n,
            i <= m,
            lex_before(a@, b@, char_order()) == lex_before(a@.skip(i as int), b@.skip(i as int), char_order()),
        decreases n - i,
    {
        let x: char = a.get_char(i);
        let y: char = b.get_char(i);
        assert(a@.skip(i as int).drop_first() =~= a@.skip(i + 1));
        assert(b@.skip(i as int).drop_first() =~= b@.skip(i + 1));
        if x != y {
            return x < y;
        }
        i += 1;
    }
    i < m
}

/// Whether `a` stands before `b`, text by text.
pub fn texts_before(a: &Vec<String>, b: &Vec<String>) -> (r: bool)
    ensures
        r == texts_order()(rows_view(a@), rows_view(b@)),
{
    let ghost av = rows_view(a@);
    let ghost bv = rows_view(b@);
    let mut i: usize = 0;
    assert(av.skip(0) =~= av);
    assert(bv.skip(0) =~= bv);
    while i < a.len() && i < b.len()
        invariant
            av == rows_view(a@),
            bv == rows_view(b@),
            i <= a@.len(),
            i <= b@.len(),
            lex_before(av, bv, text_order()) == lex_before(av.skip(i as int), bv.skip(i as int), text_order()),
        decreases a@.len() - i,
    {
        assert(av.skip(i as int).drop_first() =~= av.skip(i + 1));
        assert(bv.skip(i as int).drop_first() =~= bv.skip(i + 1));
        proof {
            lemma_text_orders();
        }
        if text_before(a[i].as_str(), b[i].as_str()) {
            assert(text_order()(av[i as int], bv[i as int]));
            assert(av[i as int] != bv[i as int]);
            return true;
        }
        if text_before(b[i].as_str(), a[i].as_str()) {
            assert(text_order()(bv[i as int], av[i as int]));
            assert(bv[i as int] != av[i as int]);
            assert(!text_order()(av[i as int], bv[i as int]));
            return false;
        }
        assert(av[i as int] == bv[i as int] || text_order()(av[i as int], bv[i as int]) || text_order()(
            bv[i as int],
            av[i as int],
        ));
        i += 1;
    }
    i < b.len()
}

/// Whether `less` orders values up to those that stand at the same place.
pub open spec fn strict_weak<T>(less: spec_fn(T, T) -> bool) -> bool {
    &&& forall|x: T| !#[trigger] less(x, x)
    &&& forall|x: T, y: T, z: T| #[trigger] less(x, y) && #[trigger] less(y, z) ==> less(x, z)
    &&& forall|x: T, y: T, z: T|
        !#[trigger] less(x, y) && !#[trigger] less(y, z) ==> !less(x, z)
}

/// Whether nothing stands behind what it should stand before.
pub open spec fn in_order<T>(s: Seq<T>, less: spec_fn(T, T) -> bool) -> bool {
    forall|i: int, j: int| 0 <= i < j < s.len() ==> !less(#[trigger] s[j], #[trigger] s[i])
}

/// `s` with `x` put in its place, behind everything of the same place.
pub open spec fn sorted_insert<T>(s: Seq<T>, x: T, less: spec_fn(T, T) -> bool) -> Seq<T>
    decreases s.len(),
{
    if s.len() == 0 || !less(x, s.last()) {
        s.push(x)
    } else {
        sorted_insert(s.drop_last(), x, less).push(s.last())
    }
}

/// The values of `s` in order, those of the same place as they came.
pub open spec fn sorted<T>(s: Seq<T>, less: spec_fn(T, T) -> bool) -> Seq<T>
    decreases s.len(),
{
    if s.len() == 0 {
        Seq::empty()
    } else {
        sorted_insert(sorted(s.drop_last(), less), s.last(), less)
    }
}

proof fn lemma_sorted_insert<T>(s: Seq<T>, x: T, less: spec_fn(T, T) -> bool)
    requires
        strict_weak(less),
        in_order(s, less),
    ensures
        in_order(sorted_insert(s, x, less), less),
        sorted_insert(s, x, less).to_multiset() == s.to_multiset().insert(x),
        forall|y: T| #[trigger] sorted_insert(s, x, less).contains(y) ==> s.contains(y) || y == x,
    decreases s.len(),
{
    broadcast use vstd::seq_lib::group_to_multiset_ensures;

    let r = sorted_insert(s, x, less);
    if s.len() == 0 || !less(x, s.last()) {
        assert(r == s.push(x));
        assert forall|i: int, j: int| 0 <= i < j < r.len() implies !less(
            #[trigger] r[j],
            #[trigger] r[i],
        ) by {
            if j == s.len() && i < s.len() - 1 {
                assert(!less(s.last(), s[i]));
                assert(!less(x, s.last()));
            }
        }
        assert forall|y: T| #[trigger] r.contains(y) implies s.contains(y) || y == x by {
            let k = choose|k: int| 0 <= k < r.len() && r[k] == y;
            if k < s.len() {
                assert(s[k] == y);
            }
        }
    } else {
        let front = s.drop_last();
        lemma_sorted_insert(front, x, less);
        let mid = sorted_insert(front, x, less);
        assert(front.push(s.last()) =~= s);
        assert(r == mid.push(s.last()));
        assert(s.to_multiset() == front.to_multiset().insert(s.last()));
        assert(r.to_multiset() =~= s.to_multiset().insert(x));
        assert forall|i: int, j: int| 0 <= i < j < r.len() implies !less(
            #[trigger] r[j],
            #[trigger] r[i],
        ) by {
            if j == mid.len() {
                assert(mid.contains(mid[i]));
                if mid[i] == x {
                    assert(less(x, s.last()));
                    if less(s.last(), x) {
                        assert(less(x, x));
                    }
                } else {
                    let k = choose|k: int| 0 <= k < front.len() && front[k] == mid[i];
                    assert(!less(s[s.len() - 1], s[k]));
                }
            } else {
                assert(!less(mid[j], mid[i]));
            }
        }
        assert forall|y: T| #[trigger] r.contains(y) implies s.contains(y) || y == x by {
            let k = choose|k: int| 0 <= k < r.len() && r[k] == y;
            if k < mid.len() {
                assert(mid.contains(mid[k]));
                if y != x {
                    let m = choose|m: int| 0 <= m < front.len() && front[m] == y;
                    assert(s[m] == y);
                }
            } else {
                assert(s[s.len() - 1] == y);
            }
        }
    }
}

/// Sorting puts every value in order and loses none.
pub proof fn sorting_keeps_every_value<T>(s: Seq<T>, less: spec_fn(T, T) -> bool)
    requires
        strict_weak(less),
    ensures
        in_order(sorted(s, less), less),
        sorted(s, less).to_multiset() == s.to_multiset(),
        sorted(s, less).len() == s.len(),
    decreases s.len(),
{
    broadcast use vstd::seq_lib::group_to_multiset_ensures;

    if s.len() == 0 {
        assert(sorted(s, less) =~= s);
    } else {
        sorting_keeps_every_value(s.drop_last(), less);
        lemma_sorted_insert(sorted(s.drop_last(), less), s.last(), less);
        assert(s.drop_last().push(s.last()) =~= s);
        assert(sorted(s, less).to_multiset().len() == s.to_multiset().len());
    }
}

/// Puts `x` in its place in `list`, behind everything of the same place.
pub(crate) fn insert_sorted<T: View, F: Fn(&T, &T) -> bool>(
    list: &mut Vec<T>,
    x: T,
    before: F,
    Ghost(less): Ghost<spec_fn(T::V, T::V) -> bool>,
)
    requires
        forall|a: &T, b: &T| before.requires((a, b)),
        forall|a: &T, b: &T, r: bool| before.ensures((a, b), r) ==> r == less(a@, b@),
    ensures
        rows_view(final(list)@) == sorted_insert(rows_view(old(list)@), x@, less),
{
    let ghost all = rows_view(list@);
    let ghost v = x@;
    let mut at: usize = list.len();
    assert(all.take(all.len() as int) =~= all);
    assert(all.skip(all.len() as int) =~= Seq::<T::V>::empty());
    assert(sorted_insert(all, v, less) =~= sorted_insert(all, v, less) + all.skip(at as int));
    while at > 0 && before(&x, &list[at - 1])
        invariant
            at <= list@.len(),
            all == rows_view(list@),
            v == x@,
            forall|a: &T, b: &T| before.requires((a, b)),
            forall|a: &T, b: &T, r: bool| before.ensures((a, b), r) ==> r == less(a@, b@),
            sorted_insert(all, v, less) == sorted_insert(all.take(at as int), v, less) + all.skip(
                at as int,
            ),
        decreases at,
    {
        assert(all[at - 1] == list@[at - 1]@);
        assert(all.take(at as int).last() == all[at - 1]);
        assert(all.take(at as int).drop_last() =~= all.take(at - 1));
        assert(sorted_insert(all.take(at - 1), v, less).push(all[at - 1]) + all.skip(at as int)
            =~= sorted_insert(all.take(at - 1), v, less) + all.skip(at - 1));
        at -= 1;
    }
    assert(at > 0 ==> all.take(at as int).last() == list@[at - 1]@);
    assert(all.take(at as int).push(v) + all.skip(at as int) =~= rows_view(
        list@.insert(at as int, x),
    ));
    list.insert(at, x);
}

/// The values of a list in order, those of the same place as they came.
pub(crate) fn sort_list<T: View, F: Fn(&T, &T) -> bool + Copy>(
    list: Vec<T>,
    before: F,
    Ghost(less): Ghost<spec_fn(T::V, T::V) -> bool>,
) -> (r: Vec<T>)
    requires
        forall|a: &T, b: &T| before.requires((a, b)),
        forall|a: &T, b: &T, r: bool| before.ensures((a, b), r) ==> r == less(a@, b@),
    ensures
        rows_view(r@) == sorted(rows_view(list@), less),
{
    let ghost all = rows_view(list@);
    let mut list: Vec<T> = list;
    let mut out: Vec<T> = Vec::new();
    assert(rows_view(out@) =~= sorted(all.take(0), less));
    assert(all.skip(0) =~= all);
    while list.len() > 0
        invariant
            list@.len() <= all.len(),
            rows_view(list@) == all.skip(all.len() - list@.len()),
            forall|a: &T, b: &T| before.requires((a, b)),
            forall|a: &T, b: &T, r: bool| before.ensures((a, b), r) ==> r == less(a@, b@),
            rows_view(out@) == sorted(all.take(all.len() - list@.len()), less),
        decreases list@.len(),
    {
        let ghost done = all.len() - list@.len();
        assert(all.take(done + 1).drop_last() =~= all.take(done));
        assert(all.skip(done)[0] == list@[0]@);
        assert(all.take(done + 1).last() == list@[0]@);
        assert(rows_view(list@.remove(0)) =~= all.skip(done + 1)) by {
            assert forall|k: int| 0 <= k < list@.len() - 1 implies list@.remove(0)[k]@ == all.skip(
                done + 1,
            )[k] by {
                assert(rows_view(list@)[k + 1] == all.skip(done)[k + 1]);
            }
        }
        let x: T = list.remove(0);
        insert_sorted(&mut out, x, before, Ghost(less));
    }
    assert(all.take(all.len() as int) =~= all);
    out
}

/// Texts in order by code points.
pub fn sort_texts(list: Vec<String>) -> (r: Vec<String>)
    ensures
        rows_view(r@) == sorted(rows_view(list@), text_order()),
{
    let before = |a: &String, b: &String| -> (r: bool)
        ensures
            r == text_order()(a@, b@),
        { text_before(a.as_str(), b.as_str()) };
    sort_list(list, before, Ghost(text_order()))
}

} // verus!
