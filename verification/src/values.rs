//! Building JSON values, changing their members and comparing them.

use vstd::prelude::*;

use crate::json::{
    equals_scalar, get_member, items_view, json_view, lemma_items_view, lemma_members_view,
    member_of, members_view, texts_view, values_equal, Json, JsonView,
};
use crate::text::{decimal, decimal_seq, same};
use crate::words::{signed_decimal, signed_seq};

verus! {

/// An object without members.
pub open spec fn no_members() -> JsonView {
    JsonView::Object(Seq::empty())
}

/// An object with one more member at its end.
pub open spec fn and_member(j: JsonView, key: Seq<char>, v: JsonView) -> JsonView {
    match j {
        JsonView::Object(members) => JsonView::Object(members.push((key, v))),
        _ => j,
    }
}

/// The text under a name.
pub open spec fn text_member(j: JsonView, key: Seq<char>) -> Option<Seq<char>> {
    match get_member(j, key) {
        Some(JsonView::Text(t)) => Some(t),
        _ => None,
    }
}

/// The text under a name, or another text where there is none.
pub open spec fn text_or(j: JsonView, key: Seq<char>, other: Seq<char>) -> Seq<char> {
    match text_member(j, key) {
        Some(t) => t,
        None => other,
    }
}

/// The truth value under a name.
pub open spec fn bool_member(j: JsonView, key: Seq<char>) -> Option<bool> {
    match get_member(j, key) {
        Some(JsonView::Bool(b)) => Some(b),
        _ => None,
    }
}

/// A list of texts as a value.
pub open spec fn text_array(texts: Seq<Seq<char>>) -> JsonView {
    JsonView::Array(Seq::new(texts.len(), |i: int| JsonView::Text(texts[i])))
}

/// An object without members.
pub fn empty_object() -> (r: Json)
    ensures
        r@ == no_members(),
{
    let r: Json = Json::Object(Vec::new());
    assert(r@ == JsonView::Object(members_view(Seq::empty())));
    assert(members_view(Seq::empty()) =~= Seq::empty());
    r
}

/// A text as a value.
pub fn text_value(s: &str) -> (r: Json)
    ensures
        r@ == JsonView::Text(s@),
{
    Json::Text(s.to_string())
}

/// An unsigned number as a value.
pub fn number_value(n: u64) -> (r: Json)
    ensures
        r@ == JsonView::Number(decimal_seq(n as nat)),
{
    Json::Number(decimal(n))
}

/// A number as a value.
pub fn signed_value(n: i64) -> (r: Json)
    ensures
        r@ == JsonView::Number(signed_seq(n as int)),
{
    Json::Number(signed_decimal(n))
}

/// A list of texts as a value.
pub fn texts_value(texts: &[String]) -> (r: Json)
    ensures
        r@ == text_array(texts_view(texts@)),
{
    let mut out: Vec<Json> = Vec::new();
    let mut i: usize = 0;
    while i < texts.len()
        invariant
            i <= texts@.len(),
            out@.len() == i,
            forall|k: int| 0 <= k < i ==> json_view(#[trigger] out@[k]) == JsonView::Text(texts@[k]@),
        decreases texts@.len() - i,
    {
        let t: Json = text_value(texts[i].as_str());
        assert(json_view(t) == t@);
        out.push(t);
        i += 1;
    }
    proof {
        lemma_items_view(out@);
        assert forall|k: int| 0 <= k < out@.len() implies items_view(out@)[k] == JsonView::Text(
            texts_view(texts@)[k],
        ) by {
            assert(items_view(out@)[k] == json_view(out@[k]));
        }
        assert(JsonView::Array(items_view(out@)) == text_array(texts_view(texts@))) by {
            assert(items_view(out@) =~= Seq::new(
                texts_view(texts@).len(),
                |i: int| JsonView::Text(texts_view(texts@)[i]),
            ));
        }
    }
    let r: Json = Json::Array(out);
    assert(r@ == JsonView::Array(items_view(out@)));
    r
}

impl Json {
    /// An object with one more member at its end.
    pub fn with(self, key: &str, value: Json) -> (r: Self)
        ensures
            r@ == and_member(self@, key@, value@),
    {
        match self {
            Json::Object(members) => {
                let mut members: Vec<(String, Json)> = members;
                let ghost before = members@;
                assert(json_view(value) == value@);
                let name: String = key.to_string();
                members.push((name, value));
                assert(members@.drop_last() =~= before);
                assert(members_view(members@) == members_view(before).push((key@, value@)));
                let r: Json = Json::Object(members);
                assert(r@ == JsonView::Object(members_view(members@)));
                r
            },
            other => other,
        }
    }

    /// The text under a name.
    pub fn text_at(&self, key: &str) -> (r: Option<&str>)
        ensures
            match r {
                Some(t) => text_member(self@, key@) == Some(t@),
                None => text_member(self@, key@) is None,
            },
    {
        match self.member(key) {
            Some(Json::Text(t)) => Some(t.as_str()),
            _ => None,
        }
    }

    /// The text under a name, or another text where there is none.
    pub fn text_at_or<'a>(&'a self, key: &str, other: &'a str) -> (r: &'a str)
        ensures
            r@ == text_or(self@, key@, other@),
    {
        match self.text_at(key) {
            Some(t) => t,
            None => other,
        }
    }

    /// The truth value under a name.
    pub fn bool_at(&self, key: &str) -> (r: Option<bool>)
        ensures
            r == bool_member(self@, key@),
    {
        match self.member(key) {
            Some(Json::Bool(b)) => Some(*b),
            _ => None,
        }
    }
}

/// The members with the first one of a name given another value, or with a new one at the end.
pub open spec fn with_member(
    members: Seq<(Seq<char>, JsonView)>,
    key: Seq<char>,
    v: JsonView,
) -> Seq<(Seq<char>, JsonView)>
    decreases members.len(),
{
    if members.len() == 0 {
        seq![(key, v)]
    } else if members[0].0 == key {
        members.update(0, (key, v))
    } else {
        seq![members[0]] + with_member(members.drop_first(), key, v)
    }
}

/// The members without those of a name.
pub open spec fn without_member(
    members: Seq<(Seq<char>, JsonView)>,
    key: Seq<char>,
) -> Seq<(Seq<char>, JsonView)>
    decreases members.len(),
{
    if members.len() == 0 {
        Seq::empty()
    } else if members.last().0 == key {
        without_member(members.drop_last(), key)
    } else {
        without_member(members.drop_last(), key).push(members.last())
    }
}

proof fn lemma_with_member_skip(
    members: Seq<(Seq<char>, JsonView)>,
    key: Seq<char>,
    v: JsonView,
    i: int,
)
    requires
        0 <= i <= members.len(),
        forall|k: int| 0 <= k < i ==> (#[trigger] members[k]).0 != key,
    ensures
        with_member(members, key, v) == members.take(i) + with_member(members.skip(i), key, v),
    decreases i,
{
    if i == 0 {
        assert(members.skip(0) =~= members);
        assert(members.take(0) + with_member(members, key, v) =~= with_member(members, key, v));
    } else {
        assert(members[0].0 != key);
        assert forall|k: int| 0 <= k < i - 1 implies (#[trigger] members.drop_first()[k]).0
            != key by {
            assert(members[k + 1].0 != key);
        }
        lemma_with_member_skip(members.drop_first(), key, v, i - 1);
        assert(members.drop_first().skip(i - 1) =~= members.skip(i));
        assert(seq![members[0]] + members.drop_first().take(i - 1) =~= members.take(i));
        assert(seq![members[0]] + (members.drop_first().take(i - 1) + with_member(
            members.skip(i),
            key,
            v,
        )) =~= members.take(i) + with_member(members.skip(i), key, v));
    }
}

/// Gives the first member of a name another value, or adds a member at the end.
pub fn set_member(members: &mut Vec<(String, Json)>, key: &str, value: Json)
    ensures
        members_view(final(members)@) == with_member(members_view(old(members)@), key@, value@),
{
    let ghost start = members@;
    let ghost all = members_view(start);
    proof {
        lemma_members_view(start);
        assert(json_view(value) == value@);
    }
    let name: String = key.to_string();
    let mut i: usize = 0;
    while i < members.len()
        invariant
            i <= members@.len(),
            members@ == start,
            start == old(members)@,
            all == members_view(start),
            all.len() == start.len(),
            forall|k: int|
                0 <= k < start.len() ==> #[trigger] all[k] == (start[k].0@, json_view(start[k].1)),
            forall|k: int| 0 <= k < i ==> (#[trigger] all[k]).0 != key@,
            name@ == key@,
            json_view(value) == value@,
        decreases members@.len() - i,
    {
        assert(all[i as int] == (start[i as int].0@, json_view(start[i as int].1)));
        if same(members[i].0.as_str(), key) {
            members.set(i, (name, value));
            proof {
                lemma_with_member_skip(all, key@, value@, i as int);
                lemma_members_view(members@);
                assert(all.skip(i as int)[0] == all[i as int]);
                assert(with_member(all.skip(i as int), key@, value@) == all.skip(i as int).update(
                    0,
                    (key@, value@),
                ));
                assert(members_view(members@) =~= all.take(i as int) + all.skip(i as int).update(
                    0,
                    (key@, value@),
                )) by {
                    assert forall|k: int| 0 <= k < all.len() implies members_view(members@)[k] == (
                    all.take(i as int) + all.skip(i as int).update(0, (key@, value@)))[k] by {
                        assert(members_view(members@)[k] == (
                            members@[k].0@,
                            json_view(members@[k].1),
                        ));
                        assert(all[k] == (start[k].0@, json_view(start[k].1)));
                    }
                }
            }
            return ;
        }
        i += 1;
    }
    members.push((name, value));
    proof {
        lemma_with_member_skip(all, key@, value@, all.len() as int);
        assert(all.skip(all.len() as int) =~= Seq::empty());
        assert(all.take(all.len() as int) =~= all);
        assert(members@.drop_last() =~= start);
        assert(all.push((key@, value@)) =~= all + seq![(key@, value@)]);
    }
}

/// Takes the members of a name out. Says whether there was one.
pub fn drop_member(members: Vec<(String, Json)>, key: &str) -> (r: (Vec<(String, Json)>, bool))
    ensures
        members_view(r.0@) == without_member(members_view(members@), key@),
        r.1 == (member_of(members_view(members@), key@) is Some),
{
    let ghost all = members_view(members@);
    let mut out: Vec<(String, Json)> = Vec::new();
    let mut gone: bool = false;
    let mut i: usize = 0;
    proof {
        lemma_members_view(members@);
        assert(members_view(out@) =~= without_member(all.take(0), key@));
    }
    while i < members.len()
        invariant
            i <= members@.len(),
            all == members_view(members@),
            all.len() == members@.len(),
            forall|k: int|
                0 <= k < members@.len() ==> #[trigger] all[k] == (
                    members@[k].0@,
                    json_view(members@[k].1),
                ),
            members_view(out@) == without_member(all.take(i as int), key@),
            gone == exists|k: int| 0 <= k < i && (#[trigger] all[k]).0 == key@,
        decreases members@.len() - i,
    {
        let ghost next = all.take(i + 1);
        assert(next.drop_last() =~= all.take(i as int));
        assert(next.last() == all[i as int]);
        assert(all[i as int] == (members@[i as int].0@, json_view(members@[i as int].1)));
        if same(members[i].0.as_str(), key) {
            gone = true;
            assert(all[i as int].0 == key@);
        } else {
            let ghost before = out@;
            let value: Json = members[i].1.clone();
            assert(json_view(value) == value@);
            assert(json_view(members@[i as int].1) == members@[i as int].1@);
            out.push((members[i].0.clone(), value));
            assert(out@.drop_last() =~= before);
        }
        i += 1;
    }
    proof {
        assert(all.take(all.len() as int) =~= all);
        lemma_member_present(all, key@);
    }
    (out, gone)
}

/// A name is found exactly where some member has it.
pub proof fn lemma_member_present(members: Seq<(Seq<char>, JsonView)>, key: Seq<char>)
    ensures
        (member_of(members, key) is Some) == exists|k: int|
            0 <= k < members.len() && (#[trigger] members[k]).0 == key,
    decreases members.len(),
{
    if members.len() > 0 && members[0].0 != key {
        let rest = members.drop_first();
        lemma_member_present(rest, key);
        if exists|k: int| 0 <= k < rest.len() && (#[trigger] rest[k]).0 == key {
            let k = choose|k: int| 0 <= k < rest.len() && (#[trigger] rest[k]).0 == key;
            assert(members[k + 1].0 == key);
        }
        if exists|k: int| 0 <= k < members.len() && (#[trigger] members[k]).0 == key {
            let k = choose|k: int| 0 <= k < members.len() && (#[trigger] members[k]).0 == key;
            assert(rest[k - 1].0 == key);
        }
    }
}

/// What is set is read back, and the other members stay as they are.
pub proof fn set_then_read(
    members: Seq<(Seq<char>, JsonView)>,
    key: Seq<char>,
    v: JsonView,
    other: Seq<char>,
)
    ensures
        member_of(with_member(members, key, v), key) == Some(v),
        other != key ==> member_of(with_member(members, key, v), other) == member_of(
            members,
            other,
        ),
    decreases members.len(),
{
    let after = with_member(members, key, v);
    if members.len() == 0 {
        assert(after.drop_first() =~= members);
    } else if members[0].0 == key {
        assert(after.drop_first() =~= members.drop_first());
    } else {
        set_then_read(members.drop_first(), key, v, other);
        assert(after.drop_first() =~= with_member(members.drop_first(), key, v));
    }
}

proof fn lemma_member_of_push(
    members: Seq<(Seq<char>, JsonView)>,
    m: (Seq<char>, JsonView),
    key: Seq<char>,
)
    ensures
        member_of(members.push(m), key) == match member_of(members, key) {
            Some(v) => Some(v),
            None => if m.0 == key {
                Some(m.1)
            } else {
                None
            },
        },
    decreases members.len(),
{
    let longer = members.push(m);
    if members.len() == 0 {
        assert(longer.drop_first() =~= members);
    } else {
        assert(longer[0] == members[0]);
        assert(longer.drop_first() =~= members.drop_first().push(m));
        lemma_member_of_push(members.drop_first(), m, key);
    }
}

/// What is dropped is not found any more, and the other members stay as they are.
pub proof fn drop_then_read(
    members: Seq<(Seq<char>, JsonView)>,
    key: Seq<char>,
    other: Seq<char>,
)
    ensures
        member_of(without_member(members, key), key) is None,
        other != key ==> member_of(without_member(members, key), other) == member_of(
            members,
            other,
        ),
    decreases members.len(),
{
    if members.len() > 0 {
        let before = members.drop_last();
        drop_then_read(before, key, other);
        assert(before.push(members.last()) =~= members);
        lemma_member_of_push(before, members.last(), other);
        if members.last().0 != key {
            lemma_member_of_push(without_member(before, key), members.last(), key);
            lemma_member_of_push(without_member(before, key), members.last(), other);
        }
    }
}

/// Whether two values are the same: lists item by item, objects name by name in any order.
pub open spec fn json_same(a: JsonView, b: JsonView) -> bool
    decreases a,
{
    match (a, b) {
        (JsonView::Array(x), JsonView::Array(y)) => x.len() == y.len() && items_same(x, y),
        (JsonView::Object(x), JsonView::Object(y)) => x.len() == y.len() && members_same(x, y),
        _ => equals_scalar(a, b),
    }
}

/// Whether each item of `x` is the same as that of `y` at its place.
pub open spec fn items_same(x: Seq<JsonView>, y: Seq<JsonView>) -> bool
    decreases x,
{
    if x.len() == 0 {
        true
    } else {
        items_same(x.drop_last(), y) && json_same(x.last(), y[x.len() - 1])
    }
}

/// Whether each member of `x` has one of its name in `y` with the same value.
pub open spec fn members_same(
    x: Seq<(Seq<char>, JsonView)>,
    y: Seq<(Seq<char>, JsonView)>,
) -> bool
    decreases x,
{
    if x.len() == 0 {
        true
    } else {
        members_same(x.drop_last(), y) && match member_of(y, x.last().0) {
            Some(v) => json_same(x.last().1, v),
            None => false,
        }
    }
}

/// Whether two values are the same: lists item by item, objects name by name in any order.
pub fn json_equal(a: &Json, b: &Json) -> (r: bool)
    ensures
        r == json_same(a@, b@),
    decreases a, 1nat,
{
    match a {
        Json::Array(x) => match b {
            Json::Array(y) => items_equal(a, x, y),
            _ => false,
        },
        Json::Object(x) => match b {
            Json::Object(_) => members_equal(a, x, b),
            _ => false,
        },
        _ => match b {
            Json::Array(_) => false,
            Json::Object(_) => false,
            _ => values_equal(a, b),
        },
    }
}

fn items_equal(a: &Json, x: &Vec<Json>, y: &Vec<Json>) -> (r: bool)
    requires
        *a == Json::Array(*x),
    ensures
        r == (x@.len() == y@.len() && items_same(items_view(x@), items_view(y@))),
        items_view(x@).len() == x@.len(),
        items_view(y@).len() == y@.len(),
    decreases a, 0nat,
{
    let ghost xs = items_view(x@);
    let ghost ys = items_view(y@);
    proof {
        lemma_items_view(x@);
        lemma_items_view(y@);
    }
    if x.len() != y.len() {
        return false;
    }
    let mut ok: bool = true;
    let mut i: usize = 0;
    while i < x.len()
        invariant
            i <= x@.len(),
            x@.len() == y@.len(),
            xs == items_view(x@),
            ys == items_view(y@),
            xs.len() == x@.len(),
            ys.len() == y@.len(),
            forall|k: int| 0 <= k < x@.len() ==> xs[k] == #[trigger] json_view(x@[k]),
            forall|k: int| 0 <= k < y@.len() ==> ys[k] == #[trigger] json_view(y@[k]),
            *a == Json::Array(*x),
            ok == items_same(xs.take(i as int), ys),
        decreases x@.len() - i,
    {
        let ghost next = xs.take(i + 1);
        assert(next.drop_last() =~= xs.take(i as int));
        assert(next.last() == xs[i as int]);
        assert(xs[i as int] == json_view(x@[i as int]));
        assert(ys[i as int] == json_view(y@[i as int]));
        assert(decreases_to!(*a => a->Array_0));
        assert(decreases_to!(a->Array_0 => a->Array_0@));
        assert(decreases_to!(a->Array_0@ => a->Array_0@[i as int]));
        let same_item: bool = json_equal(&x[i], &y[i]);
        ok = ok && same_item;
        i += 1;
    }
    assert(xs.take(xs.len() as int) =~= xs);
    ok
}

fn members_equal(a: &Json, x: &Vec<(String, Json)>, b: &Json) -> (r: bool)
    requires
        *a == Json::Object(*x),
        b is Object,
    ensures
        r == json_same(a@, b@),
    decreases a, 0nat,
{
    let ghost xs = members_view(x@);
    let ghost ys = b@->Object_0;
    proof {
        lemma_members_view(x@);
    }
    let size: usize = match b {
        Json::Object(y) => {
            proof {
                lemma_members_view(y@);
            }
            y.len()
        },
        _ => 0,
    };
    assert(ys.len() == size);
    if x.len() != size {
        return false;
    }
    let mut ok: bool = true;
    let mut i: usize = 0;
    while i < x.len()
        invariant
            i <= x@.len(),
            xs == members_view(x@),
            b is Object,
            b@ == JsonView::Object(ys),
            xs.len() == x@.len(),
            forall|k: int|
                0 <= k < x@.len() ==> #[trigger] xs[k] == (x@[k].0@, json_view(x@[k].1)),
            *a == Json::Object(*x),
            ok == members_same(xs.take(i as int), ys),
        decreases x@.len() - i,
    {
        let ghost next = xs.take(i + 1);
        assert(next.drop_last() =~= xs.take(i as int));
        assert(next.last() == xs[i as int]);
        assert(xs[i as int] == (x@[i as int].0@, json_view(x@[i as int].1)));
        let same_member: bool = match b.member(x[i].0.as_str()) {
            Some(v) => {
                assert(decreases_to!(*a => a->Object_0));
                assert(decreases_to!(a->Object_0 => a->Object_0@));
                assert(decreases_to!(a->Object_0@ => a->Object_0@[i as int]));
                assert(decreases_to!(a->Object_0@[i as int] => a->Object_0@[i as int].1));
                json_equal(&x[i].1, v)
            },
            None => false,
        };
        ok = ok && same_member;
        i += 1;
    }
    assert(xs.take(xs.len() as int) =~= xs);
    ok
}

} // verus!
