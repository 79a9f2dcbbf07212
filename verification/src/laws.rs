//! What capabilities and automation are for: how the results of their operations relate to what they
//! are given, said of the operations themselves and in no terms of how they come to their results.

use vstd::prelude::*;

use crate::alerting::stamps::{Stamp, StampView};
use crate::alerting::store::{keeping_is_filtering, keys_distinct, kept, put_then_get, Table};
use crate::alerting::rule_laws::{lemma_stamp, stamped_at};
use crate::automation::{condition_met, conditions_met, cooled_down};
use crate::capability::{by_priority, plugins_in, providers, CapabilityRowView, Registry};
use crate::event::OpencapxEvent;
use crate::json::{get_member, member_of, texts_view, Json, JsonView};
use crate::order::{
    char_order, lemma_text_orders, lex_before, sorted, sorting_keeps_every_value, strict_weak,
    text_before, text_order,
};
use crate::text::{ends_with_seq, occurs_at};
use crate::values::{json_same, text_member};

verus! {

/// Whether a text stands in front of another in a dictionary by code points: where they first differ
/// it has the lower character, or it ends there.
pub open spec fn precedes(a: Seq<char>, b: Seq<char>) -> bool {
    exists|k: int|
        0 <= k <= a.len() && k < b.len() && #[trigger] a.take(k) == b.take(k) && (k == a.len() || a[k] < b[k])
}

proof fn lemma_precedes(a: Seq<char>, b: Seq<char>)
    ensures
        lex_before(a, b, char_order()) == precedes(a, b),
    decreases a.len(),
{
    if b.len() == 0 {
    } else if a.len() == 0 {
        assert(a.take(0) =~= b.take(0));
    } else if a[0] == b[0] {
        let x = a.drop_first();
        let y = b.drop_first();
        lemma_precedes(x, y);
        if precedes(x, y) {
            let k = choose|k: int|
                0 <= k <= x.len() && k < y.len() && #[trigger] x.take(k) == y.take(k) && (k == x.len()
                    || x[k] < y[k]);
            assert(a.take(k + 1) =~= b.take(k + 1)) by {
                assert forall|i: int| 0 <= i < k + 1 implies a[i] == b[i] by {
                    if i > 0 {
                        assert(x.take(k)[i - 1] == y.take(k)[i - 1]);
                    }
                }
            }
            assert(k + 1 == a.len() || a[k + 1] < b[k + 1]);
        }
        if precedes(a, b) {
            let k = choose|k: int|
                0 <= k <= a.len() && k < b.len() && #[trigger] a.take(k) == b.take(k) && (k == a.len()
                    || a[k] < b[k]);
            assert(k > 0);
            assert(x.take(k - 1) =~= y.take(k - 1)) by {
                assert forall|i: int| 0 <= i < k - 1 implies x[i] == y[i] by {
                    assert(a.take(k)[i + 1] == b.take(k)[i + 1]);
                }
            }
            assert(k - 1 == x.len() || x[k - 1] < y[k - 1]);
        }
    } else {
        if a[0] < b[0] {
            assert(a.take(0) =~= b.take(0));
        }
        if precedes(a, b) {
            let k = choose|k: int|
                0 <= k <= a.len() && k < b.len() && #[trigger] a.take(k) == b.take(k) && (k == a.len()
                    || a[k] < b[k]);
            if k > 0 {
                assert(a.take(k)[0] == b.take(k)[0]);
            }
        }
    }
}

/// Texts are put in the order of dictionaries by code points.
pub proof fn texts_come_as_in_dictionaries(a: &str, b: &str, r: bool)
    requires
        call_ensures(text_before, (a, b), r),
    ensures
        r == precedes(a@, b@),
{
    lemma_precedes(a@, b@);
}

/// Whether a provider of a capability is asked before another: it has the lower number, or the same
/// and a name that comes first.
pub open spec fn asked_before(a: CapabilityRowView, b: CapabilityRowView) -> bool {
    a.priority < b.priority || a.priority == b.priority && (a.plugin_id == b.plugin_id || precedes(
        a.plugin_id,
        b.plugin_id,
    ))
}

proof fn lemma_by_priority()
    ensures
        strict_weak(by_priority()),
{
    lemma_text_orders();
    let less = by_priority();
    let by_name = text_order();
    assert forall|x: CapabilityRowView, y: CapabilityRowView, z: CapabilityRowView|
        #[trigger] less(x, y) && #[trigger] less(y, z) implies less(x, z) by {
        if x.priority == y.priority && y.priority == z.priority {
            assert(by_name(x.plugin_id, y.plugin_id) && by_name(y.plugin_id, z.plugin_id));
        }
    }
    assert forall|x: CapabilityRowView| !#[trigger] less(x, x) by {
        assert(!by_name(x.plugin_id, x.plugin_id));
    }
    assert forall|x: CapabilityRowView, y: CapabilityRowView, z: CapabilityRowView|
        !#[trigger] less(x, y) && !#[trigger] less(y, z) implies !less(x, z) by {
        if less(x, z) && x.priority == y.priority && y.priority == z.priority {
            assert(x.plugin_id == y.plugin_id || by_name(y.plugin_id, x.plugin_id));
            assert(y.plugin_id == z.plugin_id || by_name(z.plugin_id, y.plugin_id));
            assert(by_name(x.plugin_id, z.plugin_id));
            if by_name(y.plugin_id, x.plugin_id) {
                assert(by_name(y.plugin_id, z.plugin_id));
            }
        }
    }
}

/// The providers of a capability are those of the rows that name it and are on, one for each row, and
/// each is asked before those that follow it.
pub proof fn providers_come_by_priority(registry: &Registry, capability: &str, r: Vec<String>)
    requires
        call_ensures(providers, (registry, capability), r),
    ensures
        exists|rows: Seq<CapabilityRowView>|
            {
                &&& #[trigger] rows.to_multiset() == registry@.rows.to_multiset().filter(
                    |c: CapabilityRowView| c.enabled && c.id == capability@,
                )
                &&& rows.len() == r@.len()
                &&& forall|i: int| 0 <= i < rows.len() ==> (#[trigger] r@[i])@ == rows[i].plugin_id
                &&& forall|i: int, j: int|
                    0 <= i < j < rows.len() ==> asked_before(#[trigger] rows[i], #[trigger] rows[j])
            },
{
    broadcast use vstd::multiset::group_multiset_axioms;

    let own = |c: CapabilityRowView| c.id == capability@ && c.enabled;
    let wanted = |c: CapabilityRowView| c.enabled && c.id == capability@;
    let found = kept(registry@.rows, own);
    let rows = sorted(found, by_priority());
    lemma_by_priority();
    lemma_text_orders();
    sorting_keeps_every_value(found, by_priority());
    keeping_is_filtering(registry@.rows, own);
    assert(registry@.rows.to_multiset().filter(own) =~= registry@.rows.to_multiset().filter(wanted));
    assert(plugins_in(rows) == texts_view(r@));
    assert forall|i: int| 0 <= i < rows.len() implies (#[trigger] r@[i])@ == rows[i].plugin_id by {
        assert(texts_view(r@)[i] == plugins_in(rows)[i]);
    }
    assert(r@.len() == rows.len()) by {
        assert(texts_view(r@).len() == plugins_in(rows).len());
    }
    assert forall|i: int, j: int| 0 <= i < j < rows.len() implies asked_before(
        #[trigger] rows[i],
        #[trigger] rows[j],
    ) by {
        assert(!by_priority()(rows[j], rows[i]));
        lemma_precedes(rows[i].plugin_id, rows[j].plugin_id);
        let by_name = text_order();
        assert(rows[i].plugin_id == rows[j].plugin_id || by_name(rows[i].plugin_id, rows[j].plugin_id)
            || by_name(rows[j].plugin_id, rows[i].plugin_id));
    }
}

/// Whether `v` is what an object holds under a name: the value of its first member of that name.
pub open spec fn holds_at(j: JsonView, key: Seq<char>, v: JsonView) -> bool {
    match j {
        JsonView::Object(members) => exists|i: int|
            0 <= i < members.len() && #[trigger] members[i] == (key, v) && (forall|k: int|
                0 <= k < i ==> (#[trigger] members[k]).0 != key),
        _ => false,
    }
}

/// An object holds under a name what reading the name gives, and nothing where reading it gives
/// nothing.
pub proof fn members_are_read_by_name(j: JsonView, key: Seq<char>, v: JsonView)
    ensures
        holds_at(j, key, v) == (get_member(j, key) == Some(v)),
{
    if let JsonView::Object(members) = j {
        lemma_member(members, key);
        match member_of(members, key) {
            Some(found) => {
                let i = choose|i: int|
                    0 <= i < members.len() && #[trigger] members[i] == (key, found) && (forall|k: int|
                        0 <= k < i ==> (#[trigger] members[k]).0 != key);
                if holds_at(j, key, v) {
                    let p = choose|p: int|
                        0 <= p < members.len() && #[trigger] members[p] == (key, v) && (forall|k: int|
                            0 <= k < p ==> (#[trigger] members[k]).0 != key);
                    assert(p == i);
                }
            },
            None => {},
        }
    }
}

proof fn lemma_member(members: Seq<(Seq<char>, JsonView)>, key: Seq<char>)
    ensures
        match member_of(members, key) {
            Some(v) => exists|i: int|
                0 <= i < members.len() && #[trigger] members[i] == (key, v) && (forall|k: int|
                    0 <= k < i ==> (#[trigger] members[k]).0 != key),
            None => forall|k: int| 0 <= k < members.len() ==> (#[trigger] members[k]).0 != key,
        },
    decreases members.len(),
{
    if members.len() > 0 {
        if members[0].0 == key {
            assert(members[0] == (key, members[0].1));
        } else {
            let rest = members.drop_first();
            lemma_member(rest, key);
            match member_of(rest, key) {
                Some(v) => {
                    let i = choose|i: int|
                        0 <= i < rest.len() && #[trigger] rest[i] == (key, v) && (forall|k: int|
                            0 <= k < i ==> (#[trigger] rest[k]).0 != key);
                    assert(members[i + 1] == (key, v));
                    assert forall|k: int| 0 <= k < i + 1 implies (#[trigger] members[k]).0 != key by {
                        if k > 0 {
                            assert(rest[k - 1] == members[k]);
                        }
                    }
                },
                None => {
                    assert forall|k: int| 0 <= k < members.len() implies (#[trigger] members[k]).0 != key by {
                        if k > 0 {
                            assert(rest[k - 1] == members[k]);
                        }
                    }
                },
            }
        }
    }
}

/// Whether a payload meets one condition of a rule. One named after a field and `_contains` asks that
/// the text in the field hold a text; any other asks that the field of its name hold the same value.
pub open spec fn meets_condition(payload: JsonView, key: Seq<char>, want: JsonView) -> bool {
    ||| exists|field: Seq<char>, before: Seq<char>, part: Seq<char>, behind: Seq<char>|
        #![trigger field + "_contains"@, before + part + behind]
        key == field + "_contains"@ && want == JsonView::Text(part) && holds_at(
            payload,
            field,
            JsonView::Text(before + part + behind),
        )
    ||| (forall|field: Seq<char>| key != #[trigger] (field + "_contains"@)) && exists|have: JsonView|
        #[trigger] holds_at(payload, key, have) && json_same(have, want)
}

proof fn lemma_condition(payload: JsonView, key: Seq<char>, want: JsonView)
    ensures
        condition_met(payload, key, want) == meets_condition(payload, key, want),
{
    reveal_strlit("_contains");
    let suffix = "_contains"@;
    if ends_with_seq(key, suffix) {
        let field = key.take(key.len() - 9);
        assert(key.subrange(key.len() - 9, key.len() as int) =~= suffix);
        assert(key =~= field + suffix);
        assert forall|f: Seq<char>| key == #[trigger] (f + suffix) implies f == field by {
            assert(f =~= field);
        }
        if condition_met(payload, key, want) {
            let have = text_member(payload, field)->0;
            let part = want->Text_0;
            let i = choose|i: int| occurs_at(have, part, i);
            let before = have.take(i);
            let behind = have.skip(i + part.len());
            assert(have =~= before + part + behind);
            members_are_read_by_name(payload, field, JsonView::Text(have));
            assert(key == field + suffix && holds_at(payload, field, JsonView::Text(before + part + behind)));
        }
        assert forall|f: Seq<char>, before: Seq<char>, part: Seq<char>, behind: Seq<char>|
            #![trigger f + suffix, before + part + behind]
            key == f + suffix && want == JsonView::Text(part) && holds_at(
                payload,
                f,
                JsonView::Text(before + part + behind),
            ) implies condition_met(payload, key, want) by {
            let have = before + part + behind;
            assert(f =~= field);
            members_are_read_by_name(payload, field, JsonView::Text(have));
            assert(have.subrange(before.len() as int, (before.len() + part.len()) as int) =~= part);
            assert(occurs_at(have, part, before.len() as int));
        }
    } else {
        assert forall|f: Seq<char>| key != #[trigger] (f + suffix) by {
            if key == f + suffix {
                assert(key.subrange(key.len() - 9, key.len() as int) =~= suffix);
            }
        }
        if let Some(have) = get_member(payload, key) {
            members_are_read_by_name(payload, key, have);
        }
        assert forall|have: JsonView| #[trigger] holds_at(payload, key, have) implies get_member(payload, key)
            == Some(have) by {
            members_are_read_by_name(payload, key, have);
        }
    }
}

/// A rule fits an event exactly where the event is of the kind that the rule waits for and its payload
/// meets every condition of the rule; one that it does not meet is enough to refuse it.
pub proof fn rules_fit_where_every_condition_holds(when: &Json, ev: &OpencapxEvent, r: bool)
    requires
        call_ensures(crate::automation::matches, (when, ev), r),
    ensures
        r == (holds_at(when@, "event"@, JsonView::Text(ev@.kind)) && forall|conditions: Seq<(Seq<char>, JsonView)>,
            i: int|
            #![trigger holds_at(when@, "match"@, JsonView::Object(conditions)), conditions[i]]
            holds_at(when@, "match"@, JsonView::Object(conditions)) && 0 <= i < conditions.len()
                ==> meets_condition(ev@.payload, conditions[i].0, conditions[i].1)),
{
    members_are_read_by_name(when@, "event"@, JsonView::Text(ev@.kind));
    assert forall|conditions: Seq<(Seq<char>, JsonView)>|
        #[trigger] holds_at(when@, "match"@, JsonView::Object(conditions)) == (get_member(
            when@,
            "match"@,
        ) == Some(JsonView::Object(conditions))) by {
        members_are_read_by_name(when@, "match"@, JsonView::Object(conditions));
    }
    assert forall|key: Seq<char>, want: JsonView| #[trigger]
        meets_condition(ev@.payload, key, want) == condition_met(ev@.payload, key, want) by {
        lemma_condition(ev@.payload, key, want);
    }
    if let Some(JsonView::Object(conditions)) = get_member(when@, "match"@) {
        assert(holds_at(when@, "match"@, JsonView::Object(conditions)));
        if conditions_met(ev@.payload, conditions) {
            assert forall|c: Seq<(Seq<char>, JsonView)>, i: int|
                #![trigger holds_at(when@, "match"@, JsonView::Object(c)), c[i]]
                holds_at(when@, "match"@, JsonView::Object(c)) && 0 <= i < c.len() implies meets_condition(
                ev@.payload,
                c[i].0,
                c[i].1,
            ) by {
                assert(c == conditions);
                assert(condition_met(ev@.payload, conditions[i].0, conditions[i].1));
            }
        } else {
            let i = choose|i: int|
                0 <= i < conditions.len() && !condition_met(
                    ev@.payload,
                    (#[trigger] conditions[i]).0,
                    conditions[i].1,
                );
            assert(!meets_condition(ev@.payload, conditions[i].0, conditions[i].1));
        }
    }
}

/// A rule with more conditions fits no event that it did not fit with fewer.
pub proof fn more_conditions_fit_less(
    few: &Json,
    many: &Json,
    fewer: Seq<(Seq<char>, JsonView)>,
    more: Seq<(Seq<char>, JsonView)>,
    ev: &OpencapxEvent,
    fits_few: bool,
    fits_many: bool,
)
    requires
        call_ensures(crate::automation::matches, (few, ev), fits_few),
        call_ensures(crate::automation::matches, (many, ev), fits_many),
        forall|kind: JsonView| #[trigger]
            holds_at(few@, "event"@, kind) == holds_at(many@, "event"@, kind),
        holds_at(few@, "match"@, JsonView::Object(fewer)),
        holds_at(many@, "match"@, JsonView::Object(more)),
        forall|i: int| 0 <= i < fewer.len() ==> more.contains(#[trigger] fewer[i]),
    ensures
        fits_many ==> fits_few,
{
    members_are_read_by_name(few@, "match"@, JsonView::Object(fewer));
    members_are_read_by_name(many@, "match"@, JsonView::Object(more));
    members_are_read_by_name(few@, "event"@, JsonView::Text(ev@.kind));
    members_are_read_by_name(many@, "event"@, JsonView::Text(ev@.kind));
    if fits_many {
        assert(holds_at(few@, "event"@, JsonView::Text(ev@.kind)) == holds_at(
            many@,
            "event"@,
            JsonView::Text(ev@.kind),
        ));
        assert forall|i: int| 0 <= i < fewer.len() implies condition_met(
            ev@.payload,
            (#[trigger] fewer[i]).0,
            fewer[i].1,
        ) by {
            let k = choose|k: int| 0 <= k < more.len() && more[k] == fewer[i];
            assert(condition_met(ev@.payload, more[k].0, more[k].1));
        }
    }
}

/// A rule fires where it has not fired for five seconds, by a clock in nanoseconds, and is then taken
/// to have fired; else nothing changes. What is remembered of other rules stays.
pub proof fn rules_cool_down(
    fired: &mut Table<Stamp>,
    id: &str,
    clock: u64,
    r: bool,
    last: u64,
    other: Seq<char>,
)
    requires
        call_ensures(cooled_down, (fired, id, clock), r),
        keys_distinct::<Stamp>(old(fired)@),
    ensures
        (forall|t: u64| !#[trigger] stamped_at(old(fired)@, id@, t)) ==> r,
        stamped_at(old(fired)@, id@, last) ==> r == (clock - last >= 5_000_000_000),
        r ==> stamped_at(final(fired)@, id@, clock),
        !r ==> final(fired)@ == old(fired)@,
        other != id@ ==> stamped_at(final(fired)@, other, last) == stamped_at(old(fired)@, other, last),
{
    lemma_stamp(old(fired)@, id@, last);
    crate::alerting::store::lemma_position_of::<Stamp>(old(fired)@, id@);
    if let Some(row) = crate::alerting::store::row_with::<Stamp>(old(fired)@, id@) {
        lemma_stamp(old(fired)@, id@, row.at);
        assert(row == (StampView { name: id@, at: row.at }));
        assert(stamped_at(old(fired)@, id@, row.at));
    }
    put_then_get::<Stamp>(old(fired)@, StampView { name: id@, at: clock }, other);
    put_then_get::<Stamp>(old(fired)@, StampView { name: id@, at: clock }, id@);
    lemma_stamp(old(fired)@, other, last);
    if r {
        lemma_stamp(final(fired)@, id@, clock);
        lemma_stamp(final(fired)@, other, last);
    }
}

} // verus!
