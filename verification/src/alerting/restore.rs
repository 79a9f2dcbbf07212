//! What is handed out as a bundle can be taken in again: the laws of restoring.

use vstd::prelude::*;

use super::bundle::{
    acks_in, acks_of, bundle_handed_out, bundle_taken_in, bundled_endpoint, bundled_preset,
    endpoints_in, endpoints_of, presets_in, recipients_in, routes_in, silences_in, silences_of,
    AlertingBundleDoc, BundleRows,
};
use super::config::endpoint_complaint;
use super::endpoints::{endpoint_id, endpoint_row, name_taken, save_endpoint_complaint};
use super::ids::{all_uuids, counted_on, time_id, uuid_shape};
use super::presets::{
    all_presets, builtins, lemma_preset_put, listing_begins_with_what_comes_along, preset_complaint,
    preset_row, presets_of_users,
};
use super::recipients::{recipient_complaint, recipient_name_taken, recipient_row};
use super::routes::{id_or, route_complaint, route_id, route_row, routes_of};
use super::rows::{ack_of, endpoint_of, route_of, silence_of};
use super::silences::{ack_row, later, save_ack_complaint, silence_complaint, silence_row};
use super::sound::{
    acks_are_listed_sound, endpoints_are_listed_sound, presets_are_listed_sound,
    recipients_are_listed_sound, routes_are_listed_sound, silences_are_listed_sound, store_sound,
};
use super::storage::{RecipientDef, RecipientDefView, Storage, TemplatePreset, TemplatePresetView};
use super::store::{
    any_of, by_rank, kept, lemma_by_rank_of_sorted, lemma_first_index, lemma_position_of,
    listing_is_sorted_and_complete, position_of, rank_sorted, rows_view,
    with_row,
};
use super::types::{
    AckRuleRow, AckRuleRowView, AckRuleView, AlertingEndpointRow, AlertingEndpointRowView,
    RouteRuleRow, RouteRuleRowView, RouteRuleView, SilenceRuleRow, SilenceRuleRowView,
    SilenceRuleView, WebhookEndpointView,
};
use crate::text::{decimal_seq, lemma_decimal_differs, starts_with_seq, trim_seq};

verus! {

/// Whether endpoints are well-formed, each with an id and a name of its own.
pub open spec fn endpoints_sound(items: Seq<WebhookEndpointView>) -> bool {
    &&& forall|i: int|
        0 <= i < items.len() ==> (#[trigger] items[i]).id.len() > 0 && endpoint_complaint(items[i]) is None
    &&& forall|i: int, j: int|
        0 <= i < j < items.len() ==> (#[trigger] items[i]).id != (#[trigger] items[j]).id
    &&& forall|i: int, j: int|
        0 <= i < j < items.len() ==> (#[trigger] items[i]).name != (#[trigger] items[j]).name
}

/// Whether routes are well-formed, each with an id of its own.
pub open spec fn routes_sound(items: Seq<RouteRuleView>) -> bool {
    &&& forall|i: int|
        0 <= i < items.len() ==> (#[trigger] items[i]).id.len() > 0 && route_complaint(items[i]) is None
    &&& forall|i: int, j: int|
        0 <= i < j < items.len() ==> (#[trigger] items[i]).id != (#[trigger] items[j]).id
}

/// Whether presets of users are well-formed, each with an id of its own.
pub open spec fn presets_sound(items: Seq<TemplatePresetView>) -> bool {
    &&& forall|i: int|
        0 <= i < items.len() ==> {
            &&& (#[trigger] items[i]).id.len() > 0
            &&& items[i].kind.len() > 0
            &&& !starts_with_seq(items[i].kind, "builtin:"@)
            &&& !items[i].builtin
            &&& items[i].version >= 1
            &&& items[i].created_at != 0
            &&& preset_complaint(items[i]) is None
        }
    &&& forall|i: int, j: int|
        0 <= i < j < items.len() ==> (#[trigger] items[i]).id != (#[trigger] items[j]).id
}

/// Whether silences are well-formed, each with an id of its own.
pub open spec fn silences_sound(items: Seq<SilenceRuleView>) -> bool {
    &&& forall|i: int|
        0 <= i < items.len() ==> (#[trigger] items[i]).id.len() > 0 && silence_complaint(items[i]) is None
    &&& forall|i: int, j: int|
        0 <= i < j < items.len() ==> (#[trigger] items[i]).id != (#[trigger] items[j]).id
}

/// Whether acknowledgements are well-formed, and no more than there are numbers for.
pub open spec fn acks_sound(items: Seq<AckRuleView>) -> bool {
    &&& items.len() <= u64::MAX
    &&& forall|i: int| 0 <= i < items.len() ==> save_ack_complaint(#[trigger] items[i]) is None
}

/// Whether recipients are well-formed, each with an id and a name of its own.
pub open spec fn recipients_sound(items: Seq<RecipientDefView>) -> bool {
    &&& forall|i: int|
        0 <= i < items.len() ==> {
            &&& (#[trigger] items[i]).id.len() > 0
            &&& trim_seq(items[i].name) == items[i].name
            &&& items[i].created_at != 0
            &&& recipient_complaint(Seq::empty(), items[i], Seq::empty()) is None
        }
    &&& forall|i: int, j: int|
        0 <= i < j < items.len() ==> (#[trigger] items[i]).id != (#[trigger] items[j]).id
    &&& forall|i: int, j: int|
        0 <= i < j < items.len() ==> (#[trigger] items[i]).name != (#[trigger] items[j]).name
}

proof fn lemma_time_ids_differ(prefix: Seq<char>, nanos: u64, counter: u64, i: int, j: int)
    requires
        0 <= i < j <= u64::MAX,
    ensures
        time_id(prefix, nanos, counted_on(counter, i)) != time_id(
            prefix,
            nanos,
            counted_on(counter, j),
        ),
{
    let a = counted_on(counter, i);
    let b = counted_on(counter, j);
    assert(a != b);
    let head = prefix + decimal_seq(nanos as nat) + "-"@;
    let x = head + decimal_seq(a as nat);
    let y = head + decimal_seq(b as nat);
    lemma_decimal_differs(a as nat, b as nat);
    if x == y {
        assert(decimal_seq(a as nat) =~= x.skip(head.len() as int));
        assert(decimal_seq(b as nat) =~= y.skip(head.len() as int));
    }
}

/// The row of endpoint number `k` of a bundle that was taken into an empty table.
spec fn endpoints_in_row(items: Seq<WebhookEndpointView>, nanos: u64, counter: u64, now: u64, k: int) -> AlertingEndpointRowView {
    endpoint_row(Seq::empty(), items[k], endpoint_id(nanos, counted_on(counter, k)), now)
}

proof fn lemma_endpoints_in(rows: Seq<AlertingEndpointRowView>, items: Seq<WebhookEndpointView>, nanos: u64, counter: u64, now: u64, i: int)
    requires
        0 <= i <= items.len(),
        rows == Seq::new(i as nat, |k: int| endpoints_in_row(items, nanos, counter, now, k)),
        endpoints_sound(items),
    ensures
        endpoints_in(rows, items, nanos, counter, now, i) == (
            Seq::new(items.len(), |k: int| endpoints_in_row(items, nanos, counter, now, k)),
            None::<Seq<char>>,
        ),
    decreases items.len() - i,
{
    if i < items.len() {
        let v = endpoints_in_row(items, nanos, counter, now, i);
        lemma_position_of::<AlertingEndpointRow>(rows, v.id);
        assert(position_of::<AlertingEndpointRow>(rows, v.id) is None) by {
            if position_of::<AlertingEndpointRow>(rows, v.id) is Some {
                let p = position_of::<AlertingEndpointRow>(rows, v.id)->0;
                assert(rows[p] == endpoints_in_row(items, nanos, counter, now, p));
                assert(items[p].id != items[i].id);
            }
        }
        assert(!name_taken(rows, items[i].name, items[i].id)) by {
            let other = |e: AlertingEndpointRowView| e.name == items[i].name && e.id != items[i].id;
            if any_of(rows, other) {
                let p = choose|p: int| 0 <= p < rows.len() && other(#[trigger] rows[p]);
                assert(rows[p] == endpoints_in_row(items, nanos, counter, now, p));
                assert(items[p].name != items[i].name);
            }
        }
        assert(save_endpoint_complaint(rows, items[i]) is None);
        assert(bundled_endpoint(rows, items[i]) == items[i]) by {
            let of_that_name = |e: AlertingEndpointRowView| e.name == items[i].name;
            lemma_first_index(rows, of_that_name);
            if any_of(rows, of_that_name) {
                let p = choose|p: int| 0 <= p < rows.len() && of_that_name(#[trigger] rows[p]);
                assert(rows[p] == endpoints_in_row(items, nanos, counter, now, p));
                assert(items[p].name != items[i].name);
            }
        }
        assert(rows.push(v) =~= Seq::new((i + 1) as nat, |k: int| endpoints_in_row(items, nanos, counter, now, k)));
        lemma_endpoints_in(rows.push(v), items, nanos, counter, now, i + 1);
    } else {
        assert(rows =~= Seq::new(items.len(), |k: int| endpoints_in_row(items, nanos, counter, now, k)));
    }
}

/// The row of route number `k` of a bundle that was taken into an empty table.
spec fn routes_in_row(items: Seq<RouteRuleView>, nanos: u64, counter: u64, now: u64, k: int) -> RouteRuleRowView {
    route_row(items[k], id_or(items[k].id, route_id(nanos, counted_on(counter, k))), now)
}

proof fn lemma_routes_in(rows: Seq<RouteRuleRowView>, items: Seq<RouteRuleView>, nanos: u64, counter: u64, now: u64, i: int)
    requires
        0 <= i <= items.len(),
        rows == Seq::new(i as nat, |k: int| routes_in_row(items, nanos, counter, now, k)),
        routes_sound(items),
    ensures
        routes_in(rows, items, nanos, counter, now, i) == (
            Seq::new(items.len(), |k: int| routes_in_row(items, nanos, counter, now, k)),
            None::<Seq<char>>,
        ),
    decreases items.len() - i,
{
    if i < items.len() {
        let v = routes_in_row(items, nanos, counter, now, i);
        lemma_position_of::<RouteRuleRow>(rows, v.id);
        assert(position_of::<RouteRuleRow>(rows, v.id) is None) by {
            if position_of::<RouteRuleRow>(rows, v.id) is Some {
                let p = position_of::<RouteRuleRow>(rows, v.id)->0;
                assert(rows[p] == routes_in_row(items, nanos, counter, now, p));
                assert(items[p].id != items[i].id);
            }
        }
        assert(route_complaint(items[i]) is None);
        assert(rows.push(v) =~= Seq::new((i + 1) as nat, |k: int| routes_in_row(items, nanos, counter, now, k)));
        lemma_routes_in(rows.push(v), items, nanos, counter, now, i + 1);
    } else {
        assert(rows =~= Seq::new(items.len(), |k: int| routes_in_row(items, nanos, counter, now, k)));
    }
}

/// The row of preset number `k` of a bundle that was taken into an empty table.
spec fn presets_in_row(items: Seq<TemplatePresetView>, fresh: Seq<Seq<char>>, now: u64, k: int) -> TemplatePresetView {
    preset_row(Seq::empty(), bundled_preset(items[k], fresh[k]), fresh[k], now)
}

proof fn lemma_presets_in(rows: Seq<TemplatePresetView>, items: Seq<TemplatePresetView>, fresh: Seq<Seq<char>>, now: u64, i: int)
    requires
        0 <= i <= items.len(),
        rows == Seq::new(i as nat, |k: int| presets_in_row(items, fresh, now, k)),
        presets_sound(items),
    ensures
        presets_in(rows, items, fresh, now, i) == (
            Seq::new(items.len(), |k: int| presets_in_row(items, fresh, now, k)),
            None::<Seq<char>>,
        ),
    decreases items.len() - i,
{
    if i < items.len() {
        let v = presets_in_row(items, fresh, now, i);
        lemma_position_of::<TemplatePreset>(rows, v.id);
        assert(position_of::<TemplatePreset>(rows, v.id) is None) by {
            if position_of::<TemplatePreset>(rows, v.id) is Some {
                let p = position_of::<TemplatePreset>(rows, v.id)->0;
                assert(rows[p] == presets_in_row(items, fresh, now, p));
                assert(items[p].id != items[i].id);
            }
        }
        assert(bundled_preset(items[i], fresh[i]) == items[i]);
        assert(preset_complaint(items[i]) is None);
        assert(rows.push(v) =~= Seq::new((i + 1) as nat, |k: int| presets_in_row(items, fresh, now, k)));
        lemma_presets_in(rows.push(v), items, fresh, now, i + 1);
    } else {
        assert(rows =~= Seq::new(items.len(), |k: int| presets_in_row(items, fresh, now, k)));
    }
}

/// The row of silence number `k` of a bundle that was taken into an empty table.
spec fn silences_in_row(items: Seq<SilenceRuleView>, nanos: u64, counter: u64, now: u64, k: int) -> SilenceRuleRowView {
    silence_row(Seq::empty(), items[k], time_id("sil-"@, nanos, counted_on(counter, k)), now)
}

proof fn lemma_silences_in(rows: Seq<SilenceRuleRowView>, items: Seq<SilenceRuleView>, nanos: u64, counter: u64, now: u64, i: int)
    requires
        0 <= i <= items.len(),
        rows == Seq::new(i as nat, |k: int| silences_in_row(items, nanos, counter, now, k)),
        silences_sound(items),
    ensures
        silences_in(rows, items, nanos, counter, now, i) == (
            Seq::new(items.len(), |k: int| silences_in_row(items, nanos, counter, now, k)),
            None::<Seq<char>>,
        ),
    decreases items.len() - i,
{
    if i < items.len() {
        let v = silences_in_row(items, nanos, counter, now, i);
        lemma_position_of::<SilenceRuleRow>(rows, v.id);
        assert(position_of::<SilenceRuleRow>(rows, v.id) is None) by {
            if position_of::<SilenceRuleRow>(rows, v.id) is Some {
                let p = position_of::<SilenceRuleRow>(rows, v.id)->0;
                assert(rows[p] == silences_in_row(items, nanos, counter, now, p));
                assert(items[p].id != items[i].id);
            }
        }
        assert(silence_complaint(items[i]) is None);
        assert(rows.push(v) =~= Seq::new((i + 1) as nat, |k: int| silences_in_row(items, nanos, counter, now, k)));
        lemma_silences_in(rows.push(v), items, nanos, counter, now, i + 1);
    } else {
        assert(rows =~= Seq::new(items.len(), |k: int| silences_in_row(items, nanos, counter, now, k)));
    }
}

/// The row of acknowledgement number `k` of a bundle that was taken into an empty table.
spec fn acks_in_row(items: Seq<AckRuleView>, nanos: u64, counter: u64, now: u64, k: int) -> AckRuleRowView {
    ack_row(
        items[k].kind_pattern,
        items[k].window_secs,
        time_id("ack-"@, nanos, counted_on(counter, k)),
        now,
    )
}

proof fn lemma_acks_in(rows: Seq<AckRuleRowView>, items: Seq<AckRuleView>, nanos: u64, counter: u64, now: u64, i: int)
    requires
        0 <= i <= items.len(),
        rows == Seq::new(i as nat, |k: int| acks_in_row(items, nanos, counter, now, k)),
        acks_sound(items),
    ensures
        acks_in(rows, items, nanos, counter, now, i) == (
            Seq::new(items.len(), |k: int| acks_in_row(items, nanos, counter, now, k)),
            None::<Seq<char>>,
        ),
    decreases items.len() - i,
{
    if i < items.len() {
        let v = acks_in_row(items, nanos, counter, now, i);
        lemma_position_of::<AckRuleRow>(rows, v.id);
        assert(position_of::<AckRuleRow>(rows, v.id) is None) by {
            if position_of::<AckRuleRow>(rows, v.id) is Some {
                let p = position_of::<AckRuleRow>(rows, v.id)->0;
                assert(rows[p] == acks_in_row(items, nanos, counter, now, p));
                lemma_time_ids_differ("ack-"@, nanos, counter, p, i);
            }
        }
        assert(save_ack_complaint(items[i]) is None);
        assert(rows.push(v) =~= Seq::new((i + 1) as nat, |k: int| acks_in_row(items, nanos, counter, now, k)));
        lemma_acks_in(rows.push(v), items, nanos, counter, now, i + 1);
    } else {
        assert(rows =~= Seq::new(items.len(), |k: int| acks_in_row(items, nanos, counter, now, k)));
    }
}

/// The row of recipient number `k` of a bundle that was taken into an empty table.
spec fn recipients_in_row(items: Seq<RecipientDefView>, fresh: Seq<Seq<char>>, now: u64, k: int) -> RecipientDefView {
    recipient_row(items[k], fresh[k], now)
}

proof fn lemma_recipients_in(rows: Seq<RecipientDefView>, items: Seq<RecipientDefView>, fresh: Seq<Seq<char>>, now: u64, i: int)
    requires
        0 <= i <= items.len(),
        rows == Seq::new(i as nat, |k: int| recipients_in_row(items, fresh, now, k)),
        recipients_sound(items),
    ensures
        recipients_in(rows, items, fresh, now, i) == (
            Seq::new(items.len(), |k: int| recipients_in_row(items, fresh, now, k)),
            None::<Seq<char>>,
        ),
    decreases items.len() - i,
{
    if i < items.len() {
        let v = recipients_in_row(items, fresh, now, i);
        lemma_position_of::<RecipientDef>(rows, v.id);
        assert(position_of::<RecipientDef>(rows, v.id) is None) by {
            if position_of::<RecipientDef>(rows, v.id) is Some {
                let p = position_of::<RecipientDef>(rows, v.id)->0;
                assert(rows[p] == recipients_in_row(items, fresh, now, p));
                assert(items[p].id != items[i].id);
            }
        }
        assert(recipients_in_row(items, fresh, now, i) == items[i]);
        assert(!recipient_name_taken(rows, items[i].name, items[i].id)) by {
            let other = |r: RecipientDefView| r.name == items[i].name && r.id != items[i].id;
            if any_of(rows, other) {
                let p = choose|p: int| 0 <= p < rows.len() && other(#[trigger] rows[p]);
                assert(rows[p] == recipients_in_row(items, fresh, now, p));
                assert(items[p].name != items[i].name);
            }
        }
        assert(recipient_complaint(rows, items[i], fresh[i]) is None);
        assert(rows.push(v) =~= Seq::new((i + 1) as nat, |k: int| recipients_in_row(items, fresh, now, k)));
        lemma_recipients_in(rows.push(v), items, fresh, now, i + 1);
    } else {
        assert(rows =~= Seq::new(items.len(), |k: int| recipients_in_row(items, fresh, now, k)));
    }
}

/// Endpoints that were handed out and taken into an empty table are handed out again as they were.
pub proof fn endpoints_come_back(
    rows: Seq<AlertingEndpointRowView>,
    nanos: u64,
    counter: u64,
    now: u64,
)
    requires
        endpoints_sound(endpoints_of(by_rank::<AlertingEndpointRow>(rows))),
    ensures
        ({
            let items = endpoints_of(by_rank::<AlertingEndpointRow>(rows));
            let (out, error) = endpoints_in(Seq::empty(), items, nanos, counter, now, 0);
            error is None && endpoints_of(by_rank::<AlertingEndpointRow>(out)) == items
        }),
{
    let items = endpoints_of(by_rank::<AlertingEndpointRow>(rows));
    assert(Seq::<AlertingEndpointRowView>::empty() =~= Seq::new(
        0,
        |k: int| endpoints_in_row(items, nanos, counter, now, k),
    ));
    lemma_endpoints_in(Seq::empty(), items, nanos, counter, now, 0);
    let out = endpoints_in(Seq::empty(), items, nanos, counter, now, 0).0;
    assert(rank_sorted::<AlertingEndpointRow>(out));
    lemma_by_rank_of_sorted::<AlertingEndpointRow>(out);
    assert forall|k: int| 0 <= k < items.len() implies endpoint_of(out[k]) == #[trigger] items[k] by {
        assert(out[k] == endpoints_in_row(items, nanos, counter, now, k));
        if items[k].severity_overrides.len() == 0 {
            assert(items[k].severity_overrides =~= Seq::empty());
        }
    }
    assert(endpoints_of(out) =~= items);
}

/// Routes that were handed out and taken into an empty table are handed out again as they were.
pub proof fn routes_come_back(rows: Seq<RouteRuleRowView>, nanos: u64, counter: u64, now: u64)
    requires
        routes_sound(routes_of(by_rank::<RouteRuleRow>(rows))),
    ensures
        ({
            let items = routes_of(by_rank::<RouteRuleRow>(rows));
            let (out, error) = routes_in(Seq::empty(), items, nanos, counter, now, 0);
            error is None && routes_of(by_rank::<RouteRuleRow>(out)) == items
        }),
{
    let listed = by_rank::<RouteRuleRow>(rows);
    let items = routes_of(listed);
    listing_is_sorted_and_complete::<RouteRuleRow>(rows);
    assert(Seq::<RouteRuleRowView>::empty() =~= Seq::new(
        0,
        |k: int| routes_in_row(items, nanos, counter, now, k),
    ));
    lemma_routes_in(Seq::empty(), items, nanos, counter, now, 0);
    let out = routes_in(Seq::empty(), items, nanos, counter, now, 0).0;
    assert forall|i: int, j: int| 0 <= i <= j < out.len() implies (#[trigger] out[i]).priority <= (
    #[trigger] out[j]).priority by {
        assert(out[i] == routes_in_row(items, nanos, counter, now, i));
        assert(out[j] == routes_in_row(items, nanos, counter, now, j));
        assert(listed[i].priority <= listed[j].priority);
    }
    lemma_by_rank_of_sorted::<RouteRuleRow>(out);
    assert forall|k: int| 0 <= k < items.len() implies route_of(out[k]) == #[trigger] items[k] by {
        assert(out[k] == routes_in_row(items, nanos, counter, now, k));
    }
    assert(routes_of(out) =~= items);
}

/// What a bundle holds of the presets: those of users, in listing order.
pub proof fn bundle_holds_presets_of_users(store: Storage)
    requires
        presets_of_users(store.presets@),
    ensures
        kept(all_presets(store), |p: TemplatePresetView| !p.builtin) == by_rank::<TemplatePreset>(
            store.presets@,
        ),
{
    let f = |p: TemplatePresetView| !p.builtin;
    let users = by_rank::<TemplatePreset>(store.presets@);
    listing_begins_with_what_comes_along(store);
    assert forall|i: int| 0 <= i < users.len() implies f(#[trigger] users[i]) by {
        assert(all_presets(store)[builtins().len() + i] == users[i]);
    }
    lemma_kept_tail(builtins(), users, f);
}

proof fn lemma_kept_tail(
    first: Seq<TemplatePresetView>,
    second: Seq<TemplatePresetView>,
    f: spec_fn(TemplatePresetView) -> bool,
)
    requires
        forall|i: int| 0 <= i < first.len() ==> !f(#[trigger] first[i]),
        forall|i: int| 0 <= i < second.len() ==> f(#[trigger] second[i]),
    ensures
        kept(first + second, f) == second,
    decreases first.len() + second.len(),
{
    let all = first + second;
    if second.len() > 0 {
        assert(all.drop_last() =~= first + second.drop_last());
        assert(all.last() == second.last());
        assert(f(second[second.len() - 1]));
        lemma_kept_tail(first, second.drop_last(), f);
        assert(second.drop_last().push(second.last()) =~= second);
    } else if first.len() > 0 {
        assert(all =~= first);
        assert(first.drop_last() + second =~= all.drop_last());
        assert(!f(first[first.len() - 1]));
        lemma_kept_tail(first.drop_last(), second, f);
    } else {
        assert(kept(all, f) =~= second);
    }
}

/// Presets of users that were handed out and taken into an empty table are handed out again as they
/// were.
pub proof fn presets_come_back(rows: Seq<TemplatePresetView>, fresh: Seq<Seq<char>>, now: u64)
    requires
        presets_sound(by_rank::<TemplatePreset>(rows)),
    ensures
        ({
            let items = by_rank::<TemplatePreset>(rows);
            let (out, error) = presets_in(Seq::empty(), items, fresh, now, 0);
            error is None && by_rank::<TemplatePreset>(out) == items
        }),
{
    let items = by_rank::<TemplatePreset>(rows);
    listing_is_sorted_and_complete::<TemplatePreset>(rows);
    assert(Seq::<TemplatePresetView>::empty() =~= Seq::new(
        0,
        |k: int| presets_in_row(items, fresh, now, k),
    ));
    lemma_presets_in(Seq::empty(), items, fresh, now, 0);
    let out = presets_in(Seq::empty(), items, fresh, now, 0).0;
    assert forall|k: int| 0 <= k < items.len() implies out[k] == #[trigger] items[k] by {
        assert(out[k] == presets_in_row(items, fresh, now, k));
        assert(bundled_preset(items[k], fresh[k]) == items[k]);
        lemma_position_of::<TemplatePreset>(Seq::<TemplatePresetView>::empty(), items[k].id);
    }
    assert(out =~= items);
    lemma_by_rank_of_sorted::<TemplatePreset>(items);
}

/// Silences that were handed out and taken into an empty table are handed out again as they were.
pub proof fn silences_come_back(rows: Seq<SilenceRuleRowView>, nanos: u64, counter: u64, now: u64)
    requires
        silences_sound(silences_of(by_rank::<SilenceRuleRow>(rows))),
    ensures
        ({
            let items = silences_of(by_rank::<SilenceRuleRow>(rows));
            let (out, error) = silences_in(Seq::empty(), items, nanos, counter, now, 0);
            error is None && silences_of(by_rank::<SilenceRuleRow>(out)) == items
        }),
{
    let items = silences_of(by_rank::<SilenceRuleRow>(rows));
    assert(Seq::<SilenceRuleRowView>::empty() =~= Seq::new(
        0,
        |k: int| silences_in_row(items, nanos, counter, now, k),
    ));
    lemma_silences_in(Seq::empty(), items, nanos, counter, now, 0);
    let out = silences_in(Seq::empty(), items, nanos, counter, now, 0).0;
    assert(rank_sorted::<SilenceRuleRow>(out));
    lemma_by_rank_of_sorted::<SilenceRuleRow>(out);
    assert forall|k: int| 0 <= k < items.len() implies silence_of(out[k]) == #[trigger] items[k] by {
        assert(out[k] == silences_in_row(items, nanos, counter, now, k));
    }
    assert(silences_of(out) =~= items);
}

/// Acknowledgements that were handed out and taken into an empty table at the same time are handed
/// out again as they were, as long as the clock has room for them.
pub proof fn acks_come_back(rows: Seq<AckRuleRowView>, nanos: u64, counter: u64, now: u64)
    requires
        acks_sound(acks_of(by_rank::<AckRuleRow>(rows), now)),
        now + 604800 <= u64::MAX,
    ensures
        ({
            let items = acks_of(by_rank::<AckRuleRow>(rows), now);
            let (out, error) = acks_in(Seq::empty(), items, nanos, counter, now, 0);
            error is None && acks_of(by_rank::<AckRuleRow>(out), now) == items
        }),
{
    let items = acks_of(by_rank::<AckRuleRow>(rows), now);
    assert(Seq::<AckRuleRowView>::empty() =~= Seq::new(
        0,
        |k: int| acks_in_row(items, nanos, counter, now, k),
    ));
    lemma_acks_in(Seq::empty(), items, nanos, counter, now, 0);
    let out = acks_in(Seq::empty(), items, nanos, counter, now, 0).0;
    assert(rank_sorted::<AckRuleRow>(out));
    lemma_by_rank_of_sorted::<AckRuleRow>(out);
    assert forall|k: int| 0 <= k < items.len() implies ack_of(out[k], now) == #[trigger] items[k] by {
        assert(out[k] == acks_in_row(items, nanos, counter, now, k));
        assert(save_ack_complaint(items[k]) is None);
        assert(later(now, items[k].window_secs) == now + items[k].window_secs);
    }
    assert(acks_of(out, now) =~= items);
}

/// Recipients that were handed out and taken into an empty table are handed out again as they were.
pub proof fn recipients_come_back(rows: Seq<RecipientDefView>, fresh: Seq<Seq<char>>, now: u64)
    requires
        recipients_sound(by_rank::<RecipientDef>(rows)),
    ensures
        ({
            let items = by_rank::<RecipientDef>(rows);
            let (out, error) = recipients_in(Seq::empty(), items, fresh, now, 0);
            error is None && by_rank::<RecipientDef>(out) == items
        }),
{
    let items = by_rank::<RecipientDef>(rows);
    listing_is_sorted_and_complete::<RecipientDef>(rows);
    assert(Seq::<RecipientDefView>::empty() =~= Seq::new(
        0,
        |k: int| recipients_in_row(items, fresh, now, k),
    ));
    lemma_recipients_in(Seq::empty(), items, fresh, now, 0);
    let out = recipients_in(Seq::empty(), items, fresh, now, 0).0;
    assert forall|k: int| 0 <= k < items.len() implies out[k] == #[trigger] items[k] by {
        assert(out[k] == recipients_in_row(items, fresh, now, k));
    }
    assert(out =~= items);
    lemma_by_rank_of_sorted::<RecipientDef>(items);
}

/// Taking presets in from a bundle leaves only presets of users in the store, also where one of them
/// stops it.
pub proof fn bundles_keep_presets_of_users(
    rows: Seq<TemplatePresetView>,
    items: Seq<TemplatePresetView>,
    fresh: Seq<Seq<char>>,
    now: u64,
    i: int,
)
    requires
        presets_of_users(rows),
        all_uuids(fresh),
        fresh.len() >= items.len(),
        0 <= i,
    ensures
        presets_of_users(presets_in(rows, items, fresh, now, i).0),
    decreases items.len() - i,
{
    if i < items.len() {
        assert(uuid_shape(fresh[i]));
        let p = bundled_preset(items[i], fresh[i]);
        if preset_complaint(p) is None {
            let row = preset_row(rows, p, fresh[i], now);
            lemma_preset_put(rows, row);
            bundles_keep_presets_of_users(with_row::<TemplatePreset>(rows, row), items, fresh, now, i + 1);
        }
    }
}

/// No rows in any table that a bundle fills.
pub open spec fn no_rows() -> BundleRows {
    BundleRows {
        endpoints: Seq::empty(),
        routes: Seq::empty(),
        presets: Seq::empty(),
        silences: Seq::empty(),
        acks: Seq::empty(),
        recipients: Seq::empty(),
    }
}

/// A bundle that was handed out of a store whose contents are well-formed, as saving keeps them, and
/// taken into an empty store at the same time is taken in as a whole, and what is then handed out is,
/// section by section, what the bundle holds, as long as the clock has room for the
/// acknowledgements.
pub proof fn bundle_comes_back(
    store: Storage,
    doc: AlertingBundleDoc,
    nanos: u64,
    counter: u64,
    preset_ids: Seq<Seq<char>>,
    recipient_ids: Seq<Seq<char>>,
    now: u64,
)
    requires
        bundle_handed_out(store, now, doc),
        store_sound(store, now),
        now + 604800 <= u64::MAX,
    ensures
        ({
            let (out, error) = bundle_taken_in(
                no_rows(),
                doc,
                nanos,
                counter,
                preset_ids,
                recipient_ids,
                now,
            );
            &&& error is None
            &&& endpoints_of(by_rank::<AlertingEndpointRow>(out.endpoints)) == rows_view(doc.endpoints@)
            &&& routes_of(by_rank::<RouteRuleRow>(out.routes)) == rows_view(doc.routes@)
            &&& by_rank::<TemplatePreset>(out.presets) == rows_view(doc.presets@)
            &&& silences_of(by_rank::<SilenceRuleRow>(out.silences)) == rows_view(doc.silences@)
            &&& acks_of(by_rank::<AckRuleRow>(out.acks), now) == rows_view(doc.acks@)
            &&& by_rank::<RecipientDef>(out.recipients) == rows_view(doc.recipients@)
        }),
{
    endpoints_are_listed_sound(store.endpoints@);
    routes_are_listed_sound(store.routes@);
    presets_are_listed_sound(store.presets@);
    silences_are_listed_sound(store.silences@);
    acks_are_listed_sound(store.acks@, now);
    recipients_are_listed_sound(store.recipients@);
    bundle_holds_presets_of_users(store);
    endpoints_come_back(store.endpoints@, nanos, counter, now);
    routes_come_back(store.routes@, nanos, counter, now);
    presets_come_back(store.presets@, preset_ids, now);
    silences_come_back(store.silences@, nanos, counter, now);
    acks_come_back(store.acks@, nanos, counter, now);
    recipients_come_back(store.recipients@, recipient_ids, now);
}

} // verus!
