//! What is stored stays well-formed: the laws of saving and deleting.

use vstd::prelude::*;

use super::bundle::{acks_of, endpoints_of, silences_of};
use super::config::endpoint_complaint;
use super::endpoints::{endpoint_row, save_endpoint_complaint};
use super::ids::counted_on;
use super::presets::{preset_complaint, preset_row};
use super::recipients::{recipient_complaint, recipient_name_taken, recipient_row};
use super::restore::{
    acks_sound, endpoints_sound, presets_sound, recipients_sound, routes_sound, silences_sound,
};
use super::routes::{
    id_or, import_complaint, imported, route_complaint, route_id, route_made_at, route_row,
    routes_complaint, routes_of,
};
use super::rows::{ack_of, endpoint_of, route_of, silence_of};
use super::silences::{ack_row, save_ack_complaint, silence_complaint, silence_row};
use super::storage::{RecipientDef, RecipientDefView, Storage, TemplatePreset, TemplatePresetView};
use super::store::{
    any_of, by_rank, keys_distinct, lemma_position_of, listing_is_sorted_and_complete, position_of,
    with_row, without_row, Row,
};
use super::types::{
    AckRuleRow, AckRuleRowView, AckRuleView, AlertingEndpointRow, AlertingEndpointRowView,
    RouteRuleRow, RouteRuleRowView, RouteRuleView, SilenceRuleRow, SilenceRuleRowView,
    SilenceRuleView, WebhookEndpointView,
};
use crate::text::{lemma_trim_twice, starts_with_seq};

verus! {

/// Whether all that a store holds for a bundle is well-formed at time `now`.
pub open spec fn store_sound(store: Storage, now: u64) -> bool {
    &&& endpoints_sound(endpoints_of(store.endpoints@))
    &&& routes_sound(routes_of(store.routes@))
    &&& presets_sound(store.presets@)
    &&& silences_sound(silences_of(store.silences@))
    &&& acks_sound(acks_of(store.acks@, now))
    &&& recipients_sound(store.recipients@)
}

proof fn lemma_listed<R: Row>(rows: Seq<R::V>)
    ensures
        by_rank::<R>(rows).len() == rows.len(),
        forall|i: int|
            0 <= i < rows.len() ==> rows.contains(#[trigger] by_rank::<R>(rows)[i]),
        rows.no_duplicates() ==> by_rank::<R>(rows).no_duplicates(),
{
    broadcast use vstd::seq_lib::group_to_multiset_ensures;

    let listed = by_rank::<R>(rows);
    listing_is_sorted_and_complete::<R>(rows);
    assert forall|i: int| 0 <= i < rows.len() implies rows.contains(#[trigger] listed[i]) by {
        assert(listed.contains(listed[i]));
        assert(listed.to_multiset().count(listed[i]) > 0);
    }
    if rows.no_duplicates() {
        rows.lemma_multiset_has_no_duplicates();
        listed.lemma_multiset_has_no_duplicates_conv();
    }
}

/// Where the row `v` stands after it was put in; all other rows are as they were and have other keys.
proof fn lemma_put<R: Row>(rows: Seq<R::V>, v: R::V) -> (at: int)
    requires
        keys_distinct::<R>(rows),
    ensures
        0 <= at < with_row::<R>(rows, v).len(),
        with_row::<R>(rows, v)[at] == v,
        with_row::<R>(rows, v).len() <= rows.len() + 1,
        forall|i: int|
            0 <= i < with_row::<R>(rows, v).len() && i != at ==> i < rows.len()
                && #[trigger] with_row::<R>(rows, v)[i] == rows[i] && R::key(rows[i]) != R::key(v),
{
    lemma_position_of::<R>(rows, R::key(v));
    match position_of::<R>(rows, R::key(v)) {
        Some(at) => {
            assert forall|i: int| 0 <= i < rows.len() && i != at implies R::key(#[trigger] rows[i])
                != R::key(v) by {
                if i < at {
                    assert(R::key(rows[i]) != R::key(rows[at]));
                } else {
                    assert(R::key(rows[at]) != R::key(rows[i]));
                }
            }
            at
        },
        None => rows.len() as int,
    }
}

/// Where the rows that are left after a deletion stood before.
proof fn lemma_left<R: Row>(rows: Seq<R::V>, k: Seq<char>) -> (gone: int)
    ensures
        without_row::<R>(rows, k).len() <= rows.len() <= without_row::<R>(rows, k).len() + 1,
        0 <= gone <= rows.len(),
        forall|i: int|
            0 <= i < without_row::<R>(rows, k).len() ==> #[trigger] without_row::<R>(rows, k)[i]
                == rows[if i < gone {
                i
            } else {
                i + 1
            }],
        without_row::<R>(rows, k).len() == rows.len() ==> gone == rows.len(),
{
    lemma_position_of::<R>(rows, k);
    match position_of::<R>(rows, k) {
        Some(at) => at,
        None => rows.len() as int,
    }
}

/// Endpoints that are well-formed are so in listing order, too.
pub proof fn endpoints_are_listed_sound(rows: Seq<AlertingEndpointRowView>)
    requires
        endpoints_sound(endpoints_of(rows)),
    ensures
        endpoints_sound(endpoints_of(by_rank::<AlertingEndpointRow>(rows))),
{
    let listed = by_rank::<AlertingEndpointRow>(rows);
    let items = endpoints_of(rows);
    assert(rows.no_duplicates()) by {
        assert forall|i: int, j: int| 0 <= i < j < rows.len() implies rows[i] != rows[j] by {
            assert(items[i].id != items[j].id);
        }
    }
    lemma_listed::<AlertingEndpointRow>(rows);
    let out = endpoints_of(listed);
    assert forall|i: int| 0 <= i < out.len() implies (#[trigger] out[i]).id.len() > 0
        && endpoint_complaint(out[i]) is None by {
        assert(rows.contains(listed[i]));
        let p = choose|p: int| 0 <= p < rows.len() && rows[p] == listed[i];
        assert(items[p] == out[i]);
    }
    assert forall|i: int, j: int| 0 <= i < j < out.len() implies (#[trigger] out[i]).id != (
    #[trigger] out[j]).id && out[i].name != out[j].name by {
        assert(rows.contains(listed[i]));
        assert(rows.contains(listed[j]));
        let p = choose|p: int| 0 <= p < rows.len() && rows[p] == listed[i];
        let q = choose|q: int| 0 <= q < rows.len() && rows[q] == listed[j];
        assert(items[p] == out[i] && items[q] == out[j]);
        assert(p != q);
        if p < q {
            assert(items[p].id != items[q].id && items[p].name != items[q].name);
        } else {
            assert(items[q].id != items[p].id && items[q].name != items[p].name);
        }
    }
}

/// Routes that are well-formed are so in listing order, too.
pub proof fn routes_are_listed_sound(rows: Seq<RouteRuleRowView>)
    requires
        routes_sound(routes_of(rows)),
    ensures
        routes_sound(routes_of(by_rank::<RouteRuleRow>(rows))),
{
    let listed = by_rank::<RouteRuleRow>(rows);
    let items = routes_of(rows);
    assert(rows.no_duplicates()) by {
        assert forall|i: int, j: int| 0 <= i < j < rows.len() implies rows[i] != rows[j] by {
            assert(items[i].id != items[j].id);
        }
    }
    lemma_listed::<RouteRuleRow>(rows);
    let out = routes_of(listed);
    assert forall|i: int| 0 <= i < out.len() implies (#[trigger] out[i]).id.len() > 0
        && route_complaint(out[i]) is None by {
        assert(rows.contains(listed[i]));
        let p = choose|p: int| 0 <= p < rows.len() && rows[p] == listed[i];
        assert(items[p] == out[i]);
    }
    assert forall|i: int, j: int| 0 <= i < j < out.len() implies (#[trigger] out[i]).id != (
    #[trigger] out[j]).id by {
        assert(rows.contains(listed[i]));
        assert(rows.contains(listed[j]));
        let p = choose|p: int| 0 <= p < rows.len() && rows[p] == listed[i];
        let q = choose|q: int| 0 <= q < rows.len() && rows[q] == listed[j];
        assert(items[p] == out[i] && items[q] == out[j]);
        assert(p != q);
        if p < q {
            assert(items[p].id != items[q].id);
        } else {
            assert(items[q].id != items[p].id);
        }
    }
}

/// Silences that are well-formed are so in listing order, too.
pub proof fn silences_are_listed_sound(rows: Seq<SilenceRuleRowView>)
    requires
        silences_sound(silences_of(rows)),
    ensures
        silences_sound(silences_of(by_rank::<SilenceRuleRow>(rows))),
{
    let listed = by_rank::<SilenceRuleRow>(rows);
    let items = silences_of(rows);
    assert(rows.no_duplicates()) by {
        assert forall|i: int, j: int| 0 <= i < j < rows.len() implies rows[i] != rows[j] by {
            assert(items[i].id != items[j].id);
        }
    }
    lemma_listed::<SilenceRuleRow>(rows);
    let out = silences_of(listed);
    assert forall|i: int| 0 <= i < out.len() implies (#[trigger] out[i]).id.len() > 0
        && silence_complaint(out[i]) is None by {
        assert(rows.contains(listed[i]));
        let p = choose|p: int| 0 <= p < rows.len() && rows[p] == listed[i];
        assert(items[p] == out[i]);
    }
    assert forall|i: int, j: int| 0 <= i < j < out.len() implies (#[trigger] out[i]).id != (
    #[trigger] out[j]).id by {
        assert(rows.contains(listed[i]));
        assert(rows.contains(listed[j]));
        let p = choose|p: int| 0 <= p < rows.len() && rows[p] == listed[i];
        let q = choose|q: int| 0 <= q < rows.len() && rows[q] == listed[j];
        assert(items[p] == out[i] && items[q] == out[j]);
        assert(p != q);
        if p < q {
            assert(items[p].id != items[q].id);
        } else {
            assert(items[q].id != items[p].id);
        }
    }
}

/// Acknowledgements that are well-formed are so in listing order, too.
pub proof fn acks_are_listed_sound(rows: Seq<AckRuleRowView>, now: u64)
    requires
        acks_sound(acks_of(rows, now)),
    ensures
        acks_sound(acks_of(by_rank::<AckRuleRow>(rows), now)),
{
    let listed = by_rank::<AckRuleRow>(rows);
    let items = acks_of(rows, now);
    lemma_listed::<AckRuleRow>(rows);
    let out = acks_of(listed, now);
    assert forall|i: int| 0 <= i < out.len() implies save_ack_complaint(#[trigger] out[i]) is None by {
        assert(rows.contains(listed[i]));
        let p = choose|p: int| 0 <= p < rows.len() && rows[p] == listed[i];
        assert(items[p] == out[i]);
    }
}

/// Presets that are well-formed are so in listing order, too.
pub proof fn presets_are_listed_sound(rows: Seq<TemplatePresetView>)
    requires
        presets_sound(rows),
    ensures
        presets_sound(by_rank::<TemplatePreset>(rows)),
{
    let out = by_rank::<TemplatePreset>(rows);
    assert(rows.no_duplicates()) by {
        assert forall|i: int, j: int| 0 <= i < j < rows.len() implies rows[i] != rows[j] by {
            assert(rows[i].id != rows[j].id);
        }
    }
    lemma_listed::<TemplatePreset>(rows);
    assert forall|i: int, j: int| 0 <= i < j < out.len() implies (#[trigger] out[i]).id != (
    #[trigger] out[j]).id by {
        assert(rows.contains(out[i]));
        assert(rows.contains(out[j]));
        let p = choose|p: int| 0 <= p < rows.len() && rows[p] == out[i];
        let q = choose|q: int| 0 <= q < rows.len() && rows[q] == out[j];
        assert(p != q);
        if p < q {
            assert(rows[p].id != rows[q].id);
        } else {
            assert(rows[q].id != rows[p].id);
        }
    }
}

/// Recipients that are well-formed are so in listing order, too.
pub proof fn recipients_are_listed_sound(rows: Seq<RecipientDefView>)
    requires
        recipients_sound(rows),
    ensures
        recipients_sound(by_rank::<RecipientDef>(rows)),
{
    let out = by_rank::<RecipientDef>(rows);
    assert(rows.no_duplicates()) by {
        assert forall|i: int, j: int| 0 <= i < j < rows.len() implies rows[i] != rows[j] by {
            assert(rows[i].id != rows[j].id);
        }
    }
    lemma_listed::<RecipientDef>(rows);
    assert forall|i: int, j: int| 0 <= i < j < out.len() implies (#[trigger] out[i]).id != (
    #[trigger] out[j]).id && out[i].name != out[j].name by {
        assert(rows.contains(out[i]));
        assert(rows.contains(out[j]));
        let p = choose|p: int| 0 <= p < rows.len() && rows[p] == out[i];
        let q = choose|q: int| 0 <= q < rows.len() && rows[q] == out[j];
        assert(p != q);
        if p < q {
            assert(rows[p].id != rows[q].id && rows[p].name != rows[q].name);
        } else {
            assert(rows[q].id != rows[p].id && rows[q].name != rows[p].name);
        }
    }
}

/// Saving an endpoint leaves endpoints that are well-formed, each with an id and a name of its own.
pub proof fn saving_keeps_endpoints_sound(
    rows: Seq<AlertingEndpointRowView>,
    ep: WebhookEndpointView,
    fresh: Seq<char>,
    now: u64,
)
    requires
        endpoints_sound(endpoints_of(rows)),
        save_endpoint_complaint(rows, ep) is None,
        fresh.len() > 0,
    ensures
        endpoints_sound(
            endpoints_of(with_row::<AlertingEndpointRow>(rows, endpoint_row(rows, ep, fresh, now))),
        ),
{
    let items = endpoints_of(rows);
    let row = endpoint_row(rows, ep, fresh, now);
    assert forall|i: int, j: int| 0 <= i < j < rows.len() implies (#[trigger] rows[i]).id != (
    #[trigger] rows[j]).id by {
        assert(items[i].id != items[j].id);
    }
    let at = lemma_put::<AlertingEndpointRow>(rows, row);
    let t = with_row::<AlertingEndpointRow>(rows, row);
    let out = endpoints_of(t);
    let other = |e: AlertingEndpointRowView| e.name == ep.name && e.id != ep.id;
    assert(!any_of(rows, other));
    assert(endpoint_of(row).severity_overrides =~= ep.severity_overrides);
    assert(endpoint_complaint(endpoint_of(row)) == endpoint_complaint(ep));
    assert forall|i: int| 0 <= i < out.len() implies (#[trigger] out[i]).id.len() > 0
        && endpoint_complaint(out[i]) is None by {
        if i == at {
            assert(t[i] == row);
        } else {
            assert(t[i] == rows[i]);
            assert(out[i] == items[i]);
        }
    }
    assert forall|i: int| 0 <= i < t.len() && i != at implies (#[trigger] t[i]).name != ep.name by {
        assert(t[i] == rows[i]);
        assert(items[i].id.len() > 0);
        assert(rows[i].id != row.id);
        if rows[i].name == ep.name {
            assert(other(rows[i]));
        }
    }
    assert forall|i: int, j: int| 0 <= i < j < out.len() implies (#[trigger] out[i]).id != (
    #[trigger] out[j]).id && out[i].name != out[j].name by {
        if i == at {
            assert(t[j] == rows[j]);
        } else if j == at {
            assert(t[i] == rows[i]);
        } else {
            assert(t[i] == rows[i] && t[j] == rows[j]);
            assert(items[i].id != items[j].id && items[i].name != items[j].name);
        }
    }
}

proof fn lemma_route_put(rows: Seq<RouteRuleRowView>, rule: RouteRuleView, id: Seq<char>, made: u64)
    requires
        routes_sound(routes_of(rows)),
        route_complaint(rule) is None,
        id.len() > 0,
    ensures
        routes_sound(routes_of(with_row::<RouteRuleRow>(rows, route_row(rule, id, made)))),
{
    let items = routes_of(rows);
    let row = route_row(rule, id, made);
    assert forall|i: int, j: int| 0 <= i < j < rows.len() implies (#[trigger] rows[i]).id != (
    #[trigger] rows[j]).id by {
        assert(items[i].id != items[j].id);
    }
    let at = lemma_put::<RouteRuleRow>(rows, row);
    let t = with_row::<RouteRuleRow>(rows, row);
    let out = routes_of(t);
    assert(route_complaint(route_of(row)) == route_complaint(rule));
    assert forall|i: int| 0 <= i < out.len() implies (#[trigger] out[i]).id.len() > 0
        && route_complaint(out[i]) is None by {
        if i == at {
            assert(t[i] == row);
        } else {
            assert(t[i] == rows[i]);
            assert(out[i] == items[i]);
        }
    }
    assert forall|i: int, j: int| 0 <= i < j < out.len() implies (#[trigger] out[i]).id != (
    #[trigger] out[j]).id by {
        if i == at {
            assert(t[j] == rows[j]);
        } else if j == at {
            assert(t[i] == rows[i]);
        } else {
            assert(t[i] == rows[i] && t[j] == rows[j]);
            assert(items[i].id != items[j].id);
        }
    }
}

/// Saving a route leaves routes that are well-formed, each with an id of its own.
pub proof fn saving_keeps_routes_sound(
    rows: Seq<RouteRuleRowView>,
    rule: RouteRuleView,
    fresh: Seq<char>,
    now: u64,
)
    requires
        routes_sound(routes_of(rows)),
        route_complaint(rule) is None,
        fresh.len() > 0,
    ensures
        ({
            let id = id_or(rule.id, fresh);
            routes_sound(
                routes_of(
                    with_row::<RouteRuleRow>(
                        rows,
                        route_row(rule, id, route_made_at(rows, id, now)),
                    ),
                ),
            )
        }),
{
    let id = id_or(rule.id, fresh);
    lemma_route_put(rows, rule, id, route_made_at(rows, id, now));
}

proof fn lemma_all_routes_fine(rules: Seq<RouteRuleView>, i: int)
    requires
        0 <= i,
        routes_complaint(rules, i) is None,
    ensures
        forall|k: int| i <= k < rules.len() ==> route_complaint(#[trigger] rules[k]) is None,
    decreases rules.len() - i,
{
    if i < rules.len() {
        lemma_all_routes_fine(rules, i + 1);
    }
}

proof fn lemma_imported(rules: Seq<RouteRuleView>, nanos: u64, counter: u64, now: u64)
    requires
        forall|k: int| 0 <= k < rules.len() ==> route_complaint(#[trigger] rules[k]) is None,
    ensures
        routes_sound(routes_of(imported(rules, nanos, counter, now))),
    decreases rules.len(),
{
    if rules.len() > 0 {
        let before = rules.drop_last();
        assert forall|k: int| 0 <= k < before.len() implies route_complaint(#[trigger] before[k]) is None by {
            assert(before[k] == rules[k]);
        }
        lemma_imported(before, nanos, counter, now);
        let last = rules[rules.len() - 1];
        reveal_strlit("rt-");
        let id = id_or(last.id, route_id(nanos, counted_on(counter, rules.len() - 1)));
        lemma_route_put(imported(before, nanos, counter, now), last, id, now);
    }
}

/// A list of routes that is taken over leaves routes that are well-formed, each with an id of its
/// own.
pub proof fn importing_keeps_routes_sound(rules: Seq<RouteRuleView>, nanos: u64, counter: u64, now: u64)
    requires
        import_complaint(rules) is None,
    ensures
        routes_sound(routes_of(imported(rules, nanos, counter, now))),
{
    lemma_all_routes_fine(rules, 0);
    lemma_imported(rules, nanos, counter, now);
}

/// Saving a silence leaves silences that are well-formed, each with an id of its own.
pub proof fn saving_keeps_silences_sound(
    rows: Seq<SilenceRuleRowView>,
    s: SilenceRuleView,
    fresh: Seq<char>,
    now: u64,
)
    requires
        silences_sound(silences_of(rows)),
        silence_complaint(s) is None,
        fresh.len() > 0,
    ensures
        silences_sound(silences_of(with_row::<SilenceRuleRow>(rows, silence_row(rows, s, fresh, now)))),
{
    let items = silences_of(rows);
    let row = silence_row(rows, s, fresh, now);
    assert forall|i: int, j: int| 0 <= i < j < rows.len() implies (#[trigger] rows[i]).id != (
    #[trigger] rows[j]).id by {
        assert(items[i].id != items[j].id);
    }
    let at = lemma_put::<SilenceRuleRow>(rows, row);
    let t = with_row::<SilenceRuleRow>(rows, row);
    let out = silences_of(t);
    assert(silence_complaint(silence_of(row)) == silence_complaint(s));
    assert forall|i: int| 0 <= i < out.len() implies (#[trigger] out[i]).id.len() > 0
        && silence_complaint(out[i]) is None by {
        if i == at {
            assert(t[i] == row);
        } else {
            assert(t[i] == rows[i]);
            assert(out[i] == items[i]);
        }
    }
    assert forall|i: int, j: int| 0 <= i < j < out.len() implies (#[trigger] out[i]).id != (
    #[trigger] out[j]).id by {
        if i == at {
            assert(t[j] == rows[j]);
        } else if j == at {
            assert(t[i] == rows[i]);
        } else {
            assert(t[i] == rows[i] && t[j] == rows[j]);
            assert(items[i].id != items[j].id);
        }
    }
}

/// An acknowledgement that is made at `now` leaves acknowledgements that are well-formed then.
pub proof fn saving_keeps_acks_sound(
    rows: Seq<AckRuleRowView>,
    rule: AckRuleView,
    fresh: Seq<char>,
    now: u64,
)
    requires
        acks_sound(acks_of(rows, now)),
        keys_distinct::<AckRuleRow>(rows),
        save_ack_complaint(rule) is None,
        rows.len() < u64::MAX,
    ensures
        acks_sound(
            acks_of(
                with_row::<AckRuleRow>(rows, ack_row(rule.kind_pattern, rule.window_secs, fresh, now)),
                now,
            ),
        ),
{
    let items = acks_of(rows, now);
    let row = ack_row(rule.kind_pattern, rule.window_secs, fresh, now);
    let at = lemma_put::<AckRuleRow>(rows, row);
    let t = with_row::<AckRuleRow>(rows, row);
    let out = acks_of(t, now);
    assert forall|i: int| 0 <= i < out.len() implies save_ack_complaint(#[trigger] out[i]) is None by {
        if i == at {
            assert(t[i] == row);
        } else {
            assert(t[i] == rows[i]);
            assert(out[i] == items[i]);
        }
    }
}

/// Acknowledgements stay well-formed as time goes by.
pub proof fn acks_stay_sound(rows: Seq<AckRuleRowView>, now: u64, then: u64)
    requires
        acks_sound(acks_of(rows, now)),
        now <= then,
    ensures
        acks_sound(acks_of(rows, then)),
{
    let items = acks_of(rows, now);
    let out = acks_of(rows, then);
    assert forall|i: int| 0 <= i < out.len() implies save_ack_complaint(#[trigger] out[i]) is None by {
        assert(save_ack_complaint(items[i]) is None);
        assert(items[i] == ack_of(rows[i], now));
    }
}

/// Saving a preset of a user leaves presets that are well-formed, each with an id of its own.
pub proof fn saving_keeps_presets_sound(
    rows: Seq<TemplatePresetView>,
    p: TemplatePresetView,
    fresh: Seq<char>,
    now: u64,
)
    requires
        presets_sound(rows),
        preset_complaint(p) is None,
        fresh.len() > 0,
        now > 0,
    ensures
        presets_sound(with_row::<TemplatePreset>(rows, preset_row(rows, p, fresh, now))),
{
    let row = preset_row(rows, p, fresh, now);
    reveal_strlit("user:");
    reveal_strlit("builtin:");
    let own = "user:"@ + row.id;
    assert(!starts_with_seq(own, "builtin:"@)) by {
        if starts_with_seq(own, "builtin:"@) {
            assert(own.subrange(0, 8)[0] == own[0]);
            assert(own[0] == 'u');
        }
    }
    lemma_position_of::<TemplatePreset>(rows, row.id);
    let at = lemma_put::<TemplatePreset>(rows, row);
    let t = with_row::<TemplatePreset>(rows, row);
    assert forall|i: int, j: int| 0 <= i < j < t.len() implies (#[trigger] t[i]).id != (
    #[trigger] t[j]).id by {
        if i != at && j != at {
            assert(rows[i].id != rows[j].id);
        }
    }
    assert(preset_complaint(row) is None);
}

/// Saving a recipient leaves recipients that are well-formed, each with an id and a name of its own.
pub proof fn saving_keeps_recipients_sound(
    rows: Seq<RecipientDefView>,
    rec: RecipientDefView,
    fresh: Seq<char>,
    now: u64,
)
    requires
        recipients_sound(rows),
        recipient_complaint(rows, rec, fresh) is None,
        fresh.len() > 0,
        now > 0,
    ensures
        recipients_sound(with_row::<RecipientDef>(rows, recipient_row(rec, fresh, now))),
{
    let row = recipient_row(rec, fresh, now);
    lemma_trim_twice(rec.name);
    let at = lemma_put::<RecipientDef>(rows, row);
    let t = with_row::<RecipientDef>(rows, row);
    let other = |r: RecipientDefView| r.name == row.name && r.id != row.id;
    assert(!any_of(rows, other)) by {
        assert(recipient_name_taken(rows, row.name, row.id) == any_of(rows, other));
    }
    assert(recipient_complaint(Seq::empty(), row, Seq::empty()) is None) by {
        assert(!recipient_name_taken(Seq::empty(), row.name, row.id));
    }
    assert forall|i: int| 0 <= i < t.len() && i != at implies (#[trigger] t[i]).name != row.name by {
        assert(t[i] == rows[i]);
        if rows[i].name == row.name {
            assert(other(rows[i]));
        }
    }
    assert forall|i: int, j: int| 0 <= i < j < t.len() implies (#[trigger] t[i]).id != (
    #[trigger] t[j]).id && t[i].name != t[j].name by {
        if i != at && j != at {
            assert(rows[i].id != rows[j].id && rows[i].name != rows[j].name);
        }
    }
}

/// Deleting an endpoint leaves endpoints that are well-formed.
pub proof fn deleting_keeps_endpoints_sound(rows: Seq<AlertingEndpointRowView>, id: Seq<char>)
    requires
        endpoints_sound(endpoints_of(rows)),
    ensures
        endpoints_sound(endpoints_of(without_row::<AlertingEndpointRow>(rows, id))),
{
    let items = endpoints_of(rows);
    let gone = lemma_left::<AlertingEndpointRow>(rows, id);
    let t = without_row::<AlertingEndpointRow>(rows, id);
    let out = endpoints_of(t);
    assert forall|i: int| 0 <= i < out.len() implies #[trigger] out[i] == items[if i < gone {
        i
    } else {
        i + 1
    }] by {
        assert(t[i] == rows[if i < gone {
            i
        } else {
            i + 1
        }]);
    }
}

/// Deleting a route leaves routes that are well-formed.
pub proof fn deleting_keeps_routes_sound(rows: Seq<RouteRuleRowView>, id: Seq<char>)
    requires
        routes_sound(routes_of(rows)),
    ensures
        routes_sound(routes_of(without_row::<RouteRuleRow>(rows, id))),
{
    let items = routes_of(rows);
    let gone = lemma_left::<RouteRuleRow>(rows, id);
    let t = without_row::<RouteRuleRow>(rows, id);
    let out = routes_of(t);
    assert forall|i: int| 0 <= i < out.len() implies #[trigger] out[i] == items[if i < gone {
        i
    } else {
        i + 1
    }] by {
        assert(t[i] == rows[if i < gone {
            i
        } else {
            i + 1
        }]);
    }
}

/// Deleting a silence leaves silences that are well-formed.
pub proof fn deleting_keeps_silences_sound(rows: Seq<SilenceRuleRowView>, id: Seq<char>)
    requires
        silences_sound(silences_of(rows)),
    ensures
        silences_sound(silences_of(without_row::<SilenceRuleRow>(rows, id))),
{
    let items = silences_of(rows);
    let gone = lemma_left::<SilenceRuleRow>(rows, id);
    let t = without_row::<SilenceRuleRow>(rows, id);
    let out = silences_of(t);
    assert forall|i: int| 0 <= i < out.len() implies #[trigger] out[i] == items[if i < gone {
        i
    } else {
        i + 1
    }] by {
        assert(t[i] == rows[if i < gone {
            i
        } else {
            i + 1
        }]);
    }
}

/// Deleting an acknowledgement leaves acknowledgements that are well-formed.
pub proof fn deleting_keeps_acks_sound(rows: Seq<AckRuleRowView>, id: Seq<char>, now: u64)
    requires
        acks_sound(acks_of(rows, now)),
    ensures
        acks_sound(acks_of(without_row::<AckRuleRow>(rows, id), now)),
{
    let items = acks_of(rows, now);
    let gone = lemma_left::<AckRuleRow>(rows, id);
    let t = without_row::<AckRuleRow>(rows, id);
    let out = acks_of(t, now);
    assert forall|i: int| 0 <= i < out.len() implies #[trigger] out[i] == items[if i < gone {
        i
    } else {
        i + 1
    }] by {
        assert(t[i] == rows[if i < gone {
            i
        } else {
            i + 1
        }]);
    }
}

/// Deleting a preset leaves presets that are well-formed.
pub proof fn deleting_keeps_presets_sound(rows: Seq<TemplatePresetView>, id: Seq<char>)
    requires
        presets_sound(rows),
    ensures
        presets_sound(without_row::<TemplatePreset>(rows, id)),
{
    let gone = lemma_left::<TemplatePreset>(rows, id);
}

/// Deleting a recipient leaves recipients that are well-formed.
pub proof fn deleting_keeps_recipients_sound(rows: Seq<RecipientDefView>, id: Seq<char>)
    requires
        recipients_sound(rows),
    ensures
        recipients_sound(without_row::<RecipientDef>(rows, id)),
{
    let gone = lemma_left::<RecipientDef>(rows, id);
}

} // verus!
