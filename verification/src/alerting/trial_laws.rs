//! What trial runs say and which circles of rules are reported, said of the operations and in no terms of
//! how they come to their results.

use vstd::prelude::*;

use super::aggregations::AggregationBucket;
use super::correlations::{correlations_on, suppresses, CorrelationState};
use super::dispatch::{dedup_key, DispatchState};
use super::escalations::{escalations_on, EscalationState};
use super::flow_laws::{bucket_holds, in_time, is_rule_for, lemma_bucket, lemma_fresh, went_lately};
use super::laws::{covers_kind, lemma_kind_fits, word_for};
use super::routes::{match_route, routes_on, Comparison};
use super::rule_laws::{
    ago, covers_glob, drops, lemma_drops, lemma_glob, lemma_on_members, lemma_stamp, stamped_at,
};
use super::severity::severity_resolved;
use super::silences::{first_ack, first_silence};
use super::simulator::{
    asking_rules, first_kind_ids, simulate_ack, simulate_aggregations, simulate_alerting_dispatch,
    simulate_correlations, simulate_dedup, simulate_escalations, simulate_route, simulate_silence,
    simulation_payload, would_ask, AckHitDto, AggregationSimulation, AlertingDispatchSimulation,
    CorrelationSimulation, DedupHitDto, EscalationSimulation, RouteSimulation, SilenceHitDto,
};
use super::stamps::{Stamp, StampView};
use super::storage::{
    AggregationRuleDto, AggregationRuleDtoView, CorrelationRuleDto, CorrelationRuleDtoView,
    EscalationRuleDto, EscalationRuleDtoView, Storage,
};
use super::store::{
    keys_distinct, first_index, lemma_first_index, lemma_position_of, row_with, rows_view, Table,
};
use super::timeline::{
    circles_do_not_go_unreported, correlations_fitting, cycle_reports, detect_route_cycles,
    edges_of_correlations, edges_of_routes, loops_are_reported, reports_are_circles, route_edges,
    routes_fitting, rule_edges, CycleKind, CycleReport, CycleReportView, RecentEvents,
};
use super::trace_laws::the_oldest_frequency_rule_counts;
use super::types::{
    AckRuleRow, RouteRuleRow, RouteRuleRowView, Severity, SilenceRuleRow, WebhookConfig,
};
use crate::json::{Json, JsonView};
use crate::text::byte_count;

verus! {

/// A trial run names the silence and the acknowledgement that hold, and how long they still do.
pub proof fn trials_name_what_holds(
    store: &Storage,
    source: &str,
    now: u64,
    silence: Option<SilenceRuleRow>,
    ack: Option<AckRuleRow>,
    r: Option<SilenceHitDto>,
    a: Option<AckHitDto>,
)
    requires
        call_ensures(simulate_silence, (store, source, now), r),
        call_ensures(simulate_ack, (store, source, now), a),
        call_ensures(first_silence, (store, source, now), silence),
        call_ensures(first_ack, (store, source, now), ack),
    ensures
        r is Some == silence is Some,
        r is Some ==> {
            let row = silence->0@;
            &&& r->0@.id == row.id && r->0@.name == row.name && r->0@.kind_pattern == row.kind_pattern
                && r->0@.ends_at == row.ends_at
            &&& row.ends_at >= now ==> r->0@.remaining_secs == row.ends_at - now
        },
        a is Some == ack is Some,
        a is Some ==> {
            let row = ack->0@;
            &&& a->0@.id == row.id && a->0@.kind_pattern == row.kind_pattern && a->0@.ack_until
                == row.ack_until
            &&& row.ack_until >= now ==> a->0@.remaining_secs == row.ack_until - now
        },
{
}

/// A trial run says that an event is held back where the same event went out within the least interval,
/// and for how long still.
pub proof fn trials_see_what_went_lately(
    last_sent: &Table<Stamp>,
    cfg: &WebhookConfig,
    source: &str,
    payload: &Json,
    clock: u64,
    key: String,
    t: u64,
    r: Option<DedupHitDto>,
)
    requires
        call_ensures(simulate_dedup, (last_sent, cfg, source, payload, clock), r),
        call_ensures(dedup_key, (source, payload), key),
        keys_distinct::<Stamp>(last_sent@),
    ensures
        r is Some == went_lately(last_sent@, key@, clock, cfg.min_interval_secs),
        r is Some && stamped_at(last_sent@, key@, t) ==> {
            &&& r->0@.key == key@
            &&& r->0@.last_sent_secs_ago == ago(clock, t) / 1_000_000_000
            &&& r->0@.min_interval_secs == cfg.min_interval_secs
            &&& r->0@.last_sent_secs_ago + r->0@.remaining_secs == cfg.min_interval_secs
        },
{
    lemma_stamp(last_sent@, key@, t);
    lemma_position_of::<Stamp>(last_sent@, key@);
    if let Some(s) = row_with::<Stamp>(last_sent@, key@) {
        lemma_stamp(last_sent@, key@, s.at);
        assert(s == (StampView { name: key@, at: s.at }));
        assert(stamped_at(last_sent@, key@, s.at));
    }
    assert forall|u: u64| #[trigger] stamped_at(last_sent@, key@, u) implies row_with::<Stamp>(last_sent@, key@)
        == Some(StampView { name: key@, at: u }) by {
        lemma_stamp(last_sent@, key@, u);
    }
}

/// A trial run names the route that would take the event and its endpoints; without one the event goes to
/// all.
pub proof fn trials_name_the_route(
    store: &Storage,
    source: &str,
    payload: &Json,
    numbers: &Vec<Option<Comparison>>,
    recent: &RecentEvents,
    now: u64,
    route: Option<RouteRuleRow>,
    r: RouteSimulation,
)
    requires
        call_ensures(simulate_route, (store, source, payload, numbers, recent, now), r),
        call_ensures(match_route, (store, source, payload, numbers, recent, now), route),
    ensures
        r@.fanout_all == route is None,
        r@.matched_rule is Some == route is Some,
        route is Some ==> r@.target_endpoint_ids == route->0@.target_endpoint_ids && r@.matched_rule->0.id
            == route->0@.id && r@.matched_rule->0.name == route->0@.name,
        route is None ==> r@.target_endpoint_ids.len() == 0,
{
}

/// A trial run counts the events in the window of the frequency rule for a source, and says that the rule
/// would take hold where these and the present one reach its threshold, unless it did so within its
/// window already.
pub proof fn trials_count_the_window(
    store: &Storage,
    buckets: &Table<AggregationBucket>,
    source: &str,
    now: u64,
    r: AggregationSimulation,
    severity: Severity,
    rule: AggregationRuleDtoView,
    events: Seq<u64>,
    fired: u64,
    found: Option<AggregationRuleDto>,
)
    requires
        call_ensures(simulate_aggregations, (store, buckets, source, now), r),
        call_ensures(severity_resolved, (store, source), severity),
        call_ensures(super::aggregations::matching_aggregation, (store, source), found),
        keys_distinct::<AggregationBucket>(buckets@),
        bucket_holds(buckets@, source@, events, fired),
        in_time(events, now),
        events.len() < u64::MAX,
    ensures
        found is None ==> !r@.would_fire && r@.matched_rule_id is None && r@.action is None,
        is_rule_for(*store, source@, rule) ==> {
            let window = events.filter(|t: u64| now - t <= rule.window_secs);
            &&& r@.matched_rule_id == Some(rule.id) && r@.matched_rule_name == Some(rule.name)
            &&& r@.threshold == rule.threshold_count
            &&& r@.bucket_events_in_window == window.len()
            &&& r@.would_fire == (window.len() + 1 >= rule.threshold_count && !(fired != 0 && ago(
                now,
                fired,
            ) <= rule.window_secs))
            &&& r@.would_fire ==> r@.action == Some(rule.action) && r@.action_severity == Some(
                word_for(severity),
            )
            &&& !r@.would_fire ==> r@.action is None && r@.action_severity is None
        },
{
    if is_rule_for(*store, source@, rule) {
        the_oldest_frequency_rule_counts(store, source, rule, found);
        lemma_bucket(buckets@, source@, events, fired);
        lemma_fresh(events, now, rule.window_secs);
        lemma_filter_len(events, |t: u64| now - t <= rule.window_secs);
    }
}

proof fn lemma_filter_len<T>(s: Seq<T>, f: spec_fn(T) -> bool)
    ensures
        s.filter(f).len() <= s.len(),
    decreases s.len(),
{
    reveal(Seq::filter);
    if s.len() > 0 {
        lemma_filter_len(s.drop_last(), f);
    }
}

/// A trial run says that an event would be suppressed where a rule that is on drops it, and names the first
/// such rule and, by their ids, the rules whose first kind the event is of.
pub proof fn trials_name_what_suppresses(
    store: &Storage,
    state: &CorrelationState,
    source: &str,
    now: u64,
    r: CorrelationSimulation,
    severity: Severity,
    id: Seq<char>,
)
    requires
        call_ensures(simulate_correlations, (store, state, source, now), r),
        call_ensures(severity_resolved, (store, source), severity),
        keys_distinct::<Stamp>(state.last_a@),
    ensures
        r@.would_suppress == exists|i: int|
            0 <= i < store.correlations@.len() && drops(
                #[trigger] store.correlations@[i],
                state.last_a@,
                source@,
                now,
            ),
        r@.would_suppress ==> r@.propagated_severity == Some(word_for(severity)) && r@.suppressing_rule_id
            is Some && exists|i: int|
            0 <= i < store.correlations@.len() && drops(
                #[trigger] store.correlations@[i],
                state.last_a@,
                source@,
                now,
            ) && store.correlations@[i].id == r@.suppressing_rule_id->0,
        !r@.would_suppress ==> r@.propagated_severity is None && r@.suppressing_rule_id is None,
        r@.matched_a_rule_ids.contains(id) == exists|i: int|
            0 <= i < store.correlations@.len() && (#[trigger] store.correlations@[i]).enabled && covers_glob(
                store.correlations@[i].kind_pattern_a,
                source@,
            ) && store.correlations@[i].id == id,
{
    let rows = store.correlations@;
    let on = |v: CorrelationRuleDtoView| v.enabled;
    let rules = correlations_on(*store);
    let fits = |v: CorrelationRuleDtoView| suppresses(v, state.last_a@, source@, now);
    lemma_on_members::<CorrelationRuleDto>(rows, on);
    lemma_first_index(rules, fits);
    if let Some(k) = first_index(rules, fits) {
        assert(rules.contains(rules[k]));
        let i = choose|i: int| 0 <= i < rows.len() && rows[i] == rules[k];
        lemma_drops(rows[i], state.last_a@, source@, now);
        assert(drops(rows[i], state.last_a@, source@, now));
    }
    if exists|i: int| 0 <= i < rows.len() && drops(#[trigger] rows[i], state.last_a@, source@, now) {
        let i = choose|i: int| 0 <= i < rows.len() && drops(#[trigger] rows[i], state.last_a@, source@, now);
        lemma_drops(rows[i], state.last_a@, source@, now);
        assert(rows.contains(rows[i]) && on(rows[i]));
        assert(rules.contains(rows[i]));
        let k = choose|k: int| 0 <= k < rules.len() && rules[k] == rows[i];
        assert(fits(rules[k]));
    }
    lemma_first_kinds(rules, source@, id);
    if r@.matched_a_rule_ids.contains(id) {
        let k = choose|k: int|
            0 <= k < rules.len() && covers_glob((#[trigger] rules[k]).kind_pattern_a, source@) && rules[k].id
                == id;
        assert(rules.contains(rules[k]));
        let i = choose|i: int| 0 <= i < rows.len() && rows[i] == rules[k];
        assert(rows[i].enabled);
    }
    if exists|i: int|
        0 <= i < rows.len() && (#[trigger] rows[i]).enabled && covers_glob(rows[i].kind_pattern_a, source@)
            && rows[i].id == id {
        let i = choose|i: int|
            0 <= i < rows.len() && (#[trigger] rows[i]).enabled && covers_glob(
                rows[i].kind_pattern_a,
                source@,
            ) && rows[i].id == id;
        assert(rows.contains(rows[i]) && on(rows[i]));
        assert(rules.contains(rows[i]));
        let k = choose|k: int| 0 <= k < rules.len() && rules[k] == rows[i];
        assert(covers_glob(rules[k].kind_pattern_a, source@));
    }
}

proof fn lemma_first_kinds(rules: Seq<CorrelationRuleDtoView>, source: Seq<char>, id: Seq<char>)
    ensures
        first_kind_ids(rules, source).contains(id) == exists|k: int|
            0 <= k < rules.len() && covers_glob((#[trigger] rules[k]).kind_pattern_a, source) && rules[k].id
                == id,
    decreases rules.len(),
{
    let all = first_kind_ids(rules, source);
    if rules.len() > 0 {
        let front = rules.drop_last();
        let n = rules.len() - 1;
        lemma_first_kinds(front, source, id);
        lemma_glob(rules[n].kind_pattern_a, source);
        let before = first_kind_ids(front, source);
        if before.contains(id) {
            let k = choose|k: int|
                0 <= k < front.len() && covers_glob((#[trigger] front[k]).kind_pattern_a, source)
                    && front[k].id == id;
            assert(rules[k] == front[k]);
            let p = choose|p: int| 0 <= p < before.len() && before[p] == id;
            assert(all[p] == id);
        }
        if all.contains(id) && !before.contains(id) {
            let p = choose|p: int| 0 <= p < all.len() && all[p] == id;
            if p < before.len() {
                assert(before[p] == id);
            }
            assert(covers_glob(rules[n].kind_pattern_a, source) && rules[n].id == id);
        }
        if exists|k: int|
            0 <= k < rules.len() && covers_glob((#[trigger] rules[k]).kind_pattern_a, source) && rules[k].id
                == id {
            let k = choose|k: int|
                0 <= k < rules.len() && covers_glob((#[trigger] rules[k]).kind_pattern_a, source)
                    && rules[k].id == id;
            if k < n {
                assert(front[k] == rules[k]);
            } else {
                assert(all[before.len() as int] == id);
            }
        }
    }
}

/// A trial run names the escalation rules that would ask: those that are on, cover the source, and whose
/// time has passed since its last dispatch. The first of them gives the severity.
pub proof fn trials_name_what_escalates(
    store: &Storage,
    state: &EscalationState,
    source: &str,
    now: u64,
    last: u64,
    r: EscalationSimulation,
    row: EscalationRuleDtoView,
)
    requires
        call_ensures(simulate_escalations, (store, state, source, now), r),
        keys_distinct::<Stamp>(state.last_by_source@),
    ensures
        stamped_at(state.last_by_source@, source@, last) && last > 0 ==> {
            &&& r@.last_dispatch_at == Some(last)
            &&& r@.candidate_rules.contains(EscalationRuleDtoView { created_at: 0, ..row }) == exists|i: int|
                0 <= i < store.escalations@.len() && (#[trigger] store.escalations@[i]).enabled
                    && covers_glob(store.escalations@[i].kind_pattern, source@) && ago(now, last)
                    >= store.escalations@[i].escalate_after_secs && (EscalationRuleDtoView {
                    created_at: 0,
                    ..store.escalations@[i]
                }) == (EscalationRuleDtoView { created_at: 0, ..row })
        },
        (forall|t: u64| !#[trigger] stamped_at(state.last_by_source@, source@, t)) ==> !r@.would_escalate
            && r@.last_dispatch_at is None,
        r@.would_escalate == (r@.candidate_rules.len() > 0),
        r@.would_escalate ==> r@.target_severity == Some(r@.candidate_rules[0].target_severity),
        !r@.would_escalate ==> r@.target_severity is None,
{
    let rows = store.escalations@;
    let on = |v: EscalationRuleDtoView| v.enabled;
    let rules = escalations_on(*store);
    lemma_on_members::<EscalationRuleDto>(rows, on);
    lemma_stamp(state.last_by_source@, source@, last);
    lemma_position_of::<Stamp>(state.last_by_source@, source@);
    if let Some(s) = row_with::<Stamp>(state.last_by_source@, source@) {
        lemma_stamp(state.last_by_source@, source@, s.at);
        assert(s == (StampView { name: source@, at: s.at }));
        assert(stamped_at(state.last_by_source@, source@, s.at));
    } else {
        lemma_none_asks(rules, source@, now);
    }
    if stamped_at(state.last_by_source@, source@, last) && last > 0 {
        let bare = EscalationRuleDtoView { created_at: 0, ..row };
        lemma_asking(rules, source@, last, now, bare);
        if r@.candidate_rules.contains(bare) {
            let k = choose|k: int|
                0 <= k < rules.len() && would_ask(#[trigger] rules[k], source@, last, now) && (
                EscalationRuleDtoView { created_at: 0, ..rules[k] }) == bare;
            assert(rules.contains(rules[k]));
            let i = choose|i: int| 0 <= i < rows.len() && rows[i] == rules[k];
            lemma_glob(rows[i].kind_pattern, source@);
            assert(rows[i].enabled);
        }
        if exists|i: int|
            0 <= i < rows.len() && (#[trigger] rows[i]).enabled && covers_glob(rows[i].kind_pattern, source@)
                && ago(now, last) >= rows[i].escalate_after_secs && (EscalationRuleDtoView {
                created_at: 0,
                ..rows[i]
            }) == bare {
            let i = choose|i: int|
                0 <= i < rows.len() && (#[trigger] rows[i]).enabled && covers_glob(
                    rows[i].kind_pattern,
                    source@,
                ) && ago(now, last) >= rows[i].escalate_after_secs && (EscalationRuleDtoView {
                    created_at: 0,
                    ..rows[i]
                }) == bare;
            lemma_glob(rows[i].kind_pattern, source@);
            assert(rows.contains(rows[i]) && on(rows[i]));
            assert(rules.contains(rows[i]));
            let k = choose|k: int| 0 <= k < rules.len() && rules[k] == rows[i];
            assert(would_ask(rules[k], source@, last, now));
        }
    }
}

proof fn lemma_none_asks(rules: Seq<EscalationRuleDtoView>, source: Seq<char>, now: u64)
    ensures
        asking_rules(rules, source, 0, now).len() == 0,
    decreases rules.len(),
{
    if rules.len() > 0 {
        lemma_none_asks(rules.drop_last(), source, now);
    }
}

proof fn lemma_asking(
    rules: Seq<EscalationRuleDtoView>,
    source: Seq<char>,
    last: u64,
    now: u64,
    bare: EscalationRuleDtoView,
)
    ensures
        asking_rules(rules, source, last, now).contains(bare) == exists|k: int|
            0 <= k < rules.len() && would_ask(#[trigger] rules[k], source, last, now) && (
            EscalationRuleDtoView { created_at: 0, ..rules[k] }) == bare,
    decreases rules.len(),
{
    let all = asking_rules(rules, source, last, now);
    if rules.len() > 0 {
        let front = rules.drop_last();
        let n = rules.len() - 1;
        lemma_asking(front, source, last, now, bare);
        let before = asking_rules(front, source, last, now);
        if before.contains(bare) {
            let k = choose|k: int|
                0 <= k < front.len() && would_ask(#[trigger] front[k], source, last, now) && (
                EscalationRuleDtoView { created_at: 0, ..front[k] }) == bare;
            assert(rules[k] == front[k]);
            let p = choose|p: int| 0 <= p < before.len() && before[p] == bare;
            assert(all[p] == bare);
        }
        if all.contains(bare) && !before.contains(bare) {
            let p = choose|p: int| 0 <= p < all.len() && all[p] == bare;
            if p < before.len() {
                assert(before[p] == bare);
            }
            assert(would_ask(rules[n], source, last, now));
        }
        if exists|k: int|
            0 <= k < rules.len() && would_ask(#[trigger] rules[k], source, last, now) && (
            EscalationRuleDtoView { created_at: 0, ..rules[k] }) == bare {
            let k = choose|k: int|
                0 <= k < rules.len() && would_ask(#[trigger] rules[k], source, last, now) && (
                EscalationRuleDtoView { created_at: 0, ..rules[k] }) == bare;
            if k < n {
                assert(front[k] == rules[k]);
            } else {
                assert(all[before.len() as int] == bare);
            }
        }
    }
}

/// A trial run of an event puts its parts together. It is refused where the source is blank or too long,
/// or the payload is no value; without a payload an empty object stands for it.
pub proof fn trials_put_their_parts_together(
    store: &Storage,
    cfg: &WebhookConfig,
    state: &DispatchState,
    source: &str,
    bare: &str,
    payload: Option<&str>,
    value: Result<Json, String>,
    numbers: &Vec<Option<Comparison>>,
    now: u64,
    clock: u64,
    silenced: Option<SilenceHitDto>,
    acked: Option<AckHitDto>,
    r: Result<AlertingDispatchSimulation, String>,
)
    requires
        call_ensures(
            simulate_alerting_dispatch,
            (store, cfg, state, source, payload, numbers, now, clock),
            r,
        ),
        call_ensures(simulation_payload, (payload,), value),
        call_ensures(crate::text::trim, (source,), bare),
        call_ensures(simulate_silence, (store, bare, now), silenced),
        call_ensures(simulate_ack, (store, bare, now), acked),
    ensures
        r is Ok == (bare@.len() > 0 && byte_count(bare@) <= 256 && value is Ok),
        payload is None || payload->0@.len() == 0 ==> value is Ok && value->Ok_0@ == JsonView::Object(
            Seq::empty(),
        ),
        r is Ok ==> {
            let out = r->Ok_0@;
            &&& out.source == bare@
            &&& out.gates.silenced is Some == silenced is Some
            &&& silenced is Some ==> out.gates.silenced == Some(silenced->0@)
            &&& out.gates.acked is Some == acked is Some
            &&& acked is Some ==> out.gates.acked == Some(acked->0@)
            &&& out.gates.would_be_dropped == (out.gates.silenced is Some || out.gates.acked is Some
                || out.gates.dedup_blocked is Some)
        },
{
}

/// Whether one rule feeds another: a route feeds the routes that its look back in time covers, and the
/// suppression rules whose first kind its own pattern covers; a suppression rule feeds the routes that
/// its second kind covers.
pub open spec fn feeds(
    routes: Seq<RouteRuleRowView>,
    corrs: Seq<CorrelationRuleDtoView>,
    a: Seq<char>,
    b: Seq<char>,
) -> bool {
    ||| exists|i: int, k: int|
        0 <= i < routes.len() && 0 <= k < routes.len() && (#[trigger] routes[i]).name == a && (
        #[trigger] routes[k]).name == b && routes[i].seen_in_last is Some && covers_kind(
            routes[i].seen_in_last->0.pattern,
            routes[k].kind_pattern,
        )
    ||| exists|i: int, k: int|
        0 <= i < routes.len() && 0 <= k < corrs.len() && (#[trigger] routes[i]).name == a && (
        #[trigger] corrs[k]).name == b && covers_kind(routes[i].kind_pattern, corrs[k].kind_pattern_a)
    ||| exists|i: int, k: int|
        0 <= i < corrs.len() && 0 <= k < routes.len() && (#[trigger] corrs[i]).name == a && (
        #[trigger] routes[k]).name == b && covers_kind(corrs[i].kind_pattern_b, routes[k].kind_pattern)
}

proof fn lemma_routes_fitting(routes: Seq<RouteRuleRowView>, pattern: Seq<char>, b: Seq<char>)
    ensures
        routes_fitting(routes, pattern).contains(b) == exists|k: int|
            0 <= k < routes.len() && (#[trigger] routes[k]).name == b && covers_kind(
                pattern,
                routes[k].kind_pattern,
            ),
    decreases routes.len(),
{
    let all = routes_fitting(routes, pattern);
    if routes.len() > 0 {
        let front = routes.drop_last();
        let n = routes.len() - 1;
        lemma_routes_fitting(front, pattern, b);
        lemma_kind_fits(pattern, routes[n].kind_pattern);
        let before = routes_fitting(front, pattern);
        if before.contains(b) {
            let k = choose|k: int|
                0 <= k < front.len() && (#[trigger] front[k]).name == b && covers_kind(
                    pattern,
                    front[k].kind_pattern,
                );
            assert(routes[k] == front[k]);
            let p = choose|p: int| 0 <= p < before.len() && before[p] == b;
            assert(all[p] == b);
        }
        if all.contains(b) && !before.contains(b) {
            let p = choose|p: int| 0 <= p < all.len() && all[p] == b;
            if p < before.len() {
                assert(before[p] == b);
            }
            assert(routes[n].name == b);
        }
        if exists|k: int|
            0 <= k < routes.len() && (#[trigger] routes[k]).name == b && covers_kind(
                pattern,
                routes[k].kind_pattern,
            ) {
            let k = choose|k: int|
                0 <= k < routes.len() && (#[trigger] routes[k]).name == b && covers_kind(
                    pattern,
                    routes[k].kind_pattern,
                );
            if k < n {
                assert(front[k] == routes[k]);
            } else {
                assert(all[before.len() as int] == b);
            }
        }
    }
}

proof fn lemma_correlations_fitting(corrs: Seq<CorrelationRuleDtoView>, pattern: Seq<char>, b: Seq<char>)
    ensures
        correlations_fitting(corrs, pattern).contains(b) == exists|k: int|
            0 <= k < corrs.len() && (#[trigger] corrs[k]).name == b && covers_kind(
                pattern,
                corrs[k].kind_pattern_a,
            ),
    decreases corrs.len(),
{
    let all = correlations_fitting(corrs, pattern);
    if corrs.len() > 0 {
        let front = corrs.drop_last();
        let n = corrs.len() - 1;
        lemma_correlations_fitting(front, pattern, b);
        lemma_kind_fits(pattern, corrs[n].kind_pattern_a);
        let before = correlations_fitting(front, pattern);
        if before.contains(b) {
            let k = choose|k: int|
                0 <= k < front.len() && (#[trigger] front[k]).name == b && covers_kind(
                    pattern,
                    front[k].kind_pattern_a,
                );
            assert(corrs[k] == front[k]);
            let p = choose|p: int| 0 <= p < before.len() && before[p] == b;
            assert(all[p] == b);
        }
        if all.contains(b) && !before.contains(b) {
            let p = choose|p: int| 0 <= p < all.len() && all[p] == b;
            if p < before.len() {
                assert(before[p] == b);
            }
            assert(corrs[n].name == b);
        }
        if exists|k: int|
            0 <= k < corrs.len() && (#[trigger] corrs[k]).name == b && covers_kind(
                pattern,
                corrs[k].kind_pattern_a,
            ) {
            let k = choose|k: int|
                0 <= k < corrs.len() && (#[trigger] corrs[k]).name == b && covers_kind(
                    pattern,
                    corrs[k].kind_pattern_a,
                );
            if k < n {
                assert(front[k] == corrs[k]);
            } else {
                assert(all[before.len() as int] == b);
            }
        }
    }
}

proof fn lemma_in_both<T>(a: Seq<T>, b: Seq<T>, x: T)
    ensures
        (a + b).contains(x) == (a.contains(x) || b.contains(x)),
{
    if a.contains(x) {
        let i = choose|i: int| 0 <= i < a.len() && a[i] == x;
        assert((a + b)[i] == x);
    }
    if b.contains(x) {
        let i = choose|i: int| 0 <= i < b.len() && b[i] == x;
        assert((a + b)[a.len() + i] == x);
    }
    if (a + b).contains(x) {
        let i = choose|i: int| 0 <= i < (a + b).len() && (a + b)[i] == x;
        if i < a.len() {
            assert(a[i] == x);
        } else {
            assert(b[i - a.len()] == x);
        }
    }
}

proof fn lemma_edges_of_routes(
    routes: Seq<RouteRuleRowView>,
    corrs: Seq<CorrelationRuleDtoView>,
    some: Seq<RouteRuleRowView>,
    a: Seq<char>,
    b: Seq<char>,
)
    ensures
        edges_of_routes(routes, corrs, some, a).contains(b) == exists|i: int|
            0 <= i < some.len() && (#[trigger] some[i]).name == a && route_edges(
                routes,
                corrs,
                some[i],
            ).contains(b),
    decreases some.len(),
{
    if some.len() > 0 {
        let front = some.drop_last();
        let n = some.len() - 1;
        lemma_edges_of_routes(routes, corrs, front, a, b);
        let before = edges_of_routes(routes, corrs, front, a);
        lemma_in_both(before, route_edges(routes, corrs, some[n]), b);
        if before.contains(b) {
            let i = choose|i: int|
                0 <= i < front.len() && (#[trigger] front[i]).name == a && route_edges(
                    routes,
                    corrs,
                    front[i],
                ).contains(b);
            assert(some[i] == front[i]);
        }
        if exists|i: int|
            0 <= i < some.len() && (#[trigger] some[i]).name == a && route_edges(
                routes,
                corrs,
                some[i],
            ).contains(b) {
            let i = choose|i: int|
                0 <= i < some.len() && (#[trigger] some[i]).name == a && route_edges(
                    routes,
                    corrs,
                    some[i],
                ).contains(b);
            if i < n {
                assert(front[i] == some[i]);
            }
        }
        assert(some[n].name == some.last().name);
    }
}

proof fn lemma_edges_of_correlations(
    routes: Seq<RouteRuleRowView>,
    some: Seq<CorrelationRuleDtoView>,
    a: Seq<char>,
    b: Seq<char>,
)
    ensures
        edges_of_correlations(routes, some, a).contains(b) == exists|i: int|
            0 <= i < some.len() && (#[trigger] some[i]).name == a && routes_fitting(
                routes,
                some[i].kind_pattern_b,
            ).contains(b),
    decreases some.len(),
{
    if some.len() > 0 {
        let front = some.drop_last();
        let n = some.len() - 1;
        lemma_edges_of_correlations(routes, front, a, b);
        let before = edges_of_correlations(routes, front, a);
        lemma_in_both(before, routes_fitting(routes, some[n].kind_pattern_b), b);
        if before.contains(b) {
            let i = choose|i: int|
                0 <= i < front.len() && (#[trigger] front[i]).name == a && routes_fitting(
                    routes,
                    front[i].kind_pattern_b,
                ).contains(b);
            assert(some[i] == front[i]);
        }
        if exists|i: int|
            0 <= i < some.len() && (#[trigger] some[i]).name == a && routes_fitting(
                routes,
                some[i].kind_pattern_b,
            ).contains(b) {
            let i = choose|i: int|
                0 <= i < some.len() && (#[trigger] some[i]).name == a && routes_fitting(
                    routes,
                    some[i].kind_pattern_b,
                ).contains(b);
            if i < n {
                assert(front[i] == some[i]);
            }
        }
        assert(some[n].name == some.last().name);
    }
}

proof fn lemma_feeds(
    routes: Seq<RouteRuleRowView>,
    corrs: Seq<CorrelationRuleDtoView>,
    a: Seq<char>,
    b: Seq<char>,
)
    ensures
        rule_edges(routes, corrs)(a).contains(b) == feeds(routes, corrs, a, b),
{
    lemma_in_both(edges_of_routes(routes, corrs, routes, a), edges_of_correlations(routes, corrs, a), b);
    lemma_edges_of_routes(routes, corrs, routes, a, b);
    lemma_edges_of_correlations(routes, corrs, a, b);
    assert forall|i: int| 0 <= i < routes.len() implies (#[trigger] route_edges(routes, corrs, routes[i]).contains(b))
        == ((routes[i].seen_in_last is Some && exists|k: int|
        0 <= k < routes.len() && (#[trigger] routes[k]).name == b && covers_kind(
            routes[i].seen_in_last->0.pattern,
            routes[k].kind_pattern,
        )) || (exists|k: int|
        0 <= k < corrs.len() && (#[trigger] corrs[k]).name == b && covers_kind(
            routes[i].kind_pattern,
            corrs[k].kind_pattern_a,
        ))) by {
        let back = match routes[i].seen_in_last {
            Some(look) => routes_fitting(routes, look.pattern),
            None => Seq::empty(),
        };
        lemma_in_both(back, correlations_fitting(corrs, routes[i].kind_pattern), b);
        if let Some(look) = routes[i].seen_in_last {
            lemma_routes_fitting(routes, look.pattern, b);
        }
        lemma_correlations_fitting(corrs, routes[i].kind_pattern, b);
    }
    assert forall|i: int| 0 <= i < corrs.len() implies (#[trigger] routes_fitting(
        routes,
        corrs[i].kind_pattern_b,
    ).contains(b)) == exists|k: int|
        0 <= k < routes.len() && (#[trigger] routes[k]).name == b && covers_kind(
            corrs[i].kind_pattern_b,
            routes[k].kind_pattern,
        ) by {
        lemma_routes_fitting(routes, corrs[i].kind_pattern_b, b);
    }
    if rule_edges(routes, corrs)(a).contains(b) {
        if edges_of_routes(routes, corrs, routes, a).contains(b) {
            let i = choose|i: int|
                0 <= i < routes.len() && (#[trigger] routes[i]).name == a && route_edges(
                    routes,
                    corrs,
                    routes[i],
                ).contains(b);
            assert(routes[i].name == a);
        } else {
            let i = choose|i: int|
                0 <= i < corrs.len() && (#[trigger] corrs[i]).name == a && routes_fitting(
                    routes,
                    corrs[i].kind_pattern_b,
                ).contains(b);
            assert(corrs[i].name == a);
        }
    }
    if feeds(routes, corrs, a, b) {
        if exists|i: int, k: int|
            0 <= i < routes.len() && 0 <= k < routes.len() && (#[trigger] routes[i]).name == a && (
            #[trigger] routes[k]).name == b && routes[i].seen_in_last is Some && covers_kind(
                routes[i].seen_in_last->0.pattern,
                routes[k].kind_pattern,
            ) {
            let (i, k) = choose|i: int, k: int|
                0 <= i < routes.len() && 0 <= k < routes.len() && (#[trigger] routes[i]).name == a && (
                #[trigger] routes[k]).name == b && routes[i].seen_in_last is Some && covers_kind(
                    routes[i].seen_in_last->0.pattern,
                    routes[k].kind_pattern,
                );
            assert(route_edges(routes, corrs, routes[i]).contains(b));
        } else if exists|i: int, k: int|
            0 <= i < routes.len() && 0 <= k < corrs.len() && (#[trigger] routes[i]).name == a && (
            #[trigger] corrs[k]).name == b && covers_kind(routes[i].kind_pattern, corrs[k].kind_pattern_a) {
            let (i, k) = choose|i: int, k: int|
                0 <= i < routes.len() && 0 <= k < corrs.len() && (#[trigger] routes[i]).name == a && (
                #[trigger] corrs[k]).name == b && covers_kind(
                    routes[i].kind_pattern,
                    corrs[k].kind_pattern_a,
                );
            assert(route_edges(routes, corrs, routes[i]).contains(b));
        } else {
            let (i, k) = choose|i: int, k: int|
                0 <= i < corrs.len() && 0 <= k < routes.len() && (#[trigger] corrs[i]).name == a && (
                #[trigger] routes[k]).name == b && covers_kind(
                    corrs[i].kind_pattern_b,
                    routes[k].kind_pattern,
                );
            assert(routes_fitting(routes, corrs[i].kind_pattern_b).contains(b));
        }
    }
}

/// Whether rules feed each other in turn and the last is the first again.
pub open spec fn goes_round(
    routes: Seq<RouteRuleRowView>,
    corrs: Seq<CorrelationRuleDtoView>,
    w: Seq<Seq<char>>,
) -> bool {
    &&& w.len() >= 2
    &&& w[0] == w[w.len() - 1]
    &&& forall|i: int| 0 <= i < w.len() - 1 ==> feeds(routes, corrs, #[trigger] w[i], w[i + 1])
}

/// Every report is of rules that are on and feed each other in a circle, which comes to no rule twice; it
/// is called a loop where it is of one rule. A rule that feeds itself is reported, and where rules feed
/// each other in any circle there is a report.
pub proof fn circles_of_rules_are_reported(
    store: &Storage,
    r: Vec<CycleReport>,
    i: int,
    name: Seq<char>,
    w: Seq<Seq<char>>,
)
    requires
        call_ensures(detect_route_cycles, (store,), r),
    ensures
        0 <= i < r@.len() ==> goes_round(routes_on(*store), correlations_on(*store), r@[i]@.cycle) && r@[i]@.cycle.drop_last().no_duplicates()
            && (r@[i]@.kind is SelfLoop == (r@[i]@.cycle.len() == 2)),
        feeds(routes_on(*store), correlations_on(*store), name, name) ==> exists|k: int|
            0 <= k < r@.len() && (#[trigger] r@[k])@.cycle == seq![name, name] && r@[k]@.kind is SelfLoop,
        goes_round(routes_on(*store), correlations_on(*store), w) ==> r@.len() > 0,
{
    let routes = routes_on(*store);
    let corrs = correlations_on(*store);
    let adj = rule_edges(routes, corrs);
    let all = cycle_reports(routes, corrs);
    assert(rows_view(r@) == all);
    assert(all.len() == r@.len());
    if 0 <= i < r@.len() {
        reports_are_circles(routes, corrs, i);
        assert(all[i] == r@[i]@);
        let c = all[i].cycle;
        assert forall|j: int| 0 <= j < c.len() - 1 implies feeds(routes, corrs, #[trigger] c[j], c[j + 1]) by {
            lemma_feeds(routes, corrs, c[j], c[j + 1]);
            assert(adj(c[j]).contains(c[j + 1]));
        }
    }
    if feeds(routes, corrs, name, name) {
        lemma_feeds(routes, corrs, name, name);
        loops_are_reported(routes, corrs, name);
        let want = CycleReportView { cycle: seq![name, name], kind: CycleKind::SelfLoop };
        let k = choose|k: int| 0 <= k < all.len() && all[k] == want;
        assert(all[k] == r@[k]@);
    }
    if goes_round(routes, corrs, w) {
        assert forall|j: int| 0 <= j < w.len() - 1 implies (#[trigger] adj(w[j])).contains(w[j + 1]) by {
            assert(feeds(routes, corrs, w[j], w[j + 1]));
            lemma_feeds(routes, corrs, w[j], w[j + 1]);
        }
        circles_do_not_go_unreported(routes, corrs, w);
    }
}

} // verus!
