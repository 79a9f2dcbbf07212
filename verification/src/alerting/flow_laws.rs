//! How events flow through alerting: what lets them through, what frequency rules and routes decide,
//! what is remembered, and how failed deliveries are tried again. All of it is said of the operations
//! and in no terms of how they come to their results.

use std::collections::hash_map::DefaultHasher;
use vstd::prelude::*;
use vstd::std_specs::hash::DefaultHasherAdditionalSpecFns;
use vstd::utf8::encode_utf8;

use super::aggregations::{
    aggregations_on, bucket_of, evaluate_aggregations, fresh_events, glob_fits, stale_count,
    stored_complaint, AggregationBucket, AggregationBucketView, AggregationDecision,
    AggregationDecisionView,
};
use super::correlations::{correlations_on, suppresses, suppressing_rule};
use super::dispatch::{dedup_key, let_through, DispatchState};
use super::laws::endpoints_on_exist;
use super::rule_laws::{
    ago, covers_glob, drops, lemma_drops, lemma_glob, lemma_on_members, lemma_stamp, stamped_at,
};
use super::severity::severity_resolved;
use super::silences::{is_acked, is_silenced};
use super::stamps::{Stamp, StampView};
use super::storage::{
    AggregationRuleDto, AggregationRuleDtoView, CorrelationRuleDto, CorrelationRuleDtoView, Storage,
};
use super::store::{
    by_rank, first_index, keys_distinct, lemma_first_index, lemma_kept_sorted, lemma_position_of,
    listing_is_sorted_and_complete, position_of, put_then_get, row_with, with_row, Table,
};
use super::types::{severity_named, Severity, WebhookConfig};
use crate::crypt::fixed_hex;
use crate::json::{json_text_of, Json, JsonView};
use crate::text::{decimal_seq, is_blank_seq};

verus! {

/// The key of an event is its source, a colon and sixteen hexadecimal digits of a hash of its source
/// and the text of its payload.
pub proof fn events_are_told_apart_by_source_and_payload(source: &str, payload: &Json, r: String)
    requires
        call_ensures(dedup_key, (source, payload), r),
    ensures
        r@ == source@ + ":"@ + fixed_hex(
            DefaultHasher::spec_finish(
                seq![
                    encode_utf8(source@),
                    seq![255u8],
                    encode_utf8(json_text_of(payload@)),
                    seq![255u8],
                ],
            ) as nat,
            16,
        ),
{
}

/// Whether the configuration asks for events of a source at its one url: it is on, has a url, and the
/// source is one of the four that it can ask for.
pub open spec fn asked_for(cfg: super::types::WebhookConfigView, source: Seq<char>) -> bool {
    &&& cfg.enabled
    &&& cfg.url.len() > 0
    &&& {
        ||| source == "plugin.metrics.exceeded"@ && cfg.sources.metrics_exceeded
        ||| source == "capability.sla.violated"@ && cfg.sources.sla_violated
        ||| source == "plugin.kill_switch.enabled"@ && cfg.sources.kill_switch_engaged
        ||| source == "plugin.lifecycle.crashed"@ && cfg.sources.plugin_crashed
    }
}

/// Whether the event with this key went through less than `secs` seconds ago, by a clock in
/// nanoseconds.
pub open spec fn went_lately(last_sent: Seq<StampView>, key: Seq<char>, clock: u64, secs: u32) -> bool {
    exists|t: u64| #[trigger] stamped_at(last_sent, key, t) && ago(clock, t) / 1_000_000_000 < secs
}

/// An event is stopped, and nothing remembers it, where it is silenced or acknowledged, where neither
/// an endpoint is on nor the configuration asks for it, and where the same event went through lately.
/// Any other is remembered as sent now, and goes through unless a suppression rule drops it: as its
/// frequency rule decides, as it is, with another severity, or as a summary.
pub proof fn events_go_through_unless_something_stops_them(
    store: &Storage,
    cfg: &WebhookConfig,
    state: &mut DispatchState,
    buckets: &mut Table<AggregationBucket>,
    source: &str,
    payload: &Json,
    now: u64,
    clock: u64,
    quiet: bool,
    acknowledged: bool,
    key: String,
    severity: Severity,
    decision: AggregationDecision,
    r: Option<(Json, Severity)>,
)
    requires
        call_ensures(let_through, (store, cfg, state, source, payload, now, clock), r),
        call_ensures(is_silenced, (store, source, now), quiet),
        call_ensures(is_acked, (store, source, now), acknowledged),
        call_ensures(dedup_key, (source, payload), key),
        call_ensures(severity_resolved, (store, source), severity),
        call_ensures(evaluate_aggregations, (store, buckets, source, payload, now), decision),
        old(buckets)@ == old(state).buckets@,
        keys_distinct::<Stamp>(old(state).last_sent@),
        keys_distinct::<Stamp>(old(state).correlation.last_a@),
    ensures
        ({
            let stopped = quiet || acknowledged || (!endpoints_on_exist(*store) && !asked_for(cfg@, source@))
                || went_lately(old(state).last_sent@, key@, clock, cfg@.min_interval_secs);
            let dropped = exists|i: int|
                0 <= i < store.correlations@.len() && drops(
                    #[trigger] store.correlations@[i],
                    old(state).correlation.last_a@,
                    source@,
                    now,
                );
            &&& stopped ==> r is None && final(state)@ == old(state)@
            &&& !stopped ==> stamped_at(final(state).last_sent@, key@, clock)
            &&& !stopped && dropped ==> r is None && final(state).buckets@ == old(state).buckets@
            &&& !stopped && !dropped ==> final(state).buckets@ == final(buckets)@ && match decision@ {
                AggregationDecisionView::Pass => r is Some && (r->0).0@ == payload@ && (r->0).1 == severity,
                AggregationDecisionView::Downgrade(s, _) => r is Some && (r->0).0@ == payload@ && (r->0).1 == s,
                AggregationDecisionView::Suppress { .. } => r is None,
                AggregationDecisionView::Merge { count, since, last_payload, .. } => r is Some && (r->0).1
                    == severity && (r->0).0@ == JsonView::Object(
                    seq![
                        ("merged_count"@, JsonView::Number(decimal_seq(count))),
                        ("since"@, JsonView::Number(decimal_seq(since as nat))),
                        ("last_payload"@, last_payload),
                    ],
                ),
            }
        }),
{
    let last_sent = old(state).last_sent@;
    let last_a = old(state).correlation.last_a@;
    reveal_strlit("plugin.metrics.exceeded");
    reveal_strlit("capability.sla.violated");
    reveal_strlit("plugin.kill_switch.enabled");
    reveal_strlit("plugin.lifecycle.crashed");
    assert("plugin.metrics.exceeded"@.len() == 23 && "capability.sla.violated"@.len() == 23
        && "plugin.kill_switch.enabled"@.len() == 26 && "plugin.lifecycle.crashed"@.len() == 24);
    assert("plugin.metrics.exceeded"@[0] == 'p' && "capability.sla.violated"@[0] == 'c');
    super::laws::lemma_on(*store);
    lemma_position_of::<Stamp>(last_sent, key@);
    if let Some(row) = row_with::<Stamp>(last_sent, key@) {
        lemma_stamp(last_sent, key@, row.at);
        assert(row == (StampView { name: key@, at: row.at }));
        assert(stamped_at(last_sent, key@, row.at));
    }
    assert forall|t: u64| #[trigger] stamped_at(last_sent, key@, t) implies row_with::<Stamp>(
        last_sent,
        key@,
    ) == Some(StampView { name: key@, at: t }) by {
        lemma_stamp(last_sent, key@, t);
    }
    put_then_get::<Stamp>(last_sent, StampView { name: key@, at: clock }, key@);
    lemma_stamp(with_row::<Stamp>(last_sent, StampView { name: key@, at: clock }), key@, clock);
    lemma_dropped(*store, last_a, source@, now);
}

pub proof fn lemma_dropped(store: Storage, last_a: Seq<StampView>, source: Seq<char>, now: u64)
    requires
        keys_distinct::<Stamp>(last_a),
    ensures
        (suppressing_rule(correlations_on(store), last_a, source, now) is Some) == exists|i: int|
            0 <= i < store.correlations@.len() && drops(
                #[trigger] store.correlations@[i],
                last_a,
                source,
                now,
            ),
{
    let rows = store.correlations@;
    let on = |r: CorrelationRuleDtoView| r.enabled;
    let rules = correlations_on(store);
    let hit = |r: CorrelationRuleDtoView| suppresses(r, last_a, source, now);
    lemma_first_index(rules, hit);
    lemma_on_members::<CorrelationRuleDto>(rows, on);
    if let Some(k) = first_index(rules, hit) {
        assert(rules.contains(rules[k]));
        let i = choose|i: int| 0 <= i < rows.len() && rows[i] == rules[k];
        lemma_drops(rows[i], last_a, source, now);
        assert(hit(rules[k]) && on(rules[k]));
        assert(drops(rows[i], last_a, source, now));
    }
    if exists|i: int| 0 <= i < rows.len() && drops(#[trigger] rows[i], last_a, source, now) {
        let i = choose|i: int| 0 <= i < rows.len() && drops(#[trigger] rows[i], last_a, source, now);
        lemma_drops(rows[i], last_a, source, now);
        assert(rows.contains(rows[i]) && on(rows[i]));
        assert(rules.contains(rows[i]));
        let k = choose|k: int| 0 <= k < rules.len() && rules[k] == rows[i];
        assert(hit(rules[k]));
    }
}

/// Whether a frequency rule is the one for a source: it is stored and on, its pattern covers the
/// source, and every other such rule is younger.
pub open spec fn is_rule_for(store: Storage, source: Seq<char>, rule: AggregationRuleDtoView) -> bool {
    &&& store.aggregations@.contains(rule)
    &&& rule.enabled
    &&& covers_glob(rule.kind_pattern, source)
    &&& forall|i: int|
        0 <= i < store.aggregations@.len() && (#[trigger] store.aggregations@[i]).enabled && covers_glob(
            store.aggregations@[i].kind_pattern,
            source,
        ) ==> store.aggregations@[i] == rule || rule.created_at < store.aggregations@[i].created_at
}

/// Whether a frequency rule is well-formed.
pub open spec fn is_sane(rule: AggregationRuleDtoView) -> bool {
    &&& !is_blank_seq(rule.id)
    &&& !is_blank_seq(rule.name)
    &&& rule.window_secs > 0
    &&& rule.threshold_count > 0
    &&& {
        ||| rule.action == "suppress"@
        ||| rule.action == "merge"@
        ||| rule.action == "downgrade"@ && rule.target_severity is Some && severity_named(
            rule.target_severity->0,
        ) is Some
    }
}

/// Whether the events of a source in the buckets are `events`, and its rule last took hold at `fired`.
pub open spec fn bucket_holds(
    buckets: Seq<AggregationBucketView>,
    source: Seq<char>,
    events: Seq<u64>,
    fired: u64,
) -> bool {
    ||| exists|i: int|
        0 <= i < buckets.len() && #[trigger] buckets[i] == (AggregationBucketView {
            source,
            events,
            last_fired: fired,
        })
    ||| events.len() == 0 && fired == 0 && forall|i: int|
        0 <= i < buckets.len() ==> (#[trigger] buckets[i]).source != source
}

/// Whether times never go back and none lies ahead.
pub open spec fn in_time(events: Seq<u64>, now: u64) -> bool {
    &&& forall|i: int, j: int| 0 <= i <= j < events.len() ==> #[trigger] events[i] <= #[trigger] events[j]
    &&& forall|i: int| 0 <= i < events.len() ==> #[trigger] events[i] <= now
}

/// The rule for a source takes hold where the events of its window, with the present one, reach its
/// threshold, unless it took hold within its window already. It then drops the event, gives it the
/// severity that it names, or sums up the events of its window. Where it does not take hold, is not
/// well-formed or there is none, the event passes.
pub proof fn frequency_rules_count_their_window(
    store: &Storage,
    buckets: &mut Table<AggregationBucket>,
    source: &str,
    payload: &Json,
    now: u64,
    r: AggregationDecision,
    severity: Severity,
    rule: AggregationRuleDtoView,
    events: Seq<u64>,
    fired: u64,
)
    requires
        call_ensures(evaluate_aggregations, (store, buckets, source, payload, now), r),
        call_ensures(severity_resolved, (store, source), severity),
        keys_distinct::<AggregationBucket>(old(buckets)@),
        bucket_holds(old(buckets)@, source@, events, fired),
        in_time(events, now),
    ensures
        (forall|i: int|
            0 <= i < store.aggregations@.len() ==> !((#[trigger] store.aggregations@[i]).enabled
                && covers_glob(store.aggregations@[i].kind_pattern, source@))) ==> r@ is Pass
            && final(buckets)@ == old(buckets)@,
        is_rule_for(*store, source@, rule) ==> {
            let window = events.filter(|t: u64| now - t <= rule.window_secs).push(now);
            let holds = window.len() >= rule.threshold_count && !(fired != 0 && ago(now, fired)
                <= rule.window_secs);
            &&& bucket_holds(
                final(buckets)@,
                source@,
                window,
                if holds {
                    now
                } else {
                    fired
                },
            )
            &&& !holds || !is_sane(rule) ==> r@ is Pass
            &&& holds && is_sane(rule) && rule.action == "suppress"@ ==> r@ == (
            AggregationDecisionView::Suppress { propagated_severity: severity })
            &&& holds && is_sane(rule) && rule.action == "downgrade"@ ==> r@
                == AggregationDecisionView::Downgrade(
                severity_named(rule.target_severity->0)->0,
                severity,
            )
            &&& holds && is_sane(rule) && rule.action == "merge"@ ==> r@ == (
            AggregationDecisionView::Merge {
                count: window.len(),
                since: window[0],
                last_payload: payload@,
                propagated_severity: severity,
            })
        },
{
    let rows = store.aggregations@;
    let on = |v: AggregationRuleDtoView| v.enabled;
    let fits = |v: AggregationRuleDtoView| glob_fits(v.kind_pattern, source@);
    let rules = aggregations_on(*store);
    lemma_on_members::<AggregationRuleDto>(rows, on);
    lemma_first_index(rules, fits);
    assert forall|i: int| 0 <= i < rules.len() implies rows.contains(#[trigger] rules[i])
        && rules[i].enabled && fits(rules[i]) == covers_glob(rules[i].kind_pattern, source@) by {
        assert(rules.contains(rules[i]));
        lemma_glob(rules[i].kind_pattern, source@);
    }
    if let Some(k) = first_index(rules, fits) {
        let i = choose|i: int| 0 <= i < rows.len() && rows[i] == rules[k];
        assert(rows[i].enabled && covers_glob(rows[i].kind_pattern, source@));
    }
    if is_rule_for(*store, source@, rule) {
        assert(rules.contains(rule));
        let p = choose|p: int| 0 <= p < rules.len() && rules[p] == rule;
        assert(fits(rules[p]));
        let k = first_index(rules, fits)->0;
        let i = choose|i: int| 0 <= i < rows.len() && rows[i] == rules[k];
        listing_is_sorted_and_complete::<AggregationRuleDto>(rows);
        lemma_kept_sorted::<AggregationRuleDto>(by_rank::<AggregationRuleDto>(rows), on);
        assert(rules[k].created_at <= rules[p].created_at);
        assert(rows[i] == rule || rule.created_at < rows[i].created_at);
        assert(rules[k] == rule);
        let before = old(buckets)@;
        lemma_bucket(before, source@, events, fired);
        let bucket = bucket_of(before, source@);
        let near = |t: u64| now - t <= rule.window_secs;
        lemma_fresh(events, now, rule.window_secs);
        let window = events.filter(near).push(now);
        let holds = window.len() >= rule.threshold_count && !(fired != 0 && ago(now, fired)
            <= rule.window_secs);
        let after = AggregationBucketView {
            source: source@,
            events: window,
            last_fired: if holds {
                now
            } else {
                fired
            },
        };
        assert(fresh_events(bucket.events, now, rule.window_secs).push(now) == window);
        put_then_get::<AggregationBucket>(before, after, source@);
        lemma_position_of::<AggregationBucket>(final(buckets)@, source@);
        assert(final(buckets)@ == with_row::<AggregationBucket>(before, after));
        let q = position_of::<AggregationBucket>(final(buckets)@, source@)->0;
        assert(final(buckets)@[q] == after);
        reveal_strlit("suppress");
        reveal_strlit("downgrade");
        reveal_strlit("merge");
        assert("suppress"@.len() == 8 && "downgrade"@.len() == 9 && "merge"@.len() == 5);
        assert((stored_complaint(rule) is None) == is_sane(rule));
    }
}

pub proof fn lemma_bucket(buckets: Seq<AggregationBucketView>, source: Seq<char>, events: Seq<u64>, fired: u64)
    requires
        keys_distinct::<AggregationBucket>(buckets),
        bucket_holds(buckets, source, events, fired),
    ensures
        bucket_of(buckets, source) == (AggregationBucketView { source, events, last_fired: fired }),
{
    lemma_position_of::<AggregationBucket>(buckets, source);
    if exists|i: int|
        0 <= i < buckets.len() && #[trigger] buckets[i] == (AggregationBucketView {
            source,
            events,
            last_fired: fired,
        }) {
        let i = choose|i: int|
            0 <= i < buckets.len() && #[trigger] buckets[i] == (AggregationBucketView {
                source,
                events,
                last_fired: fired,
            });
        let p = position_of::<AggregationBucket>(buckets, source)->0;
        if p != i {
            assert(p < i);
            assert(buckets[p].source != buckets[i].source);
        }
    } else {
        assert(events =~= Seq::<u64>::empty());
    }
}

pub proof fn lemma_fresh(events: Seq<u64>, now: u64, window_secs: u64)
    requires
        in_time(events, now),
    ensures
        fresh_events(events, now, window_secs) == events.filter(|t: u64| now - t <= window_secs),
    decreases events.len(),
{
    let near = |t: u64| now - t <= window_secs;
    if events.len() > 0 {
        let rest = events.drop_first();
        assert forall|i: int, j: int| 0 <= i <= j < rest.len() implies #[trigger] rest[i] <= #[trigger] rest[j] by {
            assert(events[i + 1] <= events[j + 1]);
        }
        assert forall|i: int| 0 <= i < rest.len() implies #[trigger] rest[i] <= now by {
            assert(events[i + 1] <= now);
        }
        if now - events[0] > window_secs {
            lemma_fresh(rest, now, window_secs);
            Seq::filter_distributes_over_add(seq![events[0]], rest, near);
            assert(seq![events[0]] + rest =~= events);
            assert(seq![events[0]].filter(near) =~= Seq::<u64>::empty()) by {
                reveal(Seq::filter);
                let one = seq![events[0]];
                let none = one.drop_last();
                assert(none.len() == 0);
                assert(none.filter(near) == none);
                assert(!near(one.last()));
                assert(one.filter(near) == none.filter(near));
            }
            assert(fresh_events(events, now, window_secs) =~= fresh_events(rest, now, window_secs)) by {
                lemma_stale(rest, now, window_secs);
            }
            assert(Seq::<u64>::empty() + rest.filter(near) =~= rest.filter(near));
        } else {
            assert(stale_count(events, now, window_secs) == 0);
            assert(fresh_events(events, now, window_secs) =~= events);
            lemma_all_near(events, near);
        }
    } else {
        reveal(Seq::filter);
        assert(fresh_events(events, now, window_secs) =~= events);
    }
}

proof fn lemma_stale(events: Seq<u64>, now: u64, window_secs: u64)
    ensures
        stale_count(events, now, window_secs) <= events.len(),
    decreases events.len(),
{
    if events.len() > 0 {
        lemma_stale(events.drop_first(), now, window_secs);
    }
}

proof fn lemma_all_near(events: Seq<u64>, near: spec_fn(u64) -> bool)
    requires
        forall|i: int| 0 <= i < events.len() ==> near(#[trigger] events[i]),
    ensures
        events.filter(near) == events,
    decreases events.len(),
{
    reveal(Seq::filter);
    if events.len() > 0 {
        let front = events.drop_last();
        assert forall|i: int| 0 <= i < front.len() implies near(#[trigger] front[i]) by {
            assert(near(events[i]));
        }
        lemma_all_near(front, near);
        assert(near(events[events.len() - 1]));
        assert(front.push(events.last()) =~= events);
    }
}

} // verus!
