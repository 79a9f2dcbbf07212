//! Trial runs: what would become of an event, without sending it or changing anything.

use vstd::prelude::*;

use super::aggregations::{
    action_of, aggregation_kind_matches, aggregation_rule_for, aggregation_step, bucket_of,
    fresh_events, glob_fits, matching_aggregation, merged_payload, prune_events, since,
    stored_complaint, takes_hold, AggregationBucket, AggregationBucketView,
};
use super::correlations::{
    correlations_on, find_suppressing, load_enabled_correlation_rules, suppressing_rule,
    CorrelationState,
};
use super::dispatch::{
    admission, dedup_key, elapsed_secs, event_key, passes_gates, sent_lately, whole_secs,
    DispatchState, DispatchStateView,
};
use super::escalations::{escalations_on, load_enabled_escalation_rules, EscalationState};
use super::routes::{match_route, matching_route, Comparison};
use super::rows::{route_of, route_row_to_dto};
use super::severity::{
    endpoints_on, load_enabled_endpoints, preview_rows, previews_of, resolved, severity_resolved,
    EndpointPreviewRow, EndpointPreviewRowView,
};
use super::silences::{
    acked, acknowledges, acknowledging, covers, first_ack, first_silence, silenced, silencing,
};
use super::stamps::{Stamp, StampView};
use super::storage::{
    AggregationRuleDto, CorrelationRuleDto, CorrelationRuleDtoView, EscalationRuleDto,
    EscalationRuleDtoView, Storage,
};
use super::store::{by_rank, lemma_first_index, row_with, rows_view, Table};
use super::timeline::{summarize, summary_of, RecentEvents, RouteSeenEventView};
use super::types::{
    copy_opt_text, copy_texts, opt_text_view, severity_name, severity_named, AckRuleRow, AckRuleRowView, RouteRule,
    RouteRuleView, SilenceRuleRow, SilenceRuleRowView, WebhookConfig, WebhookConfigView,
};
use crate::json::{
    json_read, json_text, json_text_of, lemma_members_view, members_view, parse_json, texts_view,
    Json, JsonView,
};
use crate::text::{byte_count, byte_len, join, trim, trim_seq};

verus! {

/// Which route would take an event, and where it would go.
#[derive(Debug)]
pub struct RouteSimulation {
    pub matched_rule: Option<RouteRule>,
    pub target_endpoint_ids: Vec<String>,
    /// No route takes it: it would go to all endpoints that accept its source.
    pub fanout_all: bool,
}

/// What a [`RouteSimulation`] holds.
pub struct RouteSimulationView {
    pub matched_rule: Option<RouteRuleView>,
    pub target_endpoint_ids: Seq<Seq<char>>,
    pub fanout_all: bool,
}

impl View for RouteSimulation {
    type V = RouteSimulationView;

    open spec fn view(&self) -> RouteSimulationView {
        RouteSimulationView {
            matched_rule: (match self.matched_rule { Some(x) => Some(x@), None => None }),
            target_endpoint_ids: texts_view(self.target_endpoint_ids@),
            fanout_all: self.fanout_all,
        }
    }
}

impl Clone for RouteSimulation {
    fn clone(&self) -> (r: Self)
        ensures
            r@ == self@,
    {
        RouteSimulation {
            matched_rule: (match &self.matched_rule { Some(x) => Some(x.clone()), None => None }),
            target_endpoint_ids: copy_texts(&self.target_endpoint_ids),
            fanout_all: self.fanout_all,
        }
    }
}

/// What the frequency rule of a source would decide.
#[derive(Debug)]
pub struct AggregationSimulation {
    pub matched_rule_id: Option<String>,
    pub matched_rule_name: Option<String>,
    /// The events so far, without the present one.
    pub bucket_events_in_window: u64,
    pub threshold: u32,
    pub would_fire: bool,
    pub action: Option<String>,
    pub action_severity: Option<String>,
}

/// What a [`AggregationSimulation`] holds.
pub struct AggregationSimulationView {
    pub matched_rule_id: Option<Seq<char>>,
    pub matched_rule_name: Option<Seq<char>>,
    pub bucket_events_in_window: u64,
    pub threshold: u32,
    pub would_fire: bool,
    pub action: Option<Seq<char>>,
    pub action_severity: Option<Seq<char>>,
}

impl View for AggregationSimulation {
    type V = AggregationSimulationView;

    open spec fn view(&self) -> AggregationSimulationView {
        AggregationSimulationView {
            matched_rule_id: opt_text_view(self.matched_rule_id),
            matched_rule_name: opt_text_view(self.matched_rule_name),
            bucket_events_in_window: self.bucket_events_in_window,
            threshold: self.threshold,
            would_fire: self.would_fire,
            action: opt_text_view(self.action),
            action_severity: opt_text_view(self.action_severity),
        }
    }
}

impl Clone for AggregationSimulation {
    fn clone(&self) -> (r: Self)
        ensures
            r@ == self@,
    {
        AggregationSimulation {
            matched_rule_id: copy_opt_text(&self.matched_rule_id),
            matched_rule_name: copy_opt_text(&self.matched_rule_name),
            bucket_events_in_window: self.bucket_events_in_window,
            threshold: self.threshold,
            would_fire: self.would_fire,
            action: copy_opt_text(&self.action),
            action_severity: copy_opt_text(&self.action_severity),
        }
    }
}

/// What the suppression rules would decide.
#[derive(Debug)]
pub struct CorrelationSimulation {
    pub matched_a_rule_ids: Vec<String>,
    pub matched_b_rule_ids: Vec<String>,
    pub would_suppress: bool,
    pub suppressing_rule_id: Option<String>,
    pub propagated_severity: Option<String>,
}

/// What a [`CorrelationSimulation`] holds.
pub struct CorrelationSimulationView {
    pub matched_a_rule_ids: Seq<Seq<char>>,
    pub matched_b_rule_ids: Seq<Seq<char>>,
    pub would_suppress: bool,
    pub suppressing_rule_id: Option<Seq<char>>,
    pub propagated_severity: Option<Seq<char>>,
}

impl View for CorrelationSimulation {
    type V = CorrelationSimulationView;

    open spec fn view(&self) -> CorrelationSimulationView {
        CorrelationSimulationView {
            matched_a_rule_ids: texts_view(self.matched_a_rule_ids@),
            matched_b_rule_ids: texts_view(self.matched_b_rule_ids@),
            would_suppress: self.would_suppress,
            suppressing_rule_id: opt_text_view(self.suppressing_rule_id),
            propagated_severity: opt_text_view(self.propagated_severity),
        }
    }
}

impl Clone for CorrelationSimulation {
    fn clone(&self) -> (r: Self)
        ensures
            r@ == self@,
    {
        CorrelationSimulation {
            matched_a_rule_ids: copy_texts(&self.matched_a_rule_ids),
            matched_b_rule_ids: copy_texts(&self.matched_b_rule_ids),
            would_suppress: self.would_suppress,
            suppressing_rule_id: copy_opt_text(&self.suppressing_rule_id),
            propagated_severity: copy_opt_text(&self.propagated_severity),
        }
    }
}

/// The silence that covers an event.
#[derive(Debug)]
pub struct SilenceHitDto {
    pub id: String,
    pub name: String,
    pub kind_pattern: String,
    pub ends_at: u64,
    pub remaining_secs: u64,
}

/// What a [`SilenceHitDto`] holds.
pub struct SilenceHitDtoView {
    pub id: Seq<char>,
    pub name: Seq<char>,
    pub kind_pattern: Seq<char>,
    pub ends_at: u64,
    pub remaining_secs: u64,
}

impl View for SilenceHitDto {
    type V = SilenceHitDtoView;

    open spec fn view(&self) -> SilenceHitDtoView {
        SilenceHitDtoView {
            id: self.id@,
            name: self.name@,
            kind_pattern: self.kind_pattern@,
            ends_at: self.ends_at,
            remaining_secs: self.remaining_secs,
        }
    }
}

impl Clone for SilenceHitDto {
    fn clone(&self) -> (r: Self)
        ensures
            r@ == self@,
    {
        SilenceHitDto {
            id: self.id.clone(),
            name: self.name.clone(),
            kind_pattern: self.kind_pattern.clone(),
            ends_at: self.ends_at,
            remaining_secs: self.remaining_secs,
        }
    }
}

/// The acknowledgement that holds for an event.
#[derive(Debug)]
pub struct AckHitDto {
    pub id: String,
    pub kind_pattern: String,
    pub ack_until: u64,
    pub remaining_secs: u64,
}

/// What a [`AckHitDto`] holds.
pub struct AckHitDtoView {
    pub id: Seq<char>,
    pub kind_pattern: Seq<char>,
    pub ack_until: u64,
    pub remaining_secs: u64,
}

impl View for AckHitDto {
    type V = AckHitDtoView;

    open spec fn view(&self) -> AckHitDtoView {
        AckHitDtoView {
            id: self.id@,
            kind_pattern: self.kind_pattern@,
            ack_until: self.ack_until,
            remaining_secs: self.remaining_secs,
        }
    }
}

impl Clone for AckHitDto {
    fn clone(&self) -> (r: Self)
        ensures
            r@ == self@,
    {
        AckHitDto {
            id: self.id.clone(),
            kind_pattern: self.kind_pattern.clone(),
            ack_until: self.ack_until,
            remaining_secs: self.remaining_secs,
        }
    }
}

/// The same event, sent too short a while ago.
#[derive(Debug)]
pub struct DedupHitDto {
    pub key: String,
    pub last_sent_secs_ago: u64,
    pub min_interval_secs: u32,
    pub remaining_secs: u64,
}

/// What a [`DedupHitDto`] holds.
pub struct DedupHitDtoView {
    pub key: Seq<char>,
    pub last_sent_secs_ago: u64,
    pub min_interval_secs: u32,
    pub remaining_secs: u64,
}

impl View for DedupHitDto {
    type V = DedupHitDtoView;

    open spec fn view(&self) -> DedupHitDtoView {
        DedupHitDtoView {
            key: self.key@,
            last_sent_secs_ago: self.last_sent_secs_ago,
            min_interval_secs: self.min_interval_secs,
            remaining_secs: self.remaining_secs,
        }
    }
}

impl Clone for DedupHitDto {
    fn clone(&self) -> (r: Self)
        ensures
            r@ == self@,
    {
        DedupHitDto {
            key: self.key.clone(),
            last_sent_secs_ago: self.last_sent_secs_ago,
            min_interval_secs: self.min_interval_secs,
            remaining_secs: self.remaining_secs,
        }
    }
}

/// What stops an event before any rule looks at it.
#[derive(Debug)]
pub struct DispatchGateSimulation {
    pub silenced: Option<SilenceHitDto>,
    pub acked: Option<AckHitDto>,
    pub dedup_blocked: Option<DedupHitDto>,
    pub would_be_dropped: bool,
}

/// What a [`DispatchGateSimulation`] holds.
pub struct DispatchGateSimulationView {
    pub silenced: Option<SilenceHitDtoView>,
    pub acked: Option<AckHitDtoView>,
    pub dedup_blocked: Option<DedupHitDtoView>,
    pub would_be_dropped: bool,
}

impl View for DispatchGateSimulation {
    type V = DispatchGateSimulationView;

    open spec fn view(&self) -> DispatchGateSimulationView {
        DispatchGateSimulationView {
            silenced: (match self.silenced { Some(x) => Some(x@), None => None }),
            acked: (match self.acked { Some(x) => Some(x@), None => None }),
            dedup_blocked: (match self.dedup_blocked { Some(x) => Some(x@), None => None }),
            would_be_dropped: self.would_be_dropped,
        }
    }
}

impl Clone for DispatchGateSimulation {
    fn clone(&self) -> (r: Self)
        ensures
            r@ == self@,
    {
        DispatchGateSimulation {
            silenced: (match &self.silenced { Some(x) => Some(x.clone()), None => None }),
            acked: (match &self.acked { Some(x) => Some(x.clone()), None => None }),
            dedup_blocked: (match &self.dedup_blocked { Some(x) => Some(x.clone()), None => None }),
            would_be_dropped: self.would_be_dropped,
        }
    }
}

/// The escalation rules that would ask to escalate a source.
pub struct EscalationSimulation {
    pub last_dispatch_at: Option<u64>,
    pub candidate_rules: Vec<EscalationRuleDto>,
    pub would_escalate: bool,
    pub target_severity: Option<String>,
}

/// What an [`EscalationSimulation`] holds.
pub struct EscalationSimulationView {
    pub last_dispatch_at: Option<u64>,
    pub candidate_rules: Seq<EscalationRuleDtoView>,
    pub would_escalate: bool,
    pub target_severity: Option<Seq<char>>,
}

impl View for EscalationSimulation {
    type V = EscalationSimulationView;

    open spec fn view(&self) -> EscalationSimulationView {
        EscalationSimulationView {
            last_dispatch_at: self.last_dispatch_at,
            candidate_rules: rows_view(self.candidate_rules@),
            would_escalate: self.would_escalate,
            target_severity: opt_text_view(self.target_severity),
        }
    }
}

/// All that would become of an event.
pub struct AlertingDispatchSimulation {
    pub source: String,
    pub payload_summary: String,
    pub gates: DispatchGateSimulation,
    pub route: RouteSimulation,
    pub correlation: CorrelationSimulation,
    pub aggregation: AggregationSimulation,
    pub escalation: EscalationSimulation,
    pub endpoints: Vec<EndpointPreviewRow>,
}

/// What an [`AlertingDispatchSimulation`] holds.
pub struct AlertingDispatchSimulationView {
    pub source: Seq<char>,
    pub payload_summary: Seq<char>,
    pub gates: DispatchGateSimulationView,
    pub route: RouteSimulationView,
    pub correlation: CorrelationSimulationView,
    pub aggregation: AggregationSimulationView,
    pub escalation: EscalationSimulationView,
    pub endpoints: Seq<EndpointPreviewRowView>,
}

impl View for AlertingDispatchSimulation {
    type V = AlertingDispatchSimulationView;

    open spec fn view(&self) -> AlertingDispatchSimulationView {
        AlertingDispatchSimulationView {
            source: self.source@,
            payload_summary: self.payload_summary@,
            gates: self.gates@,
            route: self.route@,
            correlation: self.correlation@,
            aggregation: self.aggregation@,
            escalation: self.escalation@,
            endpoints: rows_view(self.endpoints@),
        }
    }
}

/// How much of the time up to `end` is left.
pub open spec fn left_of(end: u64, now: u64) -> u64 {
    if end >= now {
        (end - now) as u64
    } else {
        0
    }
}

/// A silence that covers an event.
pub open spec fn silence_hit(r: SilenceRuleRowView, now: u64) -> SilenceHitDtoView {
    SilenceHitDtoView {
        id: r.id,
        name: r.name,
        kind_pattern: r.kind_pattern,
        ends_at: r.ends_at,
        remaining_secs: left_of(r.ends_at, now),
    }
}

/// The silence that would stop an event.
pub open spec fn silence_simulated(store: Storage, source: Seq<char>, now: u64) -> Option<SilenceHitDtoView> {
    match silencing(store, source, now) {
        Some(r) => Some(silence_hit(r, now)),
        None => None,
    }
}

/// The silence that would stop an event.
pub fn simulate_silence(store: &Storage, source: &str, now: u64) -> (r: Option<SilenceHitDto>)
    ensures
        match r {
            Some(hit) => silence_simulated(*store, source@, now) == Some(hit@),
            None => silence_simulated(*store, source@, now) is None,
        },
{
    match first_silence(store, source, now) {
        Some(row) => Some(
            SilenceHitDto {
                id: row.id,
                name: row.name,
                kind_pattern: row.kind_pattern,
                ends_at: row.ends_at,
                remaining_secs: row.ends_at.saturating_sub(now),
            },
        ),
        None => None,
    }
}

/// An acknowledgement that holds for an event.
pub open spec fn ack_hit(r: AckRuleRowView, now: u64) -> AckHitDtoView {
    AckHitDtoView {
        id: r.id,
        kind_pattern: r.kind_pattern,
        ack_until: r.ack_until,
        remaining_secs: left_of(r.ack_until, now),
    }
}

/// The acknowledgement that would stop an event.
pub open spec fn ack_simulated(store: Storage, source: Seq<char>, now: u64) -> Option<AckHitDtoView> {
    match acknowledging(store, source, now) {
        Some(r) => Some(ack_hit(r, now)),
        None => None,
    }
}

/// The acknowledgement that would stop an event.
pub fn simulate_ack(store: &Storage, source: &str, now: u64) -> (r: Option<AckHitDto>)
    ensures
        match r {
            Some(hit) => ack_simulated(*store, source@, now) == Some(hit@),
            None => ack_simulated(*store, source@, now) is None,
        },
{
    match first_ack(store, source, now) {
        Some(row) => Some(
            AckHitDto {
                id: row.id,
                kind_pattern: row.kind_pattern,
                ack_until: row.ack_until,
                remaining_secs: row.ack_until.saturating_sub(now),
            },
        ),
        None => None,
    }
}

/// The same event, where it was sent too short a while ago.
pub open spec fn dedup_simulated(
    last_sent: Seq<StampView>,
    min_interval_secs: u32,
    source: Seq<char>,
    payload: JsonView,
    clock: u64,
) -> Option<DedupHitDtoView> {
    let key = event_key(source, payload);
    match row_with::<Stamp>(last_sent, key) {
        Some(s) => if whole_secs(s.at, clock) < min_interval_secs {
            Some(
                DedupHitDtoView {
                    key,
                    last_sent_secs_ago: whole_secs(s.at, clock) as u64,
                    min_interval_secs,
                    remaining_secs: (min_interval_secs - whole_secs(s.at, clock)) as u64,
                },
            )
        } else {
            None
        },
        None => None,
    }
}

/// The same event, where it was sent too short a while ago.
pub fn simulate_dedup(
    last_sent: &Table<Stamp>,
    cfg: &WebhookConfig,
    source: &str,
    payload: &Json,
    clock: u64,
) -> (r: Option<DedupHitDto>)
    ensures
        match r {
            Some(hit) => dedup_simulated(last_sent@, cfg.min_interval_secs, source@, payload@, clock)
                == Some(hit@),
            None => dedup_simulated(last_sent@, cfg.min_interval_secs, source@, payload@, clock) is None,
        },
{
    let min_interval: u64 = cfg.min_interval_secs as u64;
    let key: String = dedup_key(source, payload);
    let at: u64 = match last_sent.get(key.as_str()) {
        Some(stamp) => stamp.at,
        None => {
            return None;
        },
    };
    let elapsed: u64 = elapsed_secs(at, clock);
    if elapsed >= min_interval {
        return None;
    }
    Some(
        DedupHitDto {
            key,
            last_sent_secs_ago: elapsed,
            min_interval_secs: cfg.min_interval_secs,
            remaining_secs: min_interval - elapsed,
        },
    )
}

/// Where an event would go.
pub open spec fn route_simulated(
    store: Storage,
    source: Seq<char>,
    payload: JsonView,
    numbers: Seq<Option<Comparison>>,
    recent: Seq<RouteSeenEventView>,
    now: u64,
) -> RouteSimulationView {
    match matching_route(store, source, payload, numbers, recent, now) {
        Some(r) => RouteSimulationView {
            matched_rule: Some(route_of(r)),
            target_endpoint_ids: r.target_endpoint_ids,
            fanout_all: false,
        },
        None => RouteSimulationView {
            matched_rule: None,
            target_endpoint_ids: Seq::empty(),
            fanout_all: true,
        },
    }
}

/// Where an event would go.
pub fn simulate_route(
    store: &Storage,
    source: &str,
    payload: &Json,
    numbers: &Vec<Option<Comparison>>,
    recent: &RecentEvents,
    now: u64,
) -> (r: RouteSimulation)
    ensures
        r@ == route_simulated(*store, source@, payload@, numbers@, recent@, now),
{
    match match_route(store, source, payload, numbers, recent, now) {
        Some(row) => RouteSimulation {
            matched_rule: Some(route_row_to_dto(&row)),
            target_endpoint_ids: copy_texts(&row.target_endpoint_ids),
            fanout_all: false,
        },
        None => {
            let none: Vec<String> = Vec::new();
            assert(texts_view(none@) =~= Seq::<Seq<char>>::empty());
            RouteSimulation { matched_rule: None, target_endpoint_ids: none, fanout_all: true }
        },
    }
}

/// What the frequency rule of a source would decide on an event.
pub open spec fn aggregation_simulated(
    store: Storage,
    buckets: Seq<AggregationBucketView>,
    source: Seq<char>,
    now: u64,
) -> AggregationSimulationView {
    match aggregation_rule_for(store, source) {
        None => AggregationSimulationView {
            matched_rule_id: None,
            matched_rule_name: None,
            bucket_events_in_window: 0,
            threshold: 0,
            would_fire: false,
            action: None,
            action_severity: None,
        },
        Some(rule) => {
            let bucket = bucket_of(buckets, source);
            let events = fresh_events(bucket.events, now, rule.window_secs);
            let fires = takes_hold(rule, events.push(now), bucket.last_fired, now);
            AggregationSimulationView {
                matched_rule_id: Some(rule.id),
                matched_rule_name: Some(rule.name),
                bucket_events_in_window: events.len() as u64,
                threshold: rule.threshold_count,
                would_fire: fires,
                action: if fires {
                    Some(rule.action)
                } else {
                    None
                },
                action_severity: if fires {
                    Some(severity_name(resolved(store, source)))
                } else {
                    None
                },
            }
        },
    }
}

/// What the frequency rule of a source would decide on an event.
pub fn simulate_aggregations(
    store: &Storage,
    buckets: &Table<AggregationBucket>,
    source: &str,
    now: u64,
) -> (r: AggregationSimulation)
    ensures
        r@ == aggregation_simulated(*store, buckets@, source@, now),
{
    let rule: AggregationRuleDto = match matching_aggregation(store, source) {
        Some(rule) => rule,
        None => {
            return AggregationSimulation {
                matched_rule_id: None,
                matched_rule_name: None,
                bucket_events_in_window: 0,
                threshold: 0,
                would_fire: false,
                action: None,
                action_severity: None,
            };
        },
    };
    let (events, last_fired) = match buckets.get(source) {
        Some(b) => (prune_events(&b.events, now, rule.window_secs), b.last_fired),
        None => {
            let none: Vec<u64> = Vec::new();
            assert(none@ =~= fresh_events(Seq::<u64>::empty(), now, rule@.window_secs));
            (none, 0u64)
        },
    };
    let count: u64 = events.len() as u64;
    let lately: bool = last_fired != 0 && now.saturating_sub(last_fired) <= rule.window_secs;
    let fires: bool = !lately && count.saturating_add(1) >= rule.threshold_count as u64;
    assert(fires == takes_hold(rule@, events@.push(now), last_fired, now));
    let action: Option<String> = if fires {
        Some(rule.action.clone())
    } else {
        None
    };
    let action_severity: Option<String> = if fires {
        Some(severity_resolved(store, source).as_str().to_owned())
    } else {
        None
    };
    AggregationSimulation {
        matched_rule_id: Some(rule.id),
        matched_rule_name: Some(rule.name),
        bucket_events_in_window: count,
        threshold: rule.threshold_count,
        would_fire: fires,
        action,
        action_severity,
    }
}

/// The ids of the rules whose first kind an event is.
pub open spec fn first_kind_ids(rules: Seq<CorrelationRuleDtoView>, source: Seq<char>) -> Seq<Seq<char>>
    decreases rules.len(),
{
    if rules.len() == 0 {
        Seq::empty()
    } else {
        let before = first_kind_ids(rules.drop_last(), source);
        if glob_fits(rules.last().kind_pattern_a, source) {
            before.push(rules.last().id)
        } else {
            before
        }
    }
}

/// The ids of the rules whose second kind an event is.
pub open spec fn second_kind_ids(rules: Seq<CorrelationRuleDtoView>, source: Seq<char>) -> Seq<Seq<char>>
    decreases rules.len(),
{
    if rules.len() == 0 {
        Seq::empty()
    } else {
        let before = second_kind_ids(rules.drop_last(), source);
        if glob_fits(rules.last().kind_pattern_b, source) {
            before.push(rules.last().id)
        } else {
            before
        }
    }
}

/// What the suppression rules would decide on an event: the first rule that drops it ends the search
/// for rules of its second kind.
pub open spec fn correlation_simulated(
    store: Storage,
    last_a: Seq<StampView>,
    source: Seq<char>,
    now: u64,
) -> CorrelationSimulationView {
    let rules = correlations_on(store);
    match suppressing_rule(rules, last_a, source, now) {
        Some(i) => CorrelationSimulationView {
            matched_a_rule_ids: first_kind_ids(rules, source),
            matched_b_rule_ids: second_kind_ids(rules.take(i + 1), source),
            would_suppress: true,
            suppressing_rule_id: Some(rules[i].id),
            propagated_severity: Some(severity_name(resolved(store, source))),
        },
        None => CorrelationSimulationView {
            matched_a_rule_ids: first_kind_ids(rules, source),
            matched_b_rule_ids: second_kind_ids(rules, source),
            would_suppress: false,
            suppressing_rule_id: None,
            propagated_severity: None,
        },
    }
}

/// What the suppression rules would decide on an event.
pub fn simulate_correlations(store: &Storage, state: &CorrelationState, source: &str, now: u64) -> (r:
    CorrelationSimulation)
    ensures
        r@ == correlation_simulated(*store, state.last_a@, source@, now),
{
    let rules: Vec<CorrelationRuleDto> = load_enabled_correlation_rules(store);
    let ghost all = rows_view(rules@);
    let hit: Option<usize> = find_suppressing(&rules, &state.last_a, source, now);
    let until: usize = match hit {
        Some(i) => i + 1,
        None => rules.len(),
    };
    let mut first: Vec<String> = Vec::new();
    let mut second: Vec<String> = Vec::new();
    let mut i: usize = 0;
    assert(texts_view(first@) =~= first_kind_ids(all.take(0), source@));
    assert(texts_view(second@) =~= second_kind_ids(all.take(0), source@));
    while i < rules.len()
        invariant
            i <= rules@.len(),
            until <= rules@.len(),
            all == rows_view(rules@),
            texts_view(first@) == first_kind_ids(all.take(i as int), source@),
            texts_view(second@) == second_kind_ids(
                all.take(
                    if i < until {
                        i as int
                    } else {
                        until as int
                    },
                ),
                source@,
            ),
        decreases rules@.len() - i,
    {
        let ghost f = texts_view(first@);
        let ghost s = texts_view(second@);
        assert(all.take(i + 1).drop_last() =~= all.take(i as int));
        assert(all.take(i + 1).last() == rules@[i as int]@);
        if aggregation_kind_matches(rules[i].kind_pattern_a.as_str(), source) {
            first.push(rules[i].id.clone());
            assert(texts_view(first@) =~= f.push(rules@[i as int]@.id));
        }
        if i < until && aggregation_kind_matches(rules[i].kind_pattern_b.as_str(), source) {
            second.push(rules[i].id.clone());
            assert(texts_view(second@) =~= s.push(rules@[i as int]@.id));
        }
        i += 1;
    }
    assert(all.take(i as int) =~= all);
    match hit {
        Some(k) => CorrelationSimulation {
            matched_a_rule_ids: first,
            matched_b_rule_ids: second,
            would_suppress: true,
            suppressing_rule_id: Some(rules[k].id.clone()),
            propagated_severity: Some(severity_resolved(store, source).as_str().to_owned()),
        },
        None => CorrelationSimulation {
            matched_a_rule_ids: first,
            matched_b_rule_ids: second,
            would_suppress: false,
            suppressing_rule_id: None,
            propagated_severity: None,
        },
    }
}

/// Whether a rule would ask to escalate a source that last sent at time `last`.
pub open spec fn would_ask(r: EscalationRuleDtoView, source: Seq<char>, last: u64, now: u64) -> bool {
    glob_fits(r.kind_pattern, source) && last != 0 && since(now, last) >= r.escalate_after_secs
}

/// The rules that would ask to escalate a source, without the time of their making.
pub open spec fn asking_rules(rules: Seq<EscalationRuleDtoView>, source: Seq<char>, last: u64, now: u64) -> Seq<
    EscalationRuleDtoView,
>
    decreases rules.len(),
{
    if rules.len() == 0 {
        Seq::empty()
    } else {
        let before = asking_rules(rules.drop_last(), source, last, now);
        if would_ask(rules.last(), source, last, now) {
            before.push(EscalationRuleDtoView { created_at: 0, ..rules.last() })
        } else {
            before
        }
    }
}

/// When a source last sent.
pub open spec fn last_sent_at(stamps: Seq<StampView>, source: Seq<char>) -> Option<u64> {
    match row_with::<Stamp>(stamps, source) {
        Some(s) => Some(s.at),
        None => None,
    }
}

/// The escalation rules that would ask to escalate a source.
pub open spec fn escalation_simulated(store: Storage, stamps: Seq<StampView>, source: Seq<char>, now: u64) -> EscalationSimulationView {
    let last_at = last_sent_at(stamps, source);
    let last = match last_at {
        Some(t) => t,
        None => 0,
    };
    let asking = asking_rules(escalations_on(store), source, last, now);
    EscalationSimulationView {
        last_dispatch_at: last_at,
        candidate_rules: asking,
        would_escalate: asking.len() > 0,
        target_severity: if asking.len() > 0 {
            Some(asking[0].target_severity)
        } else {
            None
        },
    }
}

/// The escalation rules that would ask to escalate a source.
pub fn simulate_escalations(store: &Storage, state: &EscalationState, source: &str, now: u64) -> (r:
    EscalationSimulation)
    ensures
        r@ == escalation_simulated(*store, state.last_by_source@, source@, now),
{
    let last_at: Option<u64> = match state.last_by_source.get(source) {
        Some(stamp) => Some(stamp.at),
        None => None,
    };
    let last: u64 = match last_at {
        Some(t) => t,
        None => 0,
    };
    let rules: Vec<EscalationRuleDto> = load_enabled_escalation_rules(store);
    let ghost all = rows_view(rules@);
    let mut out: Vec<EscalationRuleDto> = Vec::new();
    let mut i: usize = 0;
    assert(rows_view(out@) =~= asking_rules(all.take(0), source@, last, now));
    while i < rules.len()
        invariant
            i <= rules@.len(),
            all == rows_view(rules@),
            rows_view(out@) == asking_rules(all.take(i as int), source@, last, now),
        decreases rules@.len() - i,
    {
        let ghost before = rows_view(out@);
        assert(all.take(i + 1).drop_last() =~= all.take(i as int));
        assert(all.take(i + 1).last() == rules@[i as int]@);
        if aggregation_kind_matches(rules[i].kind_pattern.as_str(), source) && last != 0
            && now.saturating_sub(last) >= rules[i].escalate_after_secs {
            let mut rule: EscalationRuleDto = rules[i].clone();
            rule.created_at = 0;
            let ghost v = rule@;
            out.push(rule);
            assert(rows_view(out@) =~= before.push(v));
        }
        i += 1;
    }
    assert(all.take(i as int) =~= all);
    let target_severity: Option<String> = if out.len() > 0 {
        assert(rows_view(out@)[0] == out@[0]@);
        Some(out[0].target_severity.clone())
    } else {
        None
    };
    EscalationSimulation {
        last_dispatch_at: last_at,
        would_escalate: out.len() > 0,
        candidate_rules: out,
        target_severity,
    }
}

/// The payload of a trial run: an empty object where none is given.
pub open spec fn trial_payload_of(payload: Option<Seq<char>>) -> Result<JsonView, Seq<char>> {
    if payload is None || payload->0.len() == 0 {
        Ok(JsonView::Object(Seq::empty()))
    } else {
        match json_read(payload->0) {
            Ok(v) => Ok(v),
            Err(e) => Err("invalid payload json: "@ + e),
        }
    }
}

/// The payload of a trial run: an empty object where none is given.
pub fn simulation_payload(payload: Option<&str>) -> (r: Result<Json, String>)
    ensures
        match (r, trial_payload_of(
            match payload {
                Some(p) => Some(p@),
                None => None,
            },
        )) {
            (Ok(j), Ok(v)) => j@ == v,
            (Err(e), Err(m)) => e@ == m,
            _ => false,
        },
{
    let members: Vec<(String, Json)> = Vec::new();
    proof {
        lemma_members_view(members@);
        assert(members_view(members@) =~= Seq::<(Seq<char>, JsonView)>::empty());
    }
    match payload {
        None => Ok(Json::Object(members)),
        Some(p) => if p.is_empty() {
            Ok(Json::Object(members))
        } else {
            match parse_json(p) {
                Ok(j) => Ok(j),
                Err(e) => Err(join("invalid payload json: ", e.as_str())),
            }
        },
    }
}

/// What would stop an event before any rule looks at it.
pub open spec fn gates_simulated(
    store: Storage,
    cfg: WebhookConfigView,
    s: DispatchStateView,
    source: Seq<char>,
    payload: JsonView,
    now: u64,
    clock: u64,
) -> DispatchGateSimulationView {
    let silenced = silence_simulated(store, source, now);
    let acked = ack_simulated(store, source, now);
    let dedup_blocked = dedup_simulated(s.last_sent, cfg.min_interval_secs, source, payload, clock);
    DispatchGateSimulationView {
        silenced,
        acked,
        dedup_blocked,
        would_be_dropped: silenced is Some || acked is Some || dedup_blocked is Some,
    }
}

/// All that would become of an event of `source`, or what is wrong with the question.
pub open spec fn dispatch_simulated(
    store: Storage,
    cfg: WebhookConfigView,
    s: DispatchStateView,
    source: Seq<char>,
    payload: Option<Seq<char>>,
    numbers: Seq<Option<Comparison>>,
    now: u64,
    clock: u64,
) -> Result<AlertingDispatchSimulationView, Seq<char>> {
    let source = trim_seq(source);
    if source.len() == 0 {
        Err("source is required"@)
    } else if byte_count(source) > 256 {
        Err("source too long (max 256)"@)
    } else {
        match trial_payload_of(payload) {
            Err(e) => Err(e),
            Ok(v) => Ok(
                AlertingDispatchSimulationView {
                    source,
                    payload_summary: summary_of(json_text_of(v)),
                    gates: gates_simulated(store, cfg, s, source, v, now, clock),
                    route: route_simulated(store, source, v, numbers, s.recent, now),
                    correlation: correlation_simulated(store, s.last_a, source, now),
                    aggregation: aggregation_simulated(store, s.buckets, source, now),
                    escalation: escalation_simulated(store, s.last_by_source, source, now),
                    endpoints: previews_of(store, source, endpoints_on(store)),
                },
            ),
        }
    }
}

/// All that would become of an event of `source`. `numbers` says for each route that is on how its
/// numbers compare.
pub fn simulate_alerting_dispatch(
    store: &Storage,
    cfg: &WebhookConfig,
    state: &DispatchState,
    source: &str,
    payload: Option<&str>,
    numbers: &Vec<Option<Comparison>>,
    now: u64,
    clock: u64,
) -> (r: Result<AlertingDispatchSimulation, String>)
    ensures
        match (r, dispatch_simulated(
            *store,
            cfg@,
            state@,
            source@,
            match payload {
                Some(p) => Some(p@),
                None => None,
            },
            numbers@,
            now,
            clock,
        )) {
            (Ok(out), Ok(want)) => out@ == want,
            (Err(e), Err(want)) => e@ == want,
            _ => false,
        },
{
    let source: &str = trim(source);
    if source.is_empty() {
        return Err("source is required".to_owned());
    }
    if byte_len(source) > 256 {
        return Err("source too long (max 256)".to_owned());
    }
    let value: Json = match simulation_payload(payload) {
        Ok(v) => v,
        Err(e) => {
            return Err(e);
        },
    };
    let silenced: Option<SilenceHitDto> = simulate_silence(store, source, now);
    let acked: Option<AckHitDto> = simulate_ack(store, source, now);
    let dedup_blocked: Option<DedupHitDto> = simulate_dedup(
        &state.last_sent,
        cfg,
        source,
        &value,
        clock,
    );
    let gates: DispatchGateSimulation = DispatchGateSimulation {
        would_be_dropped: silenced.is_some() || acked.is_some() || dedup_blocked.is_some(),
        silenced,
        acked,
        dedup_blocked,
    };
    let endpoints: Vec<EndpointPreviewRow> = preview_rows(
        store,
        source,
        &load_enabled_endpoints(store),
    );
    Ok(
        AlertingDispatchSimulation {
            source: source.to_owned(),
            payload_summary: summarize(json_text(&value).as_str()),
            gates,
            route: simulate_route(store, source, &value, numbers, &state.recent, now),
            correlation: simulate_correlations(store, &state.correlation, source, now),
            aggregation: simulate_aggregations(store, &state.buckets, source, now),
            escalation: simulate_escalations(store, &state.escalation, source, now),
            endpoints,
        },
    )
}

/// A trial run says that the gates would drop an event exactly when the event is silenced,
/// acknowledged or was sent lately.
pub proof fn trial_gates_agree(
    store: Storage,
    cfg: WebhookConfigView,
    s: DispatchStateView,
    source: Seq<char>,
    payload: JsonView,
    now: u64,
    clock: u64,
)
    ensures
        gates_simulated(store, cfg, s, source, payload, now, clock).would_be_dropped == (silenced(
            store,
            source,
            now,
        ) || acked(store, source, now) || sent_lately(
            s.last_sent,
            event_key(source, payload),
            clock,
            cfg.min_interval_secs,
        )),
{
    lemma_first_index(
        by_rank::<SilenceRuleRow>(store.silences@),
        |v: SilenceRuleRowView| covers(v, source, now),
    );
    lemma_first_index(
        by_rank::<AckRuleRow>(store.acks@),
        |v: AckRuleRowView| acknowledges(v, source, now),
    );
}

/// A trial run foretells what the frequency rule of a source decides: where the rule is well-formed,
/// it is said to take hold exactly where it does not let the event pass, and with the action and the
/// severity of what it decides. A rule that is not well-formed lets every event pass, whatever the
/// trial says of its threshold.
pub proof fn trial_foretells_the_frequency_rule(
    store: Storage,
    buckets: Seq<AggregationBucketView>,
    source: Seq<char>,
    payload: JsonView,
    now: u64,
)
    ensures
        ({
            let trial = aggregation_simulated(store, buckets, source, now);
            match aggregation_rule_for(store, source) {
                None => !trial.would_fire && trial.action is None,
                Some(rule) => {
                    let severity = resolved(store, source);
                    let decision = aggregation_step(
                        rule,
                        bucket_of(buckets, source),
                        payload,
                        severity,
                        now,
                    ).0;
                    if stored_complaint(rule) is None {
                        &&& trial.would_fire <==> !(decision is Pass)
                        &&& trial.action == action_of(decision)
                        &&& trial.would_fire ==> trial.action_severity == Some(severity_name(severity))
                    } else {
                        decision is Pass
                    }
                },
            }
        }),
{
}

/// A trial run foretells what the rules decide. An event that passes the gates and that a rule would
/// suppress does not go out. Any other goes out as it is where its frequency rule would not take hold
/// or is not well-formed; where the rule would take hold, it is dropped, goes out with the severity
/// that the rule names, or goes out merged with the earlier events of its window, as the trial says.
pub proof fn trial_foretells_the_rules(
    store: Storage,
    cfg: WebhookConfigView,
    s: DispatchStateView,
    source: Seq<char>,
    payload: JsonView,
    now: u64,
    clock: u64,
)
    requires
        passes_gates(store, cfg, source, now),
        !gates_simulated(store, cfg, s, source, payload, now, clock).would_be_dropped,
    ensures
        ({
            let trial = aggregation_simulated(store, s.buckets, source, now);
            let suppressed = correlation_simulated(store, s.last_a, source, now).would_suppress;
            let out = admission(store, cfg, s, source, payload, now, clock).0;
            let severity = resolved(store, source);
            &&& suppressed ==> out is None
            &&& !suppressed && !trial.would_fire ==> out == Some((payload, severity))
            &&& !suppressed && trial.would_fire ==> aggregation_rule_for(store, source) is Some && {
                let rule = aggregation_rule_for(store, source)->0;
                let events = fresh_events(
                    bucket_of(s.buckets, source).events,
                    now,
                    rule.window_secs,
                ).push(now);
                if stored_complaint(rule) is Some {
                    out == Some((payload, severity))
                } else {
                    &&& trial.action == Some("suppress"@) || trial.action == Some("downgrade"@)
                        || trial.action == Some("merge"@)
                    &&& trial.action == Some("suppress"@) ==> out is None
                    &&& trial.action == Some("downgrade"@) ==> out == Some(
                        (payload, severity_named(rule.target_severity->Some_0)->Some_0),
                    )
                    &&& trial.action == Some("merge"@) ==> out == Some(
                        (merged_payload(events.len(), events[0], payload), severity),
                    )
                }
            }
        }),
{
    trial_gates_agree(store, cfg, s, source, payload, now, clock);
    trial_foretells_the_frequency_rule(store, s.buckets, source, payload, now);
    reveal_strlit("suppress");
    reveal_strlit("downgrade");
    reveal_strlit("merge");
    assert("suppress"@.len() == 8 && "downgrade"@.len() == 9 && "merge"@.len() == 5);
}

} // verus!
