//! The way of an event: what stops it, where it goes and what is sent.

use std::collections::hash_map::DefaultHasher;
use std::hash::Hasher;
use vstd::prelude::*;
use vstd::std_specs::hash::DefaultHasherAdditionalSpecFns;
use vstd::utf8::encode_utf8;

use super::aggregations::{
    aggregation_rule_for, aggregation_step, apply_aggregation_decision, bucket_of,
    evaluate_aggregations, merged_payload, AggregationBucket, AggregationBucketView,
    AggregationDecision, AggregationDecisionView,
};
use super::config::{
    apply_endpoint_severity_override, override_for, url_complaint, validate_url,
};
use super::correlations::{
    correlations_on, evaluate_correlations, stamped, suppressing_rule, CorrelationDecision,
    CorrelationState,
};
use super::escalations::{
    candidates, candidates_view, find_escalation_candidates, record_dispatch, Candidate,
    EscalationState,
};
use super::ids::{gen_event_id, uuid_shape};
use super::routes::{match_route, matching_route, Comparison};
use super::severity::{endpoints_on, load_enabled_endpoints, resolved, severity_resolved};
use super::silences::{acked, is_acked, is_silenced, silenced};
use super::stamps::{Stamp, StampView};
use super::storage::{EscalationRuleView, Storage};
use super::store::{copy_kept, kept, row_with, rows_view, with_row, Table};
use super::template::{content_type_name, content_type_of, render_template, rendered};
use super::timeline::{
    record_seen_event, remembered, summary_of, RecentEvents, RouteSeenEventView,
};
use super::types::{
    copy_opt_text, copy_pairs, copy_texts, opt_text_view, pairs_view, severity_name, severity_named,
    AlertEnvelope, AlertEnvelopeView, AlertingEndpointRow, AlertingEndpointRowView, RouteRuleRow,
    RouteRuleRowView, Severity, WebhookConfig, WebhookConfigView, WebhookSources,
    ALERT_SCHEMA_VERSION,
};
use crate::crypt::{fixed_hex, hex_of, hex_padded, hex_text, hmac_sha256, hmac_sha256_of};
use crate::json::{
    items_view, json_text, json_text_of, json_view, lemma_items_view, lemma_members_view,
    members_view, texts_view, Json, JsonView,
};
use crate::text::{complaint, decimal, decimal_seq, is_one_of, join, join3, same};

verus! {

/// What the second byte sequence of a hashed text is: a mark of its end.
pub open spec fn end_mark() -> Seq<u8> {
    seq![0xffu8]
}

/// The key of an event among those sent lately: its source, and a hash of its source and payload.
pub open spec fn event_key(source: Seq<char>, payload: JsonView) -> Seq<char> {
    source + ":"@ + fixed_hex(
        DefaultHasher::spec_finish(
            seq![
                encode_utf8(source),
                end_mark(),
                encode_utf8(json_text_of(payload)),
                end_mark(),
            ],
        ) as nat,
        16,
    )
}

/// The key of an event among those sent lately.
pub fn dedup_key(source: &str, payload: &Json) -> (r: String)
    ensures
        r@ == event_key(source@, payload@),
{
    let text: String = json_text(payload);
    let mark: [u8; 1] = [0xff];
    let mut h: DefaultHasher = DefaultHasher::new();
    h.write(source.as_bytes());
    h.write(&mark);
    h.write(text.as_str().as_bytes());
    h.write(&mark);
    assert(mark@ =~= end_mark());
    assert(h@ =~= seq![
        encode_utf8(source@),
        end_mark(),
        encode_utf8(json_text_of(payload@)),
        end_mark(),
    ]);
    join3(source, ":", hex_padded(h.finish(), 16).as_str())
}

/// Whether events of `source` are wanted.
pub open spec fn source_wanted(source: Seq<char>, sources: WebhookSources) -> bool {
    if source == "plugin.metrics.exceeded"@ {
        sources.metrics_exceeded
    } else if source == "capability.sla.violated"@ {
        sources.sla_violated
    } else if source == "plugin.kill_switch.enabled"@ {
        sources.kill_switch_engaged
    } else if source == "plugin.lifecycle.crashed"@ {
        sources.plugin_crashed
    } else {
        false
    }
}

/// Whether events of `source` are wanted.
pub fn source_enabled(source: &str, sources: &WebhookSources) -> (r: bool)
    ensures
        r == source_wanted(source@, *sources),
{
    if same(source, "plugin.metrics.exceeded") {
        sources.metrics_exceeded
    } else if same(source, "capability.sla.violated") {
        sources.sla_violated
    } else if same(source, "plugin.kill_switch.enabled") {
        sources.kill_switch_engaged
    } else if same(source, "plugin.lifecycle.crashed") {
        sources.plugin_crashed
    } else {
        false
    }
}

/// Whether an endpoint takes events of `source`: an empty filter takes all.
pub open spec fn accepts(ep: AlertingEndpointRowView, source: Seq<char>) -> bool {
    ep.source_filter.len() == 0 || ep.source_filter.contains(source)
}

/// Whether an endpoint takes events of `source`: an empty filter takes all.
pub fn endpoint_accepts_source(ep: &AlertingEndpointRow, source: &str) -> (r: bool)
    ensures
        r == accepts(ep@, source@),
{
    ep.source_filter.len() == 0 || listed(&ep.source_filter, source)
}

fn listed(list: &Vec<String>, s: &str) -> (r: bool)
    ensures
        r == texts_view(list@).contains(s@),
{
    let r: bool = is_one_of(list.as_slice(), s);
    let ghost all = texts_view(list@);
    assert(r == all.contains(s@)) by {
        if r {
            let i = choose|i: int| 0 <= i < list@.len() && (#[trigger] list@[i])@ == s@;
            assert(all[i] == s@);
        }
        if all.contains(s@) {
            let i = choose|i: int| 0 <= i < all.len() && all[i] == s@;
            assert(list@[i]@ == s@);
        }
    }
    r
}

/// The signature of a body: none without a secret, else `sha256=` and the digits of the
/// HMAC-SHA256.
pub open spec fn signature_of(secret: Seq<char>, body: Seq<char>) -> Seq<char> {
    if secret.len() == 0 {
        Seq::empty()
    } else {
        "sha256="@ + hex_of(hmac_sha256_of(encode_utf8(secret), encode_utf8(body)))
    }
}

/// The signature of a body: none without a secret, else `sha256=` and the digits of the
/// HMAC-SHA256.
pub fn compute_signature(secret: &str, body: &str) -> (r: String)
    ensures
        r@ == signature_of(secret@, body@),
{
    if secret.is_empty() {
        return String::new();
    }
    let mac: Vec<u8> = hmac_sha256(secret.as_bytes(), body.as_bytes());
    join("sha256=", hex_text(mac.as_slice()).as_str())
}

/// The headers of a request to an endpoint: its own, and the signature where it has a secret.
pub open spec fn request_headers(ep: AlertingEndpointRowView, body: Seq<char>) -> Seq<
    (Seq<char>, Seq<char>),
> {
    if ep.secret.len() == 0 {
        ep.headers
    } else {
        ep.headers.push(("X-OpenCapX-Signature"@, signature_of(ep.secret, body)))
    }
}

/// The headers of a request to an endpoint: its own, and the signature where it has a secret.
pub fn build_request_headers(ep: &AlertingEndpointRow, body: &str) -> (r: Vec<(String, String)>)
    ensures
        pairs_view(r@) == request_headers(ep@, body@),
{
    let mut headers: Vec<(String, String)> = copy_pairs(&ep.headers);
    let ghost had = pairs_view(headers@);
    if !ep.secret.as_str().is_empty() {
        headers.push(
            ("X-OpenCapX-Signature".to_owned(), compute_signature(ep.secret.as_str(), body)),
        );
        assert(pairs_view(headers@) =~= had.push(
            ("X-OpenCapX-Signature"@, signature_of(ep@.secret, body@)),
        ));
    }
    headers
}

/// An envelope.
pub open spec fn envelope_of(
    source: Seq<char>,
    payload: JsonView,
    tags: Seq<Seq<char>>,
    severity: Severity,
    event_id: Seq<char>,
    now: u64,
) -> AlertEnvelopeView {
    AlertEnvelopeView {
        schema_version: ALERT_SCHEMA_VERSION,
        event_id,
        source,
        severity,
        tags,
        timestamp: now,
        payload,
    }
}

/// An envelope with this id.
pub fn envelope_with_id(
    source: &str,
    payload: Json,
    tags: Vec<String>,
    severity: Severity,
    event_id: String,
    now: u64,
) -> (r: AlertEnvelope)
    ensures
        r@ == envelope_of(source@, payload@, texts_view(tags@), severity, event_id@, now),
{
    AlertEnvelope {
        schema_version: ALERT_SCHEMA_VERSION,
        event_id,
        source: source.to_owned(),
        severity,
        tags,
        timestamp: now,
        payload,
    }
}

/// An envelope with a random id and this severity.
pub fn make_envelope_with_severity(
    source: &str,
    payload: Json,
    tags: Vec<String>,
    severity: Severity,
    now: u64,
) -> (r: AlertEnvelope)
    ensures
        uuid_shape(r@.event_id),
        r@ == envelope_of(source@, payload@, texts_view(tags@), severity, r@.event_id, now),
{
    let event_id: String = gen_event_id();
    envelope_with_id(source, payload, tags, severity, event_id, now)
}

/// An envelope with a random id and the severity of its source.
pub fn make_envelope(store: &Storage, source: &str, payload: Json, tags: Vec<String>, now: u64) -> (r:
    AlertEnvelope)
    ensures
        uuid_shape(r@.event_id),
        r@ == envelope_of(
            source@,
            payload@,
            texts_view(tags@),
            resolved(*store, source@),
            r@.event_id,
            now,
        ),
{
    make_envelope_with_severity(source, payload, tags, severity_resolved(store, source), now)
}

/// Texts as the items of an array.
pub open spec fn text_items(s: Seq<Seq<char>>) -> Seq<JsonView> {
    Seq::new(s.len(), |i: int| JsonView::Text(s[i]))
}

/// The JSON text of an envelope, its members in the order of its fields.
pub open spec fn envelope_text(env: AlertEnvelopeView) -> Seq<char> {
    "{\"schemaVersion\":"@ + decimal_seq(env.schema_version as nat) + ",\"eventId\":"@ + json_text_of(
        JsonView::Text(env.event_id),
    ) + ",\"source\":"@ + json_text_of(JsonView::Text(env.source)) + ",\"severity\":"@ + json_text_of(
        JsonView::Text(severity_name(env.severity)),
    ) + ",\"tags\":"@ + json_text_of(JsonView::Array(text_items(env.tags))) + ",\"timestamp\":"@
        + decimal_seq(env.timestamp as nat) + ",\"payload\":"@ + json_text_of(env.payload) + "}"@
}

fn texts_to_json(list: &Vec<String>) -> (r: Json)
    ensures
        r@ == JsonView::Array(text_items(texts_view(list@))),
{
    let mut items: Vec<Json> = Vec::new();
    let mut i: usize = 0;
    while i < list.len()
        invariant
            i <= list@.len(),
            items@.len() == i,
            forall|k: int| 0 <= k < i ==> #[trigger] items@[k] == Json::Text(list@[k]),
        decreases list@.len() - i,
    {
        items.push(Json::Text(list[i].clone()));
        i += 1;
    }
    proof {
        lemma_items_view(items@);
        assert forall|k: int| 0 <= k < items@.len() implies #[trigger] items_view(items@)[k] == text_items(
            texts_view(list@),
        )[k] by {
            assert(items@[k] == Json::Text(list@[k]));
            assert(json_view(items@[k]) == JsonView::Text(list@[k]@));
        }
        assert(items_view(items@) =~= text_items(texts_view(list@)));
    }
    Json::Array(items)
}

fn add_member(text: String, name: &str, value: &str) -> (r: String)
    ensures
        r@ == text@ + name@ + value@,
{
    join3(text.as_str(), name, value)
}

/// The JSON text of an envelope, its members in the order of its fields.
pub fn envelope_to_json_string(env: &AlertEnvelope) -> (r: Result<String, String>)
    ensures
        r is Ok,
        r->Ok_0@ == envelope_text(env@),
{
    let t: String = join("{\"schemaVersion\":", decimal(env.schema_version as u64).as_str());
    let t: String = add_member(
        t,
        ",\"eventId\":",
        json_text(&Json::Text(env.event_id.clone())).as_str(),
    );
    let t: String = add_member(
        t,
        ",\"source\":",
        json_text(&Json::Text(env.source.clone())).as_str(),
    );
    let t: String = add_member(
        t,
        ",\"severity\":",
        json_text(&Json::Text(env.severity.as_str().to_owned())).as_str(),
    );
    let t: String = add_member(t, ",\"tags\":", json_text(&texts_to_json(&env.tags)).as_str());
    let t: String = add_member(t, ",\"timestamp\":", decimal(env.timestamp).as_str());
    let t: String = add_member(t, ",\"payload\":", json_text(&env.payload).as_str());
    Ok(join(t.as_str(), "}"))
}

/// A plain request body: source, time and data.
pub open spec fn wire_value(source: Seq<char>, now: u64, data: JsonView) -> JsonView {
    JsonView::Object(
        seq![
            ("source"@, JsonView::Text(source)),
            ("timestamp"@, JsonView::Number(decimal_seq(now as nat))),
            ("data"@, data),
        ],
    )
}

/// The text of a plain request body: source, time and data.
pub open spec fn wire_text(source: Seq<char>, now: u64, data: JsonView) -> Seq<char> {
    json_text_of(wire_value(source, now, data))
}

/// The text of a plain request body: source, time and data.
pub fn wire_body(source: &str, now: u64, data: &Json) -> (r: String)
    ensures
        r@ == wire_text(source@, now, data@),
{
    let mut members: Vec<(String, Json)> = Vec::new();
    members.push(("source".to_owned(), Json::Text(source.to_owned())));
    members.push(("timestamp".to_owned(), Json::Number(decimal(now))));
    members.push(("data".to_owned(), data.clone()));
    proof {
        lemma_members_view(members@);
        assert(members_view(members@) =~= seq![
            ("source"@, JsonView::Text(source@)),
            ("timestamp"@, JsonView::Number(decimal_seq(now as nat))),
            ("data"@, data@),
        ]);
    }
    json_text(&Json::Object(members))
}

/// A request that is ready to be sent.
#[derive(Debug)]
pub struct Delivery {
    /// The endpoint that it goes to, where it goes to one.
    pub endpoint_id: Option<String>,
    pub url: String,
    pub headers: Vec<(String, String)>,
    pub body: String,
    pub content_type: String,
    /// What is kept to be sent again where sending fails.
    pub queued: String,
}

/// What a [`Delivery`] holds.
pub struct DeliveryView {
    pub endpoint_id: Option<Seq<char>>,
    pub url: Seq<char>,
    pub headers: Seq<(Seq<char>, Seq<char>)>,
    pub body: Seq<char>,
    pub content_type: Seq<char>,
    pub queued: Seq<char>,
}

impl View for Delivery {
    type V = DeliveryView;

    open spec fn view(&self) -> DeliveryView {
        DeliveryView {
            endpoint_id: opt_text_view(self.endpoint_id),
            url: self.url@,
            headers: pairs_view(self.headers@),
            body: self.body@,
            content_type: self.content_type@,
            queued: self.queued@,
        }
    }
}

impl Clone for Delivery {
    fn clone(&self) -> (r: Self)
        ensures
            r@ == self@,
    {
        Delivery {
            endpoint_id: copy_opt_text(&self.endpoint_id),
            url: self.url.clone(),
            headers: copy_pairs(&self.headers),
            body: self.body.clone(),
            content_type: self.content_type.clone(),
            queued: self.queued.clone(),
        }
    }
}

/// The body of a template against an envelope, and what it is sent as; the envelope itself where
/// the template is ill-formed.
pub open spec fn templated(template: Seq<char>, env: AlertEnvelopeView) -> (Seq<char>, Seq<char>) {
    match rendered(template, env) {
        Ok(body) => (body, content_type_name(content_type_of(body))),
        Err(_) => (envelope_text(env), "application/json"@),
    }
}

fn render_or_envelope(template: &str, env: &AlertEnvelope) -> (r: (String, String))
    ensures
        (r.0@, r.1@) == templated(template@, env@),
{
    match render_template(template, env) {
        Ok((body, kind)) => (body, kind.as_content_type().to_owned()),
        Err(_) => {
            let text: String = match envelope_to_json_string(env) {
                Ok(t) => t,
                Err(e) => e,
            };
            (text, "application/json".to_owned())
        },
    }
}

/// The body for an endpoint, and what it is sent as: by its template, or else the envelope from
/// schema 1 on, or else source, time and data.
pub open spec fn endpoint_body(
    ep: AlertingEndpointRowView,
    source: Seq<char>,
    payload: JsonView,
    severity: Severity,
    event_id: Seq<char>,
    now: u64,
) -> (Seq<char>, Seq<char>) {
    let env = envelope_of(source, payload, Seq::empty(), severity, event_id, now);
    match ep.template {
        Some(template) => templated(template, env),
        None => if ep.schema_version >= 1 {
            (envelope_text(env), "application/json"@)
        } else {
            (wire_text(source, now, payload), "application/json"@)
        },
    }
}

/// The severity that an endpoint gives an event.
pub open spec fn severity_at(ep: AlertingEndpointRowView, source: Seq<char>, severity: Severity) -> Severity {
    match ep.severity_overrides {
        Some(overrides) => match override_for(source, overrides) {
            Some(s) => s,
            None => severity,
        },
        None => severity,
    }
}

/// The request to an endpoint.
pub open spec fn delivery_of(
    ep: AlertingEndpointRowView,
    source: Seq<char>,
    payload: JsonView,
    severity: Severity,
    event_id: Seq<char>,
    now: u64,
) -> DeliveryView {
    let (body, content_type) = endpoint_body(
        ep,
        source,
        payload,
        severity_at(ep, source, severity),
        event_id,
        now,
    );
    DeliveryView {
        endpoint_id: Some(ep.id),
        url: ep.url,
        headers: request_headers(ep, body),
        body,
        content_type,
        queued: body,
    }
}

/// The request to an endpoint.
pub fn delivery_for(
    ep: &AlertingEndpointRow,
    source: &str,
    payload: &Json,
    severity: Severity,
    event_id: String,
    now: u64,
) -> (r: Delivery)
    ensures
        r@ == delivery_of(ep@, source@, payload@, severity, event_id@, now),
{
    let mut severity: Severity = severity;
    if let Some(overrides) = &ep.severity_overrides {
        apply_endpoint_severity_override(&mut severity, source, overrides.as_slice());
    }
    let tags: Vec<String> = Vec::new();
    assert(texts_view(tags@) =~= Seq::<Seq<char>>::empty());
    let env: AlertEnvelope = envelope_with_id(source, payload.clone(), tags, severity, event_id, now);
    let (body, content_type) = match &ep.template {
        Some(template) => render_or_envelope(template.as_str(), &env),
        None => if ep.schema_version >= 1 {
            let text: String = match envelope_to_json_string(&env) {
                Ok(t) => t,
                Err(e) => e,
            };
            (text, "application/json".to_owned())
        } else {
            (wire_body(source, now, payload), "application/json".to_owned())
        },
    };
    let headers: Vec<(String, String)> = build_request_headers(ep, body.as_str());
    Delivery {
        endpoint_id: Some(ep.id.clone()),
        url: ep.url.clone(),
        headers,
        queued: body.clone(),
        body,
        content_type,
    }
}

/// The request to the one url of the configuration, where there are no endpoints: the envelope from
/// schema 1 on, else source, time and data, of which only the data is kept to be sent again.
pub open spec fn plain_delivery_of(
    cfg: WebhookConfigView,
    source: Seq<char>,
    payload: JsonView,
    severity: Severity,
    event_id: Seq<char>,
    now: u64,
) -> DeliveryView {
    let env = envelope_of(source, payload, Seq::empty(), severity, event_id, now);
    let body = if cfg.schema_version >= 1 {
        envelope_text(env)
    } else {
        wire_text(source, now, payload)
    };
    DeliveryView {
        endpoint_id: None,
        url: cfg.url,
        headers: cfg.custom_headers,
        body,
        content_type: "application/json"@,
        queued: if cfg.schema_version >= 1 {
            body
        } else {
            json_text_of(payload)
        },
    }
}

/// The request to the one url of the configuration.
pub fn plain_delivery(
    cfg: &WebhookConfig,
    source: &str,
    payload: &Json,
    severity: Severity,
    event_id: String,
    now: u64,
) -> (r: Delivery)
    ensures
        r@ == plain_delivery_of(cfg@, source@, payload@, severity, event_id@, now),
{
    let tags: Vec<String> = Vec::new();
    assert(texts_view(tags@) =~= Seq::<Seq<char>>::empty());
    let env: AlertEnvelope = envelope_with_id(source, payload.clone(), tags, severity, event_id, now);
    let (body, queued) = if cfg.schema_version >= 1 {
        let text: String = match envelope_to_json_string(&env) {
            Ok(t) => t,
            Err(e) => e,
        };
        (text.clone(), text)
    } else {
        (wire_body(source, now, payload), json_text(payload))
    };
    Delivery {
        endpoint_id: None,
        url: cfg.url.clone(),
        headers: copy_pairs(&cfg.custom_headers),
        body,
        content_type: "application/json".to_owned(),
        queued,
    }
}

/// All that alerting remembers between events.
pub struct DispatchState {
    /// When each event was last sent, in nanoseconds, by its key.
    pub last_sent: Table<Stamp>,
    pub buckets: Table<AggregationBucket>,
    pub correlation: CorrelationState,
    pub escalation: EscalationState,
    pub recent: RecentEvents,
}

/// What a [`DispatchState`] holds.
pub struct DispatchStateView {
    pub last_sent: Seq<StampView>,
    pub buckets: Seq<AggregationBucketView>,
    pub last_a: Seq<StampView>,
    pub last_by_source: Seq<StampView>,
    pub recent: Seq<RouteSeenEventView>,
}

impl View for DispatchState {
    type V = DispatchStateView;

    open spec fn view(&self) -> DispatchStateView {
        DispatchStateView {
            last_sent: self.last_sent@,
            buckets: self.buckets@,
            last_a: self.correlation.last_a@,
            last_by_source: self.escalation.last_by_source@,
            recent: self.recent@,
        }
    }
}

impl DispatchState {
    /// Nothing has happened yet.
    pub fn new() -> (r: Self)
        ensures
            r@ == (DispatchStateView {
                last_sent: Seq::empty(),
                buckets: Seq::empty(),
                last_a: Seq::empty(),
                last_by_source: Seq::empty(),
                recent: Seq::empty(),
            }),
    {
        DispatchState {
            last_sent: Table::new(),
            buckets: Table::new(),
            correlation: CorrelationState::new(),
            escalation: EscalationState::new(),
            recent: RecentEvents::new(),
        }
    }
}

/// Whether an event passes the gates that look at nothing but rules and configuration: it is
/// neither silenced nor acknowledged, and goes to endpoints, or else is wanted at the one url.
pub open spec fn passes_gates(store: Storage, cfg: WebhookConfigView, source: Seq<char>, now: u64) -> bool {
    &&& !silenced(store, source, now)
    &&& !acked(store, source, now)
    &&& endpoints_on(store).len() > 0 || (cfg.enabled && source_wanted(source, cfg.sources)
        && cfg.url.len() > 0)
}

/// How many whole seconds lie between two times in nanoseconds; none where the first is later.
pub open spec fn whole_secs(from: u64, to: u64) -> int {
    if to >= from {
        (to - from) / 1_000_000_000
    } else {
        0
    }
}

/// Whether the event with this key was sent less than `min_interval` seconds ago.
pub open spec fn sent_lately(last_sent: Seq<StampView>, key: Seq<char>, clock: u64, min_interval: u32) -> bool {
    match row_with::<Stamp>(last_sent, key) {
        Some(s) => whole_secs(s.at, clock) < min_interval,
        None => false,
    }
}

/// How many whole seconds lie between two times in nanoseconds.
pub fn elapsed_secs(from: u64, to: u64) -> (r: u64)
    ensures
        r == whole_secs(from, to),
{
    to.saturating_sub(from) / 1_000_000_000
}

/// What an aggregation makes of payload and severity; nothing where it drops the event.
pub open spec fn after_aggregation(d: AggregationDecisionView, payload: JsonView, severity: Severity) -> Option<
    (JsonView, Severity),
> {
    match d {
        AggregationDecisionView::Pass => Some((payload, severity)),
        AggregationDecisionView::Downgrade(s, _) => Some((payload, s)),
        AggregationDecisionView::Suppress { .. } => None,
        AggregationDecisionView::Merge { count, since, last_payload, .. } => Some(
            (merged_payload(count, since, last_payload), severity),
        ),
    }
}

/// What becomes of an event: payload and severity with which it goes out, or nothing where it is
/// dropped; and the state afterwards. In turn: the gates, the same event sent lately, suppression
/// by an earlier event, frequency.
pub open spec fn admission(
    store: Storage,
    cfg: WebhookConfigView,
    s: DispatchStateView,
    source: Seq<char>,
    payload: JsonView,
    now: u64,
    clock: u64,
) -> (Option<(JsonView, Severity)>, DispatchStateView) {
    let key = event_key(source, payload);
    if !passes_gates(store, cfg, source, now) || sent_lately(
        s.last_sent,
        key,
        clock,
        cfg.min_interval_secs,
    ) {
        (None, s)
    } else {
        let marked = DispatchStateView {
            last_sent: with_row::<Stamp>(s.last_sent, StampView { name: key, at: clock }),
            last_a: stamped(s.last_a, correlations_on(store), source, now),
            ..s
        };
        if suppressing_rule(correlations_on(store), s.last_a, source, now) is Some {
            (None, marked)
        } else {
            match aggregation_rule_for(store, source) {
                None => (Some((payload, resolved(store, source))), marked),
                Some(rule) => {
                    let (decision, bucket) = aggregation_step(
                        rule,
                        bucket_of(s.buckets, source),
                        payload,
                        resolved(store, source),
                        now,
                    );
                    (
                        after_aggregation(decision, payload, resolved(store, source)),
                        DispatchStateView {
                            buckets: with_row::<AggregationBucket>(s.buckets, bucket),
                            ..marked
                        },
                    )
                },
            }
        }
    }
}

/// Decides whether an event goes out, and with what payload and severity. `now` is the time in
/// seconds, `clock` a clock in nanoseconds that never goes back.
pub fn let_through(
    store: &Storage,
    cfg: &WebhookConfig,
    state: &mut DispatchState,
    source: &str,
    payload: &Json,
    now: u64,
    clock: u64,
) -> (r: Option<(Json, Severity)>)
    ensures
        final(state)@ == admission(*store, cfg@, old(state)@, source@, payload@, now, clock).1,
        match r {
            Some(out) => admission(*store, cfg@, old(state)@, source@, payload@, now, clock).0 == Some(
                (out.0@, out.1),
            ),
            None => admission(*store, cfg@, old(state)@, source@, payload@, now, clock).0 is None,
        },
{
    if is_silenced(store, source, now) {
        return None;
    }
    if is_acked(store, source, now) {
        return None;
    }
    let endpoints: Vec<AlertingEndpointRow> = load_enabled_endpoints(store);
    assert(endpoints_on(*store).len() == endpoints@.len());
    if endpoints.len() == 0 {
        if !cfg.enabled {
            return None;
        }
        if !source_enabled(source, &cfg.sources) {
            return None;
        }
        if cfg.url.as_str().is_empty() {
            return None;
        }
    }
    let key: String = dedup_key(source, payload);
    if let Some(stamp) = state.last_sent.get(key.as_str()) {
        if elapsed_secs(stamp.at, clock) < cfg.min_interval_secs as u64 {
            return None;
        }
    }
    state.last_sent.put(Stamp { name: key, at: clock });
    match evaluate_correlations(store, &mut state.correlation, source, now) {
        CorrelationDecision::Suppress { .. } => {
            return None;
        },
        CorrelationDecision::Pass => {},
    }
    let mut severity: Severity = severity_resolved(store, source);
    let decision: AggregationDecision = evaluate_aggregations(
        store,
        &mut state.buckets,
        source,
        payload,
        now,
    );
    let mut effective: Json = payload.clone();
    if !apply_aggregation_decision(&decision, &mut effective, &mut severity) {
        return None;
    }
    Some((effective, severity))
}

/// An event that was let through is not let through again, with the same payload, for as long as
/// the configuration asks.
pub proof fn same_event_waits(
    store: Storage,
    cfg: WebhookConfigView,
    s: DispatchStateView,
    source: Seq<char>,
    payload: JsonView,
    now: u64,
    clock: u64,
    later: u64,
    later_clock: u64,
)
    requires
        super::store::keys_distinct::<Stamp>(s.last_sent),
        admission(store, cfg, s, source, payload, now, clock).0 is Some,
        whole_secs(clock, later_clock) < cfg.min_interval_secs,
    ensures
        admission(
            store,
            cfg,
            admission(store, cfg, s, source, payload, now, clock).1,
            source,
            payload,
            later,
            later_clock,
        ) == (None::<(JsonView, Severity)>, admission(store, cfg, s, source, payload, now, clock).1),
{
    let key = event_key(source, payload);
    super::store::put_then_get::<Stamp>(s.last_sent, StampView { name: key, at: clock }, key);
}

/// While a source is silenced or acknowledged, none of its events goes out and nothing changes.
pub proof fn silence_and_ack_stop_everything(
    store: Storage,
    cfg: WebhookConfigView,
    s: DispatchStateView,
    source: Seq<char>,
    payload: JsonView,
    now: u64,
    clock: u64,
)
    requires
        silenced(store, source, now) || acked(store, source, now),
    ensures
        admission(store, cfg, s, source, payload, now, clock) == (None::<(JsonView, Severity)>, s),
{
}

/// Where an event goes: to the endpoints of the route that takes it, or else to all that accept its
/// source; in either case only to those that are on.
pub open spec fn targets(
    endpoints: Seq<AlertingEndpointRowView>,
    route: Option<RouteRuleRowView>,
    source: Seq<char>,
) -> Seq<AlertingEndpointRowView> {
    match route {
        Some(r) => kept(
            endpoints,
            |ep: AlertingEndpointRowView| r.target_endpoint_ids.contains(ep.id),
        ),
        None => kept(endpoints, |ep: AlertingEndpointRowView| accepts(ep, source)),
    }
}

/// Where an event goes.
pub fn select_targets(
    endpoints: &Vec<AlertingEndpointRow>,
    route: &Option<RouteRuleRow>,
    source: &str,
) -> (r: Vec<AlertingEndpointRow>)
    ensures
        rows_view(r@) == targets(
            rows_view(endpoints@),
            match *route {
                Some(row) => Some(row@),
                None => None,
            },
            source@,
        ),
{
    match route {
        Some(row) => {
            let ghost wanted = |ep: AlertingEndpointRowView| row@.target_endpoint_ids.contains(ep.id);
            let test = |ep: &AlertingEndpointRow| -> (b: bool)
                ensures
                    b == row@.target_endpoint_ids.contains(ep@.id),
            { listed(&row.target_endpoint_ids, ep.id.as_str()) };
            copy_kept(endpoints, test, Ghost(wanted))
        },
        None => {
            let ghost wanted = |ep: AlertingEndpointRowView| accepts(ep, source@);
            let test = |ep: &AlertingEndpointRow| -> (b: bool)
                ensures
                    b == accepts(ep@, source@),
            { endpoint_accepts_source(ep, source) };
            copy_kept(endpoints, test, Ghost(wanted))
        },
    }
}

/// The state after an event went out to endpoints: the source has sent, and the event is remembered
/// under the id `fresh`.
pub open spec fn sent_state(
    s: DispatchStateView,
    source: Seq<char>,
    payload: JsonView,
    route: Option<RouteRuleRowView>,
    fresh: Seq<char>,
    now: u64,
) -> DispatchStateView {
    DispatchStateView {
        last_by_source: with_row::<Stamp>(s.last_by_source, StampView { name: source, at: now }),
        recent: remembered(
            s.recent,
            RouteSeenEventView {
                id: fresh,
                source,
                payload_summary: summary_of(json_text_of(payload)),
                ts_secs: now,
                routes_fired: match route {
                    Some(r) => seq![r.name],
                    None => Seq::empty(),
                },
                correlations_hit: Seq::empty(),
            },
        ),
        ..s
    }
}

/// Whether `d` is the request to endpoint `ep` with some random id.
pub open spec fn delivers(
    d: DeliveryView,
    ep: AlertingEndpointRowView,
    source: Seq<char>,
    payload: JsonView,
    severity: Severity,
    now: u64,
) -> bool {
    exists|fresh: Seq<char>| #[trigger]
        uuid_shape(fresh) && d == delivery_of(ep, source, payload, severity, fresh, now)
}

/// The requests for an event that was let through, with the payload and severity that it was let
/// through with: one to the url of the configuration where there are no endpoints, else one to
/// each endpoint that it goes to. `numbers` says for each route that is on how its numbers compare.
pub fn plan_deliveries(
    store: &Storage,
    cfg: &WebhookConfig,
    state: &mut DispatchState,
    source: &str,
    payload: &Json,
    severity: Severity,
    numbers: &Vec<Option<Comparison>>,
    now: u64,
) -> (r: Vec<Delivery>)
    ensures
        endpoints_on(*store).len() == 0 ==> {
            &&& r@.len() == 1
            &&& exists|fresh: Seq<char>| #[trigger]
                uuid_shape(fresh) && r@[0]@ == plain_delivery_of(
                    cfg@,
                    source@,
                    payload@,
                    severity,
                    fresh,
                    now,
                )
            &&& final(state)@ == (DispatchStateView {
                last_by_source: with_row::<Stamp>(
                    old(state)@.last_by_source,
                    StampView { name: source@, at: now },
                ),
                ..old(state)@
            })
        },
        endpoints_on(*store).len() > 0 ==> {
            let route = matching_route(*store, source@, payload@, numbers@, old(state)@.recent, now);
            let to = targets(endpoints_on(*store), route, source@);
            &&& r@.len() == to.len()
            &&& forall|i: int|
                0 <= i < to.len() ==> delivers(
                    (#[trigger] r@[i])@,
                    to[i],
                    source@,
                    payload@,
                    severity,
                    now,
                )
            &&& to.len() == 0 ==> final(state)@ == old(state)@
            &&& to.len() > 0 ==> exists|fresh: Seq<char>| #[trigger]
                uuid_shape(fresh) && final(state)@ == sent_state(
                    old(state)@,
                    source@,
                    payload@,
                    route,
                    fresh,
                    now,
                )
        },
{
    let endpoints: Vec<AlertingEndpointRow> = load_enabled_endpoints(store);
    assert(endpoints_on(*store).len() == endpoints@.len());
    let mut out: Vec<Delivery> = Vec::new();
    if endpoints.len() == 0 {
        record_dispatch(&mut state.escalation, source, now);
        let event_id: String = gen_event_id();
        let ghost fresh = event_id@;
        out.push(plain_delivery(cfg, source, payload, severity, event_id, now));
        assert(uuid_shape(fresh));
        return out;
    }
    let route: Option<RouteRuleRow> = match_route(store, source, payload, numbers, &state.recent, now);
    let ghost chosen = matching_route(*store, source@, payload@, numbers@, state@.recent, now);
    assert(chosen == (match route {
        Some(row) => Some(row@),
        None => None,
    }));
    let matched: Vec<AlertingEndpointRow> = select_targets(&endpoints, &route, source);
    let ghost to = rows_view(matched@);
    if matched.len() == 0 {
        return out;
    }
    record_dispatch(&mut state.escalation, source, now);
    let mut fired: Vec<String> = Vec::new();
    if let Some(row) = &route {
        fired.push(row.name.clone());
    }
    let ghost fired_view = texts_view(fired@);
    assert(fired_view =~= (match chosen {
        Some(r) => seq![r.name],
        None => Seq::empty(),
    }));
    let hits: Vec<String> = Vec::new();
    assert(texts_view(hits@) =~= Seq::<Seq<char>>::empty());
    let text: String = json_text(payload);
    let summary: String = super::timeline::summarize(text.as_str());
    assert(summary_of(summary@) =~= summary@);
    record_seen_event(&mut state.recent, source, summary.as_str(), now, fired, hits);
    let mut i: usize = 0;
    while i < matched.len()
        invariant
            i <= matched@.len(),
            to == rows_view(matched@),
            out@.len() == i,
            forall|k: int|
                0 <= k < i ==> delivers((#[trigger] out@[k])@, to[k], source@, payload@, severity, now),
        decreases matched@.len() - i,
    {
        let event_id: String = gen_event_id();
        let ghost fresh = event_id@;
        assert(uuid_shape(fresh));
        assert(to[i as int] == matched@[i as int]@);
        out.push(delivery_for(&matched[i], source, payload, severity, event_id, now));
        assert(delivers(out@[i as int]@, to[i as int], source@, payload@, severity, now));
        i += 1;
    }
    out
}

/// What an escalated alert carries.
pub open spec fn escalation_payload(source: Seq<char>, now: u64) -> JsonView {
    JsonView::Object(
        seq![
            ("escalation"@, JsonView::Bool(true)),
            ("source"@, JsonView::Text(source)),
            ("escalated_at"@, JsonView::Number(decimal_seq(now as nat))),
        ],
    )
}

fn escalation_data(source: &str, now: u64) -> (r: Json)
    ensures
        r@ == escalation_payload(source@, now),
{
    let mut members: Vec<(String, Json)> = Vec::new();
    members.push(("escalation".to_owned(), Json::Bool(true)));
    members.push(("source".to_owned(), Json::Text(source.to_owned())));
    members.push(("escalated_at".to_owned(), Json::Number(decimal(now))));
    proof {
        lemma_members_view(members@);
        assert(members_view(members@) =~= seq![
            ("escalation"@, JsonView::Bool(true)),
            ("source"@, JsonView::Text(source@)),
            ("escalated_at"@, JsonView::Number(decimal_seq(now as nat))),
        ]);
    }
    Json::Object(members)
}

/// Where an escalated alert goes: to the endpoints that are named, or else to all; in either case
/// only to those that are on.
pub open spec fn escalation_targets(store: Storage, ids: Seq<Seq<char>>) -> Seq<AlertingEndpointRowView> {
    if ids.len() == 0 {
        endpoints_on(store)
    } else {
        kept(endpoints_on(store), |ep: AlertingEndpointRowView| ids.contains(ep.id))
    }
}

/// The request to an endpoint with an escalated alert.
pub open spec fn escalation_delivery_of(ep: AlertingEndpointRowView, env: AlertEnvelopeView) -> DeliveryView {
    let (body, content_type) = match ep.template {
        Some(template) => templated(template, env),
        None => (envelope_text(env), "application/json"@),
    };
    DeliveryView {
        endpoint_id: Some(ep.id),
        url: ep.url,
        headers: request_headers(ep, body),
        body,
        content_type,
        queued: body,
    }
}

/// The requests with an escalated alert, which carries the id `event_id` to all endpoints.
pub fn escalation_deliveries(
    store: &Storage,
    source: &str,
    endpoint_ids: &Vec<String>,
    severity: Severity,
    event_id: String,
    now: u64,
) -> (r: Vec<Delivery>)
    ensures
        r@.len() == escalation_targets(*store, texts_view(endpoint_ids@)).len(),
        forall|i: int|
            0 <= i < r@.len() ==> (#[trigger] r@[i])@ == escalation_delivery_of(
                escalation_targets(*store, texts_view(endpoint_ids@))[i],
                envelope_of(
                    source@,
                    escalation_payload(source@, now),
                    Seq::empty(),
                    severity,
                    event_id@,
                    now,
                ),
            ),
{
    let tags: Vec<String> = Vec::new();
    assert(texts_view(tags@) =~= Seq::<Seq<char>>::empty());
    let env: AlertEnvelope = envelope_with_id(
        source,
        escalation_data(source, now),
        tags,
        severity,
        event_id,
        now,
    );
    let endpoints: Vec<AlertingEndpointRow> = load_enabled_endpoints(store);
    let matched: Vec<AlertingEndpointRow> = if endpoint_ids.len() == 0 {
        endpoints
    } else {
        let ghost ids = texts_view(endpoint_ids@);
        let ghost wanted = |ep: AlertingEndpointRowView| ids.contains(ep.id);
        let test = |ep: &AlertingEndpointRow| -> (b: bool)
            ensures
                b == texts_view(endpoint_ids@).contains(ep@.id),
        { listed(endpoint_ids, ep.id.as_str()) };
        copy_kept(&endpoints, test, Ghost(wanted))
    };
    let ghost to = rows_view(matched@);
    assert(to =~= escalation_targets(*store, texts_view(endpoint_ids@)));
    let mut out: Vec<Delivery> = Vec::new();
    let mut i: usize = 0;
    while i < matched.len()
        invariant
            i <= matched@.len(),
            to == rows_view(matched@),
            out@.len() == i,
            forall|k: int| 0 <= k < i ==> (#[trigger] out@[k])@ == escalation_delivery_of(to[k], env@),
        decreases matched@.len() - i,
    {
        let ep: &AlertingEndpointRow = &matched[i];
        assert(to[i as int] == ep@);
        let (body, content_type) = match &ep.template {
            Some(template) => render_or_envelope(template.as_str(), &env),
            None => {
                let text: String = match envelope_to_json_string(&env) {
                    Ok(t) => t,
                    Err(e) => e,
                };
                (text, "application/json".to_owned())
            },
        };
        let headers: Vec<(String, String)> = build_request_headers(ep, body.as_str());
        out.push(
            Delivery {
                endpoint_id: Some(ep.id.clone()),
                url: ep.url.clone(),
                headers,
                queued: body.clone(),
                body,
                content_type,
            },
        );
        i += 1;
    }
    out
}

/// An alert to send again: its source, the endpoints that it goes to (none for all) and the
/// severity that it goes with.
pub struct Escalation {
    pub source: String,
    pub endpoint_ids: Vec<String>,
    pub severity: Severity,
}

/// What an [`Escalation`] holds.
pub struct EscalationView {
    pub source: Seq<char>,
    pub endpoint_ids: Seq<Seq<char>>,
    pub severity: Severity,
}

impl View for Escalation {
    type V = EscalationView;

    open spec fn view(&self) -> EscalationView {
        EscalationView {
            source: self.source@,
            endpoint_ids: texts_view(self.endpoint_ids@),
            severity: self.severity,
        }
    }
}

/// The alerts to send again for some candidates, and when each source has sent afterwards: a
/// candidate whose rule names no severity is passed over.
pub open spec fn escalation_round_of(
    found: Seq<(EscalationRuleView, Seq<char>, u64)>,
    stamps: Seq<StampView>,
    now: u64,
) -> (Seq<EscalationView>, Seq<StampView>)
    decreases found.len(),
{
    if found.len() == 0 {
        (Seq::empty(), stamps)
    } else {
        let (sent, before) = escalation_round_of(found.drop_last(), stamps, now);
        let (rule, source, _) = found.last();
        match severity_named(rule.target_severity) {
            Some(severity) => (
                sent.push(
                    EscalationView {
                        source,
                        endpoint_ids: match rule.target_endpoint_ids {
                            Some(ids) => ids,
                            None => Seq::empty(),
                        },
                        severity,
                    },
                ),
                with_row::<Stamp>(before, StampView { name: source, at: now }),
            ),
            None => (sent, before),
        }
    }
}

/// One round of escalation: the alerts to send again now. Each source that gets one counts as
/// having sent now, so that the next round leaves it alone.
pub fn escalation_round(store: &Storage, state: &mut EscalationState, now: u64) -> (r: Vec<Escalation>)
    ensures
        (rows_view(r@), final(state).last_by_source@) == escalation_round_of(
            candidates(*store, old(state).last_by_source@, now),
            old(state).last_by_source@,
            now,
        ),
{
    let found: Vec<Candidate> = find_escalation_candidates(store, state, now);
    let ghost all = candidates_view(found@);
    let ghost start = state.last_by_source@;
    let mut out: Vec<Escalation> = Vec::new();
    let mut i: usize = 0;
    assert(all.take(0) =~= Seq::<(EscalationRuleView, Seq<char>, u64)>::empty());
    assert(rows_view(out@) =~= Seq::<EscalationView>::empty());
    while i < found.len()
        invariant
            i <= found@.len(),
            all == candidates_view(found@),
            (rows_view(out@), state.last_by_source@) == escalation_round_of(
                all.take(i as int),
                start,
                now,
            ),
        decreases found@.len() - i,
    {
        assert(all.take(i + 1).drop_last() =~= all.take(i as int));
        assert(all.take(i + 1).last() == (found@[i as int].0@, found@[i as int].1@, found@[i as int].2));
        let ghost before = rows_view(out@);
        if let Some(severity) = Severity::parse(found[i].0.target_severity.as_str()) {
            record_dispatch(state, found[i].1.as_str(), now);
            let endpoint_ids: Vec<String> = match &found[i].0.target_endpoint_ids {
                Some(ids) => copy_texts(ids),
                None => {
                    let none: Vec<String> = Vec::new();
                    assert(texts_view(none@) =~= Seq::<Seq<char>>::empty());
                    none
                },
            };
            let e: Escalation = Escalation { source: found[i].1.clone(), endpoint_ids, severity };
            let ghost ev = e@;
            out.push(e);
            assert(rows_view(out@) =~= before.push(ev));
        }
        i += 1;
    }
    assert(all.take(i as int) =~= all);
    out
}

/// What a test of the one url carries.
pub open spec fn test_data() -> JsonView {
    JsonView::Object(seq![("message"@, JsonView::Text("Test alert from OpenCapX"@))])
}

/// What is wrong with sending a test to the url of the configuration.
pub open spec fn test_send_complaint(cfg: WebhookConfigView) -> Option<Seq<char>> {
    if !cfg.enabled {
        Some("webhook not enabled"@)
    } else {
        url_complaint(cfg.url)
    }
}

/// The request with which the url of the configuration is tested.
pub fn test_send_request(cfg: &WebhookConfig, now: u64) -> (r: Result<Delivery, String>)
    ensures
        complaint(r) == test_send_complaint(cfg@),
        r is Ok ==> r->Ok_0@ == (DeliveryView {
            endpoint_id: None,
            url: cfg@.url,
            headers: cfg@.custom_headers,
            body: wire_text("webhook.test"@, now, test_data()),
            content_type: "application/json"@,
            queued: wire_text("webhook.test"@, now, test_data()),
        }),
{
    if !cfg.enabled {
        return Err("webhook not enabled".to_owned());
    }
    validate_url(cfg.url.as_str())?;
    let mut members: Vec<(String, Json)> = Vec::new();
    members.push(("message".to_owned(), Json::Text("Test alert from OpenCapX".to_owned())));
    proof {
        lemma_members_view(members@);
        assert(members_view(members@) =~= seq![
            ("message"@, JsonView::Text("Test alert from OpenCapX"@)),
        ]);
    }
    let body: String = wire_body("webhook.test", now, &Json::Object(members));
    Ok(
        Delivery {
            endpoint_id: None,
            url: cfg.url.clone(),
            headers: copy_pairs(&cfg.custom_headers),
            queued: body.clone(),
            body,
            content_type: "application/json".to_owned(),
        },
    )
}

/// Whether the dispatcher takes events of this kind from the event bus.
pub open spec fn bridged(kind: Seq<char>) -> bool {
    ||| kind == "plugin.metrics.exceeded"@
    ||| kind == "capability.sla.violated"@
    ||| kind == "plugin.kill_switch.enabled"@
    ||| kind == "plugin.lifecycle.crashed"@
}

/// Whether the dispatcher takes events of this kind from the event bus.
pub fn is_bridged(kind: &str) -> (r: bool)
    ensures
        r == bridged(kind@),
{
    same(kind, "plugin.metrics.exceeded") || same(kind, "capability.sla.violated") || same(
        kind,
        "plugin.kill_switch.enabled",
    ) || same(kind, "plugin.lifecycle.crashed")
}

} // verus!
