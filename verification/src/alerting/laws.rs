//! What alerting is for: how the results of its operations relate to what they are given, said of
//! the operations themselves and in no terms of how they come to their results.

use vstd::prelude::*;
use vstd::utf8::encode_utf8;

use super::config::{endpoint_severity_override_for, override_for};
use super::dispatch::{
    accepts, delivers, delivery_for, delivery_of, envelope_text, escalation_deliveries,
    escalation_payload, escalation_targets, plain_delivery_of, plan_deliveries, request_headers,
    targets, text_items, Delivery, DeliveryView, DispatchState,
};
use super::ids::uuid_shape;
use super::retry::retry_delivery;
use super::routes::{match_route, Comparison};
use super::severity::{
    endpoints_on, load_enabled_endpoints, preview_endpoint_severity, severity_resolved,
    EndpointPreviewRow,
};
use super::storage::Storage;
use super::store::{
    by_rank, first_index, keeping_is_filtering, kept, keys_distinct, lemma_first_index,
    lemma_kept_sorted, lemma_position_of, listing_is_sorted_and_complete, position_of, row_with,
    rows_view, with_row, without_row, Row,
};
use super::template::rendered;
use super::types::{
    overrides_view, AlertEnvelopeView, AlertingEndpointRow, AlertingEndpointRowView,
    FailedDeliveryRow, RouteRuleRow, RouteRuleRowView, Severity, WebhookConfig, WebhookEndpoint,
};
use super::util::{kind_fits, kind_matches};
use crate::crypt::{hex_digit, hmac_sha256_of};
use crate::json::{json_read, json_text_of, texts_view, Json, JsonView};
use crate::text::{decimal_seq, ends_with_seq, occurs_at, trim_start_seq};

verus! {

/// Whether a pattern covers a kind of event: it is `*`, empty or the kind itself, or it is a prefix
/// and `.*`, and the kind goes on behind the prefix with a dot and something more.
pub open spec fn covers_kind(pattern: Seq<char>, kind: Seq<char>) -> bool {
    ||| pattern == seq!['*']
    ||| pattern.len() == 0
    ||| pattern == kind
    ||| exists|prefix: Seq<char>, rest: Seq<char>|
        pattern == prefix + seq!['.', '*'] && rest.len() > 0 && kind == #[trigger] (prefix + seq!['.']
            + rest)
}

pub proof fn lemma_kind_fits(pattern: Seq<char>, kind: Seq<char>)
    ensures
        kind_fits(pattern, kind) == covers_kind(pattern, kind),
{
    reveal_strlit("*");
    reveal_strlit(".*");
    assert("*"@ =~= seq!['*']);
    assert(".*"@ =~= seq!['.', '*']);
    if ends_with_seq(pattern, ".*"@) {
        let prefix = pattern.take(pattern.len() - 2);
        assert(pattern.subrange(pattern.len() - 2, pattern.len() as int) =~= seq!['.', '*']);
        assert(pattern =~= prefix + seq!['.', '*']);
        assert(pattern.drop_last() =~= prefix + seq!['.']);
        if kind_fits(pattern, kind) && pattern != "*"@ {
            let rest = kind.skip(pattern.len() - 1);
            assert(kind.subrange(0, pattern.len() - 1) =~= prefix + seq!['.']);
            assert(kind =~= prefix + seq!['.'] + rest);
        }
        if pattern == kind {
            assert(kind.subrange(0, pattern.len() - 1) =~= pattern.drop_last());
        }
        assert forall|p: Seq<char>, rest: Seq<char>|
            pattern == p + seq!['.', '*'] && rest.len() > 0 && kind == #[trigger] (p + seq!['.'] + rest) implies kind_fits(
            pattern,
            kind,
        ) by {
            assert(p =~= prefix);
            assert(kind.subrange(0, pattern.len() - 1) =~= pattern.drop_last());
        }
    } else {
        assert forall|p: Seq<char>, rest: Seq<char>|
            pattern == p + seq!['.', '*'] && rest.len() > 0 && kind == #[trigger] (p + seq!['.'] + rest) implies false by {
            assert(pattern.subrange(pattern.len() - 2, pattern.len() as int) =~= ".*"@);
            assert(occurs_at(pattern, ".*"@, pattern.len() - 2));
        }
    }
}

/// A kind matches exactly the patterns that cover it.
pub proof fn patterns_match_what_they_cover(pattern: &str, kind: &str, r: bool)
    requires
        call_ensures(kind_matches, (pattern, kind), r),
    ensures
        r == covers_kind(pattern@, kind@),
{
    lemma_kind_fits(pattern@, kind@);
}

/// Whether `s` is the severity that overrides leave an event of `source`, which came with
/// `severity`: that of the first override whose pattern covers the source, or else its own.
pub open spec fn severity_due(
    overrides: Seq<(Seq<char>, Severity)>,
    source: Seq<char>,
    severity: Severity,
    s: Severity,
) -> bool {
    ||| exists|i: int|
        0 <= i < overrides.len() && covers_kind((#[trigger] overrides[i]).0, source) && overrides[i].1
            == s && (forall|j: int| 0 <= j < i ==> !covers_kind((#[trigger] overrides[j]).0, source))
    ||| s == severity && forall|j: int|
        0 <= j < overrides.len() ==> !covers_kind((#[trigger] overrides[j]).0, source)
}

pub proof fn lemma_due(overrides: Seq<(Seq<char>, Severity)>, source: Seq<char>, severity: Severity, s: Severity)
    requires
        severity_due(overrides, source, severity, s),
    ensures
        s == (match override_for(source, overrides) {
            Some(o) => o,
            None => severity,
        }),
{
    let fits = |o: (Seq<char>, Severity)| kind_fits(o.0, source);
    lemma_first_index(overrides, fits);
    assert forall|i: int| 0 <= i < overrides.len() implies fits(#[trigger] overrides[i]) == covers_kind(
        overrides[i].0,
        source,
    ) by {
        lemma_kind_fits(overrides[i].0, source);
    }
    if let Some(k) = first_index(overrides, fits) {
        assert(fits(overrides[k]));
        assert(covers_kind(overrides[k].0, source));
        let i = choose|i: int|
            0 <= i < overrides.len() && covers_kind((#[trigger] overrides[i]).0, source)
                && overrides[i].1 == s && (forall|j: int|
                0 <= j < i ==> !covers_kind((#[trigger] overrides[j]).0, source));
        assert(fits(overrides[i]));
        assert(i == k);
    } else {
        assert forall|j: int| 0 <= j < overrides.len() implies !covers_kind(
            (#[trigger] overrides[j]).0,
            source,
        ) by {
            assert(!fits(overrides[j]));
        }
    }
}

/// The word for a severity.
pub open spec fn word_for(s: Severity) -> Seq<char> {
    match s {
        Severity::Info => "info"@,
        Severity::Warn => "warn"@,
        Severity::Error => "error"@,
        Severity::Critical => "critical"@,
    }
}

/// Whether `body` is the envelope of an alert, in the order in which its fields are promised.
pub open spec fn is_envelope_body(
    body: Seq<char>,
    event_id: Seq<char>,
    source: Seq<char>,
    severity: Severity,
    payload: JsonView,
    now: u64,
) -> bool {
    body == "{\"schemaVersion\":1,\"eventId\":"@ + json_text_of(JsonView::Text(event_id))
        + ",\"source\":"@ + json_text_of(JsonView::Text(source)) + ",\"severity\":"@ + json_text_of(
        JsonView::Text(word_for(severity)),
    ) + ",\"tags\":"@ + json_text_of(JsonView::Array(Seq::empty())) + ",\"timestamp\":"@ + decimal_seq(
        now as nat,
    ) + ",\"payload\":"@ + json_text_of(payload) + "}"@
}

/// Whether `body` is that of a request in the plain form: source, time and data.
pub open spec fn is_plain_body(body: Seq<char>, source: Seq<char>, payload: JsonView, now: u64) -> bool {
    body == json_text_of(
        JsonView::Object(
            seq![
                ("source"@, JsonView::Text(source)),
                ("timestamp"@, JsonView::Number(decimal_seq(now as nat))),
                ("data"@, payload),
            ],
        ),
    )
}

/// The envelope of an alert.
pub open spec fn alert(
    event_id: Seq<char>,
    source: Seq<char>,
    severity: Severity,
    payload: JsonView,
    now: u64,
) -> AlertEnvelopeView {
    AlertEnvelopeView {
        schema_version: 1,
        event_id,
        source,
        severity,
        tags: Seq::empty(),
        timestamp: now,
        payload,
    }
}

pub proof fn lemma_envelope(event_id: Seq<char>, source: Seq<char>, severity: Severity, payload: JsonView, now: u64)
    ensures
        is_envelope_body(
            envelope_text(alert(event_id, source, severity, payload, now)),
            event_id,
            source,
            severity,
            payload,
            now,
        ),
{
    reveal_strlit("{\"schemaVersion\":");
    reveal_strlit("{\"schemaVersion\":1,\"eventId\":");
    reveal_strlit(",\"eventId\":");
    reveal_strlit("1");
    assert(decimal_seq(1) =~= seq!['1']) by {
        reveal_with_fuel(decimal_seq, 2);
    }
    assert("{\"schemaVersion\":1,\"eventId\":"@ =~= "{\"schemaVersion\":"@ + seq!['1']
        + ",\"eventId\":"@);
    assert(text_items(Seq::empty()) =~= Seq::<JsonView>::empty());
}

/// Whether headers are those that an endpoint asks for, and behind them, where it has a secret, the
/// signature of the body: `sha256=` and the HMAC-SHA256 of the body under the secret, in
/// hexadecimal digits, two for each byte.
pub open spec fn signed_for(
    ep: AlertingEndpointRowView,
    headers: Seq<(Seq<char>, Seq<char>)>,
    body: Seq<char>,
) -> bool {
    if ep.secret.len() == 0 {
        headers == ep.headers
    } else {
        let mac = hmac_sha256_of(encode_utf8(ep.secret), encode_utf8(body));
        &&& headers.len() == ep.headers.len() + 1
        &&& headers.drop_last() == ep.headers
        &&& headers.last().0 == "X-OpenCapX-Signature"@
        &&& headers.last().1.len() == 7 + 2 * mac.len()
        &&& headers.last().1.take(7) == "sha256="@
        &&& forall|i: int|
            0 <= i < mac.len() ==> is_hex_of(
                headers.last().1[7 + 2 * i],
                headers.last().1[8 + 2 * i],
                #[trigger] mac[i],
            )
    }
}

/// Whether two characters are the lower-case hexadecimal digits of a byte.
pub open spec fn is_hex_of(high: char, low: char, byte: u8) -> bool {
    let digits = seq!['0', '1', '2', '3', '4', '5', '6', '7', '8', '9', 'a', 'b', 'c', 'd', 'e', 'f'];
    high == digits[byte as int / 16] && low == digits[byte as int % 16]
}

pub proof fn lemma_signed(ep: AlertingEndpointRowView, body: Seq<char>)
    ensures
        signed_for(ep, request_headers(ep, body), body),
{
    reveal_strlit("sha256=");
    let headers = request_headers(ep, body);
    if ep.secret.len() > 0 {
        let mac = hmac_sha256_of(encode_utf8(ep.secret), encode_utf8(body));
        let value = headers.last().1;
        assert(headers.drop_last() =~= ep.headers);
        assert(value.take(7) =~= "sha256="@);
        assert forall|i: int| 0 <= i < mac.len() implies is_hex_of(
            value[7 + 2 * i],
            value[8 + 2 * i],
            #[trigger] mac[i],
        ) by {
            let b = mac[i] as int;
            assert((2 * i) / 2 == i && (2 * i) % 2 == 0 && (2 * i + 1) / 2 == i && (2 * i + 1) % 2 == 1);
            assert(value[7 + 2 * i] == hex_digit(b / 16));
            assert(value[8 + 2 * i] == hex_digit(b % 16));
        }
    }
}

/// Whether `d` is the request that takes an event of this severity to an endpoint: to its url, with its
/// headers and the signature of the body. The body is the event rendered by the template of the
/// endpoint, or in its envelope, or, for an endpoint of the first schema, in the plain form. What
/// cannot be rendered goes out in its envelope.
pub open spec fn is_request_to(
    ep: AlertingEndpointRowView,
    source: Seq<char>,
    payload: JsonView,
    severity: Severity,
    event_id: Seq<char>,
    now: u64,
    d: DeliveryView,
) -> bool {
    &&& d.endpoint_id == Some(ep.id)
    &&& d.url == ep.url
    &&& d.queued == d.body
    &&& signed_for(ep, d.headers, d.body)
    &&& ep.template is None && ep.schema_version >= 1 ==> is_envelope_body(
        d.body,
        event_id,
        source,
        severity,
        payload,
        now,
    ) && d.content_type == "application/json"@
    &&& ep.template is None && ep.schema_version == 0 ==> is_plain_body(d.body, source, payload, now)
        && d.content_type == "application/json"@
    &&& ep.template is Some ==> is_rendering(
        ep.template->0,
        alert(event_id, source, severity, payload, now),
        d,
    )
}

/// Whether the body of `d` is an alert rendered by a template, and sent as what it looks like; an
/// alert that cannot be rendered goes out in its envelope.
pub open spec fn is_rendering(template: Seq<char>, env: AlertEnvelopeView, d: DeliveryView) -> bool {
    match rendered(template, env) {
        Ok(text) => {
            let seen = trim_start_seq(text);
            &&& d.body == text
            &&& d.content_type == if seen.len() > 0 && (seen[0] == '{' || seen[0] == '[') {
                "application/json"@
            } else {
                "text/plain; charset=utf-8"@
            }
        },
        Err(_) => is_envelope_body(
            d.body,
            env.event_id,
            env.source,
            env.severity,
            env.payload,
            env.timestamp,
        ) && d.content_type == "application/json"@,
    }
}

/// The overrides of a stored endpoint.
pub open spec fn overrides_at(ep: AlertingEndpointRowView) -> Seq<(Seq<char>, Severity)> {
    match ep.severity_overrides {
        Some(o) => o,
        None => Seq::empty(),
    }
}

proof fn lemma_delivery(
    ep: AlertingEndpointRowView,
    source: Seq<char>,
    payload: JsonView,
    severity: Severity,
    event_id: Seq<char>,
    now: u64,
    s: Severity,
)
    requires
        severity_due(overrides_at(ep), source, severity, s),
    ensures
        is_request_to(
            ep,
            source,
            payload,
            s,
            event_id,
            now,
            delivery_of(ep, source, payload, severity, event_id, now),
        ),
{
    if let Some(o) = ep.severity_overrides {
        lemma_due(o, source, severity, s);
    }
    lemma_signed(ep, delivery_of(ep, source, payload, severity, event_id, now).body);
    lemma_envelope(event_id, source, s, payload, now);
}

/// The request for an event to an endpoint carries the severity that the overrides of the endpoint
/// leave the event.
pub proof fn deliveries_carry_the_severity_of_the_endpoint(
    ep: &AlertingEndpointRow,
    source: &str,
    payload: &Json,
    severity: Severity,
    event_id: String,
    now: u64,
    s: Severity,
    r: Delivery,
)
    requires
        call_ensures(delivery_for, (ep, source, payload, severity, event_id, now), r),
        severity_due(overrides_at(ep@), source@, severity, s),
    ensures
        is_request_to(ep@, source@, payload@, s, event_id@, now, r@),
{
    lemma_delivery(ep@, source@, payload@, severity, event_id@, now, s);
}

/// The preview for an endpoint ends with the severity that the endpoint would be sent: where a
/// delivery is made with the severity of the source, the two are the same.
pub proof fn previews_end_with_what_is_sent(
    store: &Storage,
    source: &str,
    ep: &WebhookEndpoint,
    resolved: Severity,
    s: Severity,
    r: EndpointPreviewRow,
)
    requires
        call_ensures(preview_endpoint_severity, (store, source, ep), r),
        call_ensures(severity_resolved, (store, source), resolved),
        severity_due(ep@.severity_overrides, source@, resolved, s),
    ensures
        r@.endpoint_id == ep@.id,
        r@.propagation_severity == resolved,
        r@.final_envelope_severity == s,
{
    lemma_due(ep@.severity_overrides, source@, resolved, s);
}

/// Of the overrides of an endpoint, the first whose pattern covers the source counts.
pub proof fn first_covering_override_counts(
    source: &str,
    overrides: &[(String, Severity)],
    r: Option<Severity>,
)
    requires
        call_ensures(endpoint_severity_override_for, (source, overrides), r),
    ensures
        r is None ==> forall|i: int|
            0 <= i < overrides@.len() ==> !covers_kind((#[trigger] overrides@[i]).0@, source@),
        r is Some ==> exists|i: int|
            0 <= i < overrides@.len() && #[trigger] overrides@[i].1 == r->0 && covers_kind(
                overrides@[i].0@,
                source@,
            ) && (forall|j: int| 0 <= j < i ==> !covers_kind((#[trigger] overrides@[j]).0@, source@)),
{
    let all = overrides_view(overrides@);
    assert forall|i: int| 0 <= i < overrides@.len() implies (#[trigger] overrides@[i]).0@ == all[i].0
        && overrides@[i].1 == all[i].1 && kind_fits(all[i].0, source@) == covers_kind(
        all[i].0,
        source@,
    ) by {
        lemma_kind_fits(all[i].0, source@);
    }
    let fits = |o: (Seq<char>, Severity)| kind_fits(o.0, source@);
    lemma_first_index(all, fits);
    if r is Some {
        let i = first_index(all, fits)->0;
        assert(overrides@[i].1 == r->0);
        assert(covers_kind(overrides@[i].0@, source@));
        assert forall|j: int| 0 <= j < i implies !covers_kind((#[trigger] overrides@[j]).0@, source@) by {
            assert(!fits(all[j]));
        }
    } else {
        assert forall|j: int| 0 <= j < overrides@.len() implies !covers_kind(
            (#[trigger] overrides@[j]).0@,
            source@,
        ) by {
            assert(!fits(all[j]));
        }
    }
}

/// When an endpoint was made.
pub open spec fn made_at() -> spec_fn(AlertingEndpointRowView) -> int {
    |ep: AlertingEndpointRowView| ep.created_at as int
}

/// Whether `listed` holds exactly the stored rows that are wanted, each as often as it is stored, those
/// with a lower number first.
pub open spec fn lists<V>(
    listed: Seq<V>,
    stored: Seq<V>,
    wanted: spec_fn(V) -> bool,
    number: spec_fn(V) -> int,
) -> bool {
    &&& listed.to_multiset() == stored.to_multiset().filter(wanted)
    &&& forall|i: int, j: int|
        0 <= i <= j < listed.len() ==> number(#[trigger] listed[i]) <= number(#[trigger] listed[j])
}

pub proof fn lemma_lists<R: Row>(rows: Seq<R::V>, wanted: spec_fn(R::V) -> bool, number: spec_fn(R::V) -> int)
    requires
        forall|v: R::V| #[trigger] number(v) == R::rank(v),
    ensures
        lists(kept(by_rank::<R>(rows), wanted), rows, wanted, number),
{
    listing_is_sorted_and_complete::<R>(rows);
    keeping_is_filtering(by_rank::<R>(rows), wanted);
    lemma_kept_sorted::<R>(by_rank::<R>(rows), wanted);
}

pub proof fn lemma_kept_twice<V>(s: Seq<V>, f: spec_fn(V) -> bool, g: spec_fn(V) -> bool, both: spec_fn(V) -> bool)
    requires
        forall|v: V| #[trigger] both(v) == (f(v) && g(v)),
    ensures
        kept(kept(s, f), g) == kept(s, both),
    decreases s.len(),
{
    if s.len() > 0 {
        lemma_kept_twice(s.drop_last(), f, g, both);
        assert(both(s.last()) == (f(s.last()) && g(s.last())));
        if f(s.last()) {
            let front = kept(s.drop_last(), f);
            assert(front.push(s.last()).drop_last() =~= front);
        }
    }
}

/// The endpoints that are on are all stored ones that are switched on, the oldest first.
pub proof fn endpoints_that_are_on(store: &Storage, r: Vec<AlertingEndpointRow>)
    requires
        call_ensures(load_enabled_endpoints, (store,), r),
    ensures
        lists(
            rows_view(r@),
            store.endpoints@,
            |ep: AlertingEndpointRowView| ep.enabled,
            made_at(),
        ),
{
    lemma_lists::<AlertingEndpointRow>(
        store.endpoints@,
        |ep: AlertingEndpointRowView| ep.enabled,
        made_at(),
    );
}

/// Whether an escalated alert is for an endpoint: it is on, and it is named or none is.
pub open spec fn escalates_to(ids: Seq<Seq<char>>) -> spec_fn(AlertingEndpointRowView) -> bool {
    |ep: AlertingEndpointRowView| ep.enabled && (ids.len() == 0 || ids.contains(ep.id))
}

/// An escalated alert goes, once each, to the endpoints that are on and named, or to all that are on
/// where none is named; with the severity that was asked for, in the envelope or by the template of
/// the endpoint, signed.
pub proof fn escalations_reach_their_endpoints(
    store: &Storage,
    source: &str,
    endpoint_ids: &Vec<String>,
    severity: Severity,
    event_id: String,
    now: u64,
    r: Vec<Delivery>,
)
    requires
        call_ensures(
            escalation_deliveries,
            (store, source, endpoint_ids, severity, event_id, now),
            r,
        ),
    ensures
        exists|to: Seq<AlertingEndpointRowView>|
            {
                let data = JsonView::Object(
                    seq![
                        ("escalation"@, JsonView::Bool(true)),
                        ("source"@, JsonView::Text(source@)),
                        ("escalated_at"@, JsonView::Number(decimal_seq(now as nat))),
                    ],
                );
                &&& #[trigger] lists(
                    to,
                    store.endpoints@,
                    escalates_to(texts_view(endpoint_ids@)),
                    made_at(),
                )
                &&& r@.len() == to.len()
                &&& forall|i: int|
                    0 <= i < to.len() ==> {
                        let d = (#[trigger] r@[i])@;
                        &&& d.endpoint_id == Some(to[i].id)
                        &&& d.url == to[i].url
                        &&& d.queued == d.body
                        &&& signed_for(to[i], d.headers, d.body)
                        &&& to[i].template is None ==> is_envelope_body(
                            d.body,
                            event_id@,
                            source@,
                            severity,
                            data,
                            now,
                        )
                        &&& to[i].template is Some ==> is_rendering(
                            to[i].template->0,
                            alert(event_id@, source@, severity, data, now),
                            d,
                        )
                    }
            },
{
    let ids = texts_view(endpoint_ids@);
    let to = escalation_targets(*store, ids);
    let on = |ep: AlertingEndpointRowView| ep.enabled;
    let named = |ep: AlertingEndpointRowView| ids.contains(ep.id);
    let number = made_at();
    let data = escalation_payload(source@, now);
    lemma_lists::<AlertingEndpointRow>(store.endpoints@, escalates_to(ids), number);
    if ids.len() == 0 {
        assert(kept(by_rank::<AlertingEndpointRow>(store.endpoints@), escalates_to(ids)) == kept(
            by_rank::<AlertingEndpointRow>(store.endpoints@),
            on,
        )) by {
            lemma_same_test(by_rank::<AlertingEndpointRow>(store.endpoints@), escalates_to(ids), on);
        }
    } else {
        lemma_kept_twice(by_rank::<AlertingEndpointRow>(store.endpoints@), on, named, escalates_to(ids));
    }
    assert(lists(to, store.endpoints@, escalates_to(ids), number));
    assert forall|i: int| 0 <= i < to.len() implies {
        let d = (#[trigger] r@[i])@;
        &&& d.endpoint_id == Some(to[i].id)
        &&& d.url == to[i].url
        &&& d.queued == d.body
        &&& signed_for(to[i], d.headers, d.body)
        &&& to[i].template is None ==> is_envelope_body(d.body, event_id@, source@, severity, data, now)
        &&& to[i].template is Some ==> is_rendering(
            to[i].template->0,
            alert(event_id@, source@, severity, data, now),
            d,
        )
    } by {
        lemma_envelope(event_id@, source@, severity, data, now);
        lemma_signed(to[i], r@[i]@.body);
    }
}

pub proof fn lemma_same_test<V>(s: Seq<V>, f: spec_fn(V) -> bool, g: spec_fn(V) -> bool)
    requires
        forall|v: V| #[trigger] f(v) == g(v),
    ensures
        kept(s, f) == kept(s, g),
    decreases s.len(),
{
    if s.len() > 0 {
        lemma_same_test(s.drop_last(), f, g);
        assert(f(s.last()) == g(s.last()));
    }
}

/// What an optional route holds.
pub open spec fn route_view(route: Option<RouteRuleRow>) -> Option<RouteRuleRowView> {
    match route {
        Some(row) => Some(row@),
        None => None,
    }
}

/// Whether an event is for an endpoint: it is on, and the route that takes the event names it; or,
/// where no route does, its filter is empty or names the source.
pub open spec fn event_is_for(
    route: Option<RouteRuleRowView>,
    source: Seq<char>,
) -> spec_fn(AlertingEndpointRowView) -> bool {
    |ep: AlertingEndpointRowView|
        ep.enabled && match route {
            Some(taken) => taken.target_endpoint_ids.contains(ep.id),
            None => ep.source_filter.len() == 0 || ep.source_filter.contains(source),
        }
}

/// Whether `d` takes an event, under some id, to an endpoint, with the severity that the overrides of
/// the endpoint leave it.
pub open spec fn takes_event_to(
    ep: AlertingEndpointRowView,
    source: Seq<char>,
    payload: JsonView,
    severity: Severity,
    now: u64,
    d: DeliveryView,
) -> bool {
    forall|s: Severity| #[trigger]
        severity_due(overrides_at(ep), source, severity, s) ==> exists|event_id: Seq<char>| #[trigger]
            is_request_to(ep, source, payload, s, event_id, now, d)
}

/// An event that was let through goes, once each, to the endpoints that it is for, with the severity
/// that each leaves it; where no endpoint is on, it goes to the one url of the configuration.
pub proof fn events_reach_their_endpoints(
    store: &Storage,
    cfg: &WebhookConfig,
    state: &mut DispatchState,
    source: &str,
    payload: &Json,
    severity: Severity,
    numbers: &Vec<Option<Comparison>>,
    now: u64,
    route: Option<RouteRuleRow>,
    r: Vec<Delivery>,
)
    requires
        call_ensures(
            plan_deliveries,
            (store, cfg, state, source, payload, severity, numbers, now),
            r,
        ),
        call_ensures(match_route, (store, source, payload, numbers, &old(state).recent, now), route),
    ensures
        endpoints_on_exist(*store) ==> exists|
            to: Seq<AlertingEndpointRowView>,
        |
            {
                &&& #[trigger] lists(
                    to,
                    store.endpoints@,
                    event_is_for(route_view(route), source@),
                    made_at(),
                )
                &&& r@.len() == to.len()
                &&& forall|i: int|
                    0 <= i < to.len() ==> takes_event_to(
                        to[i],
                        source@,
                        payload@,
                        severity,
                        now,
                        (#[trigger] r@[i])@,
                    )
            },
        !endpoints_on_exist(*store) ==> {
            &&& r@.len() == 1
            &&& r@[0]@.endpoint_id is None
            &&& r@[0]@.url == cfg@.url
            &&& r@[0]@.headers == cfg@.custom_headers
            &&& r@[0]@.content_type == "application/json"@
            &&& cfg@.schema_version == 0 ==> is_plain_body(r@[0]@.body, source@, payload@, now)
            &&& cfg@.schema_version >= 1 ==> exists|event_id: Seq<char>| #[trigger]
                is_envelope_body(r@[0]@.body, event_id, source@, severity, payload@, now)
        },
{
    let on = |ep: AlertingEndpointRowView| ep.enabled;
    let number = made_at();
    lemma_lists::<AlertingEndpointRow>(store.endpoints@, on, number);
    lemma_on(*store);
    if endpoints_on(*store).len() > 0 {
        let taken = route_view(route);
        let to = targets(endpoints_on(*store), taken, source@);
        let wanted = event_is_for(taken, source@);
        lemma_lists::<AlertingEndpointRow>(store.endpoints@, wanted, number);
        match taken {
            Some(row) => {
                let named = |ep: AlertingEndpointRowView| row.target_endpoint_ids.contains(ep.id);
                lemma_kept_twice(by_rank::<AlertingEndpointRow>(store.endpoints@), on, named, wanted);
            },
            None => {
                let takes = |ep: AlertingEndpointRowView| accepts(ep, source@);
                lemma_kept_twice(by_rank::<AlertingEndpointRow>(store.endpoints@), on, takes, wanted);
            },
        }
        assert(lists(to, store.endpoints@, wanted, number));
        assert forall|i: int| 0 <= i < to.len() implies takes_event_to(
            to[i],
            source@,
            payload@,
            severity,
            now,
            (#[trigger] r@[i])@,
        ) by {
            assert(delivers(r@[i]@, to[i], source@, payload@, severity, now));
            let fresh = choose|fresh: Seq<char>| #[trigger]
                uuid_shape(fresh) && r@[i]@ == delivery_of(
                    to[i],
                    source@,
                    payload@,
                    severity,
                    fresh,
                    now,
                );
            assert forall|s: Severity| #[trigger]
                severity_due(overrides_at(to[i]), source@, severity, s) implies is_request_to(
                to[i],
                source@,
                payload@,
                s,
                fresh,
                now,
                r@[i]@,
            ) by {
                lemma_delivery(to[i], source@, payload@, severity, fresh, now, s);
            }
        }
    } else {
        let fresh = choose|fresh: Seq<char>| #[trigger]
            uuid_shape(fresh) && r@[0]@ == plain_delivery_of(
                cfg@,
                source@,
                payload@,
                severity,
                fresh,
                now,
            );
        lemma_envelope(fresh, source@, severity, payload@, now);
        if cfg@.schema_version >= 1 {
            assert(is_envelope_body(r@[0]@.body, fresh, source@, severity, payload@, now));
        }
    }
}

/// Whether any stored endpoint is on.
pub open spec fn endpoints_on_exist(store: Storage) -> bool {
    exists|i: int| 0 <= i < store.endpoints@.len() && (#[trigger] store.endpoints@[i]).enabled
}

pub proof fn lemma_on(store: Storage)
    ensures
        (endpoints_on(store).len() > 0) == endpoints_on_exist(store),
{
    broadcast use vstd::seq_lib::group_to_multiset_ensures;
    broadcast use vstd::multiset::group_multiset_axioms;

    let on = |ep: AlertingEndpointRowView| ep.enabled;
    let rows = store.endpoints@;
    let listed = endpoints_on(store);
    lemma_lists::<AlertingEndpointRow>(rows, on, made_at());
    if listed.len() > 0 {
        assert(listed.contains(listed[0]));
        assert(listed.to_multiset().count(listed[0]) > 0);
        assert(rows.to_multiset().count(listed[0]) > 0);
        assert(rows.contains(listed[0]));
    }
    if exists|i: int| 0 <= i < rows.len() && (#[trigger] rows[i]).enabled {
        let i = choose|i: int| 0 <= i < rows.len() && (#[trigger] rows[i]).enabled;
        assert(rows.contains(rows[i]));
        assert(rows.to_multiset().count(rows[i]) > 0);
        assert(on(rows[i]));
        assert(listed.to_multiset().count(rows[i]) > 0);
        assert(listed.contains(rows[i]));
    }
}

/// A kept delivery is tried again as it was kept where its endpoint is gone or it had none. Else it
/// goes to the url that it was for, with the headers of the endpoint and the signature of what is
/// sent now; what was kept is rendered anew by the template of the endpoint, or sent in the plain
/// form.
pub proof fn retries_are_signed_for_what_they_send(
    store: &Storage,
    row: &FailedDeliveryRow,
    event_id: String,
    now: u64,
    r: Delivery,
)
    requires
        call_ensures(retry_delivery, (store, row, event_id, now), r),
    ensures
        r@.endpoint_id == row@.endpoint_id,
        r@.url == row@.url,
        r@.queued == row@.payload,
        (row@.endpoint_id is None || forall|i: int|
            0 <= i < store.endpoints@.len() ==> Some((#[trigger] store.endpoints@[i]).id)
                != row@.endpoint_id) ==> {
            &&& r@.body == row@.payload
            &&& r@.headers.len() == 0
            &&& r@.content_type == "application/json"@
        },
        forall|i: int|
            0 <= i < store.endpoints@.len() && Some((#[trigger] store.endpoints@[i]).id)
                == row@.endpoint_id && (forall|j: int|
                0 <= j < i ==> (#[trigger] store.endpoints@[j]).id != store.endpoints@[i].id) ==> {
                let ep = store.endpoints@[i];
                let kept_data = match json_read(row@.payload) {
                    Ok(data) => data,
                    Err(_) => JsonView::Null,
                };
                &&& signed_for(ep, r@.headers, r@.body)
                &&& ep.template is None ==> is_plain_body(r@.body, row@.source, kept_data, now)
            },
{
    if let Some(id) = row@.endpoint_id {
        lemma_position_of::<AlertingEndpointRow>(store.endpoints@, id);
        if let Some(ep) = row_with::<AlertingEndpointRow>(store.endpoints@, id) {
            lemma_signed(ep, r@.body);
        }
    }
}

/// Whether a table holds `v` now in place of the row with its key, and all else as before.
pub open spec fn holds_now<V>(before: Seq<V>, after: Seq<V>, v: V, key: spec_fn(V) -> Seq<char>) -> bool {
    forall|w: V| #[trigger]
        after.contains(w) == (w == v || before.contains(w) && key(w) != key(v))
}

/// Whether a table lacks the row with this key now, and holds all else as before.
pub open spec fn lacks_now<V>(
    before: Seq<V>,
    after: Seq<V>,
    id: Seq<char>,
    key: spec_fn(V) -> Seq<char>,
) -> bool {
    forall|w: V| #[trigger] after.contains(w) == (before.contains(w) && key(w) != id)
}

pub proof fn lemma_holds_now<R: Row>(rows: Seq<R::V>, v: R::V, key: spec_fn(R::V) -> Seq<char>)
    requires
        keys_distinct::<R>(rows),
        forall|w: R::V| #[trigger] key(w) == R::key(w),
    ensures
        holds_now(rows, with_row::<R>(rows, v), v, key),
{
    let t = with_row::<R>(rows, v);
    lemma_position_of::<R>(rows, R::key(v));
    let at = match position_of::<R>(rows, R::key(v)) {
        Some(i) => i,
        None => rows.len() as int,
    };
    assert(t[at] == v);
    assert forall|w: R::V| #[trigger] t.contains(w) == (w == v || rows.contains(w) && key(w) != key(v)) by {
        assert(key(w) == R::key(w) && key(v) == R::key(v));
        if t.contains(w) {
            let i = choose|i: int| 0 <= i < t.len() && t[i] == w;
            if i != at {
                assert(rows[i] == w);
                if at < rows.len() {
                    if i < at {
                        assert(R::key(rows[i]) != R::key(rows[at]));
                    } else {
                        assert(R::key(rows[at]) != R::key(rows[i]));
                    }
                }
            }
        }
        if rows.contains(w) && key(w) != key(v) {
            let i = choose|i: int| 0 <= i < rows.len() && rows[i] == w;
            assert(i != at);
            assert(t[i] == w);
        }
    }
}

pub proof fn lemma_lacks_now<R: Row>(rows: Seq<R::V>, id: Seq<char>, key: spec_fn(R::V) -> Seq<char>)
    requires
        keys_distinct::<R>(rows),
        forall|w: R::V| #[trigger] key(w) == R::key(w),
    ensures
        lacks_now(rows, without_row::<R>(rows, id), id, key),
{
    let t = without_row::<R>(rows, id);
    lemma_position_of::<R>(rows, id);
    assert forall|w: R::V| #[trigger] t.contains(w) == (rows.contains(w) && key(w) != id) by {
        assert(key(w) == R::key(w));
        match position_of::<R>(rows, id) {
            Some(at) => {
                if t.contains(w) {
                    let i = choose|i: int| 0 <= i < t.len() && t[i] == w;
                    let p = if i < at {
                        i
                    } else {
                        i + 1
                    };
                    assert(rows[p] == w);
                    if p < at {
                        assert(R::key(rows[p]) != R::key(rows[at]));
                    } else {
                        assert(R::key(rows[at]) != R::key(rows[p]));
                    }
                }
                if rows.contains(w) && key(w) != id {
                    let p = choose|p: int| 0 <= p < rows.len() && rows[p] == w;
                    assert(t[if p < at {
                        p
                    } else {
                        p - 1
                    }] == w);
                }
            },
            None => {
                if rows.contains(w) {
                    let p = choose|p: int| 0 <= p < rows.len() && rows[p] == w;
                    assert(R::key(rows[p]) != id);
                }
            },
        }
    }
}

} // verus!
