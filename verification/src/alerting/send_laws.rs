//! What is sent where: endpoints and recipients, rounds of escalation, trials, and templates that users
//! keep, said of the operations and in no terms of how they come to their results.

use vstd::prelude::*;
use vstd::utf8::encode_utf8;

use super::dispatch::{
    compute_signature, elapsed_secs, endpoint_accepts_source, escalation_round, escalation_round_of,
    is_bridged, make_envelope, plain_delivery, select_targets, source_enabled, test_send_request,
    Delivery, Escalation, EscalationView,
};
use super::escalations::{
    candidates_view, find_escalation_candidates, record_dispatch, Candidate, EscalationState,
};
use super::ids::uuid_shape;
use super::laws::{alert, is_envelope_body, is_hex_of, is_plain_body, lemma_same_test};
use super::presets::{
    all_taken_over, builtins, fork_preset_as, get_template_preset, list_template_presets,
    migrate_v0_to_v1, store_user_preset, take_over_presets, taken_over, PresetYamlDoc,
};
use super::recipients::{recipient_sink, test_recipient_request};
use super::retry::{list_failed_deliveries, retry_delivery, retry_tally};
use super::routes::{
    dry_run_route, import_routes_yaml, imported, match_route, route_id, route_row, routes_complaint,
    validate_route, Comparison,
};
use super::rule_laws::{lemma_on_members, lemma_stamp, stamped_at};
use super::severity::severity_resolved;
use super::stamps::{Stamp, StampView};
use super::storage::{EscalationRuleView, RecipientDef, Storage, TemplatePreset, TemplatePresetView};
use super::store::{
    by_rank, first_index, keeping_is_filtering, kept, keys_distinct, lemma_first_index,
    lemma_position_of, position_of, put_then_get, row_with, rows_view, with_row,
};
use super::template::{render_template, TemplateContentType};
use super::timeline::RecentEvents;
use super::types::{
    severity_named, AlertEnvelope, AlertingEndpointRow, AlertingEndpointRowView, FailedDeliveryRow,
    FailedDeliveryRowView, RouteRule, RouteRuleRow, RouteRuleRowView, RouteRuleView, RouteRuleYamlDoc, Severity,
    WebhookConfig, WebhookSources,
};
use crate::crypt::{hex_digit, hmac_sha256_of};
use crate::json::{json_read, texts_view, Json, JsonView};
use crate::laws::{holds_at, members_are_read_by_name};
use crate::text::{decimal_seq, is_blank_seq, trim_seq};

verus! {

/// Each of the four sources is switched by its own switch; no other source is wanted. The same four are
/// carried over from the event bus.
pub proof fn each_source_has_its_switch(source: &str, sources: &WebhookSources, r: bool, bridged: bool)
    requires
        call_ensures(source_enabled, (source, sources), r),
        call_ensures(is_bridged, (source,), bridged),
    ensures
        source@ == "plugin.metrics.exceeded"@ ==> r == sources.metrics_exceeded && bridged,
        source@ == "capability.sla.violated"@ ==> r == sources.sla_violated && bridged,
        source@ == "plugin.kill_switch.enabled"@ ==> r == sources.kill_switch_engaged && bridged,
        source@ == "plugin.lifecycle.crashed"@ ==> r == sources.plugin_crashed && bridged,
        source@ != "plugin.metrics.exceeded"@ && source@ != "capability.sla.violated"@ && source@
            != "plugin.kill_switch.enabled"@ && source@ != "plugin.lifecycle.crashed"@ ==> !r && !bridged,
{
    reveal_strlit("plugin.metrics.exceeded");
    reveal_strlit("capability.sla.violated");
    reveal_strlit("plugin.kill_switch.enabled");
    reveal_strlit("plugin.lifecycle.crashed");
    assert("plugin.metrics.exceeded"@.len() == 23 && "capability.sla.violated"@.len() == 23
        && "plugin.kill_switch.enabled"@.len() == 26 && "plugin.lifecycle.crashed"@.len() == 24);
    assert("plugin.metrics.exceeded"@[0] == 'p' && "capability.sla.violated"@[0] == 'c');
}

/// An endpoint without a filter takes every source; one with a filter takes those that it names.
pub proof fn filters_name_their_sources(ep: &AlertingEndpointRow, source: &str, r: bool)
    requires
        call_ensures(endpoint_accepts_source, (ep, source), r),
    ensures
        ep@.source_filter.len() == 0 ==> r,
        ep@.source_filter.len() > 0 ==> r == exists|i: int|
            0 <= i < ep@.source_filter.len() && #[trigger] ep@.source_filter[i] == source@,
{
}

/// A signature is `sha256=` and the HMAC-SHA256 of the body under the secret, in hexadecimal digits;
/// without a secret there is none.
pub proof fn bodies_are_signed_under_the_secret(secret: &str, body: &str, r: String)
    requires
        call_ensures(compute_signature, (secret, body), r),
    ensures
        secret@.len() == 0 ==> r@.len() == 0,
        secret@.len() > 0 ==> {
            let mac = hmac_sha256_of(encode_utf8(secret@), encode_utf8(body@));
            &&& r@.len() == 7 + 2 * mac.len()
            &&& r@.take(7) == "sha256="@
            &&& forall|i: int|
                0 <= i < mac.len() ==> is_hex_of(r@[7 + 2 * i], r@[8 + 2 * i], #[trigger] mac[i])
        },
{
    reveal_strlit("sha256=");
    if secret@.len() > 0 {
        let mac = hmac_sha256_of(encode_utf8(secret@), encode_utf8(body@));
        assert(r@.take(7) =~= "sha256="@);
        assert forall|i: int| 0 <= i < mac.len() implies is_hex_of(r@[7 + 2 * i], r@[8 + 2 * i], #[trigger] mac[i]) by {
            let b = mac[i] as int;
            assert((2 * i) / 2 == i && (2 * i) % 2 == 0 && (2 * i + 1) / 2 == i && (2 * i + 1) % 2 == 1);
            assert(r@[7 + 2 * i] == hex_digit(b / 16));
            assert(r@[8 + 2 * i] == hex_digit(b % 16));
        }
    }
}

/// Whether an endpoint is one for an event: named by its route, or, where no route takes the event, one
/// whose filter is empty or names the source.
pub open spec fn is_target(route: Option<RouteRuleRowView>, source: Seq<char>) -> spec_fn(
    AlertingEndpointRowView,
) -> bool {
    |ep: AlertingEndpointRowView|
        match route {
            Some(rule) => rule.target_endpoint_ids.contains(ep.id),
            None => ep.source_filter.len() == 0 || ep.source_filter.contains(source),
        }
}

/// The targets of an event are the endpoints for it, in order.
pub proof fn targets_are_the_endpoints_for_the_event(
    endpoints: &Vec<AlertingEndpointRow>,
    route: &Option<RouteRuleRow>,
    source: &str,
    r: Vec<AlertingEndpointRow>,
)
    requires
        call_ensures(select_targets, (endpoints, route, source), r),
    ensures
        *route is Some ==> rows_view(r@) == rows_view(endpoints@).filter(
            is_target(Some((*route)->0@), source@),
        ),
        *route is None ==> rows_view(r@) == rows_view(endpoints@).filter(is_target(None, source@)),
{
    let all = rows_view(endpoints@);
    match *route {
        Some(row) => {
            let named = |ep: AlertingEndpointRowView| row@.target_endpoint_ids.contains(ep.id);
            lemma_same_test(all, named, is_target(Some(row@), source@));
            keeping_is_filtering(all, is_target(Some(row@), source@));
        },
        None => {
            let taken = |ep: AlertingEndpointRowView| super::dispatch::accepts(ep, source@);
            lemma_same_test(all, taken, is_target(None, source@));
            keeping_is_filtering(all, is_target(None, source@));
        },
    }
}

/// What goes to the one configured address carries its headers as they are; its body is the envelope of
/// the event, or, under the first schema, the plain form, of which the payload alone is kept for a
/// second try.
pub proof fn plain_requests_go_to_the_configured_address(
    cfg: &WebhookConfig,
    source: &str,
    payload: &Json,
    severity: Severity,
    event_id: String,
    now: u64,
    r: Delivery,
)
    requires
        call_ensures(plain_delivery, (cfg, source, payload, severity, event_id, now), r),
    ensures
        r@.endpoint_id is None,
        r@.url == cfg@.url,
        r@.headers == cfg@.custom_headers,
        r@.content_type == "application/json"@,
        cfg@.schema_version == 0 ==> is_plain_body(r@.body, source@, payload@, now) && r@.queued
            == crate::json::json_text_of(payload@),
        cfg@.schema_version >= 1 ==> is_envelope_body(r@.body, event_id@, source@, severity, payload@, now)
            && r@.queued == r@.body,
{
    super::laws::lemma_envelope(event_id@, source@, severity, payload@, now);
}

/// An envelope holds what it is made of, the severity of its source and an id of its own.
pub proof fn envelopes_hold_what_they_are_made_of(
    store: &Storage,
    source: &str,
    payload: Json,
    tags: Vec<String>,
    now: u64,
    severity: Severity,
    r: AlertEnvelope,
)
    requires
        call_ensures(make_envelope, (store, source, payload, tags, now), r),
        call_ensures(severity_resolved, (store, source), severity),
    ensures
        r@.schema_version == 1 && r@.source == source@ && r@.payload == payload@ && r@.tags == texts_view(
            tags@,
        ) && r@.timestamp == now && r@.severity == severity && uuid_shape(r@.event_id),
{
}

/// The whole seconds between two times: none where the second is not later.
pub proof fn seconds_are_counted_whole(from: u64, to: u64, r: u64)
    requires
        call_ensures(elapsed_secs, (from, to), r),
    ensures
        to < from ==> r == 0,
        to >= from ==> r * 1_000_000_000 <= to - from < (r + 1) * 1_000_000_000,
{
}

/// A trial of the configured address is sent where it is switched on and the address is a good one, and
/// it says what it is.
pub proof fn trials_say_what_they_are(
    cfg: &WebhookConfig,
    now: u64,
    url: &str,
    good: Result<(), String>,
    r: Result<Delivery, String>,
)
    requires
        call_ensures(test_send_request, (cfg, now), r),
        url@ == cfg@.url,
        call_ensures(super::config::validate_url, (url,), good),
    ensures
        r is Ok == (cfg@.enabled && good is Ok),
        r is Ok ==> {
            &&& r->Ok_0@.url == cfg@.url
            &&& r->Ok_0@.headers == cfg@.custom_headers
            &&& is_plain_body(
                r->Ok_0@.body,
                "webhook.test"@,
                JsonView::Object(seq![("message"@, JsonView::Text("Test alert from OpenCapX"@))]),
                now,
            )
        },
{
}

/// A dispatch is remembered as the last of its source; what is remembered of other sources stays.
pub proof fn the_last_dispatch_is_remembered(
    state: &mut EscalationState,
    source: &str,
    now: u64,
    other: Seq<char>,
    t: u64,
)
    requires
        call_ensures(record_dispatch, (state, source, now), ()),
        keys_distinct::<Stamp>(old(state).last_by_source@),
    ensures
        stamped_at(final(state).last_by_source@, source@, t) == (t == now),
        other != source@ ==> stamped_at(final(state).last_by_source@, other, t) == stamped_at(
            old(state).last_by_source@,
            other,
            t,
        ),
{
    let before = old(state).last_by_source@;
    let after = final(state).last_by_source@;
    let row = StampView { name: source@, at: now };
    put_then_get::<Stamp>(before, row, source@);
    put_then_get::<Stamp>(before, row, other);
    lemma_stamp(after, source@, t);
    lemma_stamp(after, other, t);
    lemma_stamp(before, other, t);
}

/// Whether a candidate is escalated with a severity, to these endpoints.
pub open spec fn escalates_as(c: (EscalationRuleView, Seq<char>, u64), e: EscalationView) -> bool {
    &&& c.1 == e.source
    &&& severity_named(c.0.target_severity) == Some(e.severity)
    &&& c.0.target_endpoint_ids is Some ==> e.endpoint_ids == c.0.target_endpoint_ids->0
    &&& c.0.target_endpoint_ids is None ==> e.endpoint_ids.len() == 0
}

proof fn lemma_round(
    found: Seq<(EscalationRuleView, Seq<char>, u64)>,
    stamps: Seq<StampView>,
    now: u64,
    e: EscalationView,
    source: Seq<char>,
)
    requires
        keys_distinct::<Stamp>(stamps),
    ensures
        keys_distinct::<Stamp>(escalation_round_of(found, stamps, now).1),
        escalation_round_of(found, stamps, now).0.contains(e) == exists|i: int|
            0 <= i < found.len() && escalates_as(#[trigger] found[i], e),
        (exists|i: int|
            0 <= i < found.len() && (#[trigger] found[i]).1 == source && severity_named(
                found[i].0.target_severity,
            ) is Some) ==> row_with::<Stamp>(escalation_round_of(found, stamps, now).1, source) == Some(
            StampView { name: source, at: now },
        ),
        !(exists|i: int|
            0 <= i < found.len() && (#[trigger] found[i]).1 == source && severity_named(
                found[i].0.target_severity,
            ) is Some) ==> row_with::<Stamp>(escalation_round_of(found, stamps, now).1, source) == row_with::<
            Stamp,
        >(stamps, source),
    decreases found.len(),
{
    let (out, after) = escalation_round_of(found, stamps, now);
    if found.len() > 0 {
        let front = found.drop_last();
        let n = found.len() - 1;
        let last = found[n];
        lemma_round(front, stamps, now, e, source);
        let (sent, before) = escalation_round_of(front, stamps, now);
        put_then_get::<Stamp>(before, StampView { name: last.1, at: now }, source);
        let goes = severity_named(last.0.target_severity) is Some;
        if goes {
            let own = out.last();
            assert(out == sent.push(own));
            assert(escalates_as(last, own));
            assert(escalates_as(last, e) ==> e == own) by {
                if escalates_as(last, e) && last.0.target_endpoint_ids is None {
                    assert(e.endpoint_ids =~= own.endpoint_ids);
                }
            }
            if sent.contains(e) {
                let k = choose|k: int| 0 <= k < sent.len() && sent[k] == e;
                assert(out[k] == e);
            }
            if out.contains(e) {
                let k = choose|k: int| 0 <= k < out.len() && out[k] == e;
                if k < sent.len() {
                    assert(sent[k] == e);
                }
            }
            if escalates_as(last, e) {
                assert(out[sent.len() as int] == e);
            }
        }
        if exists|i: int| 0 <= i < front.len() && escalates_as(#[trigger] front[i], e) {
            let i = choose|i: int| 0 <= i < front.len() && escalates_as(#[trigger] front[i], e);
            assert(escalates_as(found[i], e));
        }
        if exists|i: int| 0 <= i < found.len() && escalates_as(#[trigger] found[i], e) {
            let i = choose|i: int| 0 <= i < found.len() && escalates_as(#[trigger] found[i], e);
            if i < n {
                assert(escalates_as(front[i], e));
            }
        }
        if exists|i: int|
            0 <= i < front.len() && (#[trigger] front[i]).1 == source && severity_named(
                front[i].0.target_severity,
            ) is Some {
            let i = choose|i: int|
                0 <= i < front.len() && (#[trigger] front[i]).1 == source && severity_named(
                    front[i].0.target_severity,
                ) is Some;
            assert(found[i].1 == source);
        }
        if exists|i: int|
            0 <= i < found.len() && (#[trigger] found[i]).1 == source && severity_named(
                found[i].0.target_severity,
            ) is Some {
            let i = choose|i: int|
                0 <= i < found.len() && (#[trigger] found[i]).1 == source && severity_named(
                    found[i].0.target_severity,
                ) is Some;
            if i < n {
                assert(front[i].1 == source);
            }
        }
        assert(found[n].1 == last.1);
    }
}

/// A round escalates every candidate whose rule names a severity that exists, with that severity, to the
/// endpoints that the rule names, or to all. From then on the time of its source runs anew.
pub proof fn rounds_escalate_every_candidate(
    store: &Storage,
    state: &mut EscalationState,
    before: &EscalationState,
    now: u64,
    found: Vec<Candidate>,
    r: Vec<Escalation>,
    e: EscalationView,
    source: Seq<char>,
    t: u64,
)
    requires
        call_ensures(escalation_round, (store, state, now), r),
        *before == *old(state),
        call_ensures(find_escalation_candidates, (store, before, now), found),
        keys_distinct::<Stamp>(before.last_by_source@),
    ensures
        rows_view(r@).contains(e) == exists|i: int|
            0 <= i < candidates_view(found@).len() && escalates_as(#[trigger] candidates_view(found@)[i], e),
        stamped_at(final(state).last_by_source@, source, t) == (if exists|i: int|
            0 <= i < candidates_view(found@).len() && (#[trigger] candidates_view(found@)[i]).1 == source
                && severity_named(candidates_view(found@)[i].0.target_severity) is Some {
            t == now
        } else {
            stamped_at(before.last_by_source@, source, t)
        }),
{
    lemma_round(candidates_view(found@), before.last_by_source@, now, e, source);
    lemma_stamp(final(state).last_by_source@, source, t);
    lemma_stamp(before.last_by_source@, source, t);
}

/// A recipient is addressed by its kind and what its configuration says of it; it cannot be where that
/// says nothing.
pub proof fn recipients_are_addressed_by_kind(
    rec: &RecipientDef,
    id: Seq<char>,
    path: Seq<char>,
    relay: Seq<char>,
    port: Seq<char>,
    from: Seq<char>,
    to: Seq<char>,
    r: Result<String, String>,
)
    requires
        call_ensures(recipient_sink, (rec,), r),
    ensures
        rec@.kind == "webhook"@ && holds_at(rec@.config, "endpoint_id"@, JsonView::Text(id)) ==> r is Ok
            && r->Ok_0@ == "webhook:"@ + id,
        rec@.kind == "webhook"@ && (forall|x: Seq<char>| !#[trigger]
            holds_at(rec@.config, "endpoint_id"@, JsonView::Text(x))) ==> r is Err,
        rec@.kind == "log:stderr"@ ==> r is Ok && r->Ok_0@ == "log:stderr"@,
        rec@.kind == "log:file"@ && holds_at(rec@.config, "path"@, JsonView::Text(path)) ==> r is Ok
            && r->Ok_0@ == "log:file:"@ + path,
        rec@.kind == "log:file"@ && (forall|x: Seq<char>| !#[trigger]
            holds_at(rec@.config, "path"@, JsonView::Text(x))) ==> r is Err,
        rec@.kind == "email:smtp"@ && holds_at(rec@.config, "relay"@, JsonView::Text(relay)) && holds_at(
            rec@.config,
            "from"@,
            JsonView::Text(from),
        ) && holds_at(rec@.config, "to"@, JsonView::Text(to)) && (forall|x: JsonView| !#[trigger]
            holds_at(rec@.config, "port"@, x)) ==> r is Ok && r->Ok_0@ == "email:smtp:"@ + relay + ":"@
            + decimal_seq(587) + ":"@ + from + ":"@ + to,
        rec@.kind != "webhook"@ && rec@.kind != "log:stderr"@ && rec@.kind != "log:file"@ && rec@.kind
            != "email:smtp"@ ==> r is Err,
{
    reveal_strlit("webhook");
    reveal_strlit("log:stderr");
    reveal_strlit("log:file");
    reveal_strlit("email:smtp");
    assert("webhook"@.len() == 7 && "log:stderr"@.len() == 10 && "log:file"@.len() == 8
        && "email:smtp"@.len() == 10);
    assert("log:stderr"@[0] == 'l' && "email:smtp"@[0] == 'e');
    members_are_read_by_name(rec@.config, "endpoint_id"@, JsonView::Text(id));
    members_are_read_by_name(rec@.config, "path"@, JsonView::Text(path));
    members_are_read_by_name(rec@.config, "relay"@, JsonView::Text(relay));
    members_are_read_by_name(rec@.config, "from"@, JsonView::Text(from));
    members_are_read_by_name(rec@.config, "to"@, JsonView::Text(to));
    if let Some(x) = crate::json::get_member(rec@.config, "port"@) {
        members_are_read_by_name(rec@.config, "port"@, x);
        assert(holds_at(rec@.config, "port"@, x));
    }
    if let Some(JsonView::Text(x)) = crate::json::get_member(rec@.config, "endpoint_id"@) {
        members_are_read_by_name(rec@.config, "endpoint_id"@, JsonView::Text(x));
        assert(holds_at(rec@.config, "endpoint_id"@, JsonView::Text(x)));
    }
    if let Some(JsonView::Text(x)) = crate::json::get_member(rec@.config, "path"@) {
        members_are_read_by_name(rec@.config, "path"@, JsonView::Text(x));
        assert(holds_at(rec@.config, "path"@, JsonView::Text(x)));
    }
}

/// A recipient can be tried where it is there, switched on and can be addressed; the trial goes to its
/// address.
pub proof fn trials_go_to_recipients_that_are_on(
    store: &Storage,
    id: &str,
    now: u64,
    rec: &RecipientDef,
    sink: Result<String, String>,
    r: Result<(String, AlertEnvelope), String>,
)
    requires
        call_ensures(test_recipient_request, (store, id, now), r),
        keys_distinct::<RecipientDef>(store.recipients@),
        store.recipients@.contains(rec@),
        rec@.id == id@,
        call_ensures(recipient_sink, (rec,), sink),
    ensures
        r is Ok == (rec@.enabled && sink is Ok),
        r is Ok ==> (r->Ok_0).0@ == sink->Ok_0@ && (r->Ok_0).1@.source == "manual.test"@ && (
        r->Ok_0).1@.severity == Severity::Info && (r->Ok_0).1@.timestamp == now && holds_at(
            (r->Ok_0).1@.payload,
            "recipient"@,
            JsonView::Text(rec@.name),
        ),
{
    lemma_position_of::<RecipientDef>(store.recipients@, id@);
    let i = choose|i: int| 0 <= i < store.recipients@.len() && store.recipients@[i] == rec@;
    let p = position_of::<RecipientDef>(store.recipients@, id@)->0;
    if p != i {
        assert(store.recipients@[p].id != store.recipients@[i].id);
    }
    if r is Ok {
        let payload = (r->Ok_0).1@.payload;
        reveal_strlit("test");
        reveal_strlit("recipient");
        assert("test"@.len() == 4 && "recipient"@.len() == 9);
        assert(payload->Object_0[1].0 == "recipient"@ && payload->Object_0[0].0 == "test"@);
    }
}

/// There is no trial of a recipient that is not there.
pub proof fn no_trials_of_unknown_recipients(
    store: &Storage,
    id: &str,
    now: u64,
    r: Result<(String, AlertEnvelope), String>,
)
    requires
        call_ensures(test_recipient_request, (store, id, now), r),
        forall|i: int| 0 <= i < store.recipients@.len() ==> (#[trigger] store.recipients@[i]).id != id@,
    ensures
        r is Err,
{
    lemma_position_of::<RecipientDef>(store.recipients@, id@);
}

/// The tally of a round of retries: how many were tried, and how many of them went.
pub proof fn tallies_count_what_went(sent: &Vec<bool>, r: (usize, usize))
    requires
        call_ensures(retry_tally, (sent,), r),
    ensures
        r.0 == sent@.len(),
        r.1 <= r.0,
        (forall|i: int| 0 <= i < sent@.len() ==> #[trigger] sent@[i]) ==> r.1 == r.0,
        (forall|i: int| 0 <= i < sent@.len() ==> !(#[trigger] sent@[i])) ==> r.1 == 0,
{
    lemma_tally(sent@);
}

proof fn lemma_tally(sent: Seq<bool>)
    ensures
        sent.filter(|b: bool| b).len() <= sent.len(),
        (forall|i: int| 0 <= i < sent.len() ==> #[trigger] sent[i]) ==> sent.filter(|b: bool| b).len()
            == sent.len(),
        (forall|i: int| 0 <= i < sent.len() ==> !(#[trigger] sent[i])) ==> sent.filter(|b: bool| b).len()
            == 0,
    decreases sent.len(),
{
    reveal(Seq::filter);
    if sent.len() > 0 {
        let front = sent.drop_last();
        lemma_tally(front);
        assert(sent.last() == sent[sent.len() - 1]);
        assert(forall|i: int| 0 <= i < front.len() ==> #[trigger] front[i] == sent[i]);
    }
}

/// Failed deliveries are listed from those that are stored, those of a state where one is named, at most
/// as many as asked for, and never more than a thousand.
pub proof fn failed_deliveries_are_listed_by_state(
    store: &Storage,
    state: Option<&str>,
    limit: usize,
    r: Vec<FailedDeliveryRow>,
    row: FailedDeliveryRowView,
)
    requires
        call_ensures(list_failed_deliveries, (store, state, limit), r),
        limit >= 1,
    ensures
        r@.len() <= limit,
        r@.len() <= 1000,
        rows_view(r@).contains(row) ==> store.deliveries@.contains(row) && (state is Some ==> row.state
            == state->0@),
        r@.len() < limit && r@.len() < 1000 && store.deliveries@.contains(row) && (state is Some
            ==> row.state == state->0@) ==> rows_view(r@).contains(row),
{
    let out = rows_view(r@);
    assert(out.len() == r@.len());
    let all = by_rank::<FailedDeliveryRow>(store.deliveries@);
    match state {
        Some(s) => {
            let of_state = |v: FailedDeliveryRowView| v.state == s@;
            lemma_on_members::<FailedDeliveryRow>(store.deliveries@, of_state);
            let hit = kept(all, of_state);
            if out.contains(row) {
                let k = choose|k: int| 0 <= k < out.len() && out[k] == row;
                assert(hit[k] == row);
                assert(hit.contains(row));
            }
            if r@.len() < limit && r@.len() < 1000 {
                assert(out == hit);
            }
        },
        None => {
            let any = |v: FailedDeliveryRowView| true;
            lemma_on_members::<FailedDeliveryRow>(store.deliveries@, any);
            let hit = kept(all, any);
            keeping_is_filtering(all, any);
            lemma_all_kept(all, any);
            if out.contains(row) {
                let k = choose|k: int| 0 <= k < out.len() && out[k] == row;
                assert(hit[k] == row);
                assert(hit.contains(row));
            }
            if r@.len() < limit && r@.len() < 1000 {
                assert(out == hit);
            }
        },
    }
}

proof fn lemma_all_kept<V>(s: Seq<V>, f: spec_fn(V) -> bool)
    requires
        forall|v: V| #[trigger] f(v),
    ensures
        kept(s, f) == s,
    decreases s.len(),
{
    if s.len() > 0 {
        lemma_all_kept(s.drop_last(), f);
        assert(s.drop_last().push(s.last()) =~= s);
    } else {
        assert(kept(s, f) =~= s);
    }
}

/// A trial of the routes picks the route that would take the event, and refuses what is no value.
pub proof fn route_trials_pick_the_route(
    store: &Storage,
    source: &str,
    payload_json: &str,
    payload: &Json,
    numbers: &Vec<Option<Comparison>>,
    recent: &RecentEvents,
    now: u64,
    route: Option<RouteRuleRow>,
    r: Result<Option<RouteRuleRow>, String>,
)
    requires
        call_ensures(dry_run_route, (store, source, payload_json, numbers, recent, now), r),
        call_ensures(match_route, (store, source, payload, numbers, recent, now), route),
    ensures
        json_read(payload_json@) is Err ==> r is Err,
        json_read(payload_json@) == Ok::<JsonView, Seq<char>>(payload@) ==> r is Ok && (match (r->Ok_0, route) {
            (Some(a), Some(b)) => a@ == b@,
            (None, None) => true,
            _ => false,
        }),
{
}

/// Importing routes puts those of the document in the place of all others, provided that it holds any and
/// all are in order.
pub proof fn imports_replace_the_routes(
    store: &mut Storage,
    doc: RouteRuleYamlDoc,
    nanos: u64,
    counter: u64,
    now: u64,
    r: Result<usize, String>,
    k: int,
    rule: &RouteRule,
    good: Result<(), String>,
    row: RouteRuleRowView,
)
    requires
        call_ensures(import_routes_yaml, (store, doc, nanos, counter, now), r),
        0 <= k < doc.rules@.len(),
        rule@ == doc.rules@[k]@,
        call_ensures(validate_route, (rule,), good),
    ensures
        good is Err ==> r is Err,
        r is Err ==> final(store).routes@ == old(store).routes@,
        r is Ok && rule@.id.len() > 0 && (forall|j: int|
            k < j < doc.rules@.len() ==> (#[trigger] doc.rules@[j])@.id.len() > 0 && doc.rules@[j]@.id
                != rule@.id) ==> final(store).routes@.contains(
            RouteRuleRowView {
                id: rule@.id,
                name: rule@.name,
                priority: rule@.priority,
                enabled: rule@.enabled,
                kind_pattern: rule@.kind_pattern,
                payload_path: rule@.payload_path,
                payload_match: rule@.payload_match,
                target_endpoint_ids: rule@.target_endpoint_ids,
                recipients: rule@.recipients,
                tags: rule@.tags,
                seen_in_last: rule@.seen_in_last,
                created_at: now,
            },
        ),
        r is Ok && final(store).routes@.contains(row) ==> row.created_at == now && exists|j: int|
            0 <= j < doc.rules@.len() && (#[trigger] doc.rules@[j])@.name == row.name && (
            doc.rules@[j]@.id.len() > 0 ==> row.id == doc.rules@[j]@.id) && doc.rules@[j]@.kind_pattern
                == row.kind_pattern && doc.rules@[j]@.target_endpoint_ids == row.target_endpoint_ids,
{
    let rules = rows_view(doc.rules@);
    assert forall|j: int| 0 <= j < rules.len() implies rules[j] == (#[trigger] doc.rules@[j])@ by {}
    assert(rules[k] == rule@);
    if good is Err {
        lemma_routes_complaint(rules, 0, k);
    }
    lemma_imported(rules, nanos, counter, now);
    if r is Ok {
        let after = imported(rules, nanos, counter, now);
        if rule@.id.len() > 0 && (forall|j: int|
            k < j < doc.rules@.len() ==> (#[trigger] doc.rules@[j])@.id.len() > 0 && doc.rules@[j]@.id
                != rule@.id) {
            assert forall|j: int| k < j < rules.len() implies (#[trigger] rules[j]).id.len() > 0 && rules[j].id
                != rules[k].id by {
                assert(doc.rules@[j]@ == rules[j]);
            }
            assert(row_with::<RouteRuleRow>(after, rules[k].id) == Some(route_row(rules[k], rules[k].id, now)));
            lemma_position_of::<RouteRuleRow>(after, rules[k].id);
            assert(after[position_of::<RouteRuleRow>(after, rules[k].id)->0] == route_row(
                rules[k],
                rules[k].id,
                now,
            ));
        }
        if after.contains(row) {
            let p = choose|p: int| 0 <= p < after.len() && after[p] == row;
            let j = choose|j: int|
                0 <= j < rules.len() && after[p] == route_row(
                    #[trigger] rules[j],
                    super::routes::id_or(
                        rules[j].id,
                        route_id(nanos, super::ids::counted_on(counter, j)),
                    ),
                    now,
                );
            assert(doc.rules@[j]@ == rules[j]);
        }
    }
}

proof fn lemma_routes_complaint(rules: Seq<RouteRuleView>, i: int, k: int)
    requires
        0 <= i <= k < rules.len(),
        super::routes::route_complaint(rules[k]) is Some,
    ensures
        routes_complaint(rules, i) is Some,
    decreases k - i,
{
    if i < k {
        lemma_routes_complaint(rules, i + 1, k);
    }
}

proof fn lemma_imported(rules: Seq<RouteRuleView>, nanos: u64, counter: u64, now: u64)
    ensures
        keys_distinct::<RouteRuleRow>(imported(rules, nanos, counter, now)),
        forall|k: int|
            0 <= k < rules.len() && (#[trigger] rules[k]).id.len() > 0 && (forall|j: int|
                k < j < rules.len() ==> (#[trigger] rules[j]).id.len() > 0 && rules[j].id != rules[k].id)
                ==> row_with::<RouteRuleRow>(imported(rules, nanos, counter, now), rules[k].id) == Some(
                route_row(rules[k], rules[k].id, now),
            ),
        forall|p: int|
            0 <= p < imported(rules, nanos, counter, now).len() ==> exists|j: int|
                0 <= j < rules.len() && (#[trigger] imported(rules, nanos, counter, now)[p]) == route_row(
                    #[trigger] rules[j],
                    super::routes::id_or(
                        rules[j].id,
                        route_id(nanos, super::ids::counted_on(counter, j)),
                    ),
                    now,
                ),
    decreases rules.len(),
{
    let after = imported(rules, nanos, counter, now);
    if rules.len() > 0 {
        let front = rules.drop_last();
        let n = rules.len() - 1;
        lemma_imported(front, nanos, counter, now);
        let before = imported(front, nanos, counter, now);
        let own = route_row(
            rules[n],
            super::routes::id_or(rules[n].id, route_id(nanos, super::ids::counted_on(counter, n))),
            now,
        );
        assert(after == with_row::<RouteRuleRow>(before, own));
        put_then_get::<RouteRuleRow>(before, own, own.id);
        assert forall|k: int|
            0 <= k < rules.len() && (#[trigger] rules[k]).id.len() > 0 && (forall|j: int|
                k < j < rules.len() ==> (#[trigger] rules[j]).id.len() > 0 && rules[j].id != rules[k].id) implies row_with::<
            RouteRuleRow,
        >(after, rules[k].id) == Some(route_row(rules[k], rules[k].id, now)) by {
            put_then_get::<RouteRuleRow>(before, own, rules[k].id);
            if k < n {
                assert(front[k] == rules[k]);
                assert forall|j: int| k < j < front.len() implies (#[trigger] front[j]).id.len() > 0
                    && front[j].id != front[k].id by {
                    assert(front[j] == rules[j]);
                }
                assert(rules[n].id.len() > 0 && rules[n].id != rules[k].id);
            }
        }
        assert forall|p: int| 0 <= p < after.len() implies exists|j: int|
            0 <= j < rules.len() && (#[trigger] after[p]) == route_row(
                #[trigger] rules[j],
                super::routes::id_or(rules[j].id, route_id(nanos, super::ids::counted_on(counter, j))),
                now,
            ) by {
            lemma_position_of::<RouteRuleRow>(before, own.id);
            if after[p] == own {
                assert(rules[n] == rules[n]);
            } else {
                assert(0 <= p < before.len() && after[p] == before[p]);
                let j = choose|j: int|
                    0 <= j < front.len() && before[p] == route_row(
                        #[trigger] front[j],
                        super::routes::id_or(
                            front[j].id,
                            route_id(nanos, super::ids::counted_on(counter, j)),
                        ),
                        now,
                    );
                assert(rules[j] == front[j]);
            }
        }
    }
}

/// A preset of a kind is found where any that is listed is of that kind; those that come along go before
/// those that users keep.
pub proof fn presets_are_found_by_kind(
    store: &Storage,
    kind: &str,
    all: Vec<TemplatePreset>,
    r: Option<TemplatePreset>,
)
    requires
        call_ensures(list_template_presets, (store,), all),
        call_ensures(get_template_preset, (store, kind), r),
    ensures
        r is Some == exists|i: int| 0 <= i < all@.len() && (#[trigger] all@[i])@.kind == kind@,
        r is Some ==> exists|i: int|
            0 <= i < all@.len() && (#[trigger] all@[i])@ == r->0@ && all@[i]@.kind == kind@ && forall|j: int|
                0 <= j < i ==> (#[trigger] all@[j])@.kind != kind@,
{
    let listed = rows_view(all@);
    let first = builtins();
    let own = by_rank::<TemplatePreset>(store.presets@);
    let of_kind = |p: TemplatePresetView| p.kind == kind@;
    lemma_first_index(first, of_kind);
    lemma_first_index(own, of_kind);
    assert(listed == first + own);
    assert forall|i: int| 0 <= i < all@.len() implies (#[trigger] all@[i])@ == if i < first.len() {
        first[i]
    } else {
        own[i - first.len()]
    } by {
        assert(listed[i] == all@[i]@);
    }
    assert(all@.len() == first.len() + own.len());
    match (first_index(first, of_kind), first_index(own, of_kind)) {
        (Some(i), _) => {
            assert(all@[i]@ == first[i]);
        },
        (None, Some(i)) => {
            let at = first.len() + i;
            assert(all@[at]@ == own[i]);
            assert forall|j: int| 0 <= j < at implies (#[trigger] all@[j])@.kind != kind@ by {
                if j < first.len() {
                    assert(!of_kind(first[j]));
                } else {
                    assert(!of_kind(own[j - first.len()]));
                }
            }
        },
        (None, None) => {
            assert forall|j: int| 0 <= j < all@.len() implies (#[trigger] all@[j])@.kind != kind@ by {
                if j < first.len() {
                    assert(!of_kind(first[j]));
                } else {
                    assert(!of_kind(own[j - first.len()]));
                }
            }
        },
    }
}

/// A preset of a user is kept as it is, under its id or a new one, with a version above the one it had
/// and no lower than the one it names, and never as one that comes along.
pub proof fn presets_are_kept_with_their_version(
    store: &mut Storage,
    p: &TemplatePreset,
    fresh: &str,
    now: u64,
    r: Result<TemplatePreset, String>,
    had: TemplatePresetView,
)
    requires
        call_ensures(store_user_preset, (store, p, fresh, now), r),
        keys_distinct::<TemplatePreset>(old(store).presets@),
    ensures
        r is Err ==> final(store).presets@ == old(store).presets@,
        r is Ok ==> {
            let row = r->Ok_0@;
            &&& final(store).presets@.contains(row)
            &&& row.id == if p@.id.len() == 0 {
                fresh@
            } else {
                p@.id
            }
            &&& row.name == p@.name && row.description == p@.description && row.template == p@.template
                && row.sample == p@.sample && row.changelog == p@.changelog
            &&& !row.builtin && !p@.builtin
            &&& row.version >= p@.version && row.version >= 1
            &&& old(store).presets@.contains(had) && had.id == row.id ==> {
                &&& had.version < u32::MAX ==> row.version > had.version
                &&& row.version == p@.version || row.version == 1 || row.version == had.version + 1
                    || had.version == u32::MAX
                &&& p@.created_at == 0 ==> row.created_at == had.created_at
            }
            &&& (forall|i: int|
                0 <= i < old(store).presets@.len() ==> (#[trigger] old(store).presets@[i]).id != row.id)
                ==> (row.version == p@.version || row.version == 1) && row.created_at == (if p@.created_at
                == 0 {
                now
            } else {
                p@.created_at
            })
        },
{
    if r is Ok {
        let row = r->Ok_0@;
        let rows = old(store).presets@;
        lemma_position_of::<TemplatePreset>(rows, row.id);
        if rows.contains(had) && had.id == row.id {
            let i = choose|i: int| 0 <= i < rows.len() && rows[i] == had;
            let q = position_of::<TemplatePreset>(rows, row.id)->0;
            if q != i {
                assert(rows[q].id != rows[i].id);
            }
        }
        put_then_get::<TemplatePreset>(rows, row, row.id);
        lemma_position_of::<TemplatePreset>(final(store).presets@, row.id);
        assert(final(store).presets@[position_of::<TemplatePreset>(final(store).presets@, row.id)->0]
            == row);
    }
}

/// A copy of a preset that comes along holds its template under a name and an id of its own.
pub proof fn copies_hold_the_template(
    store: &mut Storage,
    kind: &str,
    name: &str,
    fresh: &str,
    now: u64,
    r: Result<TemplatePreset, String>,
)
    requires
        call_ensures(fork_preset_as, (store, kind, name, fresh, now), r),
        keys_distinct::<TemplatePreset>(old(store).presets@),
    ensures
        r is Err ==> final(store).presets@ == old(store).presets@,
        r is Ok ==> {
            let row = r->Ok_0@;
            &&& final(store).presets@.contains(row)
            &&& row.id == fresh@ && row.name == trim_seq(name@) && !row.builtin && row.version == 1
                && row.created_at == now && row.kind == "user:"@ + fresh@
            &&& exists|i: int|
                0 <= i < builtins().len() && (#[trigger] builtins()[i]).kind == kind@ && row.template
                    == builtins()[i].template && row.sample == builtins()[i].sample && row.description
                    == builtins()[i].description
        },
{
    let of_kind = |p: TemplatePresetView| p.kind == kind@;
    lemma_first_index(builtins(), of_kind);
    if r is Ok {
        let row = r->Ok_0@;
        let i = first_index(builtins(), of_kind)->0;
        assert(builtins()[i].kind == kind@);
        put_then_get::<TemplatePreset>(old(store).presets@, row, row.id);
        lemma_position_of::<TemplatePreset>(final(store).presets@, row.id);
        assert(final(store).presets@[position_of::<TemplatePreset>(final(store).presets@, row.id)->0]
            == row);
    }
}

/// Presets that are taken over are kept with their own ids and versions, those without a name left out;
/// the last of one id counts, and presets of other ids stay.
pub proof fn taken_over_presets_replace_their_own(
    store: &mut Storage,
    presets: &Vec<TemplatePreset>,
    fresh: &Vec<String>,
    r: usize,
    k: int,
    id: Seq<char>,
)
    requires
        call_ensures(take_over_presets, (store, presets, fresh), r),
        fresh@.len() == presets@.len(),
        keys_distinct::<TemplatePreset>(old(store).presets@),
        0 <= k < presets@.len(),
    ensures
        r <= presets@.len(),
        !is_blank_seq(presets@[k]@.name) && presets@[k]@.id.len() > 0 && (forall|j: int|
            k < j < presets@.len() ==> (#[trigger] presets@[j])@.id.len() > 0 && presets@[j]@.id
                != presets@[k]@.id) ==> {
            let p = presets@[k]@;
            row_with::<TemplatePreset>(final(store).presets@, p.id) == Some(
                TemplatePresetView {
                    kind: if p.kind.len() == 0 {
                        "user:"@ + p.id
                    } else {
                        p.kind
                    },
                    builtin: false,
                    version: if p.version == 0 {
                        1
                    } else {
                        p.version
                    },
                    ..p
                },
            )
        },
        (forall|j: int|
            0 <= j < presets@.len() ==> (#[trigger] presets@[j])@.id.len() > 0 && presets@[j]@.id != id)
            ==> row_with::<TemplatePreset>(final(store).presets@, id) == row_with::<TemplatePreset>(
            old(store).presets@,
            id,
        ),
        (forall|j: int| 0 <= j < presets@.len() ==> !is_blank_seq((#[trigger] presets@[j])@.name)) ==> r
            == presets@.len(),
{
    let all = rows_view(presets@);
    assert forall|j: int| 0 <= j < all.len() implies all[j] == (#[trigger] presets@[j])@ by {}
    lemma_taken_over(old(store).presets@, all, texts_view(fresh@), presets@[k]@.id);
    lemma_taken_over(old(store).presets@, all, texts_view(fresh@), id);
    assert(all[k] == presets@[k]@);
    if !is_blank_seq(all[k].name) && all[k].id.len() > 0 && (forall|j: int|
        k < j < presets@.len() ==> (#[trigger] presets@[j])@.id.len() > 0 && presets@[j]@.id
            != presets@[k]@.id) {
        assert forall|j: int| k < j < all.len() implies (#[trigger] all[j]).id.len() > 0 && all[j].id != all[k].id by {
            assert(presets@[j]@ == all[j]);
        }
    }
    if forall|j: int|
        0 <= j < presets@.len() ==> (#[trigger] presets@[j])@.id.len() > 0 && presets@[j]@.id != id {
        assert forall|j: int| 0 <= j < all.len() implies (#[trigger] all[j]).id.len() > 0 && all[j].id != id by {
            assert(presets@[j]@ == all[j]);
        }
    }
    if forall|j: int| 0 <= j < presets@.len() ==> !is_blank_seq((#[trigger] presets@[j])@.name) {
        assert forall|j: int| 0 <= j < all.len() implies !is_blank_seq((#[trigger] all[j]).name) by {
            assert(presets@[j]@ == all[j]);
        }
    }
}

proof fn lemma_taken_over(
    rows: Seq<TemplatePresetView>,
    presets: Seq<TemplatePresetView>,
    fresh: Seq<Seq<char>>,
    id: Seq<char>,
)
    requires
        keys_distinct::<TemplatePreset>(rows),
    ensures
        keys_distinct::<TemplatePreset>(all_taken_over(rows, presets, fresh).0),
        all_taken_over(rows, presets, fresh).1 <= presets.len(),
        forall|k: int|
            0 <= k < presets.len() && !is_blank_seq((#[trigger] presets[k]).name) && presets[k].id == id
                && id.len() > 0 && (forall|j: int|
                k < j < presets.len() ==> (#[trigger] presets[j]).id.len() > 0 && presets[j].id != id)
                ==> row_with::<TemplatePreset>(all_taken_over(rows, presets, fresh).0, id) == Some(
                taken_over(presets[k], Seq::empty()),
            ),
        (forall|j: int|
            0 <= j < presets.len() ==> (#[trigger] presets[j]).id.len() > 0 && presets[j].id != id)
            ==> row_with::<TemplatePreset>(all_taken_over(rows, presets, fresh).0, id) == row_with::<
            TemplatePreset,
        >(rows, id),
        (forall|j: int| 0 <= j < presets.len() ==> !is_blank_seq((#[trigger] presets[j]).name))
            ==> all_taken_over(rows, presets, fresh).1 == presets.len(),
    decreases presets.len(),
{
    if presets.len() > 0 {
        let front = presets.drop_last();
        let n = presets.len() - 1;
        lemma_taken_over(rows, front, fresh, id);
        let before = all_taken_over(rows, front, fresh).0;
        let own = taken_over(presets[n], fresh[n]);
        put_then_get::<TemplatePreset>(before, own, id);
        assert forall|j: int| 0 <= j < front.len() implies #[trigger] front[j] == presets[j] by {}
        assert forall|k: int|
            0 <= k < presets.len() && !is_blank_seq((#[trigger] presets[k]).name) && presets[k].id == id
                && id.len() > 0 && (forall|j: int|
                k < j < presets.len() ==> (#[trigger] presets[j]).id.len() > 0 && presets[j].id != id) implies row_with::<
            TemplatePreset,
        >(all_taken_over(rows, presets, fresh).0, id) == Some(taken_over(presets[k], Seq::empty())) by {
            if k < n {
                assert(front[k] == presets[k]);
                assert(presets[n].id.len() > 0 && presets[n].id != id);
                assert forall|j: int| k < j < front.len() implies (#[trigger] front[j]).id.len() > 0
                    && front[j].id != id by {
                    assert(front[j] == presets[j]);
                }
            }
        }
        if forall|j: int|
            0 <= j < presets.len() ==> (#[trigger] presets[j]).id.len() > 0 && presets[j].id != id {
            assert(presets[n].id != id);
        }
        if forall|j: int| 0 <= j < presets.len() ==> !is_blank_seq((#[trigger] presets[j]).name) {
            assert(!is_blank_seq(presets[n].name));
        }
    }
}

/// An older document of presets is brought up to date: each gets a version and a kind where it has none,
/// and nothing else changes.
pub proof fn older_presets_are_brought_up_to_date(
    doc: PresetYamlDoc,
    fresh: &Vec<String>,
    r: PresetYamlDoc,
    k: int,
)
    requires
        call_ensures(migrate_v0_to_v1, (doc, fresh), r),
        0 <= k < doc.presets@.len(),
        fresh@.len() == doc.presets@.len(),
    ensures
        r.version == 1,
        r.presets@.len() == doc.presets@.len(),
        ({
            let p = doc.presets@[k]@;
            let q = r.presets@[k]@;
            &&& q.version == if p.version == 0 {
                1
            } else {
                p.version
            }
            &&& p.kind.len() > 0 ==> q.kind == p.kind && q.id == p.id
            &&& p.kind.len() == 0 ==> q.kind == "user:"@ + q.id && q.id == (if p.id.len() == 0 {
                fresh@[k]@
            } else {
                p.id
            })
            &&& q.name == p.name && q.description == p.description && q.template == p.template && q.sample
                == p.sample && q.builtin == p.builtin && q.created_at == p.created_at && q.changelog
                == p.changelog
        }),
{
    assert(rows_view(r.presets@).len() == r.presets@.len());
    assert(rows_view(r.presets@)[k] == r.presets@[k]@);
    assert(rows_view(doc.presets@)[k] == doc.presets@[k]@);
    assert(texts_view(fresh@)[k] == fresh@[k]@);
}

/// A retry to an endpoint with a template renders the kept event anew, with the severity of its source, and
/// goes out as what it looks like; what cannot be rendered goes out in the plain form.
pub proof fn retries_are_rendered_anew(
    store: &Storage,
    row: &FailedDeliveryRow,
    event_id: String,
    now: u64,
    ep: AlertingEndpointRowView,
    template: &str,
    data: JsonView,
    source: &str,
    severity: Severity,
    env: &AlertEnvelope,
    done: Result<(String, TemplateContentType), String>,
    r: Delivery,
)
    requires
        call_ensures(retry_delivery, (store, row, event_id, now), r),
        keys_distinct::<AlertingEndpointRow>(store.endpoints@),
        store.endpoints@.contains(ep),
        row@.endpoint_id == Some(ep.id),
        ep.template == Some(template@),
        json_read(row@.payload) == Ok::<JsonView, Seq<char>>(data),
        source@ == row@.source,
        call_ensures(severity_resolved, (store, source), severity),
        env@ == alert(event_id@, row@.source, severity, data, now),
        call_ensures(render_template, (template, env), done),
    ensures
        done is Ok ==> r@.body == (done->Ok_0).0@ && r@.content_type == (if (done->Ok_0).1 is Json {
            "application/json"@
        } else {
            "text/plain; charset=utf-8"@
        }),
        done is Err ==> is_plain_body(r@.body, row@.source, data, now) && r@.content_type
            == "application/json"@,
{
    let rows = store.endpoints@;
    lemma_position_of::<AlertingEndpointRow>(rows, ep.id);
    let i = choose|i: int| 0 <= i < rows.len() && rows[i] == ep;
    let p = position_of::<AlertingEndpointRow>(rows, ep.id)->0;
    if p != i {
        assert(rows[p].id != rows[i].id);
    }
}

} // verus!
