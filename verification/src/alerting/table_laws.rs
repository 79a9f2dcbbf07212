//! What may be stored for alerting and what storing it changes, said of the operations and in no terms
//! of how they come to their results.

use vstd::prelude::*;

use super::aggregations::{
    delete_aggregation, store_aggregation, validate_aggregation,
};
use super::config::{validate, validate_endpoint, validate_url};
use super::correlations::{delete_correlation, store_correlation, validate_correlation};
use super::endpoints::{delete_endpoint, save_endpoint};
use super::escalations::{delete_escalation, store_escalation, validate_escalation};
use super::laws::{holds_now, lacks_now, lemma_holds_now, lemma_lacks_now};
use super::recipients::{delete_recipient, store_recipient, validate_recipient_kind, without_text};
use super::retry::{validate_retry, RetryConfig};
use super::routes::{delete_route, save_route, validate_route};
use super::rule_laws::lemma_kept_members;
use super::severity::{
    delete_user_severity_hint, save_user_severity_hint, uninstall_manifest_hints, SeverityHintDto,
};
use super::silences::{
    ack_kind, clear_expired_acks, delete_ack, delete_silence, save_silence, validate_silence,
};
use super::storage::{
    AggregationRule, AggregationRuleDto, AggregationRuleDtoView, CorrelationRule,
    CorrelationRuleDto, CorrelationRuleDtoView, EscalationRule, EscalationRuleDto,
    EscalationRuleDtoView, RecipientDef, RecipientDefView, SeverityHintRow, SeverityHintRowView,
    Storage,
};
use super::store::{keys_distinct, kept, lemma_position_of, position_of, row_with};
use super::types::{
    severity_named, AckRuleRow, AckRuleRowView, AlertingEndpointRow, AlertingEndpointRowView,
    FailedDeliveryRowView, RouteRule, RouteRuleRow, RouteRuleRowView, Severity, SilenceRule,
    SilenceRuleRow, SilenceRuleRowView, WebhookConfig, WebhookEndpoint,
};
use crate::text::{byte_count, contains_seq, lower_ascii_seq, occurs_at, trim_seq};

verus! {

/// Whether an address is one that alerts may be sent to: not empty, of at most 2048 bytes, beginning
/// with `http://` or `https://` in any case of letters, without line ends, zeros and `..`.
pub open spec fn address_is_fine(url: Seq<char>) -> bool {
    let lower = lower_ascii_seq(url);
    &&& 0 < url.len()
    &&& byte_count(url) <= 2048
    &&& lower.take(7) == "http://"@ && lower.len() >= 7 || lower.take(8) == "https://"@ && lower.len() >= 8
    &&& forall|i: int|
        0 <= i < url.len() ==> #[trigger] url[i] != '\n' && url[i] != '\r' && url[i] != '\0'
    &&& forall|i: int| 0 <= i < url.len() - 1 ==> !(#[trigger] url[i] == '.' && url[i + 1] == '.')
}

/// Alerts may be sent exactly to addresses that are fine.
pub proof fn addresses_are_checked(url: &str, r: Result<(), String>)
    requires
        call_ensures(validate_url, (url,), r),
    ensures
        r is Ok == address_is_fine(url@),
{
    let s = url@;
    let lower = lower_ascii_seq(s);
    reveal_strlit("http://");
    reveal_strlit("https://");
    reveal_strlit("..");
    assert(lower.len() >= 7 ==> lower.subrange(0, 7) =~= lower.take(7));
    assert(lower.len() >= 8 ==> lower.subrange(0, 8) =~= lower.take(8));
    if contains_seq(s, ".."@) {
        let i = choose|i: int| occurs_at(s, ".."@, i);
        assert(s.subrange(i, i + 2)[0] == s[i] && s.subrange(i, i + 2)[1] == s[i + 1]);
        assert(s[i] == '.' && s[i + 1] == '.');
    }
    assert forall|i: int| 0 <= i < s.len() - 1 && #[trigger] s[i] == '.' && s[i + 1] == '.' implies contains_seq(
        s,
        ".."@,
    ) by {
        assert(s.subrange(i, i + 2) =~= ".."@);
        assert(occurs_at(s, ".."@, i));
    }
    assert forall|i: int|
        0 <= i < s.len() && (#[trigger] s[i] == '\n' || s[i] == '\r' || s[i] == '\0') implies s.contains(
        '\n',
    ) || s.contains('\r') || s.contains('\0') by {
        assert(s.contains(s[i]));
    }
}

/// An endpoint may be stored where it has a name of at most 128 bytes, an address that is fine, named
/// headers, a secret of at most 1024 bytes, a filter of sources that alerts come from, and overrides
/// with a source of at most 256 bytes each.
pub proof fn endpoints_are_checked(ep: &WebhookEndpoint, url: &str, fine: Result<(), String>, r: Result<(), String>)
    requires
        call_ensures(validate_endpoint, (ep,), r),
        url@ == ep@.url,
        call_ensures(validate_url, (url,), fine),
    ensures
        r is Ok == {
            &&& trim_seq(ep@.name).len() > 0
            &&& byte_count(trim_seq(ep@.name)) <= 128
            &&& fine is Ok
            &&& forall|i: int|
                0 <= i < ep@.headers.len() ==> (#[trigger] ep@.headers[i]).0.len() > 0
                    && !ep@.headers[i].0.contains('\n') && !ep@.headers[i].0.contains('\r')
            &&& byte_count(ep@.secret) <= 1024
            &&& forall|i: int|
                0 <= i < ep@.source_filter.len() ==> {
                    ||| #[trigger] ep@.source_filter[i] == "plugin.metrics.exceeded"@
                    ||| ep@.source_filter[i] == "capability.sla.violated"@
                    ||| ep@.source_filter[i] == "plugin.kill_switch.enabled"@
                    ||| ep@.source_filter[i] == "plugin.lifecycle.crashed"@
                }
            &&& forall|i: int|
                0 <= i < ep@.severity_overrides.len() ==> trim_seq((#[trigger] ep@.severity_overrides[i]).0).len()
                    > 0 && byte_count(ep@.severity_overrides[i].0) <= 256
        },
{
    lemma_overrides(ep@.severity_overrides, 0);
    let bad = |h: (Seq<char>, Seq<char>)| super::config::header_name_bad(h.0);
    let strange = |s: Seq<char>| !super::config::known_source(s);
    assert forall|i: int| 0 <= i < ep@.headers.len() implies bad(#[trigger] ep@.headers[i]) == (
    ep@.headers[i].0.len() == 0 || ep@.headers[i].0.contains('\n') || ep@.headers[i].0.contains('\r')) by {}
    assert forall|i: int| 0 <= i < ep@.source_filter.len() implies strange(#[trigger] ep@.source_filter[i])
        == !(ep@.source_filter[i] == "plugin.metrics.exceeded"@ || ep@.source_filter[i]
        == "capability.sla.violated"@ || ep@.source_filter[i] == "plugin.kill_switch.enabled"@
        || ep@.source_filter[i] == "plugin.lifecycle.crashed"@) by {}
}

proof fn lemma_overrides(overrides: Seq<(Seq<char>, Severity)>, i: int)
    requires
        0 <= i,
    ensures
        (super::config::overrides_complaint(overrides, i) is None) == forall|k: int|
            i <= k < overrides.len() ==> trim_seq((#[trigger] overrides[k]).0).len() > 0 && byte_count(
                overrides[k].0,
            ) <= 256,
    decreases overrides.len() - i,
{
    if i < overrides.len() {
        lemma_overrides(overrides, i + 1);
        if super::config::overrides_complaint(overrides, i) is None {
            assert forall|k: int| i <= k < overrides.len() implies trim_seq((#[trigger] overrides[k]).0).len() > 0
                && byte_count(overrides[k].0) <= 256 by {
                if k > i {
                    assert(i + 1 <= k);
                }
            }
        } else if trim_seq(overrides[i].0).len() > 0 && byte_count(overrides[i].0) <= 256 {
            let k = choose|k: int|
                i + 1 <= k < overrides.len() && !(trim_seq((#[trigger] overrides[k]).0).len() > 0
                    && byte_count(overrides[k].0) <= 256);
            assert(i <= k);
        }
    }
}

/// The one url may be configured where it is off, or its address is fine, the pause between the same
/// events at most an hour, and every header named.
pub proof fn configurations_are_checked(cfg: &WebhookConfig, url: &str, fine: Result<(), String>, r: Result<(), String>)
    requires
        call_ensures(validate, (cfg,), r),
        url@ == cfg@.url,
        call_ensures(validate_url, (url,), fine),
    ensures
        r is Ok == (!cfg@.enabled || fine is Ok && cfg@.min_interval_secs <= 3600 && forall|i: int|
            0 <= i < cfg@.custom_headers.len() ==> (#[trigger] cfg@.custom_headers[i]).0.len() > 0
                && !cfg@.custom_headers[i].0.contains('\n') && !cfg@.custom_headers[i].0.contains('\r')),
{
    let bad = |h: (Seq<char>, Seq<char>)| super::config::header_name_bad(h.0);
    assert forall|i: int| 0 <= i < cfg@.custom_headers.len() implies bad(#[trigger] cfg@.custom_headers[i]) == (
    cfg@.custom_headers[i].0.len() == 0 || cfg@.custom_headers[i].0.contains('\n')
        || cfg@.custom_headers[i].0.contains('\r')) by {}
}

/// Retries may be configured with one to a hundred attempts, waits from a second to a day at first and
/// to a week at last, and at most a year of keeping.
pub proof fn retries_are_checked(cfg: &RetryConfig, r: Result<(), String>)
    requires
        call_ensures(validate_retry, (cfg,), r),
    ensures
        r is Ok == (1 <= cfg.max_attempts <= 100 && 1 <= cfg.initial_backoff_secs <= 86400
            && cfg.initial_backoff_secs <= cfg.max_backoff_secs <= 604800 && cfg.retention_days <= 365),
{
}

/// A route may be stored where it has a name and a pattern, goes to one to 32 endpoints or recipients,
/// has a priority from -1000 to 10000, and all of its parts have their sizes.
pub proof fn routes_are_checked(rule: &RouteRule, r: Result<(), String>)
    requires
        call_ensures(validate_route, (rule,), r),
    ensures
        r is Ok == {
            &&& trim_seq(rule@.name).len() > 0
            &&& byte_count(rule@.name) <= 128
            &&& rule@.kind_pattern.len() > 0
            &&& byte_count(rule@.kind_pattern) <= 256
            &&& rule@.target_endpoint_ids.len() > 0 || rule@.recipients.len() > 0
            &&& rule@.target_endpoint_ids.len() <= 32
            &&& rule@.recipients.len() <= 32
            &&& forall|i: int|
                0 <= i < rule@.target_endpoint_ids.len() ==> (#[trigger] rule@.target_endpoint_ids[i]).len() > 0
                    && byte_count(rule@.target_endpoint_ids[i]) <= 128
            &&& -1000 <= rule@.priority <= 10000
            &&& rule@.payload_path is Some ==> rule@.payload_path->0.len() > 0 && byte_count(
                rule@.payload_path->0,
            ) <= 256
            &&& rule@.payload_match is Some ==> byte_count(rule@.payload_match->0) <= 1024
            &&& rule@.tags.len() <= 32
            &&& forall|i: int|
                0 <= i < rule@.tags.len() ==> (#[trigger] rule@.tags[i]).len() > 0 && byte_count(rule@.tags[i])
                    <= 64
            &&& rule@.seen_in_last is Some ==> {
                let look = rule@.seen_in_last->0;
                trim_seq(look.pattern).len() > 0 && byte_count(look.pattern) <= 256 && 1 <= look.window_secs
                    <= 3600
            }
        },
{
}

/// A silence may be stored where it has a name, lasts at most a week, and has a weekday and an hour.
pub proof fn silences_are_checked(s: &SilenceRule, r: Result<(), String>)
    requires
        call_ensures(validate_silence, (s,), r),
    ensures
        r is Ok == {
            &&& trim_seq(s@.name).len() > 0
            &&& byte_count(s@.name) <= 128
            &&& s@.starts_at < s@.ends_at
            &&& s@.ends_at - s@.starts_at <= 604800
            &&& s@.weekdays != 0
            &&& s@.start_hour < s@.end_hour <= 24
            &&& s@.kind_pattern.len() == 0 || s@.kind_pattern == "*"@ || (!contains_seq(
                s@.kind_pattern,
                ".."@,
            ) && !contains_seq(s@.kind_pattern, "//"@) && byte_count(s@.kind_pattern) <= 256)
        },
{
}

/// A frequency rule may be stored where it has an id, a name, a window, a threshold and one of the three
/// actions, the one that lowers the severity with a severity.
pub proof fn frequency_rules_are_checked(rule: &AggregationRule, r: Result<(), String>)
    requires
        call_ensures(validate_aggregation, (rule,), r),
    ensures
        r is Ok == {
            &&& trim_seq(rule@.id).len() > 0
            &&& trim_seq(rule@.name).len() > 0
            &&& rule@.window_secs > 0
            &&& rule@.threshold_count > 0
            &&& {
                ||| rule@.action == "suppress"@
                ||| rule@.action == "merge"@
                ||| rule@.action == "downgrade"@ && rule@.target_severity is Some && severity_named(
                    rule@.target_severity->0,
                ) is Some
            }
        },
{
    reveal_strlit("suppress");
    reveal_strlit("downgrade");
    reveal_strlit("merge");
    assert("suppress"@.len() == 8 && "downgrade"@.len() == 9 && "merge"@.len() == 5);
}

/// A suppression rule may be stored where it has an id, a name, a window and two kinds.
pub proof fn suppression_rules_are_checked(rule: &CorrelationRule, r: Result<(), String>)
    requires
        call_ensures(validate_correlation, (rule,), r),
    ensures
        r is Ok == (trim_seq(rule@.id).len() > 0 && trim_seq(rule@.name).len() > 0 && rule@.window_secs > 0
            && trim_seq(rule@.kind_pattern_a).len() > 0 && trim_seq(rule@.kind_pattern_b).len() > 0),
{
}

/// An escalation rule may be stored where it has an id, a name, a pattern, a wait and a severity.
pub proof fn escalation_rules_are_checked(rule: &EscalationRule, r: Result<(), String>)
    requires
        call_ensures(validate_escalation, (rule,), r),
    ensures
        r is Ok == (trim_seq(rule@.id).len() > 0 && trim_seq(rule@.name).len() > 0
            && rule@.kind_pattern.len() > 0 && rule@.escalate_after_secs > 0 && severity_named(
            rule@.target_severity,
        ) is Some),
{
}

/// A severity goes by its name in any case of letters, and `fatal` stands for `critical`.
pub proof fn severities_go_by_their_names(s: &str, r: Option<Severity>)
    requires
        call_ensures(Severity::parse, (s,), r),
    ensures
        ({
            let low = lower_ascii_seq(s@);
            &&& r == Some(Severity::Info) <==> low == "info"@
            &&& r == Some(Severity::Warn) <==> low == "warn"@
            &&& r == Some(Severity::Error) <==> low == "error"@
            &&& r == Some(Severity::Critical) <==> low == "critical"@ || low == "fatal"@
        }),
{
    reveal_strlit("info");
    reveal_strlit("warn");
    reveal_strlit("error");
    reveal_strlit("critical");
    reveal_strlit("fatal");
    assert("info"@.len() == 4 && "warn"@.len() == 4 && "error"@.len() == 5 && "critical"@.len() == 8
        && "fatal"@.len() == 5);
    assert("info"@[0] == 'i' && "warn"@[0] == 'w' && "error"@[0] == 'e' && "fatal"@[0] == 'f');
}

/// Recipients are webhooks, logs to the console or to a file, or mail; nothing else.
pub proof fn recipients_are_of_four_kinds(kind: &str, r: Result<(), String>)
    requires
        call_ensures(validate_recipient_kind, (kind,), r),
    ensures
        r is Ok == (kind@ == "webhook"@ || kind@ == "log:stderr"@ || kind@ == "log:file"@ || kind@
            == "email:smtp"@),
{
}

/// Deleting an endpoint takes it away and leaves all others.
pub proof fn deleting_takes_one_endpoint(store: &mut Storage, id: &str, r: (bool, usize))
    requires
        call_ensures(delete_endpoint, (store, id), r),
        keys_distinct::<AlertingEndpointRow>(old(store).endpoints@),
    ensures
        lacks_now(old(store).endpoints@, final(store).endpoints@, id@, |v: AlertingEndpointRowView| v.id),
{
    lemma_lacks_now::<AlertingEndpointRow>(old(store).endpoints@, id@, |v: AlertingEndpointRowView| v.id);
}

/// Deleting a route takes it away and leaves all others.
pub proof fn deleting_takes_one_route(store: &mut Storage, id: &str, r: bool)
    requires
        call_ensures(delete_route, (store, id), r),
        keys_distinct::<RouteRuleRow>(old(store).routes@),
    ensures
        lacks_now(old(store).routes@, final(store).routes@, id@, |v: RouteRuleRowView| v.id),
{
    lemma_lacks_now::<RouteRuleRow>(old(store).routes@, id@, |v: RouteRuleRowView| v.id);
}

/// Deleting a silence takes it away and leaves all others.
pub proof fn deleting_takes_one_silence(store: &mut Storage, id: &str, r: bool)
    requires
        call_ensures(delete_silence, (store, id), r),
        keys_distinct::<SilenceRuleRow>(old(store).silences@),
    ensures
        lacks_now(old(store).silences@, final(store).silences@, id@, |v: SilenceRuleRowView| v.id),
{
    lemma_lacks_now::<SilenceRuleRow>(old(store).silences@, id@, |v: SilenceRuleRowView| v.id);
}

/// Deleting an acknowledgement takes it away and leaves all others.
pub proof fn deleting_takes_one_acknowledgement(store: &mut Storage, id: &str, r: bool)
    requires
        call_ensures(delete_ack, (store, id), r),
        keys_distinct::<AckRuleRow>(old(store).acks@),
    ensures
        lacks_now(old(store).acks@, final(store).acks@, id@, |v: AckRuleRowView| v.id),
{
    lemma_lacks_now::<AckRuleRow>(old(store).acks@, id@, |v: AckRuleRowView| v.id);
}

/// Deleting a frequency rule takes it away and leaves all others.
pub proof fn deleting_takes_one_frequency_rule(store: &mut Storage, id: &str, r: bool)
    requires
        call_ensures(delete_aggregation, (store, id), r),
        keys_distinct::<AggregationRuleDto>(old(store).aggregations@),
    ensures
        lacks_now(old(store).aggregations@, final(store).aggregations@, id@, |v: AggregationRuleDtoView| v.id),
{
    lemma_lacks_now::<AggregationRuleDto>(old(store).aggregations@, id@, |v: AggregationRuleDtoView| v.id);
}

/// Deleting a suppression rule takes it away and leaves all others.
pub proof fn deleting_takes_one_suppression_rule(store: &mut Storage, id: &str, r: bool)
    requires
        call_ensures(delete_correlation, (store, id), r),
        keys_distinct::<CorrelationRuleDto>(old(store).correlations@),
    ensures
        lacks_now(old(store).correlations@, final(store).correlations@, id@, |v: CorrelationRuleDtoView| v.id),
{
    lemma_lacks_now::<CorrelationRuleDto>(old(store).correlations@, id@, |v: CorrelationRuleDtoView| v.id);
}

/// Deleting an escalation rule takes it away and leaves all others.
pub proof fn deleting_takes_one_escalation_rule(store: &mut Storage, id: &str, r: bool)
    requires
        call_ensures(delete_escalation, (store, id), r),
        keys_distinct::<EscalationRuleDto>(old(store).escalations@),
    ensures
        lacks_now(old(store).escalations@, final(store).escalations@, id@, |v: EscalationRuleDtoView| v.id),
{
    lemma_lacks_now::<EscalationRuleDto>(old(store).escalations@, id@, |v: EscalationRuleDtoView| v.id);
}

/// Deleting a recipient takes it away and leaves all others.
pub proof fn deleting_takes_one_recipient(store: &mut Storage, id: &str, r: (bool, usize))
    requires
        call_ensures(delete_recipient, (store, id), r),
        keys_distinct::<RecipientDef>(old(store).recipients@),
    ensures
        lacks_now(old(store).recipients@, final(store).recipients@, id@, |v: RecipientDefView| v.id),
{
    lemma_lacks_now::<RecipientDef>(old(store).recipients@, id@, |v: RecipientDefView| v.id);
}

/// Deleting the hint of a user takes it away and leaves all others.
pub proof fn deleting_takes_one_hint(store: &mut Storage, source: &str, r: bool)
    requires
        call_ensures(delete_user_severity_hint, (store, source), r),
        keys_distinct::<SeverityHintRow>(old(store).user_hints@),
    ensures
        lacks_now(old(store).user_hints@, final(store).user_hints@, source@, |v: SeverityHintRowView| v.source),
{
    lemma_lacks_now::<SeverityHintRow>(old(store).user_hints@, source@, |v: SeverityHintRowView| v.source);
}

/// What is stored under an id is made when it is first stored, and that time stays.
pub open spec fn made_first<V>(
    rows: Seq<V>,
    id: Seq<char>,
    key: spec_fn(V) -> Seq<char>,
    made: spec_fn(V) -> int,
    now: u64,
    at: u64,
) -> bool {
    &&& forall|i: int| 0 <= i < rows.len() && key(#[trigger] rows[i]) == id ==> at == made(rows[i])
    &&& (forall|i: int| 0 <= i < rows.len() ==> key(#[trigger] rows[i]) != id) ==> at == now
}

proof fn lemma_only<R: super::store::Row>(rows: Seq<R::V>, k: Seq<char>)
    requires
        keys_distinct::<R>(rows),
    ensures
        forall|i: int| 0 <= i < rows.len() && R::key(#[trigger] rows[i]) == k ==> row_with::<R>(rows, k) == Some(rows[i]),
        (forall|i: int| 0 <= i < rows.len() ==> R::key(#[trigger] rows[i]) != k) ==> row_with::<R>(rows, k) is None,
{
    lemma_position_of::<R>(rows, k);
    assert forall|i: int| 0 <= i < rows.len() && R::key(#[trigger] rows[i]) == k implies row_with::<R>(rows, k)
        == Some(rows[i]) by {
        let p = position_of::<R>(rows, k)->0;
        if p != i {
            assert(p < i);
            assert(R::key(rows[p]) != R::key(rows[i]));
        }
    }
}

/// The id that something is stored under: its own, or a new one where it has none.
pub open spec fn own_or(id: Seq<char>, fresh: Seq<char>) -> Seq<char> {
    if id.len() == 0 {
        fresh
    } else {
        id
    }
}

/// An endpoint is stored as it was handed in, in place of the one with its id, unless it is not fine or
/// another endpoint has its name; then nothing changes.
pub proof fn endpoints_are_stored_under_one_name(
    store: &mut Storage,
    ep: WebhookEndpoint,
    fresh_id: &str,
    now: u64,
    fine: Result<(), String>,
    r: Result<AlertingEndpointRow, String>,
)
    requires
        call_ensures(save_endpoint, (store, ep, fresh_id, now), r),
        call_ensures(validate_endpoint, (&ep,), fine),
        keys_distinct::<AlertingEndpointRow>(old(store).endpoints@),
    ensures
        r is Ok == (fine is Ok && forall|i: int|
            0 <= i < old(store).endpoints@.len() && (#[trigger] old(store).endpoints@[i]).name == ep@.name
                ==> old(store).endpoints@[i].id == ep@.id),
        r is Err ==> final(store).endpoints@ == old(store).endpoints@,
        r is Ok ==> {
            let row = r->Ok_0@;
            &&& holds_now(
                old(store).endpoints@,
                final(store).endpoints@,
                row,
                |v: AlertingEndpointRowView| v.id,
            )
            &&& row.id == own_or(ep@.id, fresh_id@)
            &&& row.name == ep@.name && row.url == ep@.url && row.enabled == ep@.enabled
            &&& row.headers == ep@.headers && row.secret == ep@.secret
            &&& row.source_filter == ep@.source_filter && row.schema_version == ep@.schema_version
            &&& row.template == ep@.template && row.template_sample == ep@.template_sample
            &&& (match row.severity_overrides {
                Some(o) => o,
                None => Seq::empty(),
            }) == ep@.severity_overrides
            &&& made_first(
                old(store).endpoints@,
                row.id,
                |v: AlertingEndpointRowView| v.id,
                |v: AlertingEndpointRowView| v.created_at as int,
                now,
                row.created_at,
            )
        },
{
    let rows = old(store).endpoints@;
    let other = |e: AlertingEndpointRowView| e.name == ep@.name && e.id != ep@.id;
    if r is Ok {
        lemma_holds_now::<AlertingEndpointRow>(rows, r->Ok_0@, |v: AlertingEndpointRowView| v.id);
        lemma_only::<AlertingEndpointRow>(rows, r->Ok_0@.id);
        assert(ep@.severity_overrides.len() == 0 ==> ep@.severity_overrides =~= Seq::empty());
    }
    assert forall|i: int| 0 <= i < rows.len() implies other(#[trigger] rows[i]) == (rows[i].name == ep@.name
        && rows[i].id != ep@.id) by {}
}

/// A route is stored as it was handed in, in place of the one with its id, unless it is not fine.
pub proof fn routes_are_stored_as_they_are(
    store: &mut Storage,
    rule: RouteRule,
    fresh_id: &str,
    now: u64,
    fine: Result<(), String>,
    r: Result<RouteRuleRow, String>,
)
    requires
        call_ensures(save_route, (store, rule, fresh_id, now), r),
        call_ensures(validate_route, (&rule,), fine),
        keys_distinct::<RouteRuleRow>(old(store).routes@),
    ensures
        r is Ok == fine is Ok,
        r is Err ==> final(store).routes@ == old(store).routes@,
        r is Ok ==> {
            let row = r->Ok_0@;
            &&& holds_now(old(store).routes@, final(store).routes@, row, |v: RouteRuleRowView| v.id)
            &&& row.id == own_or(rule@.id, fresh_id@)
            &&& row.name == rule@.name && row.priority == rule@.priority && row.enabled == rule@.enabled
            &&& row.kind_pattern == rule@.kind_pattern && row.payload_path == rule@.payload_path
            &&& row.payload_match == rule@.payload_match && row.target_endpoint_ids
                == rule@.target_endpoint_ids
            &&& row.recipients == rule@.recipients && row.tags == rule@.tags && row.seen_in_last
                == rule@.seen_in_last
            &&& made_first(
                old(store).routes@,
                row.id,
                |v: RouteRuleRowView| v.id,
                |v: RouteRuleRowView| v.created_at as int,
                now,
                row.created_at,
            )
        },
{
    let rows = old(store).routes@;
    if r is Ok {
        lemma_holds_now::<RouteRuleRow>(rows, r->Ok_0@, |v: RouteRuleRowView| v.id);
        lemma_only::<RouteRuleRow>(rows, r->Ok_0@.id);
    }
}

/// A silence is stored as it was handed in, in place of the one with its id, unless it is not fine.
pub proof fn silences_are_stored_as_they_are(
    store: &mut Storage,
    s: SilenceRule,
    fresh_id: &str,
    now: u64,
    fine: Result<(), String>,
    r: Result<SilenceRuleRow, String>,
)
    requires
        call_ensures(save_silence, (store, s, fresh_id, now), r),
        call_ensures(validate_silence, (&s,), fine),
        keys_distinct::<SilenceRuleRow>(old(store).silences@),
    ensures
        r is Ok == fine is Ok,
        r is Err ==> final(store).silences@ == old(store).silences@,
        r is Ok ==> {
            let row = r->Ok_0@;
            &&& holds_now(old(store).silences@, final(store).silences@, row, |v: SilenceRuleRowView| v.id)
            &&& row.id == own_or(s@.id, fresh_id@)
            &&& row.name == s@.name && row.kind_pattern == s@.kind_pattern
            &&& row.starts_at == s@.starts_at && row.ends_at == s@.ends_at && row.weekdays == s@.weekdays
            &&& row.start_hour == s@.start_hour && row.end_hour == s@.end_hour
            &&& made_first(
                old(store).silences@,
                row.id,
                |v: SilenceRuleRowView| v.id,
                |v: SilenceRuleRowView| v.created_at as int,
                now,
                row.created_at,
            )
        },
{
    let rows = old(store).silences@;
    if r is Ok {
        lemma_holds_now::<SilenceRuleRow>(rows, r->Ok_0@, |v: SilenceRuleRowView| v.id);
        lemma_only::<SilenceRuleRow>(rows, r->Ok_0@.id);
    }
}

/// A pattern is acknowledged for one second to a week from now on.
pub proof fn patterns_are_acknowledged_for_a_while(
    store: &mut Storage,
    kind_pattern: String,
    window_secs: u64,
    fresh_id: &str,
    now: u64,
    r: Result<AckRuleRow, String>,
)
    requires
        call_ensures(ack_kind, (store, kind_pattern, window_secs, fresh_id, now), r),
        keys_distinct::<AckRuleRow>(old(store).acks@),
    ensures
        r is Ok == (kind_pattern@.len() > 0 && 1 <= window_secs <= 604800),
        r is Err ==> final(store).acks@ == old(store).acks@,
        r is Ok ==> {
            let row = r->Ok_0@;
            &&& holds_now(old(store).acks@, final(store).acks@, row, |v: AckRuleRowView| v.id)
            &&& row.id == fresh_id@
            &&& row.kind_pattern == kind_pattern@
            &&& row.ack_until == if now + window_secs > u64::MAX {
                u64::MAX as int
            } else {
                now + window_secs
            }
            &&& row.created_at == now
        },
{
    if r is Ok {
        lemma_holds_now::<AckRuleRow>(old(store).acks@, r->Ok_0@, |v: AckRuleRowView| v.id);
    }
}

/// Acknowledgements that have run out are cleared, and no others.
pub proof fn expired_acknowledgements_are_cleared(store: &mut Storage, now: u64, v: AckRuleRowView, r: usize)
    requires
        call_ensures(clear_expired_acks, (store, now), r),
    ensures
        final(store).acks@.contains(v) == (old(store).acks@.contains(v) && now < v.ack_until),
        r == old(store).acks@.len() - final(store).acks@.len(),
{
    lemma_kept_members(old(store).acks@, |w: AckRuleRowView| w.ack_until > now);
    assert(final(store).acks@.contains(v) == kept(
        old(store).acks@,
        |w: AckRuleRowView| w.ack_until > now,
    ).contains(v));
}

/// An id of one's own, or a new one with a prefix where it is blank.
pub open spec fn own_or_new(id: Seq<char>, prefix: Seq<char>, fresh: Seq<char>) -> Seq<char> {
    if trim_seq(id).len() == 0 {
        prefix + fresh
    } else {
        id
    }
}

/// A frequency rule is stored as it was handed in, in place of the one with its id.
pub proof fn frequency_rules_are_stored_as_they_are(
    store: &mut Storage,
    rule: AggregationRule,
    fresh: &str,
    now: u64,
    r: Result<AggregationRuleDto, String>,
)
    requires
        call_ensures(store_aggregation, (store, rule, fresh, now), r),
        keys_distinct::<AggregationRuleDto>(old(store).aggregations@),
    ensures
        r is Err ==> final(store).aggregations@ == old(store).aggregations@,
        r is Ok ==> {
            let row = r->Ok_0@;
            &&& holds_now(
                old(store).aggregations@,
                final(store).aggregations@,
                row,
                |v: AggregationRuleDtoView| v.id,
            )
            &&& row.id == own_or_new(rule@.id, "agg-"@, fresh@)
            &&& row.name == rule@.name && row.kind_pattern == rule@.kind_pattern
            &&& row.window_secs == rule@.window_secs && row.threshold_count == rule@.threshold_count
            &&& row.action == rule@.action && row.target_severity == rule@.target_severity
            &&& row.enabled == rule@.enabled
        },
{
    if r is Ok {
        lemma_holds_now::<AggregationRuleDto>(
            old(store).aggregations@,
            r->Ok_0@,
            |v: AggregationRuleDtoView| v.id,
        );
    }
}

/// A suppression rule is stored as it was handed in, in place of the one with its id.
pub proof fn suppression_rules_are_stored_as_they_are(
    store: &mut Storage,
    rule: CorrelationRule,
    fresh: &str,
    now: u64,
    r: Result<CorrelationRuleDto, String>,
)
    requires
        call_ensures(store_correlation, (store, rule, fresh, now), r),
        keys_distinct::<CorrelationRuleDto>(old(store).correlations@),
    ensures
        r is Err ==> final(store).correlations@ == old(store).correlations@,
        r is Ok ==> {
            let row = r->Ok_0@;
            &&& holds_now(
                old(store).correlations@,
                final(store).correlations@,
                row,
                |v: CorrelationRuleDtoView| v.id,
            )
            &&& row.id == own_or_new(rule@.id, "cor-"@, fresh@)
            &&& row.name == rule@.name && row.kind_pattern_a == rule@.kind_pattern_a
            &&& row.kind_pattern_b == rule@.kind_pattern_b && row.window_secs == rule@.window_secs
            &&& row.enabled == rule@.enabled
        },
{
    if r is Ok {
        lemma_holds_now::<CorrelationRuleDto>(
            old(store).correlations@,
            r->Ok_0@,
            |v: CorrelationRuleDtoView| v.id,
        );
    }
}

/// An escalation rule is stored as it was handed in, in place of the one with its id.
pub proof fn escalation_rules_are_stored_as_they_are(
    store: &mut Storage,
    rule: EscalationRule,
    fresh: &str,
    now: u64,
    r: Result<EscalationRuleDto, String>,
)
    requires
        call_ensures(store_escalation, (store, rule, fresh, now), r),
        keys_distinct::<EscalationRuleDto>(old(store).escalations@),
    ensures
        r is Err ==> final(store).escalations@ == old(store).escalations@,
        r is Ok ==> {
            let row = r->Ok_0@;
            &&& holds_now(
                old(store).escalations@,
                final(store).escalations@,
                row,
                |v: EscalationRuleDtoView| v.id,
            )
            &&& row.id == own_or_new(rule@.id, "esc-"@, fresh@)
            &&& row.name == rule@.name && row.kind_pattern == rule@.kind_pattern
            &&& row.escalate_after_secs == rule@.escalate_after_secs
            &&& row.target_severity == rule@.target_severity && row.target_endpoint_ids
                == rule@.target_endpoint_ids
            &&& row.enabled == rule@.enabled
        },
{
    if r is Ok {
        lemma_holds_now::<EscalationRuleDto>(
            old(store).escalations@,
            r->Ok_0@,
            |v: EscalationRuleDtoView| v.id,
        );
    }
}

/// A recipient is stored under its trimmed name, which no other has; a refused one changes nothing.
pub proof fn recipients_are_stored_under_one_name(
    store: &mut Storage,
    rec: RecipientDef,
    fresh: &str,
    now: u64,
    r: Result<RecipientDef, String>,
)
    requires
        call_ensures(store_recipient, (store, rec, fresh, now), r),
        keys_distinct::<RecipientDef>(old(store).recipients@),
    ensures
        r is Ok == {
            let name = trim_seq(rec@.name);
            &&& rec@.kind == "webhook"@ || rec@.kind == "log:stderr"@ || rec@.kind == "log:file"@ || rec@.kind
                == "email:smtp"@
            &&& 0 < name.len()
            &&& byte_count(name) <= 64
            &&& forall|i: int|
                0 <= i < old(store).recipients@.len() && (#[trigger] old(store).recipients@[i]).name == name
                    ==> old(store).recipients@[i].id == own_or(rec@.id, fresh@)
        },
        r is Err ==> final(store).recipients@ == old(store).recipients@,
        r is Ok ==> {
            let row = r->Ok_0@;
            &&& holds_now(
                old(store).recipients@,
                final(store).recipients@,
                row,
                |v: RecipientDefView| v.id,
            )
            &&& row.id == own_or(rec@.id, fresh@)
            &&& row.name == trim_seq(rec@.name)
            &&& row.kind == rec@.kind && row.config == rec@.config
            &&& row.created_at == if rec@.created_at == 0 {
                now
            } else {
                rec@.created_at
            }
        },
{
    let rows = old(store).recipients@;
    let name = trim_seq(rec@.name);
    let id = own_or(rec@.id, fresh@);
    let other = |v: RecipientDefView| v.name == name && v.id != id;
    assert forall|i: int| 0 <= i < rows.len() implies other(#[trigger] rows[i]) == (rows[i].name == name
        && rows[i].id != id) by {}
    assert(super::recipients::recipient_name_taken(rows, name, id) == super::store::any_of(rows, other));
    if r is Ok {
        lemma_holds_now::<RecipientDef>(rows, r->Ok_0@, |v: RecipientDefView| v.id);
    }
}

/// The hint of a user is stored under its source, with the name of the severity that was meant.
pub proof fn hints_of_users_are_stored(
    store: &mut Storage,
    source: &str,
    severity: &str,
    now: i64,
    meant: Option<Severity>,
    r: Result<SeverityHintDto, String>,
)
    requires
        call_ensures(save_user_severity_hint, (store, source, severity, now), r),
        call_ensures(Severity::parse, (severity,), meant),
        keys_distinct::<SeverityHintRow>(old(store).user_hints@),
    ensures
        r is Ok == (trim_seq(source@).len() > 0 && meant is Some),
        r is Err ==> final(store).user_hints@ == old(store).user_hints@,
        final(store).manifest_hints@ == old(store).manifest_hints@,
        r is Ok ==> exists|row: SeverityHintRowView|
            {
                &&& #[trigger] holds_now(
                    old(store).user_hints@,
                    final(store).user_hints@,
                    row,
                    hint_key(),
                )
                &&& row.source == source@
                &&& row.severity == super::laws::word_for(meant->0)
                &&& row.origin == "user"@
                &&& row.updated_at == now
            },
{
    if r is Ok {
        let row = super::severity::user_hint(source@, meant->0, now);
        lemma_holds_now::<SeverityHintRow>(old(store).user_hints@, row, hint_key());
        assert(holds_now(old(store).user_hints@, final(store).user_hints@, row, hint_key()));
    }
}

/// What names a hint.
pub open spec fn hint_key() -> spec_fn(SeverityHintRowView) -> Seq<char> {
    |v: SeverityHintRowView| v.source
}

/// The hints of a plugin go with it, and no others.
pub proof fn hints_go_with_their_plugin(store: &mut Storage, plugin_id: &str, v: SeverityHintRowView, r: usize)
    requires
        call_ensures(uninstall_manifest_hints, (store, plugin_id), r),
    ensures
        final(store).manifest_hints@.contains(v) == (old(store).manifest_hints@.contains(v) && v.plugin_id
            != Some(plugin_id@)),
        final(store).user_hints@ == old(store).user_hints@,
{
    lemma_kept_members(
        old(store).manifest_hints@,
        |w: SeverityHintRowView| w.plugin_id != Some(plugin_id@),
    );
    assert(final(store).manifest_hints@.contains(v) == kept(
        old(store).manifest_hints@,
        |w: SeverityHintRowView| w.plugin_id != Some(plugin_id@),
    ).contains(v));
}

/// Kept deliveries go with their endpoint, and no others.
pub proof fn deliveries_go_with_their_endpoint(
    store: &mut Storage,
    id: &str,
    v: FailedDeliveryRowView,
    r: (bool, usize),
)
    requires
        call_ensures(delete_endpoint, (store, id), r),
    ensures
        final(store).deliveries@.contains(v) == (old(store).deliveries@.contains(v) && v.endpoint_id != Some(
            id@,
        )),
{
    lemma_kept_members(
        old(store).deliveries@,
        |w: FailedDeliveryRowView| w.endpoint_id != Some(id@),
    );
    assert(final(store).deliveries@.contains(v) == kept(
        old(store).deliveries@,
        |w: FailedDeliveryRowView| w.endpoint_id != Some(id@),
    ).contains(v));
}

/// Routes stay when a recipient is deleted, without their references to it.
pub proof fn routes_lose_a_deleted_recipient(store: &mut Storage, id: &str, i: int, x: Seq<char>, r: (bool, usize))
    requires
        call_ensures(delete_recipient, (store, id), r),
        0 <= i < old(store).routes@.len(),
    ensures
        final(store).routes@.len() == old(store).routes@.len(),
        final(store).routes@[i].id == old(store).routes@[i].id,
        final(store).routes@[i].target_endpoint_ids == old(store).routes@[i].target_endpoint_ids,
        final(store).routes@[i].enabled == old(store).routes@[i].enabled,
        final(store).routes@[i].priority == old(store).routes@[i].priority,
        final(store).routes@[i].recipients.contains(x) == (old(store).routes@[i].recipients.contains(x) && x
            != "webhook:"@ + id@),
{
    lemma_without_text(old(store).routes@[i].recipients, "webhook:"@ + id@, x);
}

proof fn lemma_without_text(list: Seq<Seq<char>>, gone: Seq<char>, x: Seq<char>)
    ensures
        without_text(list, gone).contains(x) == (list.contains(x) && x != gone),
    decreases list.len(),
{
    if list.len() > 0 {
        let front = list.drop_last();
        let before = without_text(front, gone);
        lemma_without_text(front, gone, x);
        let out = without_text(list, gone);
        if list.contains(x) && x != gone {
            let k = choose|k: int| 0 <= k < list.len() && list[k] == x;
            if k < front.len() {
                assert(front[k] == x);
                let j = choose|j: int| 0 <= j < before.len() && before[j] == x;
                assert(out[j] == x);
            } else {
                assert(out[before.len() as int] == x);
            }
        }
        if out.contains(x) {
            let j = choose|j: int| 0 <= j < out.len() && out[j] == x;
            if j < before.len() {
                assert(before[j] == x);
                let k = choose|k: int| 0 <= k < front.len() && front[k] == x;
                assert(list[k] == x);
            } else {
                assert(list[list.len() - 1] == x);
            }
        }
    }
}

} // verus!
