//! Where severities come from, what frequency and suppression rules do to an event, and when it is, said
//! of the operations and in no terms of how they come to their results.

use vstd::prelude::*;

use super::aggregations::{
    aggregations_on, apply_aggregation_decision, glob_fits, matching_aggregation,
    AggregationDecision,
};
use super::config::{apply_endpoint_severity_override, is_known_source};
use super::correlations::{find_suppressing, rule_suppresses, suppresses};
use super::flow_laws::is_rule_for;
use super::laws::{lemma_due, severity_due};
use super::rule_laws::{
    covers_glob, drops, hints_say, lemma_drops, lemma_glob, lemma_on_members,
};
use super::severity::{
    aggregation_action_severity, cascade_delete_severity_hint, correlation_decision_severity,
    correlation_names, effective_severity_with_reason, escalation_target_severity, hinted,
    install_manifest_hints, list_severity_hints, manifest_hint, propagation_trace,
    route_dispatch_severity, route_names, severity_inheritance_chain, severity_resolved,
    with_manifest, AlertingManifest, CascadeReport, PropagationTrace, SeverityHintDto,
    SeverityHintDtoView, SeverityLink, SeverityPolicy,
};
use super::stamps::Stamp;
use super::storage::{
    AggregationRuleDto, AggregationRuleDtoView, CorrelationRuleDto, CorrelationRuleDtoView,
    SeverityHintRow, SeverityHintRowView, Storage,
};
use super::store::{
    by_rank, first_index, kept, keys_distinct, lemma_first_index, lemma_kept_sorted,
    lemma_position_of, listing_is_sorted_and_complete, position_of, put_then_get, remove_then_get,
    row_with, rows_view, Table,
};
use super::types::{
    overrides_view, severity_name, severity_name_reads_back, severity_named, RouteRuleRow, RouteRuleRowView, Severity,
};
use super::util::{hour_from_unix, weekday_from_unix};
use crate::json::{Json, JsonView};
use crate::laws::holds_at;
use crate::text::decimal_seq;

verus! {

/// Of the four that have a say in the severity of a source, exactly one counts: its user where they named
/// one that exists, else its plugin where it said anything, else the default.
pub proof fn one_say_counts(
    store: &Storage,
    source: &str,
    r: Vec<SeverityLink>,
    by_user: bool,
    by_plugin: bool,
)
    requires
        call_ensures(severity_inheritance_chain, (store, source), r),
        keys_distinct::<SeverityHintRow>(store.user_hints@),
        keys_distinct::<SeverityHintRow>(store.manifest_hints@),
        by_user == exists|s: Severity| #[trigger] hints_say(store.user_hints@, source@, s),
        by_plugin == exists|i: int|
            0 <= i < store.manifest_hints@.len() && (#[trigger] store.manifest_hints@[i]).source == source@,
    ensures
        r@.len() == 4,
        r@[0].policy == SeverityPolicy::Manifest && r@[0].hit == (!by_user && by_plugin),
        r@[1].policy == SeverityPolicy::PluginDefault && r@[1].hit == (!by_user && !by_plugin),
        r@[2].policy == SeverityPolicy::UserOverride && r@[2].hit == by_user,
        r@[3].policy == SeverityPolicy::Disabled && !r@[3].hit,
        forall|i: int| 0 <= i < 4 ==> (#[trigger] r@[i])@.source == source@,
        forall|s: Severity| #[trigger]
            hints_say(store.user_hints@, source@, s) ==> r@[2].severity == Some(s),
        forall|s: Severity| #[trigger]
            hints_say(store.manifest_hints@, source@, s) ==> r@[0].severity == Some(s),
        forall|i: int|
            0 <= i < store.manifest_hints@.len() && (#[trigger] store.manifest_hints@[i]).source == source@
                ==> r@[0]@.plugin_id == store.manifest_hints@[i].plugin_id,
        r@[3].severity is None,
{
    let links = rows_view(r@);
    assert(links.len() == 4);
    assert(links[0] == r@[0]@ && links[1] == r@[1]@ && links[2] == r@[2]@ && links[3] == r@[3]@);
    lemma_says(store.user_hints@, source@);
    lemma_says(store.manifest_hints@, source@);
}

proof fn lemma_says(hints: Seq<SeverityHintRowView>, source: Seq<char>)
    requires
        keys_distinct::<SeverityHintRow>(hints),
    ensures
        (hinted(hints, source) is Some) == exists|s: Severity| #[trigger] hints_say(hints, source, s),
        forall|s: Severity| #[trigger] hints_say(hints, source, s) ==> hinted(hints, source) == Some(s),
        hinted(hints, source) is Some ==> hints_say(hints, source, hinted(hints, source)->0),
        (row_with::<SeverityHintRow>(hints, source) is Some) == exists|i: int|
            0 <= i < hints.len() && (#[trigger] hints[i]).source == source,
        forall|i: int|
            0 <= i < hints.len() && (#[trigger] hints[i]).source == source ==> row_with::<SeverityHintRow>(
                hints,
                source,
            ) == Some(hints[i]),
{
    lemma_position_of::<SeverityHintRow>(hints, source);
    assert forall|i: int| 0 <= i < hints.len() && (#[trigger] hints[i]).source == source implies row_with::<
        SeverityHintRow,
    >(hints, source) == Some(hints[i]) by {
        let p = position_of::<SeverityHintRow>(hints, source)->0;
        if p != i {
            assert(hints[p].source != hints[i].source);
        }
    }
    if hinted(hints, source) is Some {
        let p = position_of::<SeverityHintRow>(hints, source)->0;
        assert(hints[p].source == source);
        assert(hints_say(hints, source, hinted(hints, source)->0));
    }
    assert forall|s: Severity| #[trigger] hints_say(hints, source, s) implies hinted(hints, source) == Some(s) by {
        let i = choose|i: int|
            0 <= i < hints.len() && (#[trigger] hints[i]).source == source && severity_named(
                hints[i].severity,
            ) == Some(s);
        assert(row_with::<SeverityHintRow>(hints, source) == Some(hints[i]));
    }
    if row_with::<SeverityHintRow>(hints, source) is Some {
        let p = position_of::<SeverityHintRow>(hints, source)->0;
        assert(hints[p].source == source);
    }
}

/// The reason for the severity of a source is the one say that counts.
pub proof fn the_reason_is_the_say_that_counts(
    store: &Storage,
    source: &str,
    chain: Vec<SeverityLink>,
    severity: Severity,
    r: (Severity, SeverityLink),
)
    requires
        call_ensures(severity_inheritance_chain, (store, source), chain),
        call_ensures(severity_resolved, (store, source), severity),
        call_ensures(effective_severity_with_reason, (store, source), r),
    ensures
        r.0 == severity,
        r.1.hit,
        exists|i: int| 0 <= i < chain@.len() && (#[trigger] chain@[i])@ == r.1@,
        r.1.severity is Some ==> r.1.severity == Some(severity),
{
    let links = rows_view(chain@);
    assert(links.len() == 4);
    assert(links[0] == chain@[0]@ && links[1] == chain@[1]@ && links[2] == chain@[2]@);
}

/// Routes, suppression, frequency rules and escalations go by one severity, that of the source, and a
/// trace says so with one reason.
pub proof fn one_severity_on_every_way(
    store: &Storage,
    source: &str,
    severity: (Severity, SeverityLink),
    route: Severity,
    correlation: Severity,
    aggregation: Severity,
    escalation: Severity,
    trace: PropagationTrace,
)
    requires
        call_ensures(effective_severity_with_reason, (store, source), severity),
        call_ensures(route_dispatch_severity, (store, source), route),
        call_ensures(correlation_decision_severity, (store, source), correlation),
        call_ensures(aggregation_action_severity, (store, source), aggregation),
        call_ensures(escalation_target_severity, (store, source), escalation),
        call_ensures(propagation_trace, (store, source), trace),
    ensures
        route == severity.0 && correlation == severity.0 && aggregation == severity.0 && escalation
            == severity.0,
        trace@.source == source@,
        trace.route_severity == route && trace.correlation_severity == correlation
            && trace.aggregation_severity == aggregation && trace.escalation_severity == escalation,
        trace.route_origin == severity.1.policy && trace.correlation_origin == severity.1.policy
            && trace.aggregation_origin == severity.1.policy && trace.escalation_origin
            == severity.1.policy,
{
    assert(trace@.route_severity == trace.route_severity);
    assert(severity.1@.policy == severity.1.policy);
}

/// Of what a plugin declares for a source the last severity that exists is taken up in its name; what
/// was there for other sources stays.
pub proof fn plugins_have_their_say(
    store: &mut Storage,
    plugin_id: &str,
    alerting: &Option<AlertingManifest>,
    now: i64,
    source: Seq<char>,
    k: int,
    row: SeverityHintRowView,
)
    requires
        call_ensures(install_manifest_hints, (store, plugin_id, alerting, now), ()),
        keys_distinct::<SeverityHintRow>(old(store).manifest_hints@),
        *alerting is Some,
        0 <= k < (*alerting)->0@.severity_hints.len(),
    ensures
        final(store).user_hints@ == old(store).user_hints@,
        (*alerting)->0@.severity_hints[k].0 == source && severity_named((*alerting)->0@.severity_hints[k].1)
            is Some && (forall|j: int|
            k < j < (*alerting)->0@.severity_hints.len() ==> (#[trigger] (*alerting)->0@.severity_hints[j]).0
                != source || severity_named((*alerting)->0@.severity_hints[j].1) is None) ==> hints_say(
            final(store).manifest_hints@,
            source,
            severity_named((*alerting)->0@.severity_hints[k].1)->0,
        ) && exists|i: int|
            0 <= i < final(store).manifest_hints@.len() && (#[trigger] final(store).manifest_hints@[i]).source
                == source && final(store).manifest_hints@[i].plugin_id == Some(plugin_id@),
        (forall|j: int|
            0 <= j < (*alerting)->0@.severity_hints.len() ==> (#[trigger] (*alerting)->0@.severity_hints[j]).0
                != source || severity_named((*alerting)->0@.severity_hints[j].1) is None) && row.source
            == source ==> final(store).manifest_hints@.contains(row) == old(
            store,
        ).manifest_hints@.contains(row),
{
    let hints = (*alerting)->0@.severity_hints;
    let before = old(store).manifest_hints@;
    let after = final(store).manifest_hints@;
    lemma_with_manifest(before, plugin_id@, hints, now, source);
    lemma_says(after, source);
    if hints[k].0 == source && severity_named(hints[k].1) is Some && (forall|j: int|
        k < j < hints.len() ==> (#[trigger] hints[j]).0 != source || severity_named(hints[j].1) is None) {
        assert(row_with::<SeverityHintRow>(after, source) == Some(
            manifest_hint(plugin_id@, source, severity_named(hints[k].1)->0, now),
        ));
        severity_name_reads_back(severity_named(hints[k].1)->0);
        lemma_position_of::<SeverityHintRow>(after, source);
        let p = position_of::<SeverityHintRow>(after, source)->0;
        assert(after[p].source == source && after[p].plugin_id == Some(plugin_id@));
    }
    if forall|j: int|
        0 <= j < hints.len() ==> (#[trigger] hints[j]).0 != source || severity_named(hints[j].1) is None {
        lemma_says(before, source);
        if row.source == source {
            if before.contains(row) {
                let i = choose|i: int| 0 <= i < before.len() && before[i] == row;
                assert(before[i].source == source);
                lemma_position_of::<SeverityHintRow>(after, source);
                assert(after[position_of::<SeverityHintRow>(after, source)->0] == row);
            }
            if after.contains(row) {
                let i = choose|i: int| 0 <= i < after.len() && after[i] == row;
                assert(after[i].source == source);
                lemma_position_of::<SeverityHintRow>(before, source);
                assert(before[position_of::<SeverityHintRow>(before, source)->0] == row);
            }
        }
    }
}

proof fn lemma_with_manifest(
    rows: Seq<SeverityHintRowView>,
    plugin_id: Seq<char>,
    hints: Seq<(Seq<char>, Seq<char>)>,
    now: i64,
    source: Seq<char>,
)
    requires
        keys_distinct::<SeverityHintRow>(rows),
    ensures
        keys_distinct::<SeverityHintRow>(with_manifest(rows, plugin_id, hints, now)),
        (forall|j: int|
            0 <= j < hints.len() ==> (#[trigger] hints[j]).0 != source || severity_named(hints[j].1) is None)
            ==> row_with::<SeverityHintRow>(with_manifest(rows, plugin_id, hints, now), source) == row_with::<
            SeverityHintRow,
        >(rows, source),
        forall|k: int|
            0 <= k < hints.len() && (#[trigger] hints[k]).0 == source && severity_named(hints[k].1) is Some && (
            forall|j: int|
                k < j < hints.len() ==> (#[trigger] hints[j]).0 != source || severity_named(hints[j].1)
                    is None) ==> row_with::<SeverityHintRow>(
                with_manifest(rows, plugin_id, hints, now),
                source,
            ) == Some(manifest_hint(plugin_id, source, severity_named(hints[k].1)->0, now)),
    decreases hints.len(),
{
    if hints.len() > 0 {
        let front = hints.drop_last();
        let n = hints.len() - 1;
        lemma_with_manifest(rows, plugin_id, front, now, source);
        let before = with_manifest(rows, plugin_id, front, now);
        let after = with_manifest(rows, plugin_id, hints, now);
        if let Some(s) = severity_named(hints[n].1) {
            put_then_get::<SeverityHintRow>(before, manifest_hint(plugin_id, hints[n].0, s, now), source);
        }
        if forall|j: int|
            0 <= j < hints.len() ==> (#[trigger] hints[j]).0 != source || severity_named(hints[j].1) is None {
            assert forall|j: int| 0 <= j < front.len() implies (#[trigger] front[j]).0 != source
                || severity_named(front[j].1) is None by {
                assert(front[j] == hints[j]);
            }
            assert(hints[n].0 != source || severity_named(hints[n].1) is None);
        }
        assert forall|k: int|
            0 <= k < hints.len() && (#[trigger] hints[k]).0 == source && severity_named(hints[k].1) is Some && (
            forall|j: int|
                k < j < hints.len() ==> (#[trigger] hints[j]).0 != source || severity_named(hints[j].1)
                    is None) implies row_with::<SeverityHintRow>(after, source) == Some(
            manifest_hint(plugin_id, source, severity_named(hints[k].1)->0, now),
        ) by {
            if k < n {
                assert(front[k] == hints[k]);
                assert forall|j: int| k < j < front.len() implies (#[trigger] front[j]).0 != source
                    || severity_named(front[j].1) is None by {
                    assert(front[j] == hints[j]);
                }
                assert(hints[n].0 != source || severity_named(hints[n].1) is None);
            }
        }
    }
}

/// Deleting what a user said of a source leaves nothing of it, says whether there was anything, and names
/// the routes and rules that speak of exactly this source, and no others.
pub proof fn deleted_says_name_what_they_touch(
    store: &mut Storage,
    source: &str,
    r: CascadeReport,
    s: Severity,
    name: Seq<char>,
)
    requires
        call_ensures(cascade_delete_severity_hint, (store, source), r),
        keys_distinct::<SeverityHintRow>(old(store).user_hints@),
    ensures
        !hints_say(final(store).user_hints@, source@, s),
        final(store).routes@ == old(store).routes@ && final(store).manifest_hints@ == old(store).manifest_hints@,
        r.hint_deleted == exists|i: int|
            0 <= i < old(store).user_hints@.len() && (#[trigger] old(store).user_hints@[i]).source == source@,
        r@.affected_routes.contains(name) == exists|i: int|
            0 <= i < old(store).routes@.len() && (#[trigger] old(store).routes@[i]).name == name && {
                ||| old(store).routes@[i].kind_pattern == source@
                ||| old(store).routes@[i].seen_in_last is Some && old(
                    store,
                ).routes@[i].seen_in_last->0.pattern == source@
            },
        r@.affected_correlations.contains(name) == exists|i: int|
            0 <= i < old(store).correlations@.len() && (#[trigger] old(store).correlations@[i]).name == name && (
            old(store).correlations@[i].kind_pattern_a == source@ || old(
                store,
            ).correlations@[i].kind_pattern_b == source@),
        r@.affected_aggregations.contains(name) == exists|i: int|
            0 <= i < old(store).aggregations@.len() && (#[trigger] old(store).aggregations@[i]).name == name
                && old(store).aggregations@[i].kind_pattern == source@,
{
    let before = old(store).user_hints@;
    lemma_says(before, source@);
    remove_then_get::<SeverityHintRow>(before, source@, source@);
    lemma_says(final(store).user_hints@, source@);
    assert(r@.hint_deleted == r.hint_deleted);
    let of_route = |v: RouteRuleRowView| route_names(source@, v);
    let of_pair = |v: CorrelationRuleDtoView| correlation_names(source@, v);
    let of_count = |v: AggregationRuleDtoView| v.kind_pattern == source@;
    let routes = kept(by_rank::<RouteRuleRow>(old(store).routes@), of_route);
    let pairs = kept(by_rank::<CorrelationRuleDto>(old(store).correlations@), of_pair);
    let counts = kept(by_rank::<AggregationRuleDto>(old(store).aggregations@), of_count);
    lemma_on_members::<RouteRuleRow>(old(store).routes@, of_route);
    lemma_on_members::<CorrelationRuleDto>(old(store).correlations@, of_pair);
    lemma_on_members::<AggregationRuleDto>(old(store).aggregations@, of_count);
    if r@.affected_routes.contains(name) {
        let i = choose|i: int| 0 <= i < r@.affected_routes.len() && r@.affected_routes[i] == name;
        assert(routes.contains(routes[i]));
        let k = choose|k: int| 0 <= k < old(store).routes@.len() && old(store).routes@[k] == routes[i];
        assert(old(store).routes@[k].name == name);
    }
    assert forall|i: int| 0 <= i < old(store).routes@.len() && of_route(#[trigger] old(store).routes@[i]) implies r@.affected_routes.contains(
        old(store).routes@[i].name,
    ) by {
        assert(old(store).routes@.contains(old(store).routes@[i]));
        assert(routes.contains(old(store).routes@[i]));
        let k = choose|k: int| 0 <= k < routes.len() && routes[k] == old(store).routes@[i];
        assert(r@.affected_routes[k] == routes[k].name);
    }
    if r@.affected_correlations.contains(name) {
        let i = choose|i: int|
            0 <= i < r@.affected_correlations.len() && r@.affected_correlations[i] == name;
        assert(pairs.contains(pairs[i]));
        let k = choose|k: int|
            0 <= k < old(store).correlations@.len() && old(store).correlations@[k] == pairs[i];
        assert(old(store).correlations@[k].name == name);
    }
    assert forall|i: int| 0 <= i < old(store).correlations@.len() && of_pair(
        #[trigger] old(store).correlations@[i],
    ) implies r@.affected_correlations.contains(old(store).correlations@[i].name) by {
        assert(old(store).correlations@.contains(old(store).correlations@[i]));
        assert(pairs.contains(old(store).correlations@[i]));
        let k = choose|k: int| 0 <= k < pairs.len() && pairs[k] == old(store).correlations@[i];
        assert(r@.affected_correlations[k] == pairs[k].name);
    }
    if r@.affected_aggregations.contains(name) {
        let i = choose|i: int|
            0 <= i < r@.affected_aggregations.len() && r@.affected_aggregations[i] == name;
        assert(counts.contains(counts[i]));
        let k = choose|k: int|
            0 <= k < old(store).aggregations@.len() && old(store).aggregations@[k] == counts[i];
        assert(old(store).aggregations@[k].name == name);
    }
    assert forall|i: int| 0 <= i < old(store).aggregations@.len() && of_count(
        #[trigger] old(store).aggregations@[i],
    ) implies r@.affected_aggregations.contains(old(store).aggregations@[i].name) by {
        assert(old(store).aggregations@.contains(old(store).aggregations@[i]));
        assert(counts.contains(old(store).aggregations@[i]));
        let k = choose|k: int| 0 <= k < counts.len() && counts[k] == old(store).aggregations@[i];
        assert(r@.affected_aggregations[k] == counts[k].name);
    }
}

/// Every say of a user or a plugin is listed once, the users' first, each with the severity that counts
/// for its source.
pub proof fn says_are_listed_with_what_counts(
    store: &Storage,
    r: Vec<SeverityHintDto>,
    i: int,
    source: &str,
    severity: Severity,
)
    requires
        call_ensures(list_severity_hints, (store,), r),
        0 <= i < store.user_hints@.len() + store.manifest_hints@.len(),
        source@ == (if i < store.user_hints@.len() {
            store.user_hints@[i].source
        } else {
            store.manifest_hints@[i - store.user_hints@.len()].source
        }),
        call_ensures(severity_resolved, (store, source), severity),
    ensures
        r@.len() == store.user_hints@.len() + store.manifest_hints@.len(),
        ({
            let row = if i < store.user_hints@.len() {
                store.user_hints@[i]
            } else {
                store.manifest_hints@[i - store.user_hints@.len()]
            };
            r@[i]@ == (SeverityHintDtoView {
                source: row.source,
                severity: row.severity,
                origin: row.origin,
                plugin_id: row.plugin_id,
                updated_at: row.updated_at,
                effective_severity: severity_name(severity),
            })
        }),
{
    assert(rows_view(r@).len() == r@.len());
    assert(rows_view(r@)[i] == r@[i]@);
}

/// A decision to drop an event stops it; one to turn it down gives it its severity; one to sum up puts the
/// number of the events, the time of the first and the payload of the last into its payload. Nothing
/// else changes anything.
pub proof fn decisions_are_carried_out(
    decision: &AggregationDecision,
    payload: &mut Json,
    severity: &mut Severity,
    r: bool,
)
    requires
        call_ensures(apply_aggregation_decision, (decision, payload, severity), r),
    ensures
        decision@ is Pass ==> r && final(payload)@ == old(payload)@ && *final(severity) == *old(severity),
        decision@ is Suppress ==> !r,
        decision@ is Downgrade ==> r && final(payload)@ == old(payload)@ && *final(severity)
            == decision@->Downgrade_0,
        decision@ is Merge ==> {
            &&& r
            &&& *final(severity) == *old(severity)
            &&& holds_at(
                final(payload)@,
                "merged_count"@,
                JsonView::Number(decimal_seq(decision@->Merge_count)),
            )
            &&& holds_at(
                final(payload)@,
                "since"@,
                JsonView::Number(decimal_seq(decision@->Merge_since as nat)),
            )
            &&& holds_at(final(payload)@, "last_payload"@, decision@->Merge_last_payload)
        },
{
    if decision@ is Merge {
        reveal_strlit("merged_count");
        reveal_strlit("since");
        reveal_strlit("last_payload");
        assert("merged_count"@.len() == 12 && "since"@.len() == 5 && "last_payload"@.len() == 12);
        assert("merged_count"@[0] == 'm' && "last_payload"@[0] == 'l');
        let members = final(payload)@->Object_0;
        assert(members[0].0 == "merged_count"@ && members[1].0 == "since"@ && members[2].0
            == "last_payload"@);
    }
}

/// The frequency rule for a source is the oldest of those that are on and cover it.
pub proof fn the_oldest_frequency_rule_counts(
    store: &Storage,
    source: &str,
    rule: AggregationRuleDtoView,
    r: Option<AggregationRuleDto>,
)
    requires
        call_ensures(matching_aggregation, (store, source), r),
    ensures
        is_rule_for(*store, source@, rule) ==> r is Some && r->0@ == rule,
        r is None == (forall|i: int|
            0 <= i < store.aggregations@.len() ==> !((#[trigger] store.aggregations@[i]).enabled
                && covers_glob(store.aggregations@[i].kind_pattern, source@))),
{
    let rows = store.aggregations@;
    let on = |v: AggregationRuleDtoView| v.enabled;
    let fits = |v: AggregationRuleDtoView| glob_fits(v.kind_pattern, source@);
    let rules = aggregations_on(*store);
    lemma_on_members::<AggregationRuleDto>(rows, on);
    lemma_first_index(rules, fits);
    assert forall|i: int| 0 <= i < rules.len() implies rows.contains(#[trigger] rules[i])
        && rules[i].enabled && fits(rules[i]) == covers_glob(rules[i].kind_pattern, source@) by {
        assert(rules.contains(rules[i]));
        lemma_glob(rules[i].kind_pattern, source@);
    }
    if let Some(k) = first_index(rules, fits) {
        let i = choose|i: int| 0 <= i < rows.len() && rows[i] == rules[k];
        assert(rows[i].enabled && covers_glob(rows[i].kind_pattern, source@));
    } else {
        assert forall|i: int| 0 <= i < rows.len() implies !((#[trigger] rows[i]).enabled && covers_glob(
            rows[i].kind_pattern,
            source@,
        )) by {
            if rows[i].enabled {
                assert(rows.contains(rows[i]));
                assert(rules.contains(rows[i]));
                let k = choose|k: int| 0 <= k < rules.len() && rules[k] == rows[i];
                assert(!fits(rules[k]));
            }
        }
    }
    if is_rule_for(*store, source@, rule) {
        assert(rules.contains(rule));
        let p = choose|p: int| 0 <= p < rules.len() && rules[p] == rule;
        assert(fits(rules[p]));
        let k = first_index(rules, fits)->0;
        let i = choose|i: int| 0 <= i < rows.len() && rows[i] == rules[k];
        listing_is_sorted_and_complete::<AggregationRuleDto>(rows);
        lemma_kept_sorted::<AggregationRuleDto>(by_rank::<AggregationRuleDto>(rows), on);
        assert(rules[k].created_at <= rules[p].created_at);
        assert(rows[i] == rule || rule.created_at < rows[i].created_at);
    }
}

/// The first day of 1970 was a Thursday, and each day is followed by the next of the week; the hour of a
/// time is that of its day.
pub proof fn days_have_weekdays_and_hours(
    day: nat,
    hour: nat,
    second: nat,
    ts: u64,
    next: u64,
    weekday: u8,
    next_weekday: u8,
    r: u8,
)
    requires
        hour < 24,
        second < 3600,
        ts == day * 86400 + hour * 3600 + second,
        next == ts + 86400,
        call_ensures(weekday_from_unix, (ts,), weekday),
        call_ensures(weekday_from_unix, (next,), next_weekday),
        call_ensures(hour_from_unix, (ts,), r),
    ensures
        r == hour,
        day == 0 ==> weekday == 4,
        weekday <= 6,
        next_weekday == if weekday == 6 {
            0int
        } else {
            weekday + 1
        },
{
    assert(ts as int / 86400 == day && ts as int % 86400 == hour * 3600 + second) by (nonlinear_arith)
        requires
            ts == day * 86400 + hour * 3600 + second,
            hour < 24,
            second < 3600,
    ;
}

/// A rule suppresses an event of its second kind, and not of its first, where its first kind came within its
/// window; of several rules the first that does is named.
pub proof fn the_first_rule_that_suppresses_is_named(
    rule: &CorrelationRuleDto,
    rules: &Vec<CorrelationRuleDto>,
    last_a: &Table<Stamp>,
    source: &str,
    now: u64,
    b: bool,
    r: Option<usize>,
)
    requires
        call_ensures(rule_suppresses, (rule, last_a, source, now), b),
        call_ensures(find_suppressing, (rules, last_a, source, now), r),
        keys_distinct::<Stamp>(last_a@),
        rule@.enabled,
        forall|i: int| 0 <= i < rules@.len() ==> (#[trigger] rules@[i])@.enabled,
    ensures
        b == drops(rule@, last_a@, source@, now),
        r is Some ==> r->0 < rules@.len() && drops(rules@[r->0 as int]@, last_a@, source@, now) && forall|i: int|
            0 <= i < r->0 ==> !drops((#[trigger] rules@[i])@, last_a@, source@, now),
        r is None ==> forall|i: int|
            0 <= i < rules@.len() ==> !drops((#[trigger] rules@[i])@, last_a@, source@, now),
{
    lemma_drops(rule@, last_a@, source@, now);
    let all = rows_view(rules@);
    let fits = |v: CorrelationRuleDtoView| suppresses(v, last_a@, source@, now);
    lemma_first_index(all, fits);
    assert forall|i: int| 0 <= i < rules@.len() implies drops((#[trigger] rules@[i])@, last_a@, source@, now)
        == fits(all[i]) by {
        lemma_drops(rules@[i]@, last_a@, source@, now);
        assert(all[i] == rules@[i]@);
    }
}

/// Overrides leave an event the severity of the first that covers its source, or its own.
pub proof fn overrides_are_applied(severity: &mut Severity, source: &str, overrides: &[(String, Severity)], s: Severity)
    requires
        call_ensures(apply_endpoint_severity_override, (severity, source, overrides), ()),
        severity_due(overrides_view(overrides@), source@, *old(severity), s),
    ensures
        *final(severity) == s,
{
    lemma_due(overrides_view(overrides@), source@, *old(severity), s);
}

/// Alerts come from four sources.
pub proof fn four_sources_are_known(source: &str, r: bool)
    requires
        call_ensures(is_known_source, (source,), r),
    ensures
        r == (source@ == "plugin.metrics.exceeded"@ || source@ == "capability.sla.violated"@ || source@
            == "plugin.kill_switch.enabled"@ || source@ == "plugin.lifecycle.crashed"@),
{
}

} // verus!
