//! The severity of a source: what a user, a plugin and the defaults say, and which of them counts.

use vstd::prelude::*;

use super::config::{override_for, override_index};
use super::rows::{endpoint_of, endpoint_row_to_dto};
use super::storage::{
    AggregationRuleDto, AggregationRuleDtoView, CorrelationRuleDto, CorrelationRuleDtoView,
    SeverityHintRow, SeverityHintRowView, Storage,
};
use super::store::{
    by_rank, copy_kept, first_index, kept, keys_distinct, lemma_kept, row_with, rows_view, with_row,
    without_row, Table,
};
use super::types::{
    copy_opt_text, copy_pairs, copy_texts, opt_text_view, pairs_view, severity_name,
    severity_name_reads_back, severity_named, AlertingEndpointRow, AlertingEndpointRowView,
    RouteRuleRow, RouteRuleRowView, Severity, WebhookEndpoint, WebhookEndpointView,
};
use super::util::kind_fits;
use crate::json::texts_view;
use crate::text::{complaint, is_blank, is_blank_seq, join3, same};

verus! {

/// A severity hint as it is shown, with the severity that counts for its source.
#[derive(Debug)]
pub struct SeverityHintDto {
    pub source: String,
    pub severity: String,
    pub origin: String,
    pub plugin_id: Option<String>,
    pub updated_at: i64,
    pub effective_severity: String,
}

/// What a [`SeverityHintDto`] holds.
pub struct SeverityHintDtoView {
    pub source: Seq<char>,
    pub severity: Seq<char>,
    pub origin: Seq<char>,
    pub plugin_id: Option<Seq<char>>,
    pub updated_at: i64,
    pub effective_severity: Seq<char>,
}

impl View for SeverityHintDto {
    type V = SeverityHintDtoView;

    open spec fn view(&self) -> SeverityHintDtoView {
        SeverityHintDtoView {
            source: self.source@,
            severity: self.severity@,
            origin: self.origin@,
            plugin_id: opt_text_view(self.plugin_id),
            updated_at: self.updated_at,
            effective_severity: self.effective_severity@,
        }
    }
}

impl Clone for SeverityHintDto {
    fn clone(&self) -> (r: Self)
        ensures
            r@ == self@,
    {
        SeverityHintDto {
            source: self.source.clone(),
            severity: self.severity.clone(),
            origin: self.origin.clone(),
            plugin_id: copy_opt_text(&self.plugin_id),
            updated_at: self.updated_at,
            effective_severity: self.effective_severity.clone(),
        }
    }
}

/// Who has a say in the severity of a source.
#[derive(Debug, Clone, Copy, PartialEq, Eq, Structural)]
pub enum SeverityPolicy {
    /// The manifest of a plugin.
    Manifest,
    /// The fixed table of [`severity_for_source`].
    PluginDefault,
    /// The user.
    UserOverride,
    /// Reserved for alerts that a user turned off.
    Disabled,
}

/// One say in the severity of a source, and whether it is the one that counts.
#[derive(Debug)]
pub struct SeverityLink {
    pub policy: SeverityPolicy,
    pub severity: Option<Severity>,
    pub source: String,
    pub plugin_id: Option<String>,
    pub hit: bool,
}

/// What a [`SeverityLink`] holds.
pub struct SeverityLinkView {
    pub policy: SeverityPolicy,
    pub severity: Option<Severity>,
    pub source: Seq<char>,
    pub plugin_id: Option<Seq<char>>,
    pub hit: bool,
}

impl View for SeverityLink {
    type V = SeverityLinkView;

    open spec fn view(&self) -> SeverityLinkView {
        SeverityLinkView {
            policy: self.policy,
            severity: self.severity,
            source: self.source@,
            plugin_id: opt_text_view(self.plugin_id),
            hit: self.hit,
        }
    }
}

impl Clone for SeverityLink {
    fn clone(&self) -> (r: Self)
        ensures
            r@ == self@,
    {
        SeverityLink {
            policy: self.policy,
            severity: self.severity,
            source: self.source.clone(),
            plugin_id: copy_opt_text(&self.plugin_id),
            hit: self.hit,
        }
    }
}

/// What the removal of a hint touches, by name.
#[derive(Debug)]
pub struct CascadeReport {
    pub hint_deleted: bool,
    pub affected_routes: Vec<String>,
    pub affected_correlations: Vec<String>,
    pub affected_aggregations: Vec<String>,
}

/// What a [`CascadeReport`] holds.
pub struct CascadeReportView {
    pub hint_deleted: bool,
    pub affected_routes: Seq<Seq<char>>,
    pub affected_correlations: Seq<Seq<char>>,
    pub affected_aggregations: Seq<Seq<char>>,
}

impl View for CascadeReport {
    type V = CascadeReportView;

    open spec fn view(&self) -> CascadeReportView {
        CascadeReportView {
            hint_deleted: self.hint_deleted,
            affected_routes: texts_view(self.affected_routes@),
            affected_correlations: texts_view(self.affected_correlations@),
            affected_aggregations: texts_view(self.affected_aggregations@),
        }
    }
}

impl Clone for CascadeReport {
    fn clone(&self) -> (r: Self)
        ensures
            r@ == self@,
    {
        CascadeReport {
            hint_deleted: self.hint_deleted,
            affected_routes: copy_texts(&self.affected_routes),
            affected_correlations: copy_texts(&self.affected_correlations),
            affected_aggregations: copy_texts(&self.affected_aggregations),
        }
    }
}

/// The severities that a plugin declares, source by source.
#[derive(Debug)]
pub struct AlertingManifest {
    pub severity_hints: Vec<(String, String)>,
}

/// What a [`AlertingManifest`] holds.
pub struct AlertingManifestView {
    pub severity_hints: Seq<(Seq<char>, Seq<char>)>,
}

impl View for AlertingManifest {
    type V = AlertingManifestView;

    open spec fn view(&self) -> AlertingManifestView {
        AlertingManifestView {
            severity_hints: pairs_view(self.severity_hints@),
        }
    }
}

impl Clone for AlertingManifest {
    fn clone(&self) -> (r: Self)
        ensures
            r@ == self@,
    {
        AlertingManifest {
            severity_hints: copy_pairs(&self.severity_hints),
        }
    }
}

/// The severity of a source on each of the four ways that alerts go, and where it comes from.
#[derive(Debug)]
pub struct PropagationTrace {
    pub source: String,
    pub route_severity: Severity,
    pub route_origin: SeverityPolicy,
    pub correlation_severity: Severity,
    pub correlation_origin: SeverityPolicy,
    pub aggregation_severity: Severity,
    pub aggregation_origin: SeverityPolicy,
    pub escalation_severity: Severity,
    pub escalation_origin: SeverityPolicy,
}

/// What a [`PropagationTrace`] holds.
pub struct PropagationTraceView {
    pub source: Seq<char>,
    pub route_severity: Severity,
    pub route_origin: SeverityPolicy,
    pub correlation_severity: Severity,
    pub correlation_origin: SeverityPolicy,
    pub aggregation_severity: Severity,
    pub aggregation_origin: SeverityPolicy,
    pub escalation_severity: Severity,
    pub escalation_origin: SeverityPolicy,
}

impl View for PropagationTrace {
    type V = PropagationTraceView;

    open spec fn view(&self) -> PropagationTraceView {
        PropagationTraceView {
            source: self.source@,
            route_severity: self.route_severity,
            route_origin: self.route_origin,
            correlation_severity: self.correlation_severity,
            correlation_origin: self.correlation_origin,
            aggregation_severity: self.aggregation_severity,
            aggregation_origin: self.aggregation_origin,
            escalation_severity: self.escalation_severity,
            escalation_origin: self.escalation_origin,
        }
    }
}

impl Clone for PropagationTrace {
    fn clone(&self) -> (r: Self)
        ensures
            r@ == self@,
    {
        PropagationTrace {
            source: self.source.clone(),
            route_severity: self.route_severity,
            route_origin: self.route_origin,
            correlation_severity: self.correlation_severity,
            correlation_origin: self.correlation_origin,
            aggregation_severity: self.aggregation_severity,
            aggregation_origin: self.aggregation_origin,
            escalation_severity: self.escalation_severity,
            escalation_origin: self.escalation_origin,
        }
    }
}

/// The override that applies: its pattern, its severity and its place in the list.
#[derive(Debug)]
pub struct EndpointSeverityOverrideHit {
    pub pattern: String,
    pub severity: Severity,
    pub index: usize,
}

/// What a [`EndpointSeverityOverrideHit`] holds.
pub struct EndpointSeverityOverrideHitView {
    pub pattern: Seq<char>,
    pub severity: Severity,
    pub index: usize,
}

impl View for EndpointSeverityOverrideHit {
    type V = EndpointSeverityOverrideHitView;

    open spec fn view(&self) -> EndpointSeverityOverrideHitView {
        EndpointSeverityOverrideHitView {
            pattern: self.pattern@,
            severity: self.severity,
            index: self.index,
        }
    }
}

impl Clone for EndpointSeverityOverrideHit {
    fn clone(&self) -> (r: Self)
        ensures
            r@ == self@,
    {
        EndpointSeverityOverrideHit {
            pattern: self.pattern.clone(),
            severity: self.severity,
            index: self.index,
        }
    }
}

/// The severity with which an endpoint would get an alert.
#[derive(Debug)]
pub struct EndpointPreviewRow {
    pub endpoint_id: String,
    pub endpoint_name: String,
    pub override_hit: Option<EndpointSeverityOverrideHit>,
    pub propagation_severity: Severity,
    pub final_envelope_severity: Severity,
}

/// What a [`EndpointPreviewRow`] holds.
pub struct EndpointPreviewRowView {
    pub endpoint_id: Seq<char>,
    pub endpoint_name: Seq<char>,
    pub override_hit: Option<EndpointSeverityOverrideHitView>,
    pub propagation_severity: Severity,
    pub final_envelope_severity: Severity,
}

impl View for EndpointPreviewRow {
    type V = EndpointPreviewRowView;

    open spec fn view(&self) -> EndpointPreviewRowView {
        EndpointPreviewRowView {
            endpoint_id: self.endpoint_id@,
            endpoint_name: self.endpoint_name@,
            override_hit: (match self.override_hit { Some(x) => Some(x@), None => None }),
            propagation_severity: self.propagation_severity,
            final_envelope_severity: self.final_envelope_severity,
        }
    }
}

impl Clone for EndpointPreviewRow {
    fn clone(&self) -> (r: Self)
        ensures
            r@ == self@,
    {
        EndpointPreviewRow {
            endpoint_id: self.endpoint_id.clone(),
            endpoint_name: self.endpoint_name.clone(),
            override_hit: (match &self.override_hit { Some(x) => Some(x.clone()), None => None }),
            propagation_severity: self.propagation_severity,
            final_envelope_severity: self.final_envelope_severity,
        }
    }
}

/// The severities with which endpoints would get an alert of a source.
#[derive(Debug)]
pub struct EndpointSeverityPreview {
    pub source: String,
    pub endpoints: Vec<EndpointPreviewRow>,
}

/// The severity of a source that nobody set one for.
pub open spec fn default_severity(source: Seq<char>) -> Severity {
    if source == "plugin.metrics.exceeded"@ {
        Severity::Warn
    } else if source == "capability.sla.violated"@ {
        Severity::Error
    } else if source == "plugin.kill_switch.enabled"@ || source == "plugin.lifecycle.crashed"@ {
        Severity::Critical
    } else {
        Severity::Info
    }
}

/// The severity of a source that nobody set one for.
pub fn severity_for_source(source: &str) -> (r: Severity)
    ensures
        r == default_severity(source@),
{
    if same(source, "plugin.metrics.exceeded") {
        Severity::Warn
    } else if same(source, "capability.sla.violated") {
        Severity::Error
    } else if same(source, "plugin.kill_switch.enabled") || same(source, "plugin.lifecycle.crashed") {
        Severity::Critical
    } else {
        Severity::Info
    }
}

/// The severity that a table of hints gives to a source, if it names one that exists.
pub open spec fn hinted(hints: Seq<SeverityHintRowView>, source: Seq<char>) -> Option<Severity> {
    match row_with::<SeverityHintRow>(hints, source) {
        Some(row) => severity_named(row.severity),
        None => None,
    }
}

/// The four says in the severity of a source: manifest, default, user, and turned off.
pub open spec fn chain_of(
    user: Seq<SeverityHintRowView>,
    manifest: Seq<SeverityHintRowView>,
    source: Seq<char>,
) -> Seq<SeverityLinkView> {
    let by_user = hinted(user, source) is Some;
    let row = row_with::<SeverityHintRow>(manifest, source);
    seq![
        SeverityLinkView {
            policy: SeverityPolicy::Manifest,
            severity: hinted(manifest, source),
            source,
            plugin_id: match row {
                Some(r) => r.plugin_id,
                None => None,
            },
            hit: row is Some && !by_user,
        },
        SeverityLinkView {
            policy: SeverityPolicy::PluginDefault,
            severity: Some(default_severity(source)),
            source,
            plugin_id: None,
            hit: row is None && !by_user,
        },
        SeverityLinkView {
            policy: SeverityPolicy::UserOverride,
            severity: hinted(user, source),
            source,
            plugin_id: None,
            hit: by_user,
        },
        SeverityLinkView {
            policy: SeverityPolicy::Disabled,
            severity: None,
            source,
            plugin_id: None,
            hit: false,
        },
    ]
}

/// The say that counts: the user's, else the manifest's, else the default.
pub open spec fn effective_link(
    user: Seq<SeverityHintRowView>,
    manifest: Seq<SeverityHintRowView>,
    source: Seq<char>,
) -> SeverityLinkView {
    let chain = chain_of(user, manifest, source);
    if hinted(user, source) is Some {
        chain[2]
    } else if row_with::<SeverityHintRow>(manifest, source) is Some {
        chain[0]
    } else {
        chain[1]
    }
}

/// The severity of a source.
pub open spec fn effective_severity(
    user: Seq<SeverityHintRowView>,
    manifest: Seq<SeverityHintRowView>,
    source: Seq<char>,
) -> Severity {
    match effective_link(user, manifest, source).severity {
        Some(s) => s,
        None => Severity::Info,
    }
}

/// The severity of a source by all that a storage holds.
pub open spec fn resolved(store: Storage, source: Seq<char>) -> Severity {
    effective_severity(store.user_hints@, store.manifest_hints@, source)
}

/// In every chain exactly one say counts.
pub proof fn exactly_one_link_counts(
    user: Seq<SeverityHintRowView>,
    manifest: Seq<SeverityHintRowView>,
    source: Seq<char>,
)
    ensures
        chain_of(user, manifest, source).len() == 4,
        exists|i: int|
            0 <= i < 4 && #[trigger] chain_of(user, manifest, source)[i] == effective_link(
                user,
                manifest,
                source,
            ) && chain_of(user, manifest, source)[i].hit,
        forall|i: int, j: int|
            0 <= i < 4 && 0 <= j < 4 && (#[trigger] chain_of(user, manifest, source)[i]).hit && (
            #[trigger] chain_of(user, manifest, source)[j]).hit ==> i == j,
{
    let chain = chain_of(user, manifest, source);
    if hinted(user, source) is Some {
        assert(chain[2].hit);
    } else if row_with::<SeverityHintRow>(manifest, source) is Some {
        assert(chain[0].hit);
    } else {
        assert(chain[1].hit);
    }
}

/// What a user set for a source comes before what a manifest says, and that before the default.
pub proof fn user_comes_before_manifest_before_default(
    user: Seq<SeverityHintRowView>,
    manifest: Seq<SeverityHintRowView>,
    source: Seq<char>,
)
    ensures
        hinted(user, source) is Some ==> effective_severity(user, manifest, source) == hinted(
            user,
            source,
        )->0,
        hinted(user, source) is None && hinted(manifest, source) is Some ==> effective_severity(
            user,
            manifest,
            source,
        ) == hinted(manifest, source)->0,
        hinted(user, source) is None && row_with::<SeverityHintRow>(manifest, source) is None
            ==> effective_severity(user, manifest, source) == default_severity(source),
{
}

/// The severity that a table of hints gives to a source.
fn severity_hint_lookup(hints: &Table<SeverityHintRow>, source: &str) -> (r: Option<Severity>)
    ensures
        r == hinted(hints@, source@),
{
    match hints.get(source) {
        Some(row) => Severity::parse(row.severity.as_str()),
        None => None,
    }
}

/// The four says in the severity of a source, each marked with whether it counts.
pub fn severity_inheritance_chain(store: &Storage, source: &str) -> (r: Vec<SeverityLink>)
    ensures
        rows_view(r@) == chain_of(store.user_hints@, store.manifest_hints@, source@),
{
    let by_user: Option<Severity> = severity_hint_lookup(&store.user_hints, source);
    let by_manifest: Option<Severity> = severity_hint_lookup(&store.manifest_hints, source);
    let (has_row, plugin_id) = match store.manifest_hints.get(source) {
        Some(row) => (true, copy_opt_text(&row.plugin_id)),
        None => (false, None),
    };
    let mut chain: Vec<SeverityLink> = Vec::new();
    chain.push(
        SeverityLink {
            policy: SeverityPolicy::Manifest,
            severity: by_manifest,
            source: source.to_owned(),
            plugin_id,
            hit: has_row && by_user.is_none(),
        },
    );
    chain.push(
        SeverityLink {
            policy: SeverityPolicy::PluginDefault,
            severity: Some(severity_for_source(source)),
            source: source.to_owned(),
            plugin_id: None,
            hit: !has_row && by_user.is_none(),
        },
    );
    chain.push(
        SeverityLink {
            policy: SeverityPolicy::UserOverride,
            severity: by_user,
            source: source.to_owned(),
            plugin_id: None,
            hit: by_user.is_some(),
        },
    );
    chain.push(
        SeverityLink {
            policy: SeverityPolicy::Disabled,
            severity: None,
            source: source.to_owned(),
            plugin_id: None,
            hit: false,
        },
    );
    assert(rows_view(chain@) =~= chain_of(store.user_hints@, store.manifest_hints@, source@));
    chain
}

/// The severity of a source and the say that it comes from.
pub fn effective_severity_with_reason(store: &Storage, source: &str) -> (r: (Severity, SeverityLink))
    ensures
        r.0 == resolved(*store, source@),
        r.1@ == effective_link(store.user_hints@, store.manifest_hints@, source@),
{
    let mut chain: Vec<SeverityLink> = severity_inheritance_chain(store, source);
    let ghost all = chain_of(store.user_hints@, store.manifest_hints@, source@);
    assert(all.len() == 4);
    assert(forall|i: int| 0 <= i < 4 ==> chain@[i]@ == #[trigger] all[i]);
    assert(chain@[0]@ == all[0] && chain@[1]@ == all[1] && chain@[2]@ == all[2]);
    let at: usize = if chain[0].hit {
        0
    } else if chain[1].hit {
        1
    } else {
        2
    };
    let link: SeverityLink = chain.remove(at);
    let severity: Severity = match link.severity {
        Some(s) => s,
        None => Severity::Info,
    };
    (severity, link)
}

/// The severity of a source.
pub fn severity_resolved(store: &Storage, source: &str) -> (r: Severity)
    ensures
        r == resolved(*store, source@),
{
    effective_severity_with_reason(store, source).0
}

/// The severity that a route dispatches a source with.
pub fn route_dispatch_severity(store: &Storage, source: &str) -> (r: Severity)
    ensures
        r == resolved(*store, source@),
{
    severity_resolved(store, source)
}

/// The severity that a correlation passes on for a source.
pub fn correlation_decision_severity(store: &Storage, source: &str) -> (r: Severity)
    ensures
        r == resolved(*store, source@),
{
    severity_resolved(store, source)
}

/// The severity that an aggregation passes on for a source.
pub fn aggregation_action_severity(store: &Storage, source: &str) -> (r: Severity)
    ensures
        r == resolved(*store, source@),
{
    severity_resolved(store, source)
}

/// The severity that an escalation starts from for a source.
pub fn escalation_target_severity(store: &Storage, source: &str) -> (r: Severity)
    ensures
        r == resolved(*store, source@),
{
    severity_resolved(store, source)
}

/// The trace of a source: one severity and one origin on all four ways.
pub open spec fn trace_of(store: Storage, source: Seq<char>) -> PropagationTraceView {
    let severity = resolved(store, source);
    let origin = effective_link(store.user_hints@, store.manifest_hints@, source).policy;
    PropagationTraceView {
        source,
        route_severity: severity,
        route_origin: origin,
        correlation_severity: severity,
        correlation_origin: origin,
        aggregation_severity: severity,
        aggregation_origin: origin,
        escalation_severity: severity,
        escalation_origin: origin,
    }
}

/// The severity of a source on each of the four ways that alerts go.
pub fn propagation_trace(store: &Storage, source: &str) -> (r: PropagationTrace)
    ensures
        r@ == trace_of(*store, source@),
{
    let (severity, link) = effective_severity_with_reason(store, source);
    PropagationTrace {
        source: source.to_owned(),
        route_severity: severity,
        route_origin: link.policy,
        correlation_severity: severity,
        correlation_origin: link.policy,
        aggregation_severity: severity,
        aggregation_origin: link.policy,
        escalation_severity: severity,
        escalation_origin: link.policy,
    }
}

/// What a hint shows, given the severity that counts.
pub open spec fn hint_shown(row: SeverityHintRowView, effective: Severity) -> SeverityHintDtoView {
    SeverityHintDtoView {
        source: row.source,
        severity: row.severity,
        origin: row.origin,
        plugin_id: row.plugin_id,
        updated_at: row.updated_at,
        effective_severity: severity_name(effective),
    }
}

/// The hint that a user sets.
pub open spec fn user_hint(source: Seq<char>, severity: Severity, now: i64) -> SeverityHintRowView {
    SeverityHintRowView {
        source,
        severity: severity_name(severity),
        origin: "user"@,
        plugin_id: None,
        updated_at: now,
    }
}

/// What is wrong with a hint that a user sets.
pub open spec fn user_hint_complaint(source: Seq<char>, severity: Seq<char>) -> Option<Seq<char>> {
    if is_blank_seq(source) {
        Some("source is required"@)
    } else if severity_named(severity) is None {
        Some("invalid severity: "@ + severity + " (expected info|warn|error|critical)"@)
    } else {
        None
    }
}

/// A storage whose hints by users are `hints`, and all else as before.
pub open spec fn only_user_hints_changed(before: Storage, after: Storage) -> bool {
    after == (Storage { user_hints: after.user_hints, ..before })
}

/// Sets the severity of a source as a user. `now` is the time in seconds.
pub fn save_user_severity_hint(store: &mut Storage, source: &str, severity: &str, now: i64) -> (r:
    Result<SeverityHintDto, String>)
    ensures
        complaint(r) == user_hint_complaint(source@, severity@),
        only_user_hints_changed(*old(store), *final(store)),
        match r {
            Ok(dto) => {
                let row = user_hint(source@, severity_named(severity@)->0, now);
                &&& final(store).user_hints@ == with_row::<SeverityHintRow>(
                    old(store).user_hints@,
                    row,
                )
                &&& dto@ == hint_shown(row, severity_named(severity@)->0)
            },
            Err(_) => final(store).user_hints@ == old(store).user_hints@,
        },
{
    if is_blank(source) {
        return Err("source is required".to_owned());
    }
    let sev: Severity = match Severity::parse(severity) {
        Some(s) => s,
        None => {
            return Err(
                join3("invalid severity: ", severity, " (expected info|warn|error|critical)"),
            );
        },
    };
    let row: SeverityHintRow = SeverityHintRow {
        source: source.to_owned(),
        severity: sev.as_str().to_owned(),
        origin: "user".to_owned(),
        plugin_id: None,
        updated_at: now,
    };
    let shown: SeverityHintDto = SeverityHintDto {
        source: source.to_owned(),
        severity: sev.as_str().to_owned(),
        origin: "user".to_owned(),
        plugin_id: None,
        updated_at: now,
        effective_severity: sev.as_str().to_owned(),
    };
    store.user_hints.put(row);
    Ok(shown)
}

/// Right after a user set the severity of a source, that is its severity.
pub proof fn saved_hint_takes_effect(
    user: Seq<SeverityHintRowView>,
    manifest: Seq<SeverityHintRowView>,
    source: Seq<char>,
    severity: Severity,
    now: i64,
)
    requires
        keys_distinct::<SeverityHintRow>(user),
    ensures
        effective_severity(
            with_row::<SeverityHintRow>(user, user_hint(source, severity, now)),
            manifest,
            source,
        ) == severity,
{
    let row = user_hint(source, severity, now);
    super::store::put_then_get::<SeverityHintRow>(user, row, source);
    severity_name_reads_back(severity);
}

/// After the hint of a user is gone, the severity is what it is without one.
pub proof fn deleted_hint_falls_back(
    user: Seq<SeverityHintRowView>,
    manifest: Seq<SeverityHintRowView>,
    source: Seq<char>,
)
    requires
        keys_distinct::<SeverityHintRow>(user),
    ensures
        effective_severity(without_row::<SeverityHintRow>(user, source), manifest, source)
            == effective_severity(Seq::empty(), manifest, source),
{
    super::store::remove_then_get::<SeverityHintRow>(user, source, source);
}

/// Takes back what a user set for a source; says whether there was anything. Hints of manifests
/// stay.
pub fn delete_user_severity_hint(store: &mut Storage, source: &str) -> (r: bool)
    ensures
        only_user_hints_changed(*old(store), *final(store)),
        final(store).user_hints@ == without_row::<SeverityHintRow>(old(store).user_hints@, source@),
        r == (row_with::<SeverityHintRow>(old(store).user_hints@, source@) is Some),
{
    store.user_hints.remove(source)
}

/// The rows of a table of hints as they are shown.
fn shown_rows(store: &Storage, rows: &Vec<SeverityHintRow>, out: &mut Vec<SeverityHintDto>)
    ensures
        rows_view(final(out)@) == rows_view(old(out)@) + hints_shown(*store, rows_view(rows@)),
{
    let ghost before = rows_view(out@);
    let ghost want = hints_shown(*store, rows_view(rows@));
    let mut i: usize = 0;
    assert(before + want.take(0) =~= before);
    while i < rows.len()
        invariant
            i <= rows@.len(),
            want == hints_shown(*store, rows_view(rows@)),
            rows_view(out@) == before + want.take(i as int),
        decreases rows@.len() - i,
    {
        let ghost had = rows_view(out@);
        let row: &SeverityHintRow = &rows[i];
        let effective: Severity = severity_resolved(store, row.source.as_str());
        out.push(
            SeverityHintDto {
                source: row.source.clone(),
                severity: row.severity.clone(),
                origin: row.origin.clone(),
                plugin_id: copy_opt_text(&row.plugin_id),
                updated_at: row.updated_at,
                effective_severity: effective.as_str().to_owned(),
            },
        );
        assert(rows_view(out@) =~= had.push(want[i as int]));
        assert(want.take(i + 1) =~= want.take(i as int).push(want[i as int]));
        i += 1;
    }
    assert(want.take(i as int) =~= want);
}

/// What the rows of a table of hints show.
pub open spec fn hints_shown(store: Storage, rows: Seq<SeverityHintRowView>) -> Seq<SeverityHintDtoView> {
    Seq::new(rows.len(), |i: int| hint_shown(rows[i], resolved(store, rows[i].source)))
}

/// All hints, those of users first.
pub fn list_severity_hints(store: &Storage) -> (r: Vec<SeverityHintDto>)
    ensures
        rows_view(r@) == hints_shown(*store, store.user_hints@) + hints_shown(
            *store,
            store.manifest_hints@,
        ),
{
    let mut out: Vec<SeverityHintDto> = Vec::new();
    assert(rows_view(out@) + hints_shown(*store, store.user_hints@) =~= hints_shown(
        *store,
        store.user_hints@,
    ));
    shown_rows(store, store.user_hints.rows(), &mut out);
    shown_rows(store, store.manifest_hints.rows(), &mut out);
    out
}

/// Takes back all that users set; says how many hints that were.
pub fn clear_user_severity_hints(store: &mut Storage) -> (r: usize)
    ensures
        only_user_hints_changed(*old(store), *final(store)),
        final(store).user_hints@ == Seq::<SeverityHintRowView>::empty(),
        r == old(store).user_hints@.len(),
{
    store.user_hints.clear()
}

/// The hint that the manifest of a plugin gives.
pub open spec fn manifest_hint(
    plugin_id: Seq<char>,
    source: Seq<char>,
    severity: Severity,
    now: i64,
) -> SeverityHintRowView {
    SeverityHintRowView {
        source,
        severity: severity_name(severity),
        origin: "manifest"@,
        plugin_id: Some(plugin_id),
        updated_at: now,
    }
}

/// The hints of manifests after a plugin brought `hints`. Those that name no severity are passed
/// over.
pub open spec fn with_manifest(
    rows: Seq<SeverityHintRowView>,
    plugin_id: Seq<char>,
    hints: Seq<(Seq<char>, Seq<char>)>,
    now: i64,
) -> Seq<SeverityHintRowView>
    decreases hints.len(),
{
    if hints.len() == 0 {
        rows
    } else {
        let before = with_manifest(rows, plugin_id, hints.drop_last(), now);
        match severity_named(hints.last().1) {
            Some(s) => with_row::<SeverityHintRow>(
                before,
                manifest_hint(plugin_id, hints.last().0, s, now),
            ),
            None => before,
        }
    }
}

/// A storage whose hints by manifests changed, and nothing else.
pub open spec fn only_manifest_hints_changed(before: Storage, after: Storage) -> bool {
    after == (Storage { manifest_hints: after.manifest_hints, ..before })
}

/// Takes in the hints of a plugin that is being installed. `now` is the time in seconds.
pub fn install_manifest_hints(
    store: &mut Storage,
    plugin_id: &str,
    alerting: &Option<AlertingManifest>,
    now: i64,
)
    ensures
        only_manifest_hints_changed(*old(store), *final(store)),
        final(store).manifest_hints@ == (match *alerting {
            Some(m) => with_manifest(old(store).manifest_hints@, plugin_id@, m@.severity_hints, now),
            None => old(store).manifest_hints@,
        }),
{
    let m: &AlertingManifest = match alerting {
        Some(m) => m,
        None => {
            return ;
        },
    };
    let ghost all = m@.severity_hints;
    let ghost start = store.manifest_hints@;
    let mut i: usize = 0;
    assert(all.take(0) =~= Seq::<(Seq<char>, Seq<char>)>::empty());
    while i < m.severity_hints.len()
        invariant
            i <= m.severity_hints@.len(),
            all == pairs_view(m.severity_hints@),
            only_manifest_hints_changed(*old(store), *store),
            store.manifest_hints@ == with_manifest(start, plugin_id@, all.take(i as int), now),
        decreases m.severity_hints@.len() - i,
    {
        assert(all.take(i + 1).drop_last() =~= all.take(i as int));
        assert(all.take(i + 1).last() == all[i as int]);
        if let Some(s) = Severity::parse(m.severity_hints[i].1.as_str()) {
            store.manifest_hints.put(
                SeverityHintRow {
                    source: m.severity_hints[i].0.clone(),
                    severity: s.as_str().to_owned(),
                    origin: "manifest".to_owned(),
                    plugin_id: Some(plugin_id.to_owned()),
                    updated_at: now,
                },
            );
        }
        i += 1;
    }
    assert(all.take(i as int) =~= all);
}

/// Whether a hint is not one of `plugin_id`.
fn comes_from_elsewhere(row: &SeverityHintRow, plugin_id: &str) -> (r: bool)
    ensures
        r == (row@.plugin_id != Some(plugin_id@)),
{
    match &row.plugin_id {
        Some(p) => !same(p.as_str(), plugin_id),
        None => true,
    }
}

/// Drops the hints of a plugin that is being removed; says how many those were.
pub fn uninstall_manifest_hints(store: &mut Storage, plugin_id: &str) -> (r: usize)
    ensures
        only_manifest_hints_changed(*old(store), *final(store)),
        final(store).manifest_hints@ == kept(
            old(store).manifest_hints@,
            |v: SeverityHintRowView| v.plugin_id != Some(plugin_id@),
        ),
        r == old(store).manifest_hints@.len() - final(store).manifest_hints@.len(),
{
    let ghost stays = |v: SeverityHintRowView| v.plugin_id != Some(plugin_id@);
    let other = |row: &SeverityHintRow| -> (b: bool)
        ensures
            b == (row@.plugin_id != Some(plugin_id@)),
    { comes_from_elsewhere(row, plugin_id) };
    let rows: &Vec<SeverityHintRow> = store.manifest_hints.rows();
    let left: Vec<SeverityHintRow> = copy_kept(rows, other, Ghost(stays));
    proof {
        lemma_kept::<SeverityHintRow>(store.manifest_hints@, stays);
    }
    let n: usize = rows.len() - left.len();
    store.manifest_hints.replace_rows(left);
    n
}

/// Whether a route speaks of exactly this source.
pub open spec fn route_names(source: Seq<char>, r: RouteRuleRowView) -> bool {
    r.kind_pattern == source || (r.seen_in_last is Some && r.seen_in_last->0.pattern == source)
}

/// Whether a suppression rule speaks of exactly this source.
pub open spec fn correlation_names(source: Seq<char>, c: CorrelationRuleDtoView) -> bool {
    c.kind_pattern_a == source || c.kind_pattern_b == source
}

/// The names of the routes that speak of exactly this source, in listing order.
pub open spec fn affected_routes(rows: Seq<RouteRuleRowView>, source: Seq<char>) -> Seq<Seq<char>> {
    let hit = kept(rows, |r: RouteRuleRowView| route_names(source, r));
    Seq::new(hit.len(), |i: int| hit[i].name)
}

/// The names of the suppression rules that speak of exactly this source, in listing order.
pub open spec fn affected_correlations(rows: Seq<CorrelationRuleDtoView>, source: Seq<char>) -> Seq<
    Seq<char>,
> {
    let hit = kept(rows, |c: CorrelationRuleDtoView| correlation_names(source, c));
    Seq::new(hit.len(), |i: int| hit[i].name)
}

/// The names of the frequency rules that speak of exactly this source, in listing order.
pub open spec fn affected_aggregations(rows: Seq<AggregationRuleDtoView>, source: Seq<char>) -> Seq<
    Seq<char>,
> {
    let hit = kept(rows, |a: AggregationRuleDtoView| a.kind_pattern == source);
    Seq::new(hit.len(), |i: int| hit[i].name)
}

fn names_of_routes(rows: &Vec<RouteRuleRow>, source: &str) -> (r: Vec<String>)
    ensures
        texts_view(r@) == affected_routes(rows_view(rows@), source@),
{
    let ghost names = |r: RouteRuleRowView| route_names(source@, r);
    let speaks = |row: &RouteRuleRow| -> (b: bool)
        ensures
            b == route_names(source@, row@),
    {
        same(row.kind_pattern.as_str(), source) || match &row.seen_in_last {
            Some(s) => same(s.pattern.as_str(), source),
            None => false,
        }
    };
    let hit: Vec<RouteRuleRow> = copy_kept(rows, speaks, Ghost(names));
    let mut out: Vec<String> = Vec::new();
    let mut i: usize = 0;
    while i < hit.len()
        invariant
            i <= hit@.len(),
            out@.len() == i,
            forall|k: int| 0 <= k < i ==> (#[trigger] out@[k])@ == hit@[k]@.name,
        decreases hit@.len() - i,
    {
        out.push(hit[i].name.clone());
        i += 1;
    }
    assert(texts_view(out@) =~= affected_routes(rows_view(rows@), source@));
    out
}

fn names_of_correlations(rows: &Vec<CorrelationRuleDto>, source: &str) -> (r: Vec<String>)
    ensures
        texts_view(r@) == affected_correlations(rows_view(rows@), source@),
{
    let ghost names = |c: CorrelationRuleDtoView| correlation_names(source@, c);
    let speaks = |row: &CorrelationRuleDto| -> (b: bool)
        ensures
            b == correlation_names(source@, row@),
    { same(row.kind_pattern_a.as_str(), source) || same(row.kind_pattern_b.as_str(), source) };
    let hit: Vec<CorrelationRuleDto> = copy_kept(rows, speaks, Ghost(names));
    let mut out: Vec<String> = Vec::new();
    let mut i: usize = 0;
    while i < hit.len()
        invariant
            i <= hit@.len(),
            out@.len() == i,
            forall|k: int| 0 <= k < i ==> (#[trigger] out@[k])@ == hit@[k]@.name,
        decreases hit@.len() - i,
    {
        out.push(hit[i].name.clone());
        i += 1;
    }
    assert(texts_view(out@) =~= affected_correlations(rows_view(rows@), source@));
    out
}

fn names_of_aggregations(rows: &Vec<AggregationRuleDto>, source: &str) -> (r: Vec<String>)
    ensures
        texts_view(r@) == affected_aggregations(rows_view(rows@), source@),
{
    let ghost names = |a: AggregationRuleDtoView| a.kind_pattern == source@;
    let speaks = |row: &AggregationRuleDto| -> (b: bool)
        ensures
            b == (row@.kind_pattern == source@),
    { same(row.kind_pattern.as_str(), source) };
    let hit: Vec<AggregationRuleDto> = copy_kept(rows, speaks, Ghost(names));
    let mut out: Vec<String> = Vec::new();
    let mut i: usize = 0;
    while i < hit.len()
        invariant
            i <= hit@.len(),
            out@.len() == i,
            forall|k: int| 0 <= k < i ==> (#[trigger] out@[k])@ == hit@[k]@.name,
        decreases hit@.len() - i,
    {
        out.push(hit[i].name.clone());
        i += 1;
    }
    assert(texts_view(out@) =~= affected_aggregations(rows_view(rows@), source@));
    out
}

/// Takes back what a user set for a source and names all rules that speak of exactly this source.
pub fn cascade_delete_severity_hint(store: &mut Storage, source: &str) -> (r: CascadeReport)
    ensures
        only_user_hints_changed(*old(store), *final(store)),
        final(store).user_hints@ == without_row::<SeverityHintRow>(old(store).user_hints@, source@),
        r@ == (CascadeReportView {
            hint_deleted: row_with::<SeverityHintRow>(old(store).user_hints@, source@) is Some,
            affected_routes: affected_routes(by_rank::<RouteRuleRow>(old(store).routes@), source@),
            affected_correlations: affected_correlations(
                by_rank::<CorrelationRuleDto>(old(store).correlations@),
                source@,
            ),
            affected_aggregations: affected_aggregations(
                by_rank::<AggregationRuleDto>(old(store).aggregations@),
                source@,
            ),
        }),
{
    let hint_deleted: bool = delete_user_severity_hint(store, source);
    CascadeReport {
        hint_deleted,
        affected_routes: names_of_routes(&store.routes.list(), source),
        affected_correlations: names_of_correlations(&store.correlations.list(), source),
        affected_aggregations: names_of_aggregations(&store.aggregations.list(), source),
    }
}

/// The override of an endpoint that applies to a source.
pub open spec fn override_hit(source: Seq<char>, overrides: Seq<(Seq<char>, Severity)>) -> Option<
    EndpointSeverityOverrideHitView,
> {
    match first_index(overrides, |o: (Seq<char>, Severity)| kind_fits(o.0, source)) {
        Some(i) => Some(
            EndpointSeverityOverrideHitView {
                pattern: overrides[i].0,
                severity: overrides[i].1,
                index: i as usize,
            },
        ),
        None => None,
    }
}

/// The severity with which an endpoint would get an alert of a source.
pub open spec fn preview_of(store: Storage, source: Seq<char>, ep: WebhookEndpointView) -> EndpointPreviewRowView {
    let hit = override_hit(source, ep.severity_overrides);
    EndpointPreviewRowView {
        endpoint_id: ep.id,
        endpoint_name: ep.name,
        override_hit: hit,
        propagation_severity: resolved(store, source),
        final_envelope_severity: match hit {
            Some(h) => h.severity,
            None => resolved(store, source),
        },
    }
}

/// A preview ends with the severity that the overrides of the endpoint leave standing.
pub proof fn preview_agrees_with_overrides(store: Storage, source: Seq<char>, ep: WebhookEndpointView)
    ensures
        preview_of(store, source, ep).final_envelope_severity == (match override_for(
            source,
            ep.severity_overrides,
        ) {
            Some(s) => s,
            None => resolved(store, source),
        }),
{
}

/// The severity with which an endpoint would get an alert of a source.
pub fn preview_endpoint_severity(store: &Storage, source: &str, ep: &WebhookEndpoint) -> (r:
    EndpointPreviewRow)
    ensures
        r@ == preview_of(*store, source@, ep@),
{
    let propagation: Severity = severity_resolved(store, source);
    let (hit, last) = match override_index(source, &ep.severity_overrides) {
        Some(i) => (
            Some(
                EndpointSeverityOverrideHit {
                    pattern: ep.severity_overrides[i].0.clone(),
                    severity: ep.severity_overrides[i].1,
                    index: i,
                },
            ),
            ep.severity_overrides[i].1,
        ),
        None => (None, propagation),
    };
    EndpointPreviewRow {
        endpoint_id: ep.id.clone(),
        endpoint_name: ep.name.clone(),
        override_hit: hit,
        propagation_severity: propagation,
        final_envelope_severity: last,
    }
}

/// Previews for some endpoints, in order.
pub open spec fn previews_of(store: Storage, source: Seq<char>, rows: Seq<AlertingEndpointRowView>) -> Seq<
    EndpointPreviewRowView,
> {
    Seq::new(rows.len(), |i: int| preview_of(store, source, endpoint_of(rows[i])))
}

/// Previews for some endpoints, in order.
pub fn preview_rows(store: &Storage, source: &str, rows: &Vec<AlertingEndpointRow>) -> (r: Vec<
    EndpointPreviewRow,
>)
    ensures
        rows_view(r@) == previews_of(*store, source@, rows_view(rows@)),
{
    let mut out: Vec<EndpointPreviewRow> = Vec::new();
    let mut i: usize = 0;
    while i < rows.len()
        invariant
            i <= rows@.len(),
            out@.len() == i,
            forall|k: int| 0 <= k < i ==> (#[trigger] out@[k])@ == preview_of(
                *store,
                source@,
                endpoint_of(rows@[k]@),
            ),
        decreases rows@.len() - i,
    {
        let ep: WebhookEndpoint = endpoint_row_to_dto(&rows[i]);
        out.push(preview_endpoint_severity(store, source, &ep));
        i += 1;
    }
    assert(rows_view(out@) =~= previews_of(*store, source@, rows_view(rows@)));
    out
}

/// The endpoints that are on, in listing order.
pub fn load_enabled_endpoints(store: &Storage) -> (r: Vec<AlertingEndpointRow>)
    ensures
        rows_view(r@) == endpoints_on(*store),
{
    let ghost on = |e: AlertingEndpointRowView| e.enabled;
    let is_on = |row: &AlertingEndpointRow| -> (b: bool)
        ensures
            b == row@.enabled,
    { row.enabled };
    copy_kept(&store.endpoints.list(), is_on, Ghost(on))
}

/// The endpoints that are on, in listing order.
pub open spec fn endpoints_on(store: Storage) -> Seq<AlertingEndpointRowView> {
    kept(by_rank::<AlertingEndpointRow>(store.endpoints@), |e: AlertingEndpointRowView| e.enabled)
}

/// The endpoints that a preview shows: the one that is asked for, on or off, or else all that are
/// on.
pub open spec fn preview_targets(store: Storage, endpoint_id: Option<Seq<char>>) -> Seq<
    AlertingEndpointRowView,
> {
    if endpoint_id is Some && endpoint_id->0.len() > 0 {
        match row_with::<AlertingEndpointRow>(store.endpoints@, endpoint_id->0) {
            Some(row) => seq![row],
            None => Seq::empty(),
        }
    } else {
        endpoints_on(store)
    }
}

/// The view of an optional piece of text.
pub open spec fn opt_str_view(o: Option<&str>) -> Option<Seq<char>> {
    match o {
        Some(s) => Some(s@),
        None => None,
    }
}

/// The severities with which endpoints would get an alert of a source.
pub fn preview_alerting_endpoint_severity(
    store: &Storage,
    source: &str,
    endpoint_id: Option<&str>,
) -> (r: Result<EndpointSeverityPreview, String>)
    ensures
        complaint(r) == (if is_blank_seq(source@) {
            Some("source is required"@)
        } else {
            None::<Seq<char>>
        }),
        match r {
            Ok(p) => p.source@ == source@ && rows_view(p.endpoints@) == previews_of(
                *store,
                source@,
                preview_targets(*store, opt_str_view(endpoint_id)),
            ),
            Err(_) => true,
        },
{
    if is_blank(source) {
        return Err("source is required".to_owned());
    }
    let targets: Vec<AlertingEndpointRow> = match endpoint_id {
        Some(id) => if id.is_empty() {
            load_enabled_endpoints(store)
        } else {
            let mut one: Vec<AlertingEndpointRow> = Vec::new();
            if let Some(row) = store.endpoints.get(id) {
                one.push(row.clone());
            }
            assert(rows_view(one@) =~= preview_targets(*store, Some(id@)));
            one
        },
        None => load_enabled_endpoints(store),
    };
    let endpoints: Vec<EndpointPreviewRow> = preview_rows(store, source, &targets);
    Ok(EndpointSeverityPreview { source: source.to_owned(), endpoints })
}

} // verus!
