//! The tables that alerting keeps.

use vstd::prelude::*;

use super::store::{Row, Table};
use super::types::{
    copy_opt_text, copy_opt_texts, opt_text_view, opt_texts_view, AckRuleRow, AckRuleRowView,
    AlertingEndpointRow, AlertingEndpointRowView, FailedDeliveryRow, FailedDeliveryRowView,
    RouteRuleRow, RouteRuleRowView, SilenceRuleRow, SilenceRuleRowView,
};
use crate::json::{Json, JsonView};

verus! {

/// A frequency rule as a user edits it. A blank id asks for a new one.
#[derive(Debug)]
pub struct AggregationRule {
    pub id: String,
    pub name: String,
    pub kind_pattern: String,
    pub window_secs: u64,
    pub threshold_count: u32,
    /// `downgrade`, `suppress` or `merge`.
    pub action: String,
    pub target_severity: Option<String>,
    pub enabled: bool,
}

/// What a [`AggregationRule`] holds.
pub struct AggregationRuleView {
    pub id: Seq<char>,
    pub name: Seq<char>,
    pub kind_pattern: Seq<char>,
    pub window_secs: u64,
    pub threshold_count: u32,
    pub action: Seq<char>,
    pub target_severity: Option<Seq<char>>,
    pub enabled: bool,
}

impl View for AggregationRule {
    type V = AggregationRuleView;

    open spec fn view(&self) -> AggregationRuleView {
        AggregationRuleView {
            id: self.id@,
            name: self.name@,
            kind_pattern: self.kind_pattern@,
            window_secs: self.window_secs,
            threshold_count: self.threshold_count,
            action: self.action@,
            target_severity: opt_text_view(self.target_severity),
            enabled: self.enabled,
        }
    }
}

impl Clone for AggregationRule {
    fn clone(&self) -> (r: Self)
        ensures
            r@ == self@,
    {
        AggregationRule {
            id: self.id.clone(),
            name: self.name.clone(),
            kind_pattern: self.kind_pattern.clone(),
            window_secs: self.window_secs,
            threshold_count: self.threshold_count,
            action: self.action.clone(),
            target_severity: copy_opt_text(&self.target_severity),
            enabled: self.enabled,
        }
    }
}

/// A frequency rule as it is stored and shown.
#[derive(Debug)]
pub struct AggregationRuleDto {
    pub id: String,
    pub name: String,
    pub kind_pattern: String,
    pub window_secs: u64,
    pub threshold_count: u32,
    /// `downgrade`, `suppress` or `merge`.
    pub action: String,
    pub target_severity: Option<String>,
    pub enabled: bool,
    pub created_at: u64,
}

/// What a [`AggregationRuleDto`] holds.
pub struct AggregationRuleDtoView {
    pub id: Seq<char>,
    pub name: Seq<char>,
    pub kind_pattern: Seq<char>,
    pub window_secs: u64,
    pub threshold_count: u32,
    pub action: Seq<char>,
    pub target_severity: Option<Seq<char>>,
    pub enabled: bool,
    pub created_at: u64,
}

impl View for AggregationRuleDto {
    type V = AggregationRuleDtoView;

    open spec fn view(&self) -> AggregationRuleDtoView {
        AggregationRuleDtoView {
            id: self.id@,
            name: self.name@,
            kind_pattern: self.kind_pattern@,
            window_secs: self.window_secs,
            threshold_count: self.threshold_count,
            action: self.action@,
            target_severity: opt_text_view(self.target_severity),
            enabled: self.enabled,
            created_at: self.created_at,
        }
    }
}

impl Clone for AggregationRuleDto {
    fn clone(&self) -> (r: Self)
        ensures
            r@ == self@,
    {
        AggregationRuleDto {
            id: self.id.clone(),
            name: self.name.clone(),
            kind_pattern: self.kind_pattern.clone(),
            window_secs: self.window_secs,
            threshold_count: self.threshold_count,
            action: self.action.clone(),
            target_severity: copy_opt_text(&self.target_severity),
            enabled: self.enabled,
            created_at: self.created_at,
        }
    }
}

/// A suppression rule as a user edits it. A blank id asks for a new one.
#[derive(Debug)]
pub struct CorrelationRule {
    pub id: String,
    pub name: String,
    pub kind_pattern_a: String,
    pub kind_pattern_b: String,
    pub window_secs: u64,
    pub enabled: bool,
}

/// What a [`CorrelationRule`] holds.
pub struct CorrelationRuleView {
    pub id: Seq<char>,
    pub name: Seq<char>,
    pub kind_pattern_a: Seq<char>,
    pub kind_pattern_b: Seq<char>,
    pub window_secs: u64,
    pub enabled: bool,
}

impl View for CorrelationRule {
    type V = CorrelationRuleView;

    open spec fn view(&self) -> CorrelationRuleView {
        CorrelationRuleView {
            id: self.id@,
            name: self.name@,
            kind_pattern_a: self.kind_pattern_a@,
            kind_pattern_b: self.kind_pattern_b@,
            window_secs: self.window_secs,
            enabled: self.enabled,
        }
    }
}

impl Clone for CorrelationRule {
    fn clone(&self) -> (r: Self)
        ensures
            r@ == self@,
    {
        CorrelationRule {
            id: self.id.clone(),
            name: self.name.clone(),
            kind_pattern_a: self.kind_pattern_a.clone(),
            kind_pattern_b: self.kind_pattern_b.clone(),
            window_secs: self.window_secs,
            enabled: self.enabled,
        }
    }
}

/// A suppression rule as it is stored and shown.
#[derive(Debug)]
pub struct CorrelationRuleDto {
    pub id: String,
    pub name: String,
    pub kind_pattern_a: String,
    pub kind_pattern_b: String,
    pub window_secs: u64,
    pub enabled: bool,
    pub created_at: u64,
}

/// What a [`CorrelationRuleDto`] holds.
pub struct CorrelationRuleDtoView {
    pub id: Seq<char>,
    pub name: Seq<char>,
    pub kind_pattern_a: Seq<char>,
    pub kind_pattern_b: Seq<char>,
    pub window_secs: u64,
    pub enabled: bool,
    pub created_at: u64,
}

impl View for CorrelationRuleDto {
    type V = CorrelationRuleDtoView;

    open spec fn view(&self) -> CorrelationRuleDtoView {
        CorrelationRuleDtoView {
            id: self.id@,
            name: self.name@,
            kind_pattern_a: self.kind_pattern_a@,
            kind_pattern_b: self.kind_pattern_b@,
            window_secs: self.window_secs,
            enabled: self.enabled,
            created_at: self.created_at,
        }
    }
}

impl Clone for CorrelationRuleDto {
    fn clone(&self) -> (r: Self)
        ensures
            r@ == self@,
    {
        CorrelationRuleDto {
            id: self.id.clone(),
            name: self.name.clone(),
            kind_pattern_a: self.kind_pattern_a.clone(),
            kind_pattern_b: self.kind_pattern_b.clone(),
            window_secs: self.window_secs,
            enabled: self.enabled,
            created_at: self.created_at,
        }
    }
}

/// An escalation rule as a user edits it. A blank id asks for a new one.
#[derive(Debug)]
pub struct EscalationRule {
    pub id: String,
    pub name: String,
    pub kind_pattern: String,
    pub escalate_after_secs: u64,
    pub target_severity: String,
    pub target_endpoint_ids: Option<Vec<String>>,
    pub enabled: bool,
}

/// What a [`EscalationRule`] holds.
pub struct EscalationRuleView {
    pub id: Seq<char>,
    pub name: Seq<char>,
    pub kind_pattern: Seq<char>,
    pub escalate_after_secs: u64,
    pub target_severity: Seq<char>,
    pub target_endpoint_ids: Option<Seq<Seq<char>>>,
    pub enabled: bool,
}

impl View for EscalationRule {
    type V = EscalationRuleView;

    open spec fn view(&self) -> EscalationRuleView {
        EscalationRuleView {
            id: self.id@,
            name: self.name@,
            kind_pattern: self.kind_pattern@,
            escalate_after_secs: self.escalate_after_secs,
            target_severity: self.target_severity@,
            target_endpoint_ids: opt_texts_view(self.target_endpoint_ids),
            enabled: self.enabled,
        }
    }
}

impl Clone for EscalationRule {
    fn clone(&self) -> (r: Self)
        ensures
            r@ == self@,
    {
        EscalationRule {
            id: self.id.clone(),
            name: self.name.clone(),
            kind_pattern: self.kind_pattern.clone(),
            escalate_after_secs: self.escalate_after_secs,
            target_severity: self.target_severity.clone(),
            target_endpoint_ids: copy_opt_texts(&self.target_endpoint_ids),
            enabled: self.enabled,
        }
    }
}

/// An escalation rule as it is stored and shown.
#[derive(Debug)]
pub struct EscalationRuleDto {
    pub id: String,
    pub name: String,
    pub kind_pattern: String,
    pub escalate_after_secs: u64,
    pub target_severity: String,
    pub target_endpoint_ids: Option<Vec<String>>,
    pub enabled: bool,
    pub created_at: u64,
}

/// What a [`EscalationRuleDto`] holds.
pub struct EscalationRuleDtoView {
    pub id: Seq<char>,
    pub name: Seq<char>,
    pub kind_pattern: Seq<char>,
    pub escalate_after_secs: u64,
    pub target_severity: Seq<char>,
    pub target_endpoint_ids: Option<Seq<Seq<char>>>,
    pub enabled: bool,
    pub created_at: u64,
}

impl View for EscalationRuleDto {
    type V = EscalationRuleDtoView;

    open spec fn view(&self) -> EscalationRuleDtoView {
        EscalationRuleDtoView {
            id: self.id@,
            name: self.name@,
            kind_pattern: self.kind_pattern@,
            escalate_after_secs: self.escalate_after_secs,
            target_severity: self.target_severity@,
            target_endpoint_ids: opt_texts_view(self.target_endpoint_ids),
            enabled: self.enabled,
            created_at: self.created_at,
        }
    }
}

impl Clone for EscalationRuleDto {
    fn clone(&self) -> (r: Self)
        ensures
            r@ == self@,
    {
        EscalationRuleDto {
            id: self.id.clone(),
            name: self.name.clone(),
            kind_pattern: self.kind_pattern.clone(),
            escalate_after_secs: self.escalate_after_secs,
            target_severity: self.target_severity.clone(),
            target_endpoint_ids: copy_opt_texts(&self.target_endpoint_ids),
            enabled: self.enabled,
            created_at: self.created_at,
        }
    }
}

/// A severity that a user or a plugin set for a source.
#[derive(Debug)]
pub struct SeverityHintRow {
    pub source: String,
    pub severity: String,
    /// `user` or `manifest`.
    pub origin: String,
    pub plugin_id: Option<String>,
    pub updated_at: i64,
}

/// What a [`SeverityHintRow`] holds.
pub struct SeverityHintRowView {
    pub source: Seq<char>,
    pub severity: Seq<char>,
    pub origin: Seq<char>,
    pub plugin_id: Option<Seq<char>>,
    pub updated_at: i64,
}

impl View for SeverityHintRow {
    type V = SeverityHintRowView;

    open spec fn view(&self) -> SeverityHintRowView {
        SeverityHintRowView {
            source: self.source@,
            severity: self.severity@,
            origin: self.origin@,
            plugin_id: opt_text_view(self.plugin_id),
            updated_at: self.updated_at,
        }
    }
}

impl Clone for SeverityHintRow {
    fn clone(&self) -> (r: Self)
        ensures
            r@ == self@,
    {
        SeverityHintRow {
            source: self.source.clone(),
            severity: self.severity.clone(),
            origin: self.origin.clone(),
            plugin_id: copy_opt_text(&self.plugin_id),
            updated_at: self.updated_at,
        }
    }
}

/// A place that alerts can be sent to. An empty id asks for a new one.
#[derive(Debug)]
pub struct RecipientDef {
    pub id: String,
    pub name: String,
    pub kind: String,
    pub config: Json,
    pub enabled: bool,
    pub created_at: u64,
}

/// What a [`RecipientDef`] holds.
pub struct RecipientDefView {
    pub id: Seq<char>,
    pub name: Seq<char>,
    pub kind: Seq<char>,
    pub config: JsonView,
    pub enabled: bool,
    pub created_at: u64,
}

impl View for RecipientDef {
    type V = RecipientDefView;

    open spec fn view(&self) -> RecipientDefView {
        RecipientDefView {
            id: self.id@,
            name: self.name@,
            kind: self.kind@,
            config: self.config@,
            enabled: self.enabled,
            created_at: self.created_at,
        }
    }
}

impl Clone for RecipientDef {
    fn clone(&self) -> (r: Self)
        ensures
            r@ == self@,
    {
        RecipientDef {
            id: self.id.clone(),
            name: self.name.clone(),
            kind: self.kind.clone(),
            config: self.config.clone(),
            enabled: self.enabled,
            created_at: self.created_at,
        }
    }
}

/// A template that endpoints can take over.
#[derive(Debug)]
pub struct TemplatePreset {
    pub id: String,
    pub name: String,
    pub description: String,
    /// `builtin:` or `user:`, then a name.
    pub kind: String,
    pub template: String,
    pub sample: String,
    pub builtin: bool,
    pub created_at: u64,
    /// One at first; every save under the same id raises it.
    pub version: u32,
    pub changelog: String,
}

/// What a [`TemplatePreset`] holds.
pub struct TemplatePresetView {
    pub id: Seq<char>,
    pub name: Seq<char>,
    pub description: Seq<char>,
    pub kind: Seq<char>,
    pub template: Seq<char>,
    pub sample: Seq<char>,
    pub builtin: bool,
    pub created_at: u64,
    pub version: u32,
    pub changelog: Seq<char>,
}

impl View for TemplatePreset {
    type V = TemplatePresetView;

    open spec fn view(&self) -> TemplatePresetView {
        TemplatePresetView {
            id: self.id@,
            name: self.name@,
            description: self.description@,
            kind: self.kind@,
            template: self.template@,
            sample: self.sample@,
            builtin: self.builtin,
            created_at: self.created_at,
            version: self.version,
            changelog: self.changelog@,
        }
    }
}

impl Clone for TemplatePreset {
    fn clone(&self) -> (r: Self)
        ensures
            r@ == self@,
    {
        TemplatePreset {
            id: self.id.clone(),
            name: self.name.clone(),
            description: self.description.clone(),
            kind: self.kind.clone(),
            template: self.template.clone(),
            sample: self.sample.clone(),
            builtin: self.builtin,
            created_at: self.created_at,
            version: self.version,
            changelog: self.changelog.clone(),
        }
    }
}

impl Row for AlertingEndpointRow {
    open spec fn key(v: AlertingEndpointRowView) -> Seq<char> {
        v.id
    }

    open spec fn rank(v: AlertingEndpointRowView) -> int {
        v.created_at as int
    }

    fn row_key(&self) -> (r: &str) {
        self.id.as_str()
    }

    fn row_rank(&self) -> (r: i128) {
        self.created_at as i128
    }

    fn copy_row(&self) -> (r: Self) {
        self.clone()
    }
}

impl Row for RouteRuleRow {
    open spec fn key(v: RouteRuleRowView) -> Seq<char> {
        v.id
    }

    open spec fn rank(v: RouteRuleRowView) -> int {
        v.priority as int
    }

    fn row_key(&self) -> (r: &str) {
        self.id.as_str()
    }

    fn row_rank(&self) -> (r: i128) {
        self.priority as i128
    }

    fn copy_row(&self) -> (r: Self) {
        self.clone()
    }
}

impl Row for SilenceRuleRow {
    open spec fn key(v: SilenceRuleRowView) -> Seq<char> {
        v.id
    }

    open spec fn rank(v: SilenceRuleRowView) -> int {
        v.created_at as int
    }

    fn row_key(&self) -> (r: &str) {
        self.id.as_str()
    }

    fn row_rank(&self) -> (r: i128) {
        self.created_at as i128
    }

    fn copy_row(&self) -> (r: Self) {
        self.clone()
    }
}

impl Row for AckRuleRow {
    open spec fn key(v: AckRuleRowView) -> Seq<char> {
        v.id
    }

    open spec fn rank(v: AckRuleRowView) -> int {
        v.created_at as int
    }

    fn row_key(&self) -> (r: &str) {
        self.id.as_str()
    }

    fn row_rank(&self) -> (r: i128) {
        self.created_at as i128
    }

    fn copy_row(&self) -> (r: Self) {
        self.clone()
    }
}

impl Row for FailedDeliveryRow {
    open spec fn key(v: FailedDeliveryRowView) -> Seq<char> {
        v.id
    }

    open spec fn rank(v: FailedDeliveryRowView) -> int {
        v.created_at as int
    }

    fn row_key(&self) -> (r: &str) {
        self.id.as_str()
    }

    fn row_rank(&self) -> (r: i128) {
        self.created_at as i128
    }

    fn copy_row(&self) -> (r: Self) {
        self.clone()
    }
}

impl Row for AggregationRuleDto {
    open spec fn key(v: AggregationRuleDtoView) -> Seq<char> {
        v.id
    }

    open spec fn rank(v: AggregationRuleDtoView) -> int {
        v.created_at as int
    }

    fn row_key(&self) -> (r: &str) {
        self.id.as_str()
    }

    fn row_rank(&self) -> (r: i128) {
        self.created_at as i128
    }

    fn copy_row(&self) -> (r: Self) {
        self.clone()
    }
}

impl Row for CorrelationRuleDto {
    open spec fn key(v: CorrelationRuleDtoView) -> Seq<char> {
        v.id
    }

    open spec fn rank(v: CorrelationRuleDtoView) -> int {
        v.created_at as int
    }

    fn row_key(&self) -> (r: &str) {
        self.id.as_str()
    }

    fn row_rank(&self) -> (r: i128) {
        self.created_at as i128
    }

    fn copy_row(&self) -> (r: Self) {
        self.clone()
    }
}

impl Row for EscalationRuleDto {
    open spec fn key(v: EscalationRuleDtoView) -> Seq<char> {
        v.id
    }

    open spec fn rank(v: EscalationRuleDtoView) -> int {
        v.created_at as int
    }

    fn row_key(&self) -> (r: &str) {
        self.id.as_str()
    }

    fn row_rank(&self) -> (r: i128) {
        self.created_at as i128
    }

    fn copy_row(&self) -> (r: Self) {
        self.clone()
    }
}

impl Row for RecipientDef {
    open spec fn key(v: RecipientDefView) -> Seq<char> {
        v.id
    }

    open spec fn rank(v: RecipientDefView) -> int {
        v.created_at as int
    }

    fn row_key(&self) -> (r: &str) {
        self.id.as_str()
    }

    fn row_rank(&self) -> (r: i128) {
        self.created_at as i128
    }

    fn copy_row(&self) -> (r: Self) {
        self.clone()
    }
}

impl Row for TemplatePreset {
    open spec fn key(v: TemplatePresetView) -> Seq<char> {
        v.id
    }

    open spec fn rank(v: TemplatePresetView) -> int {
        v.created_at as int
    }

    fn row_key(&self) -> (r: &str) {
        self.id.as_str()
    }

    fn row_rank(&self) -> (r: i128) {
        self.created_at as i128
    }

    fn copy_row(&self) -> (r: Self) {
        self.clone()
    }
}

impl Row for SeverityHintRow {
    open spec fn key(v: SeverityHintRowView) -> Seq<char> {
        v.source
    }

    open spec fn rank(v: SeverityHintRowView) -> int {
        0
    }

    fn row_key(&self) -> (r: &str) {
        self.source.as_str()
    }

    fn row_rank(&self) -> (r: i128) {
        0
    }

    fn copy_row(&self) -> (r: Self) {
        self.clone()
    }
}

/// All tables. Severity hints are kept apart by origin, under their source.
pub struct Storage {
    pub endpoints: Table<AlertingEndpointRow>,
    pub routes: Table<RouteRuleRow>,
    pub silences: Table<SilenceRuleRow>,
    pub acks: Table<AckRuleRow>,
    pub deliveries: Table<FailedDeliveryRow>,
    pub aggregations: Table<AggregationRuleDto>,
    pub correlations: Table<CorrelationRuleDto>,
    pub escalations: Table<EscalationRuleDto>,
    pub user_hints: Table<SeverityHintRow>,
    pub manifest_hints: Table<SeverityHintRow>,
    pub recipients: Table<RecipientDef>,
    pub presets: Table<TemplatePreset>,
}

impl Storage {
    /// Tables without rows.
    pub fn new() -> (r: Self)
        ensures
            r.endpoints@.len() == 0,
            r.routes@.len() == 0,
            r.silences@.len() == 0,
            r.acks@.len() == 0,
            r.deliveries@.len() == 0,
            r.aggregations@.len() == 0,
            r.correlations@.len() == 0,
            r.escalations@.len() == 0,
            r.user_hints@.len() == 0,
            r.manifest_hints@.len() == 0,
            r.recipients@.len() == 0,
            r.presets@.len() == 0,
    {
        Storage {
            endpoints: Table::new(),
            routes: Table::new(),
            silences: Table::new(),
            acks: Table::new(),
            deliveries: Table::new(),
            aggregations: Table::new(),
            correlations: Table::new(),
            escalations: Table::new(),
            user_hints: Table::new(),
            manifest_hints: Table::new(),
            recipients: Table::new(),
            presets: Table::new(),
        }
    }
}

} // verus!
