//! The data that alerting works on: severities, envelopes, endpoints and rules.

use vstd::prelude::*;

use crate::json::{texts_view, Json, JsonView};
use crate::text::{lower_ascii_seq, same, to_lower_ascii};

verus! {

/// The version written into every envelope.
pub const ALERT_SCHEMA_VERSION: u32 = 1;

/// How grave an alert is.
#[derive(Debug, Clone, Copy, PartialEq, Eq, Structural)]
pub enum Severity {
    Info,
    Warn,
    Error,
    Critical,
}

/// The name of a severity.
pub open spec fn severity_name(s: Severity) -> Seq<char> {
    match s {
        Severity::Info => "info"@,
        Severity::Warn => "warn"@,
        Severity::Error => "error"@,
        Severity::Critical => "critical"@,
    }
}

/// The severity that `s` names, whatever the case of its letters; `fatal` stands for critical.
pub open spec fn severity_named(s: Seq<char>) -> Option<Severity> {
    let low = lower_ascii_seq(s);
    if low == "info"@ {
        Some(Severity::Info)
    } else if low == "warn"@ {
        Some(Severity::Warn)
    } else if low == "error"@ {
        Some(Severity::Error)
    } else if low == "critical"@ || low == "fatal"@ {
        Some(Severity::Critical)
    } else {
        None
    }
}

impl Severity {
    /// The severity that `s` names.
    pub fn parse(s: &str) -> (r: Option<Severity>)
        ensures
            r == severity_named(s@),
    {
        let low: String = to_lower_ascii(s);
        if same(low.as_str(), "info") {
            Some(Severity::Info)
        } else if same(low.as_str(), "warn") {
            Some(Severity::Warn)
        } else if same(low.as_str(), "error") {
            Some(Severity::Error)
        } else if same(low.as_str(), "critical") || same(low.as_str(), "fatal") {
            Some(Severity::Critical)
        } else {
            None
        }
    }

    /// The name of the severity.
    pub fn as_str(&self) -> (r: &'static str)
        ensures
            r@ == severity_name(*self),
    {
        match self {
            Severity::Info => "info",
            Severity::Warn => "warn",
            Severity::Error => "error",
            Severity::Critical => "critical",
        }
    }
}

/// Every severity is found again under its own name.
pub proof fn severity_name_reads_back(s: Severity)
    ensures
        severity_named(severity_name(s)) == Some(s),
{
    reveal_strlit("info");
    reveal_strlit("warn");
    reveal_strlit("error");
    reveal_strlit("critical");
    reveal_strlit("fatal");
    assert(lower_ascii_seq("info"@) =~= "info"@);
    assert(lower_ascii_seq("warn"@) =~= "warn"@);
    assert(lower_ascii_seq("error"@) =~= "error"@);
    assert(lower_ascii_seq("critical"@) =~= "critical"@);
    assert("warn"@[0] != "info"@[0]);
    assert("error"@[0] != "info"@[0]);
    assert("error"@[0] != "warn"@[0]);
    assert("critical"@[0] != "info"@[0]);
    assert("critical"@[0] != "warn"@[0]);
    assert("critical"@[0] != "error"@[0]);
}

/// The view of an optional text.
pub open spec fn opt_text_view(o: Option<String>) -> Option<Seq<char>> {
    match o {
        Some(t) => Some(t@),
        None => None,
    }
}

/// The view of an optional list of texts.
pub open spec fn opt_texts_view(o: Option<Vec<String>>) -> Option<Seq<Seq<char>>> {
    match o {
        Some(v) => Some(texts_view(v@)),
        None => None,
    }
}

/// The view of a list of named values.
pub open spec fn pairs_view(s: Seq<(String, String)>) -> Seq<(Seq<char>, Seq<char>)> {
    Seq::new(s.len(), |i: int| (s[i].0@, s[i].1@))
}

/// The view of a list of severity overrides.
pub open spec fn overrides_view(s: Seq<(String, Severity)>) -> Seq<(Seq<char>, Severity)> {
    Seq::new(s.len(), |i: int| (s[i].0@, s[i].1))
}

/// The view of an optional list of severity overrides.
pub open spec fn opt_overrides_view(o: Option<Vec<(String, Severity)>>) -> Option<
    Seq<(Seq<char>, Severity)>,
> {
    match o {
        Some(v) => Some(overrides_view(v@)),
        None => None,
    }
}

/// A copy of an optional text.
pub fn copy_opt_text(o: &Option<String>) -> (r: Option<String>)
    ensures
        opt_text_view(r) == opt_text_view(*o),
{
    match o {
        Some(t) => Some(t.clone()),
        None => None,
    }
}

/// A copy of a list of texts.
pub fn copy_texts(v: &Vec<String>) -> (r: Vec<String>)
    ensures
        texts_view(r@) == texts_view(v@),
{
    let mut out: Vec<String> = Vec::new();
    let mut i: usize = 0;
    while i < v.len()
        invariant
            i <= v@.len(),
            out@.len() == i,
            forall|k: int| 0 <= k < i ==> (#[trigger] out@[k])@ == v@[k]@,
        decreases v@.len() - i,
    {
        out.push(v[i].clone());
        i += 1;
    }
    assert(texts_view(out@) =~= texts_view(v@));
    out
}

/// A copy of an optional list of texts.
pub fn copy_opt_texts(o: &Option<Vec<String>>) -> (r: Option<Vec<String>>)
    ensures
        opt_texts_view(r) == opt_texts_view(*o),
{
    match o {
        Some(v) => Some(copy_texts(v)),
        None => None,
    }
}

/// A copy of a list of named values.
pub fn copy_pairs(v: &Vec<(String, String)>) -> (r: Vec<(String, String)>)
    ensures
        pairs_view(r@) == pairs_view(v@),
{
    let mut out: Vec<(String, String)> = Vec::new();
    let mut i: usize = 0;
    while i < v.len()
        invariant
            i <= v@.len(),
            out@.len() == i,
            forall|k: int| 0 <= k < i ==> (#[trigger] out@[k]).0@ == v@[k].0@ && out@[k].1@ == v@[k].1@,
        decreases v@.len() - i,
    {
        out.push((v[i].0.clone(), v[i].1.clone()));
        i += 1;
    }
    assert(pairs_view(out@) =~= pairs_view(v@));
    out
}

/// A copy of a list of severity overrides.
pub fn copy_overrides(v: &Vec<(String, Severity)>) -> (r: Vec<(String, Severity)>)
    ensures
        overrides_view(r@) == overrides_view(v@),
{
    let mut out: Vec<(String, Severity)> = Vec::new();
    let mut i: usize = 0;
    while i < v.len()
        invariant
            i <= v@.len(),
            out@.len() == i,
            forall|k: int| 0 <= k < i ==> (#[trigger] out@[k]).0@ == v@[k].0@ && out@[k].1 == v@[k].1,
        decreases v@.len() - i,
    {
        out.push((v[i].0.clone(), v[i].1));
        i += 1;
    }
    assert(overrides_view(out@) =~= overrides_view(v@));
    out
}

/// A copy of an optional list of severity overrides.
pub fn copy_opt_overrides(o: &Option<Vec<(String, Severity)>>) -> (r: Option<Vec<(String, Severity)>>)
    ensures
        opt_overrides_view(r) == opt_overrides_view(*o),
{
    match o {
        Some(v) => Some(copy_overrides(v)),
        None => None,
    }
}

/// Which of the built-in alert sources go out over the single webhook.
#[derive(Debug, Clone, Copy, PartialEq, Eq, Structural)]
pub struct WebhookSources {
    pub metrics_exceeded: bool,
    pub sla_violated: bool,
    pub kill_switch_engaged: bool,
    pub plugin_crashed: bool,
}

impl Default for WebhookSources {
    fn default() -> (r: Self)
        ensures
            !r.metrics_exceeded,
            !r.sla_violated,
            !r.kill_switch_engaged,
            !r.plugin_crashed,
    {
        WebhookSources {
            metrics_exceeded: false,
            sla_violated: false,
            kill_switch_engaged: false,
            plugin_crashed: false,
        }
    }
}

/// The settings of the single webhook.
#[derive(Debug)]
pub struct WebhookConfig {
    pub enabled: bool,
    pub url: String,
    /// How long the same event is held back after it was sent.
    pub min_interval_secs: u32,
    pub sources: WebhookSources,
    pub custom_headers: Vec<(String, String)>,
    pub schema_version: u32,
}

/// What a [`WebhookConfig`] holds.
pub struct WebhookConfigView {
    pub enabled: bool,
    pub url: Seq<char>,
    pub min_interval_secs: u32,
    pub sources: WebhookSources,
    pub custom_headers: Seq<(Seq<char>, Seq<char>)>,
    pub schema_version: u32,
}

impl View for WebhookConfig {
    type V = WebhookConfigView;

    open spec fn view(&self) -> WebhookConfigView {
        WebhookConfigView {
            enabled: self.enabled,
            url: self.url@,
            min_interval_secs: self.min_interval_secs,
            sources: self.sources,
            custom_headers: pairs_view(self.custom_headers@),
            schema_version: self.schema_version,
        }
    }
}

impl Clone for WebhookConfig {
    fn clone(&self) -> (r: Self)
        ensures
            r@ == self@,
    {
        WebhookConfig {
            enabled: self.enabled,
            url: self.url.clone(),
            min_interval_secs: self.min_interval_secs,
            sources: self.sources,
            custom_headers: copy_pairs(&self.custom_headers),
            schema_version: self.schema_version,
        }
    }
}

impl Default for WebhookConfig {
    fn default() -> (r: Self)
        ensures
            !r.enabled,
            r.url@ == Seq::<char>::empty(),
            r.min_interval_secs == 5,
            !r.sources.metrics_exceeded,
            !r.sources.sla_violated,
            !r.sources.kill_switch_engaged,
            !r.sources.plugin_crashed,
            r.custom_headers@.len() == 0,
            r.schema_version == 0,
    {
        WebhookConfig {
            enabled: false,
            url: String::new(),
            min_interval_secs: 5,
            sources: WebhookSources::default(),
            custom_headers: Vec::new(),
            schema_version: 0,
        }
    }
}

/// An endpoint as a user edits it. An empty id asks for a new one.
#[derive(Debug)]
pub struct WebhookEndpoint {
    pub id: String,
    pub name: String,
    pub url: String,
    pub enabled: bool,
    pub headers: Vec<(String, String)>,
    pub secret: String,
    /// The sources that the endpoint takes; none means all.
    pub source_filter: Vec<String>,
    pub schema_version: u32,
    pub template: Option<String>,
    pub template_sample: Option<String>,
    /// Patterns in order; the first that matches a source decides.
    pub severity_overrides: Vec<(String, Severity)>,
}

/// What a [`WebhookEndpoint`] holds.
pub struct WebhookEndpointView {
    pub id: Seq<char>,
    pub name: Seq<char>,
    pub url: Seq<char>,
    pub enabled: bool,
    pub headers: Seq<(Seq<char>, Seq<char>)>,
    pub secret: Seq<char>,
    pub source_filter: Seq<Seq<char>>,
    pub schema_version: u32,
    pub template: Option<Seq<char>>,
    pub template_sample: Option<Seq<char>>,
    pub severity_overrides: Seq<(Seq<char>, Severity)>,
}

impl View for WebhookEndpoint {
    type V = WebhookEndpointView;

    open spec fn view(&self) -> WebhookEndpointView {
        WebhookEndpointView {
            id: self.id@,
            name: self.name@,
            url: self.url@,
            enabled: self.enabled,
            headers: pairs_view(self.headers@),
            secret: self.secret@,
            source_filter: texts_view(self.source_filter@),
            schema_version: self.schema_version,
            template: opt_text_view(self.template),
            template_sample: opt_text_view(self.template_sample),
            severity_overrides: overrides_view(self.severity_overrides@),
        }
    }
}

impl Clone for WebhookEndpoint {
    fn clone(&self) -> (r: Self)
        ensures
            r@ == self@,
    {
        WebhookEndpoint {
            id: self.id.clone(),
            name: self.name.clone(),
            url: self.url.clone(),
            enabled: self.enabled,
            headers: copy_pairs(&self.headers),
            secret: self.secret.clone(),
            source_filter: copy_texts(&self.source_filter),
            schema_version: self.schema_version,
            template: copy_opt_text(&self.template),
            template_sample: copy_opt_text(&self.template_sample),
            severity_overrides: copy_overrides(&self.severity_overrides),
        }
    }
}

/// An endpoint as it is stored.
#[derive(Debug)]
pub struct AlertingEndpointRow {
    pub id: String,
    pub name: String,
    pub url: String,
    pub enabled: bool,
    pub headers: Vec<(String, String)>,
    pub secret: String,
    /// The sources that the endpoint takes; none means all.
    pub source_filter: Vec<String>,
    pub schema_version: u32,
    pub template: Option<String>,
    pub template_sample: Option<String>,
    pub severity_overrides: Option<Vec<(String, Severity)>>,
    pub created_at: u64,
}

/// What a [`AlertingEndpointRow`] holds.
pub struct AlertingEndpointRowView {
    pub id: Seq<char>,
    pub name: Seq<char>,
    pub url: Seq<char>,
    pub enabled: bool,
    pub headers: Seq<(Seq<char>, Seq<char>)>,
    pub secret: Seq<char>,
    pub source_filter: Seq<Seq<char>>,
    pub schema_version: u32,
    pub template: Option<Seq<char>>,
    pub template_sample: Option<Seq<char>>,
    pub severity_overrides: Option<Seq<(Seq<char>, Severity)>>,
    pub created_at: u64,
}

impl View for AlertingEndpointRow {
    type V = AlertingEndpointRowView;

    open spec fn view(&self) -> AlertingEndpointRowView {
        AlertingEndpointRowView {
            id: self.id@,
            name: self.name@,
            url: self.url@,
            enabled: self.enabled,
            headers: pairs_view(self.headers@),
            secret: self.secret@,
            source_filter: texts_view(self.source_filter@),
            schema_version: self.schema_version,
            template: opt_text_view(self.template),
            template_sample: opt_text_view(self.template_sample),
            severity_overrides: opt_overrides_view(self.severity_overrides),
            created_at: self.created_at,
        }
    }
}

impl Clone for AlertingEndpointRow {
    fn clone(&self) -> (r: Self)
        ensures
            r@ == self@,
    {
        AlertingEndpointRow {
            id: self.id.clone(),
            name: self.name.clone(),
            url: self.url.clone(),
            enabled: self.enabled,
            headers: copy_pairs(&self.headers),
            secret: self.secret.clone(),
            source_filter: copy_texts(&self.source_filter),
            schema_version: self.schema_version,
            template: copy_opt_text(&self.template),
            template_sample: copy_opt_text(&self.template_sample),
            severity_overrides: copy_opt_overrides(&self.severity_overrides),
            created_at: self.created_at,
        }
    }
}

/// A silence as a user edits it. An empty id asks for a new one.
#[derive(Debug)]
pub struct SilenceRule {
    pub id: String,
    pub name: String,
    pub kind_pattern: String,
    pub starts_at: u64,
    pub ends_at: u64,
    /// One bit for each weekday, Monday first.
    pub weekdays: u8,
    pub start_hour: u8,
    pub end_hour: u8,
}

/// What a [`SilenceRule`] holds.
pub struct SilenceRuleView {
    pub id: Seq<char>,
    pub name: Seq<char>,
    pub kind_pattern: Seq<char>,
    pub starts_at: u64,
    pub ends_at: u64,
    pub weekdays: u8,
    pub start_hour: u8,
    pub end_hour: u8,
}

impl View for SilenceRule {
    type V = SilenceRuleView;

    open spec fn view(&self) -> SilenceRuleView {
        SilenceRuleView {
            id: self.id@,
            name: self.name@,
            kind_pattern: self.kind_pattern@,
            starts_at: self.starts_at,
            ends_at: self.ends_at,
            weekdays: self.weekdays,
            start_hour: self.start_hour,
            end_hour: self.end_hour,
        }
    }
}

impl Clone for SilenceRule {
    fn clone(&self) -> (r: Self)
        ensures
            r@ == self@,
    {
        SilenceRule {
            id: self.id.clone(),
            name: self.name.clone(),
            kind_pattern: self.kind_pattern.clone(),
            starts_at: self.starts_at,
            ends_at: self.ends_at,
            weekdays: self.weekdays,
            start_hour: self.start_hour,
            end_hour: self.end_hour,
        }
    }
}

/// A silence as it is stored.
#[derive(Debug)]
pub struct SilenceRuleRow {
    pub id: String,
    pub name: String,
    pub kind_pattern: String,
    pub starts_at: u64,
    pub ends_at: u64,
    /// One bit for each weekday, Monday first.
    pub weekdays: u8,
    pub start_hour: u8,
    pub end_hour: u8,
    pub created_at: u64,
}

/// What a [`SilenceRuleRow`] holds.
pub struct SilenceRuleRowView {
    pub id: Seq<char>,
    pub name: Seq<char>,
    pub kind_pattern: Seq<char>,
    pub starts_at: u64,
    pub ends_at: u64,
    pub weekdays: u8,
    pub start_hour: u8,
    pub end_hour: u8,
    pub created_at: u64,
}

impl View for SilenceRuleRow {
    type V = SilenceRuleRowView;

    open spec fn view(&self) -> SilenceRuleRowView {
        SilenceRuleRowView {
            id: self.id@,
            name: self.name@,
            kind_pattern: self.kind_pattern@,
            starts_at: self.starts_at,
            ends_at: self.ends_at,
            weekdays: self.weekdays,
            start_hour: self.start_hour,
            end_hour: self.end_hour,
            created_at: self.created_at,
        }
    }
}

impl Clone for SilenceRuleRow {
    fn clone(&self) -> (r: Self)
        ensures
            r@ == self@,
    {
        SilenceRuleRow {
            id: self.id.clone(),
            name: self.name.clone(),
            kind_pattern: self.kind_pattern.clone(),
            starts_at: self.starts_at,
            ends_at: self.ends_at,
            weekdays: self.weekdays,
            start_hour: self.start_hour,
            end_hour: self.end_hour,
            created_at: self.created_at,
        }
    }
}

/// A request to acknowledge a pattern for some time.
#[derive(Debug)]
pub struct AckRule {
    pub kind_pattern: String,
    pub window_secs: u64,
}

/// What a [`AckRule`] holds.
pub struct AckRuleView {
    pub kind_pattern: Seq<char>,
    pub window_secs: u64,
}

impl View for AckRule {
    type V = AckRuleView;

    open spec fn view(&self) -> AckRuleView {
        AckRuleView {
            kind_pattern: self.kind_pattern@,
            window_secs: self.window_secs,
        }
    }
}

impl Clone for AckRule {
    fn clone(&self) -> (r: Self)
        ensures
            r@ == self@,
    {
        AckRule {
            kind_pattern: self.kind_pattern.clone(),
            window_secs: self.window_secs,
        }
    }
}

/// An acknowledgement as it is stored.
#[derive(Debug)]
pub struct AckRuleRow {
    pub id: String,
    pub kind_pattern: String,
    pub ack_until: u64,
    pub created_at: u64,
}

/// What a [`AckRuleRow`] holds.
pub struct AckRuleRowView {
    pub id: Seq<char>,
    pub kind_pattern: Seq<char>,
    pub ack_until: u64,
    pub created_at: u64,
}

impl View for AckRuleRow {
    type V = AckRuleRowView;

    open spec fn view(&self) -> AckRuleRowView {
        AckRuleRowView {
            id: self.id@,
            kind_pattern: self.kind_pattern@,
            ack_until: self.ack_until,
            created_at: self.created_at,
        }
    }
}

impl Clone for AckRuleRow {
    fn clone(&self) -> (r: Self)
        ensures
            r@ == self@,
    {
        AckRuleRow {
            id: self.id.clone(),
            kind_pattern: self.kind_pattern.clone(),
            ack_until: self.ack_until,
            created_at: self.created_at,
        }
    }
}

/// A condition on what was seen shortly before.
#[derive(Debug)]
pub struct SeenInLastSpec {
    pub pattern: String,
    pub window_secs: u64,
}

/// What a [`SeenInLastSpec`] holds.
pub struct SeenInLastSpecView {
    pub pattern: Seq<char>,
    pub window_secs: u64,
}

impl View for SeenInLastSpec {
    type V = SeenInLastSpecView;

    open spec fn view(&self) -> SeenInLastSpecView {
        SeenInLastSpecView {
            pattern: self.pattern@,
            window_secs: self.window_secs,
        }
    }
}

impl Clone for SeenInLastSpec {
    fn clone(&self) -> (r: Self)
        ensures
            r@ == self@,
    {
        SeenInLastSpec {
            pattern: self.pattern.clone(),
            window_secs: self.window_secs,
        }
    }
}

/// A route as a user edits it. An empty id asks for a new one.
#[derive(Debug)]
pub struct RouteRule {
    pub id: String,
    pub name: String,
    /// Lower comes first.
    pub priority: i32,
    pub enabled: bool,
    pub kind_pattern: String,
    pub payload_path: Option<String>,
    pub payload_match: Option<String>,
    pub target_endpoint_ids: Vec<String>,
    pub recipients: Vec<String>,
    pub tags: Vec<String>,
    pub seen_in_last: Option<SeenInLastSpec>,
}

/// What a [`RouteRule`] holds.
pub struct RouteRuleView {
    pub id: Seq<char>,
    pub name: Seq<char>,
    pub priority: i32,
    pub enabled: bool,
    pub kind_pattern: Seq<char>,
    pub payload_path: Option<Seq<char>>,
    pub payload_match: Option<Seq<char>>,
    pub target_endpoint_ids: Seq<Seq<char>>,
    pub recipients: Seq<Seq<char>>,
    pub tags: Seq<Seq<char>>,
    pub seen_in_last: Option<SeenInLastSpecView>,
}

impl View for RouteRule {
    type V = RouteRuleView;

    open spec fn view(&self) -> RouteRuleView {
        RouteRuleView {
            id: self.id@,
            name: self.name@,
            priority: self.priority,
            enabled: self.enabled,
            kind_pattern: self.kind_pattern@,
            payload_path: opt_text_view(self.payload_path),
            payload_match: opt_text_view(self.payload_match),
            target_endpoint_ids: texts_view(self.target_endpoint_ids@),
            recipients: texts_view(self.recipients@),
            tags: texts_view(self.tags@),
            seen_in_last: (match self.seen_in_last { Some(x) => Some(x@), None => None }),
        }
    }
}

impl Clone for RouteRule {
    fn clone(&self) -> (r: Self)
        ensures
            r@ == self@,
    {
        RouteRule {
            id: self.id.clone(),
            name: self.name.clone(),
            priority: self.priority,
            enabled: self.enabled,
            kind_pattern: self.kind_pattern.clone(),
            payload_path: copy_opt_text(&self.payload_path),
            payload_match: copy_opt_text(&self.payload_match),
            target_endpoint_ids: copy_texts(&self.target_endpoint_ids),
            recipients: copy_texts(&self.recipients),
            tags: copy_texts(&self.tags),
            seen_in_last: (match &self.seen_in_last { Some(x) => Some(x.clone()), None => None }),
        }
    }
}

/// A route as it is stored.
#[derive(Debug)]
pub struct RouteRuleRow {
    pub id: String,
    pub name: String,
    /// Lower comes first.
    pub priority: i32,
    pub enabled: bool,
    pub kind_pattern: String,
    pub payload_path: Option<String>,
    pub payload_match: Option<String>,
    pub target_endpoint_ids: Vec<String>,
    pub recipients: Vec<String>,
    pub tags: Vec<String>,
    pub seen_in_last: Option<SeenInLastSpec>,
    pub created_at: u64,
}

/// What a [`RouteRuleRow`] holds.
pub struct RouteRuleRowView {
    pub id: Seq<char>,
    pub name: Seq<char>,
    pub priority: i32,
    pub enabled: bool,
    pub kind_pattern: Seq<char>,
    pub payload_path: Option<Seq<char>>,
    pub payload_match: Option<Seq<char>>,
    pub target_endpoint_ids: Seq<Seq<char>>,
    pub recipients: Seq<Seq<char>>,
    pub tags: Seq<Seq<char>>,
    pub seen_in_last: Option<SeenInLastSpecView>,
    pub created_at: u64,
}

impl View for RouteRuleRow {
    type V = RouteRuleRowView;

    open spec fn view(&self) -> RouteRuleRowView {
        RouteRuleRowView {
            id: self.id@,
            name: self.name@,
            priority: self.priority,
            enabled: self.enabled,
            kind_pattern: self.kind_pattern@,
            payload_path: opt_text_view(self.payload_path),
            payload_match: opt_text_view(self.payload_match),
            target_endpoint_ids: texts_view(self.target_endpoint_ids@),
            recipients: texts_view(self.recipients@),
            tags: texts_view(self.tags@),
            seen_in_last: (match self.seen_in_last { Some(x) => Some(x@), None => None }),
            created_at: self.created_at,
        }
    }
}

impl Clone for RouteRuleRow {
    fn clone(&self) -> (r: Self)
        ensures
            r@ == self@,
    {
        RouteRuleRow {
            id: self.id.clone(),
            name: self.name.clone(),
            priority: self.priority,
            enabled: self.enabled,
            kind_pattern: self.kind_pattern.clone(),
            payload_path: copy_opt_text(&self.payload_path),
            payload_match: copy_opt_text(&self.payload_match),
            target_endpoint_ids: copy_texts(&self.target_endpoint_ids),
            recipients: copy_texts(&self.recipients),
            tags: copy_texts(&self.tags),
            seen_in_last: (match &self.seen_in_last { Some(x) => Some(x.clone()), None => None }),
            created_at: self.created_at,
        }
    }
}

/// A document of routes.
#[derive(Debug)]
pub struct RouteRuleYamlDoc {
    pub version: u32,
    pub rules: Vec<RouteRule>,
}

/// An alert as it goes out.
#[derive(Debug)]
pub struct AlertEnvelope {
    pub schema_version: u32,
    pub event_id: String,
    pub source: String,
    pub severity: Severity,
    pub tags: Vec<String>,
    pub timestamp: u64,
    pub payload: Json,
}

/// What a [`AlertEnvelope`] holds.
pub struct AlertEnvelopeView {
    pub schema_version: u32,
    pub event_id: Seq<char>,
    pub source: Seq<char>,
    pub severity: Severity,
    pub tags: Seq<Seq<char>>,
    pub timestamp: u64,
    pub payload: JsonView,
}

impl View for AlertEnvelope {
    type V = AlertEnvelopeView;

    open spec fn view(&self) -> AlertEnvelopeView {
        AlertEnvelopeView {
            schema_version: self.schema_version,
            event_id: self.event_id@,
            source: self.source@,
            severity: self.severity,
            tags: texts_view(self.tags@),
            timestamp: self.timestamp,
            payload: self.payload@,
        }
    }
}

impl Clone for AlertEnvelope {
    fn clone(&self) -> (r: Self)
        ensures
            r@ == self@,
    {
        AlertEnvelope {
            schema_version: self.schema_version,
            event_id: self.event_id.clone(),
            source: self.source.clone(),
            severity: self.severity,
            tags: copy_texts(&self.tags),
            timestamp: self.timestamp,
            payload: self.payload.clone(),
        }
    }
}

/// A delivery that failed and waits to be sent again.
#[derive(Debug)]
pub struct FailedDeliveryRow {
    pub id: String,
    pub source: String,
    pub url: String,
    pub payload: String,
    pub endpoint_id: Option<String>,
    /// How many times it was sent, the first time counted.
    pub attempts: u32,
    pub max_attempts: u32,
    pub next_retry_ts: u64,
    /// `pending`, `resolved` or `exhausted`.
    pub state: String,
    pub last_error: String,
    pub created_at: u64,
    pub updated_at: u64,
}

/// What a [`FailedDeliveryRow`] holds.
pub struct FailedDeliveryRowView {
    pub id: Seq<char>,
    pub source: Seq<char>,
    pub url: Seq<char>,
    pub payload: Seq<char>,
    pub endpoint_id: Option<Seq<char>>,
    pub attempts: u32,
    pub max_attempts: u32,
    pub next_retry_ts: u64,
    pub state: Seq<char>,
    pub last_error: Seq<char>,
    pub created_at: u64,
    pub updated_at: u64,
}

impl View for FailedDeliveryRow {
    type V = FailedDeliveryRowView;

    open spec fn view(&self) -> FailedDeliveryRowView {
        FailedDeliveryRowView {
            id: self.id@,
            source: self.source@,
            url: self.url@,
            payload: self.payload@,
            endpoint_id: opt_text_view(self.endpoint_id),
            attempts: self.attempts,
            max_attempts: self.max_attempts,
            next_retry_ts: self.next_retry_ts,
            state: self.state@,
            last_error: self.last_error@,
            created_at: self.created_at,
            updated_at: self.updated_at,
        }
    }
}

impl Clone for FailedDeliveryRow {
    fn clone(&self) -> (r: Self)
        ensures
            r@ == self@,
    {
        FailedDeliveryRow {
            id: self.id.clone(),
            source: self.source.clone(),
            url: self.url.clone(),
            payload: self.payload.clone(),
            endpoint_id: copy_opt_text(&self.endpoint_id),
            attempts: self.attempts,
            max_attempts: self.max_attempts,
            next_retry_ts: self.next_retry_ts,
            state: self.state.clone(),
            last_error: self.last_error.clone(),
            created_at: self.created_at,
            updated_at: self.updated_at,
        }
    }
}

} // verus!
