//! Frequency rules: what happens to an event that comes too often.

use vstd::prelude::*;

use super::ids::{gen_event_id, id_or_fresh, uuid_shape};
use super::severity::{aggregation_action_severity, resolved};
use super::storage::{
    AggregationRule, AggregationRuleDto, AggregationRuleDtoView, AggregationRuleView, Storage,
};
use super::store::{
    by_rank, copy_kept, find_first, first_of, kept, row_with, rows_view, with_row, without_row, Row,
    Table,
};
use super::types::{severity_named, Severity};
use crate::json::{members_view, lemma_members_view, Json, JsonView};
use crate::text::{
    complaint, decimal, decimal_seq, is_blank, is_blank_seq, join, same, starts_with,
    starts_with_seq,
};

verus! {

/// Whether `kind` fits the pattern of a frequency, suppression or escalation rule: a pattern that
/// ends in `*` fits all that begins as it does, any other fits itself alone.
pub open spec fn glob_fits(pattern: Seq<char>, kind: Seq<char>) -> bool {
    ||| pattern == kind
    ||| pattern.len() > 0 && pattern.last() == '*' && starts_with_seq(kind, pattern.drop_last())
}

/// Whether `kind` fits the pattern of a frequency, suppression or escalation rule.
pub fn aggregation_kind_matches(pattern: &str, kind: &str) -> (r: bool)
    ensures
        r == glob_fits(pattern@, kind@),
{
    if same(pattern, kind) {
        return true;
    }
    let n: usize = pattern.unicode_len();
    if n > 0 && pattern.get_char(n - 1) == '*' {
        let prefix: &str = pattern.substring_char(0, n - 1);
        assert(prefix@ =~= pattern@.drop_last());
        return starts_with(kind, prefix);
    }
    false
}

/// `*` fits every kind.
pub proof fn star_fits_all(kind: Seq<char>)
    ensures
        glob_fits("*"@, kind),
{
    reveal_strlit("*");
    assert("*"@.drop_last() =~= Seq::<char>::empty());
    assert(kind.subrange(0, 0) =~= Seq::<char>::empty());
}

/// What is wrong with a frequency rule.
pub open spec fn aggregation_complaint(r: AggregationRuleView) -> Option<Seq<char>> {
    if is_blank_seq(r.id) {
        Some("id required"@)
    } else if is_blank_seq(r.name) {
        Some("name required"@)
    } else if r.window_secs == 0 {
        Some("window_secs must be > 0"@)
    } else if r.threshold_count == 0 {
        Some("threshold_count must be > 0"@)
    } else if r.action == "downgrade"@ {
        match r.target_severity {
            None => Some("downgrade requires target_severity"@),
            Some(t) => if severity_named(t) is None {
                Some("invalid target_severity: "@ + t)
            } else {
                None
            },
        }
    } else if r.action == "suppress"@ || r.action == "merge"@ {
        None
    } else {
        Some("invalid action: "@ + r.action)
    }
}

/// Checks a frequency rule.
pub fn validate_aggregation(r: &AggregationRule) -> (result: Result<(), String>)
    ensures
        complaint(result) == aggregation_complaint(r@),
{
    if is_blank(r.id.as_str()) {
        return Err("id required".to_owned());
    }
    if is_blank(r.name.as_str()) {
        return Err("name required".to_owned());
    }
    if r.window_secs == 0 {
        return Err("window_secs must be > 0".to_owned());
    }
    if r.threshold_count == 0 {
        return Err("threshold_count must be > 0".to_owned());
    }
    let action: &str = r.action.as_str();
    if same(action, "downgrade") {
        return match &r.target_severity {
            None => Err("downgrade requires target_severity".to_owned()),
            Some(t) => if Severity::parse(t.as_str()).is_none() {
                Err(join("invalid target_severity: ", t.as_str()))
            } else {
                Ok(())
            },
        };
    }
    if same(action, "suppress") || same(action, "merge") {
        return Ok(());
    }
    Err(join("invalid action: ", action))
}

/// What a frequency rule decides on an event.
#[derive(Debug, PartialEq)]
pub enum AggregationDecision {
    /// Nothing changes.
    Pass,
    /// The event goes out with the first severity; the second is that of its source.
    Downgrade(Severity, Severity),
    /// The event is dropped.
    Suppress { propagated_severity: Severity },
    /// The event goes out as a summary of several.
    Merge { count: u64, since: u64, last_payload: Json, propagated_severity: Severity },
}

/// What an [`AggregationDecision`] holds.
pub enum AggregationDecisionView {
    Pass,
    Downgrade(Severity, Severity),
    Suppress { propagated_severity: Severity },
    Merge { count: nat, since: u64, last_payload: JsonView, propagated_severity: Severity },
}

impl View for AggregationDecision {
    type V = AggregationDecisionView;

    open spec fn view(&self) -> AggregationDecisionView {
        match *self {
            AggregationDecision::Pass => AggregationDecisionView::Pass,
            AggregationDecision::Downgrade(a, b) => AggregationDecisionView::Downgrade(a, b),
            AggregationDecision::Suppress { propagated_severity } => AggregationDecisionView::Suppress {
                propagated_severity,
            },
            AggregationDecision::Merge { count, since, last_payload, propagated_severity } => {
                AggregationDecisionView::Merge {
                    count: count as nat,
                    since,
                    last_payload: last_payload@,
                    propagated_severity,
                }
            },
        }
    }
}

/// The recent events of one source, oldest first, and when its rule last took hold (zero for
/// never).
pub struct AggregationBucket {
    pub source: String,
    pub events: Vec<u64>,
    pub last_fired: u64,
}

/// What an [`AggregationBucket`] holds.
pub struct AggregationBucketView {
    pub source: Seq<char>,
    pub events: Seq<u64>,
    pub last_fired: u64,
}

impl View for AggregationBucket {
    type V = AggregationBucketView;

    open spec fn view(&self) -> AggregationBucketView {
        AggregationBucketView {
            source: self.source@,
            events: self.events@,
            last_fired: self.last_fired,
        }
    }
}

impl Row for AggregationBucket {
    open spec fn key(v: AggregationBucketView) -> Seq<char> {
        v.source
    }

    open spec fn rank(v: AggregationBucketView) -> int {
        0
    }

    fn row_key(&self) -> (r: &str) {
        self.source.as_str()
    }

    fn row_rank(&self) -> (r: i128) {
        0
    }

    fn copy_row(&self) -> (r: Self) {
        let events: Vec<u64> = copy_times(&self.events, 0);
        assert(events@ =~= self.events@);
        AggregationBucket { source: self.source.clone(), events, last_fired: self.last_fired }
    }
}

/// The times from number `from` on.
fn copy_times(times: &Vec<u64>, from: usize) -> (r: Vec<u64>)
    requires
        from <= times@.len(),
    ensures
        r@ == times@.skip(from as int),
{
    let mut out: Vec<u64> = Vec::new();
    let mut i: usize = from;
    while i < times.len()
        invariant
            from <= i <= times@.len(),
            out@ == times@.subrange(from as int, i as int),
        decreases times@.len() - i,
    {
        out.push(times[i]);
        assert(times@.subrange(from as int, i + 1) =~= times@.subrange(from as int, i as int).push(
            times@[i as int],
        ));
        i += 1;
    }
    assert(times@.subrange(from as int, i as int) =~= times@.skip(from as int));
    out
}

/// How many seconds `t` lies back; none where it lies ahead.
pub open spec fn since(now: u64, t: u64) -> int {
    if now >= t {
        now - t
    } else {
        0
    }
}

/// How many of the oldest events are older than the window.
pub open spec fn stale_count(events: Seq<u64>, now: u64, window_secs: u64) -> nat
    decreases events.len(),
{
    if events.len() > 0 && since(now, events[0]) > window_secs {
        1 + stale_count(events.drop_first(), now, window_secs)
    } else {
        0
    }
}

/// The events without the oldest ones that lie outside the window.
pub open spec fn fresh_events(events: Seq<u64>, now: u64, window_secs: u64) -> Seq<u64> {
    events.skip(stale_count(events, now, window_secs) as int)
}

/// The frequency rules that are on, oldest first.
pub open spec fn aggregations_on(store: Storage) -> Seq<AggregationRuleDtoView> {
    kept(by_rank::<AggregationRuleDto>(store.aggregations@), |r: AggregationRuleDtoView| r.enabled)
}

/// The frequency rule for a source: the first that is on and fits it.
pub open spec fn aggregation_rule_for(store: Storage, source: Seq<char>) -> Option<
    AggregationRuleDtoView,
> {
    first_of(aggregations_on(store), |r: AggregationRuleDtoView| glob_fits(r.kind_pattern, source))
}

/// The bucket of a source; empty where there is none yet.
pub open spec fn bucket_of(buckets: Seq<AggregationBucketView>, source: Seq<char>) -> AggregationBucketView {
    match row_with::<AggregationBucket>(buckets, source) {
        Some(b) => b,
        None => AggregationBucketView { source, events: Seq::empty(), last_fired: 0 },
    }
}

/// Whether the rule took hold within its window.
pub open spec fn fired_lately(last_fired: u64, now: u64, window_secs: u64) -> bool {
    last_fired != 0 && since(now, last_fired) <= window_secs
}

/// Whether a rule takes hold, given the events in its window with the present one among them.
pub open spec fn takes_hold(rule: AggregationRuleDtoView, events: Seq<u64>, last_fired: u64, now: u64) -> bool {
    !fired_lately(last_fired, now, rule.window_secs) && events.len() >= rule.threshold_count
}

/// What is wrong with a frequency rule as it is stored.
pub open spec fn stored_complaint(r: AggregationRuleDtoView) -> Option<Seq<char>> {
    aggregation_complaint(
        AggregationRuleView {
            id: r.id,
            name: r.name,
            kind_pattern: r.kind_pattern,
            window_secs: r.window_secs,
            threshold_count: r.threshold_count,
            action: r.action,
            target_severity: r.target_severity,
            enabled: r.enabled,
        },
    )
}

/// The name of the action that a decision comes of; none where the event passes.
pub open spec fn action_of(decision: AggregationDecisionView) -> Option<Seq<char>> {
    match decision {
        AggregationDecisionView::Pass => None,
        AggregationDecisionView::Downgrade(_, _) => Some("downgrade"@),
        AggregationDecisionView::Suppress { .. } => Some("suppress"@),
        AggregationDecisionView::Merge { .. } => Some("merge"@),
    }
}

/// What a rule that takes hold decides. One that is not well-formed changes nothing.
pub open spec fn rule_action(
    rule: AggregationRuleDtoView,
    events: Seq<u64>,
    payload: JsonView,
    severity: Severity,
) -> AggregationDecisionView {
    if stored_complaint(rule) is Some {
        AggregationDecisionView::Pass
    } else if rule.action == "suppress"@ {
        AggregationDecisionView::Suppress { propagated_severity: severity }
    } else if rule.action == "downgrade"@ {
        AggregationDecisionView::Downgrade(
            severity_named(rule.target_severity->Some_0)->Some_0,
            severity,
        )
    } else {
        AggregationDecisionView::Merge {
            count: events.len(),
            since: events[0],
            last_payload: payload,
            propagated_severity: severity,
        }
    }
}

/// What the rule for a source decides on an event, and its bucket afterwards.
pub open spec fn aggregation_step(
    rule: AggregationRuleDtoView,
    bucket: AggregationBucketView,
    payload: JsonView,
    severity: Severity,
    now: u64,
) -> (AggregationDecisionView, AggregationBucketView) {
    let events = fresh_events(bucket.events, now, rule.window_secs).push(now);
    if takes_hold(rule, events, bucket.last_fired, now) {
        (
            rule_action(rule, events, payload, severity),
            AggregationBucketView { source: bucket.source, events, last_fired: now },
        )
    } else {
        (
            AggregationDecisionView::Pass,
            AggregationBucketView { source: bucket.source, events, last_fired: bucket.last_fired },
        )
    }
}

proof fn lemma_stale_count(events: Seq<u64>, now: u64, window_secs: u64, k: int)
    requires
        0 <= k <= events.len(),
        forall|i: int| 0 <= i < k ==> since(now, #[trigger] events[i]) > window_secs,
        k < events.len() ==> since(now, events[k]) <= window_secs,
    ensures
        stale_count(events, now, window_secs) == k,
    decreases k,
{
    if k > 0 {
        assert(since(now, events[0]) > window_secs);
        assert forall|i: int| 0 <= i < k - 1 implies since(now, #[trigger] events.drop_first()[i])
            > window_secs by {
            assert(since(now, events[i + 1]) > window_secs);
        }
        lemma_stale_count(events.drop_first(), now, window_secs, k - 1);
    }
}

/// The events without the oldest ones that lie outside the window.
pub fn prune_events(events: &Vec<u64>, now: u64, window_secs: u64) -> (r: Vec<u64>)
    ensures
        r@ == fresh_events(events@, now, window_secs),
{
    let mut k: usize = 0;
    while k < events.len() && now.saturating_sub(events[k]) > window_secs
        invariant
            k <= events@.len(),
            forall|i: int| 0 <= i < k ==> since(now, #[trigger] events@[i]) > window_secs,
        decreases events@.len() - k,
    {
        k += 1;
    }
    proof {
        lemma_stale_count(events@, now, window_secs, k as int);
    }
    copy_times(events, k)
}

/// The frequency rules that are on, oldest first.
pub fn load_enabled_aggregation_rules(store: &Storage) -> (r: Vec<AggregationRuleDto>)
    ensures
        rows_view(r@) == aggregations_on(*store),
{
    let ghost on = |v: AggregationRuleDtoView| v.enabled;
    let is_on = |row: &AggregationRuleDto| -> (b: bool)
        ensures
            b == row@.enabled,
    { row.enabled };
    copy_kept(&store.aggregations.list(), is_on, Ghost(on))
}

/// The frequency rule for a source.
pub fn matching_aggregation(store: &Storage, source: &str) -> (r: Option<AggregationRuleDto>)
    ensures
        match r {
            Some(rule) => aggregation_rule_for(*store, source@) == Some(rule@),
            None => aggregation_rule_for(*store, source@) is None,
        },
{
    let rules: Vec<AggregationRuleDto> = load_enabled_aggregation_rules(store);
    let ghost fits = |v: AggregationRuleDtoView| glob_fits(v.kind_pattern, source@);
    let test = |row: &AggregationRuleDto| -> (b: bool)
        ensures
            b == glob_fits(row@.kind_pattern, source@),
    { aggregation_kind_matches(row.kind_pattern.as_str(), source) };
    match find_first(&rules, test, Ghost(fits)) {
        Some(i) => Some(rules[i].clone()),
        None => None,
    }
}

/// What a rule that takes hold decides.
fn decide(rule: &AggregationRuleDto, events: &Vec<u64>, payload: &Json, severity: Severity) -> (r:
    AggregationDecision)
    requires
        events@.len() > 0,
    ensures
        r@ == rule_action(rule@, events@, payload@, severity),
{
    if is_blank(rule.id.as_str()) || is_blank(rule.name.as_str()) || rule.window_secs == 0
        || rule.threshold_count == 0 {
        return AggregationDecision::Pass;
    }
    proof {
        reveal_strlit("suppress");
        reveal_strlit("downgrade");
        assert("suppress"@.len() != "downgrade"@.len());
    }
    let action: &str = rule.action.as_str();
    if same(action, "suppress") {
        AggregationDecision::Suppress { propagated_severity: severity }
    } else if same(action, "downgrade") {
        match &rule.target_severity {
            Some(t) => match Severity::parse(t.as_str()) {
                Some(s) => AggregationDecision::Downgrade(s, severity),
                None => AggregationDecision::Pass,
            },
            None => AggregationDecision::Pass,
        }
    } else if same(action, "merge") {
        AggregationDecision::Merge {
            count: events.len() as u64,
            since: events[0],
            last_payload: payload.clone(),
            propagated_severity: severity,
        }
    } else {
        AggregationDecision::Pass
    }
}

/// Puts an event to the frequency rule of its source.
pub fn evaluate_aggregations(
    store: &Storage,
    buckets: &mut Table<AggregationBucket>,
    source: &str,
    payload: &Json,
    now: u64,
) -> (r: AggregationDecision)
    ensures
        match aggregation_rule_for(*store, source@) {
            None => r@ == AggregationDecisionView::Pass && final(buckets)@ == old(buckets)@,
            Some(rule) => {
                let (decision, bucket) = aggregation_step(
                    rule,
                    bucket_of(old(buckets)@, source@),
                    payload@,
                    resolved(*store, source@),
                    now,
                );
                &&& r@ == decision
                &&& final(buckets)@ == with_row::<AggregationBucket>(old(buckets)@, bucket)
            },
        },
{
    let rule: AggregationRuleDto = match matching_aggregation(store, source) {
        Some(rule) => rule,
        None => {
            return AggregationDecision::Pass;
        },
    };
    proof {
        super::store::lemma_position_of::<AggregationBucket>(buckets@, source@);
    }
    let (mut events, last_fired) = match buckets.get(source) {
        Some(b) => (prune_events(&b.events, now, rule.window_secs), b.last_fired),
        None => {
            let none: Vec<u64> = Vec::new();
            assert(none@ =~= fresh_events(Seq::<u64>::empty(), now, rule@.window_secs));
            (none, 0u64)
        },
    };
    events.push(now);
    let lately: bool = last_fired != 0 && now.saturating_sub(last_fired) <= rule.window_secs;
    if lately || (events.len() as u64) < rule.threshold_count as u64 {
        buckets.put(AggregationBucket { source: source.to_owned(), events, last_fired });
        return AggregationDecision::Pass;
    }
    let severity: Severity = aggregation_action_severity(store, source);
    let decision: AggregationDecision = decide(&rule, &events, payload, severity);
    buckets.put(AggregationBucket { source: source.to_owned(), events, last_fired: now });
    decision
}

/// A rule that took hold does not take hold again before its window is over.
pub proof fn holds_off_for_a_window(
    rule: AggregationRuleDtoView,
    bucket: AggregationBucketView,
    payload: JsonView,
    severity: Severity,
    fired: u64,
    now: u64,
)
    requires
        bucket.last_fired == fired,
        0 < fired <= now,
        now - fired <= rule.window_secs,
    ensures
        aggregation_step(rule, bucket, payload, severity, now).0 == AggregationDecisionView::Pass,
{
}

/// As long as fewer events than the threshold came in the window, an event passes.
pub proof fn below_threshold_passes(
    rule: AggregationRuleDtoView,
    bucket: AggregationBucketView,
    payload: JsonView,
    severity: Severity,
    now: u64,
)
    requires
        bucket.events.len() + 1 < rule.threshold_count,
    ensures
        aggregation_step(rule, bucket, payload, severity, now).0 == AggregationDecisionView::Pass,
{
    lemma_stale_le(bucket.events, now, rule.window_secs);
}

/// A rule that is not well-formed lets every event pass.
pub proof fn ill_formed_rules_let_pass(
    rule: AggregationRuleDtoView,
    bucket: AggregationBucketView,
    payload: JsonView,
    severity: Severity,
    now: u64,
)
    requires
        stored_complaint(rule) is Some,
    ensures
        aggregation_step(rule, bucket, payload, severity, now).0 == AggregationDecisionView::Pass,
{
}

proof fn lemma_stale_le(events: Seq<u64>, now: u64, window_secs: u64)
    ensures
        stale_count(events, now, window_secs) <= events.len(),
    decreases events.len(),
{
    if events.len() > 0 && since(now, events[0]) > window_secs {
        lemma_stale_le(events.drop_first(), now, window_secs);
    }
}

/// Gives a rule without an id a random one.
pub fn ensure_aggregation_id(rule: &mut AggregationRule)
    ensures
        !is_blank_seq(old(rule)@.id) ==> final(rule)@ == old(rule)@,
        is_blank_seq(old(rule)@.id) ==> exists|fresh: Seq<char>| #[trigger]
            uuid_shape(fresh) && final(rule)@ == (AggregationRuleView {
                id: "agg-"@ + fresh,
                ..old(rule)@
            }),
{
    if is_blank(rule.id.as_str()) {
        let fresh: String = gen_event_id();
        assert(uuid_shape(fresh@));
        rule.id = join("agg-", fresh.as_str());
    }
}

/// A frequency rule as it is stored.
pub open spec fn aggregation_row(rule: AggregationRuleView, now: u64) -> AggregationRuleDtoView {
    AggregationRuleDtoView {
        id: rule.id,
        name: rule.name,
        kind_pattern: rule.kind_pattern,
        window_secs: rule.window_secs,
        threshold_count: rule.threshold_count,
        action: rule.action,
        target_severity: rule.target_severity,
        enabled: rule.enabled,
        created_at: now,
    }
}

/// All frequency rules, by the time they were stored.
pub fn list_aggregations(store: &Storage) -> (r: Vec<AggregationRuleDto>)
    ensures
        rows_view(r@) == by_rank::<AggregationRuleDto>(store.aggregations@),
{
    store.aggregations.list()
}

/// What storing a frequency rule does, given the random identifier for one without an id.
pub open spec fn aggregation_saved(
    before: Storage,
    rule: AggregationRuleView,
    fresh: Seq<char>,
    now: u64,
    after: Storage,
    r: Result<AggregationRuleDto, String>,
) -> bool {
    let named = AggregationRuleView { id: id_or_fresh(rule.id, "agg-"@, fresh), ..rule };
    &&& complaint(r) == aggregation_complaint(named)
    &&& after == (Storage { aggregations: after.aggregations, ..before })
    &&& match r {
        Ok(dto) => dto@ == aggregation_row(named, now) && after.aggregations@ == with_row::<
            AggregationRuleDto,
        >(before.aggregations@, aggregation_row(named, now)),
        Err(_) => after.aggregations@ == before.aggregations@,
    }
}

/// Stores a frequency rule, in the place of the one with its id. One without an id gets `agg-` and
/// `fresh`.
pub fn store_aggregation(store: &mut Storage, rule: AggregationRule, fresh: &str, now: u64) -> (r:
    Result<AggregationRuleDto, String>)
    ensures
        aggregation_saved(*old(store), rule@, fresh@, now, *final(store), r),
{
    let ghost given = rule@;
    let mut rule: AggregationRule = rule;
    if is_blank(rule.id.as_str()) {
        rule.id = join("agg-", fresh);
    }
    validate_aggregation(&rule)?;
    let row: AggregationRuleDto = AggregationRuleDto {
        id: rule.id,
        name: rule.name,
        kind_pattern: rule.kind_pattern,
        window_secs: rule.window_secs,
        threshold_count: rule.threshold_count,
        action: rule.action,
        target_severity: rule.target_severity,
        enabled: rule.enabled,
        created_at: now,
    };
    store.aggregations.put(row.clone());
    Ok(row)
}

/// Stores a frequency rule, in the place of the one with its id. One without an id gets a random
/// one.
pub fn save_aggregation(store: &mut Storage, rule: AggregationRule, now: u64) -> (r: Result<
    AggregationRuleDto,
    String,
>)
    ensures
        exists|fresh: Seq<char>| #[trigger]
            uuid_shape(fresh) && aggregation_saved(*old(store), rule@, fresh, now, *final(store), r),
{
    let fresh: String = gen_event_id();
    assert(uuid_shape(fresh@));
    store_aggregation(store, rule, fresh.as_str(), now)
}

/// Deletes a frequency rule; says whether there was one with this id.
pub fn delete_aggregation(store: &mut Storage, id: &str) -> (r: bool)
    ensures
        *final(store) == (Storage { aggregations: final(store).aggregations, ..*old(store) }),
        final(store).aggregations@ == without_row::<AggregationRuleDto>(old(store).aggregations@, id@),
        r == (row_with::<AggregationRuleDto>(old(store).aggregations@, id@) is Some),
{
    store.aggregations.remove(id)
}

/// Deletes all frequency rules; says how many there were.
pub fn clear_aggregations(store: &mut Storage) -> (r: usize)
    ensures
        *final(store) == (Storage { aggregations: final(store).aggregations, ..*old(store) }),
        final(store).aggregations@ == Seq::<AggregationRuleDtoView>::empty(),
        r == old(store).aggregations@.len(),
{
    store.aggregations.clear()
}

/// The payload of a summary of several events.
pub open spec fn merged_payload(count: nat, since: u64, last_payload: JsonView) -> JsonView {
    JsonView::Object(
        seq![
            ("merged_count"@, JsonView::Number(decimal_seq(count))),
            ("since"@, JsonView::Number(decimal_seq(since as nat))),
            ("last_payload"@, last_payload),
        ],
    )
}

/// Does to an event what was decided on it; says whether it still goes out.
pub fn apply_aggregation_decision(
    decision: &AggregationDecision,
    payload: &mut Json,
    envelope_severity: &mut Severity,
) -> (r: bool)
    ensures
        r == !(decision is Suppress),
        *final(envelope_severity) == (match *decision {
            AggregationDecision::Downgrade(s, _) => s,
            _ => *old(envelope_severity),
        }),
        final(payload)@ == (match decision@ {
            AggregationDecisionView::Merge { count, since, last_payload, .. } => merged_payload(
                count,
                since,
                last_payload,
            ),
            _ => old(payload)@,
        }),
{
    match decision {
        AggregationDecision::Pass => true,
        AggregationDecision::Downgrade(s, _) => {
            *envelope_severity = *s;
            true
        },
        AggregationDecision::Suppress { .. } => false,
        AggregationDecision::Merge { count, since, last_payload, .. } => {
            let mut members: Vec<(String, Json)> = Vec::new();
            members.push(("merged_count".to_owned(), Json::Number(decimal(*count))));
            members.push(("since".to_owned(), Json::Number(decimal(*since))));
            members.push(("last_payload".to_owned(), last_payload.clone()));
            proof {
                lemma_members_view(members@);
                assert(members_view(members@) =~= seq![
                    ("merged_count"@, JsonView::Number(decimal_seq(*count as nat))),
                    ("since"@, JsonView::Number(decimal_seq(*since as nat))),
                    ("last_payload"@, last_payload@),
                ]);
            }
            *payload = Json::Object(members);
            true
        },
    }
}

} // verus!
