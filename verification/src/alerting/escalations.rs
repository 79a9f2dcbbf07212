//! Escalation rules: an alert that nobody acknowledges goes out again, more gravely.

use vstd::prelude::*;

use super::aggregations::{aggregation_kind_matches, glob_fits, since};
use super::ids::{gen_event_id, id_or_fresh, uuid_shape};
use super::silences::{acked, is_acked};
use super::stamps::{Stamp, StampView};
use super::storage::{
    EscalationRule, EscalationRuleDto, EscalationRuleDtoView, EscalationRuleView, Storage,
};
use super::store::{
    by_rank, copy_kept, kept, keys_distinct, put_then_get, row_with, rows_view, with_row,
    without_row, Table,
};
use super::types::{copy_opt_texts, severity_named, Severity};
use crate::text::{complaint, is_blank, is_blank_seq, join};

verus! {

/// What the escalation of a source comes to.
#[derive(Debug, PartialEq, Eq)]
pub enum EscalationDecision {
    Pass,
    Escalate { severity: Severity, endpoint_ids: Vec<String> },
}

/// When an alert of each source last went out.
pub struct EscalationState {
    pub last_by_source: Table<Stamp>,
}

impl EscalationState {
    /// Nothing went out yet.
    pub fn new() -> (r: Self)
        ensures
            r.last_by_source@ == Seq::<StampView>::empty(),
    {
        EscalationState { last_by_source: Table::new() }
    }
}

/// Notes that an alert of `source` went out at time `now`.
pub fn record_dispatch(state: &mut EscalationState, source: &str, now: u64)
    ensures
        final(state).last_by_source@ == with_row::<Stamp>(
            old(state).last_by_source@,
            StampView { name: source@, at: now },
        ),
{
    state.last_by_source.put(Stamp { name: source.to_owned(), at: now });
}

/// What is wrong with an escalation rule.
pub open spec fn escalation_complaint(r: EscalationRuleView) -> Option<Seq<char>> {
    if is_blank_seq(r.id) {
        Some("id required"@)
    } else if is_blank_seq(r.name) {
        Some("name required"@)
    } else if r.kind_pattern.len() == 0 {
        Some("kind_pattern required"@)
    } else if r.escalate_after_secs == 0 {
        Some("escalate_after_secs must be > 0"@)
    } else if severity_named(r.target_severity) is None {
        Some("invalid target_severity: "@ + r.target_severity)
    } else {
        None
    }
}

/// Checks an escalation rule.
pub fn validate_escalation(r: &EscalationRule) -> (result: Result<(), String>)
    ensures
        complaint(result) == escalation_complaint(r@),
{
    if is_blank(r.id.as_str()) {
        return Err("id required".to_owned());
    }
    if is_blank(r.name.as_str()) {
        return Err("name required".to_owned());
    }
    if r.kind_pattern.as_str().is_empty() {
        return Err("kind_pattern required".to_owned());
    }
    if r.escalate_after_secs == 0 {
        return Err("escalate_after_secs must be > 0".to_owned());
    }
    if Severity::parse(r.target_severity.as_str()).is_none() {
        return Err(join("invalid target_severity: ", r.target_severity.as_str()));
    }
    Ok(())
}

/// The escalation rules that are on, oldest first.
pub open spec fn escalations_on(store: Storage) -> Seq<EscalationRuleDtoView> {
    kept(by_rank::<EscalationRuleDto>(store.escalations@), |r: EscalationRuleDtoView| r.enabled)
}

/// The escalation rules that are on, oldest first.
pub fn load_enabled_escalation_rules(store: &Storage) -> (r: Vec<EscalationRuleDto>)
    ensures
        rows_view(r@) == escalations_on(*store),
{
    let ghost on = |v: EscalationRuleDtoView| v.enabled;
    let is_on = |row: &EscalationRuleDto| -> (b: bool)
        ensures
            b == row@.enabled,
    { row.enabled };
    copy_kept(&store.escalations.list(), is_on, Ghost(on))
}

/// An escalation rule as a user edits it.
pub open spec fn escalation_rule_of(r: EscalationRuleDtoView) -> EscalationRuleView {
    EscalationRuleView {
        id: r.id,
        name: r.name,
        kind_pattern: r.kind_pattern,
        escalate_after_secs: r.escalate_after_secs,
        target_severity: r.target_severity,
        target_endpoint_ids: r.target_endpoint_ids,
        enabled: r.enabled,
    }
}

/// An escalation rule as a user edits it.
pub fn escalation_rule_from_row(r: &EscalationRuleDto) -> (rule: EscalationRule)
    ensures
        rule@ == escalation_rule_of(r@),
{
    EscalationRule {
        id: r.id.clone(),
        name: r.name.clone(),
        kind_pattern: r.kind_pattern.clone(),
        escalate_after_secs: r.escalate_after_secs,
        target_severity: r.target_severity.clone(),
        target_endpoint_ids: copy_opt_texts(&r.target_endpoint_ids),
        enabled: r.enabled,
    }
}

/// Whether a rule asks to escalate a source whose last alert went out at time `last`.
pub open spec fn escalates(r: EscalationRuleDtoView, source: Seq<char>, last: u64, now: u64) -> bool {
    glob_fits(r.kind_pattern, source) && since(now, last) > r.escalate_after_secs
}

/// A rule, the source that it asks to escalate, and when the last alert of the source went out.
pub type Candidate = (EscalationRule, String, u64);

/// The views of candidates, in order.
pub open spec fn candidates_view(s: Seq<Candidate>) -> Seq<(EscalationRuleView, Seq<char>, u64)> {
    Seq::new(s.len(), |i: int| (s[i].0@, s[i].1@, s[i].2))
}

/// The candidates for one source, rule by rule.
pub open spec fn candidates_for(rules: Seq<EscalationRuleDtoView>, stamp: StampView, now: u64) -> Seq<
    (EscalationRuleView, Seq<char>, u64),
> {
    let hit = kept(rules, |r: EscalationRuleDtoView| escalates(r, stamp.name, stamp.at, now));
    Seq::new(hit.len(), |i: int| (escalation_rule_of(hit[i]), stamp.name, stamp.at))
}

/// The candidates for all sources that nobody acknowledged, source by source.
pub open spec fn candidates(store: Storage, stamps: Seq<StampView>, now: u64) -> Seq<
    (EscalationRuleView, Seq<char>, u64),
>
    decreases stamps.len(),
{
    if stamps.len() == 0 {
        Seq::empty()
    } else {
        let before = candidates(store, stamps.drop_last(), now);
        if acked(store, stamps.last().name, now) {
            before
        } else {
            before + candidates_for(escalations_on(store), stamps.last(), now)
        }
    }
}

/// The candidates for one source, rule by rule, behind what is there already.
fn add_candidates(rules: &Vec<EscalationRuleDto>, stamp: &Stamp, now: u64, out: &mut Vec<Candidate>)
    ensures
        candidates_view(final(out)@) == candidates_view(old(out)@) + candidates_for(
            rows_view(rules@),
            stamp@,
            now,
        ),
{
    let ghost hit = |r: EscalationRuleDtoView| escalates(r, stamp@.name, stamp@.at, now);
    let ghost had = candidates_view(out@);
    let ghost want = candidates_for(rows_view(rules@), stamp@, now);
    let test = |row: &EscalationRuleDto| -> (b: bool)
        ensures
            b == escalates(row@, stamp@.name, stamp@.at, now),
    {
        aggregation_kind_matches(row.kind_pattern.as_str(), stamp.name.as_str())
            && now.saturating_sub(stamp.at) > row.escalate_after_secs
    };
    let found: Vec<EscalationRuleDto> = copy_kept(rules, test, Ghost(hit));
    let mut i: usize = 0;
    assert(had + want.take(0) =~= had);
    while i < found.len()
        invariant
            i <= found@.len(),
            want.len() == found@.len(),
            forall|k: int| 0 <= k < found@.len() ==> #[trigger] want[k] == (
                escalation_rule_of(found@[k]@),
                stamp@.name,
                stamp@.at,
            ),
            candidates_view(out@) == had + want.take(i as int),
        decreases found@.len() - i,
    {
        let ghost before = candidates_view(out@);
        out.push((escalation_rule_from_row(&found[i]), stamp.name.clone(), stamp.at));
        assert(candidates_view(out@) =~= before.push(want[i as int]));
        assert(want.take(i + 1) =~= want.take(i as int).push(want[i as int]));
        i += 1;
    }
    assert(want.take(i as int) =~= want);
}

/// The sources whose alerts nobody acknowledged in time, with the rules that ask to escalate them.
pub fn find_escalation_candidates(store: &Storage, state: &EscalationState, now: u64) -> (r: Vec<
    Candidate,
>)
    ensures
        candidates_view(r@) == candidates(*store, state.last_by_source@, now),
{
    let rules: Vec<EscalationRuleDto> = load_enabled_escalation_rules(store);
    let stamps: &Vec<Stamp> = state.last_by_source.rows();
    let ghost all = rows_view(stamps@);
    let mut out: Vec<Candidate> = Vec::new();
    let mut i: usize = 0;
    assert(candidates_view(out@) =~= candidates(*store, all.take(0), now));
    while i < stamps.len()
        invariant
            i <= stamps@.len(),
            all == rows_view(stamps@),
            rows_view(rules@) == escalations_on(*store),
            candidates_view(out@) == candidates(*store, all.take(i as int), now),
        decreases stamps@.len() - i,
    {
        assert(all.take(i + 1).drop_last() =~= all.take(i as int));
        assert(all.take(i + 1).last() == stamps@[i as int]@);
        if !is_acked(store, stamps[i].name.as_str(), now) {
            add_candidates(&rules, &stamps[i], now, &mut out);
        }
        i += 1;
    }
    assert(all.take(i as int) =~= all);
    out
}

/// Right after an alert of a source went out, no rule asks to escalate it.
pub proof fn fresh_dispatch_does_not_escalate(
    stamps: Seq<StampView>,
    source: Seq<char>,
    r: EscalationRuleDtoView,
    now: u64,
)
    requires
        keys_distinct::<Stamp>(stamps),
    ensures
        row_with::<Stamp>(
            with_row::<Stamp>(stamps, StampView { name: source, at: now }),
            source,
        ) == Some(StampView { name: source, at: now }),
        !escalates(r, source, now, now),
{
    put_then_get::<Stamp>(stamps, StampView { name: source, at: now }, source);
}

/// Gives a rule without an id a random one.
pub fn ensure_escalation_id(rule: &mut EscalationRule)
    ensures
        !is_blank_seq(old(rule)@.id) ==> final(rule)@ == old(rule)@,
        is_blank_seq(old(rule)@.id) ==> exists|fresh: Seq<char>| #[trigger]
            uuid_shape(fresh) && final(rule)@ == (EscalationRuleView {
                id: "esc-"@ + fresh,
                ..old(rule)@
            }),
{
    if is_blank(rule.id.as_str()) {
        let fresh: String = gen_event_id();
        assert(uuid_shape(fresh@));
        rule.id = join("esc-", fresh.as_str());
    }
}

/// An escalation rule as it is stored.
pub open spec fn escalation_row(rule: EscalationRuleView, now: u64) -> EscalationRuleDtoView {
    EscalationRuleDtoView {
        id: rule.id,
        name: rule.name,
        kind_pattern: rule.kind_pattern,
        escalate_after_secs: rule.escalate_after_secs,
        target_severity: rule.target_severity,
        target_endpoint_ids: rule.target_endpoint_ids,
        enabled: rule.enabled,
        created_at: now,
    }
}

/// All escalation rules, by the time they were stored.
pub fn list_escalations(store: &Storage) -> (r: Vec<EscalationRuleDto>)
    ensures
        rows_view(r@) == by_rank::<EscalationRuleDto>(store.escalations@),
{
    store.escalations.list()
}

/// What storing an escalation rule does, given the random identifier for one without an id.
pub open spec fn escalation_saved(
    before: Storage,
    rule: EscalationRuleView,
    fresh: Seq<char>,
    now: u64,
    after: Storage,
    r: Result<EscalationRuleDto, String>,
) -> bool {
    let named = EscalationRuleView { id: id_or_fresh(rule.id, "esc-"@, fresh), ..rule };
    &&& complaint(r) == escalation_complaint(named)
    &&& after == (Storage { escalations: after.escalations, ..before })
    &&& match r {
        Ok(dto) => dto@ == escalation_row(named, now) && after.escalations@ == with_row::<
            EscalationRuleDto,
        >(before.escalations@, escalation_row(named, now)),
        Err(_) => after.escalations@ == before.escalations@,
    }
}

/// Stores an escalation rule, in the place of the one with its id. One without an id gets `esc-`
/// and `fresh`.
pub fn store_escalation(store: &mut Storage, rule: EscalationRule, fresh: &str, now: u64) -> (r:
    Result<EscalationRuleDto, String>)
    ensures
        escalation_saved(*old(store), rule@, fresh@, now, *final(store), r),
{
    let mut rule: EscalationRule = rule;
    if is_blank(rule.id.as_str()) {
        rule.id = join("esc-", fresh);
    }
    validate_escalation(&rule)?;
    let row: EscalationRuleDto = EscalationRuleDto {
        id: rule.id,
        name: rule.name,
        kind_pattern: rule.kind_pattern,
        escalate_after_secs: rule.escalate_after_secs,
        target_severity: rule.target_severity,
        target_endpoint_ids: rule.target_endpoint_ids,
        enabled: rule.enabled,
        created_at: now,
    };
    store.escalations.put(row.clone());
    Ok(row)
}

/// Stores an escalation rule, in the place of the one with its id. One without an id gets a random
/// one.
pub fn save_escalation(store: &mut Storage, rule: EscalationRule, now: u64) -> (r: Result<
    EscalationRuleDto,
    String,
>)
    ensures
        exists|fresh: Seq<char>| #[trigger]
            uuid_shape(fresh) && escalation_saved(*old(store), rule@, fresh, now, *final(store), r),
{
    let fresh: String = gen_event_id();
    assert(uuid_shape(fresh@));
    store_escalation(store, rule, fresh.as_str(), now)
}

/// Deletes an escalation rule; says whether there was one with this id.
pub fn delete_escalation(store: &mut Storage, id: &str) -> (r: bool)
    ensures
        *final(store) == (Storage { escalations: final(store).escalations, ..*old(store) }),
        final(store).escalations@ == without_row::<EscalationRuleDto>(old(store).escalations@, id@),
        r == (row_with::<EscalationRuleDto>(old(store).escalations@, id@) is Some),
{
    store.escalations.remove(id)
}

/// Deletes all escalation rules; says how many there were.
pub fn clear_escalations(store: &mut Storage) -> (r: usize)
    ensures
        *final(store) == (Storage { escalations: final(store).escalations, ..*old(store) }),
        final(store).escalations@ == Seq::<EscalationRuleDtoView>::empty(),
        r == old(store).escalations@.len(),
{
    store.escalations.clear()
}

} // verus!
