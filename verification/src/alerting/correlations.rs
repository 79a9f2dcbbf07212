//! Suppression rules: an event that follows another too closely is dropped.

use vstd::prelude::*;

use super::aggregations::{aggregation_kind_matches, glob_fits, since};
use super::ids::{gen_event_id, id_or_fresh, uuid_shape};
use super::severity::{correlation_decision_severity, resolved};
use super::stamps::{Stamp, StampView};
use super::storage::{
    CorrelationRule, CorrelationRuleDto, CorrelationRuleDtoView, CorrelationRuleView, Storage,
};
use super::store::{
    any_of, by_rank, copy_kept, find_first, first_index, kept, keys_distinct, lemma_first_index,
    put_then_get, row_with, rows_view, with_row, without_row, Table,
};
use super::types::Severity;
use crate::text::{complaint, is_blank, is_blank_seq, join};

verus! {

/// What the suppression rules decide on an event.
#[derive(Debug, Clone, Copy, PartialEq, Eq, Structural)]
pub enum CorrelationDecision {
    Pass,
    Suppress { propagated_severity: Severity },
}

/// When each rule last saw an event of its first kind, by the id of the rule.
pub struct CorrelationState {
    pub last_a: Table<Stamp>,
}

impl CorrelationState {
    /// Nothing was seen yet.
    pub fn new() -> (r: Self)
        ensures
            r.last_a@ == Seq::<StampView>::empty(),
    {
        CorrelationState { last_a: Table::new() }
    }
}

/// What is wrong with a suppression rule.
pub open spec fn correlation_complaint(r: CorrelationRuleView) -> Option<Seq<char>> {
    if is_blank_seq(r.id) {
        Some("id required"@)
    } else if is_blank_seq(r.name) {
        Some("name required"@)
    } else if r.window_secs == 0 {
        Some("window_secs must be > 0"@)
    } else if is_blank_seq(r.kind_pattern_a) {
        Some("kind_pattern_a required"@)
    } else if is_blank_seq(r.kind_pattern_b) {
        Some("kind_pattern_b required"@)
    } else {
        None
    }
}

/// Checks a suppression rule.
pub fn validate_correlation(r: &CorrelationRule) -> (result: Result<(), String>)
    ensures
        complaint(result) == correlation_complaint(r@),
{
    if is_blank(r.id.as_str()) {
        return Err("id required".to_owned());
    }
    if is_blank(r.name.as_str()) {
        return Err("name required".to_owned());
    }
    if r.window_secs == 0 {
        return Err("window_secs must be > 0".to_owned());
    }
    if is_blank(r.kind_pattern_a.as_str()) {
        return Err("kind_pattern_a required".to_owned());
    }
    if is_blank(r.kind_pattern_b.as_str()) {
        return Err("kind_pattern_b required".to_owned());
    }
    Ok(())
}

/// The suppression rules that are on, oldest first.
pub open spec fn correlations_on(store: Storage) -> Seq<CorrelationRuleDtoView> {
    kept(by_rank::<CorrelationRuleDto>(store.correlations@), |r: CorrelationRuleDtoView| r.enabled)
}

/// The suppression rules that are on, oldest first.
pub fn load_enabled_correlation_rules(store: &Storage) -> (r: Vec<CorrelationRuleDto>)
    ensures
        rows_view(r@) == correlations_on(*store),
{
    let ghost on = |v: CorrelationRuleDtoView| v.enabled;
    let is_on = |row: &CorrelationRuleDto| -> (b: bool)
        ensures
            b == row@.enabled,
    { row.enabled };
    copy_kept(&store.correlations.list(), is_on, Ghost(on))
}

/// Whether a rule drops an event of `source`: the event is of its second kind and not of its
/// first, and one of its first kind came within its window.
pub open spec fn suppresses(
    r: CorrelationRuleDtoView,
    last_a: Seq<StampView>,
    source: Seq<char>,
    now: u64,
) -> bool {
    &&& glob_fits(r.kind_pattern_b, source)
    &&& !glob_fits(r.kind_pattern_a, source)
    &&& row_with::<Stamp>(last_a, r.id) is Some
    &&& since(now, row_with::<Stamp>(last_a, r.id)->0.at) <= r.window_secs
}

/// The first rule that drops an event of `source`.
pub open spec fn suppressing_rule(
    rules: Seq<CorrelationRuleDtoView>,
    last_a: Seq<StampView>,
    source: Seq<char>,
    now: u64,
) -> Option<int> {
    first_index(rules, |r: CorrelationRuleDtoView| suppresses(r, last_a, source, now))
}

/// The times after an event of `source`: each rule whose first kind it is has seen it now.
pub open spec fn stamped(
    last_a: Seq<StampView>,
    rules: Seq<CorrelationRuleDtoView>,
    source: Seq<char>,
    now: u64,
) -> Seq<StampView>
    decreases rules.len(),
{
    if rules.len() == 0 {
        last_a
    } else {
        let before = stamped(last_a, rules.drop_last(), source, now);
        if glob_fits(rules.last().kind_pattern_a, source) {
            with_row::<Stamp>(before, StampView { name: rules.last().id, at: now })
        } else {
            before
        }
    }
}

/// Whether a rule drops an event of `source`.
pub fn rule_suppresses(r: &CorrelationRuleDto, last_a: &Table<Stamp>, source: &str, now: u64) -> (b: bool)
    ensures
        b == suppresses(r@, last_a@, source@, now),
{
    if !aggregation_kind_matches(r.kind_pattern_b.as_str(), source) {
        return false;
    }
    if aggregation_kind_matches(r.kind_pattern_a.as_str(), source) {
        return false;
    }
    match last_a.get(r.id.as_str()) {
        Some(stamp) => now.saturating_sub(stamp.at) <= r.window_secs,
        None => false,
    }
}

/// The position of the first rule that drops an event of `source`.
pub fn find_suppressing(
    rules: &Vec<CorrelationRuleDto>,
    last_a: &Table<Stamp>,
    source: &str,
    now: u64,
) -> (r: Option<usize>)
    ensures
        match r {
            Some(i) => suppressing_rule(rows_view(rules@), last_a@, source@, now) == Some(i as int) && i
                < rules@.len(),
            None => suppressing_rule(rows_view(rules@), last_a@, source@, now) is None,
        },
{
    let ghost drops = |v: CorrelationRuleDtoView| suppresses(v, last_a@, source@, now);
    let test = |row: &CorrelationRuleDto| -> (b: bool)
        ensures
            b == suppresses(row@, last_a@, source@, now),
    { rule_suppresses(row, last_a, source, now) };
    find_first(rules, test, Ghost(drops))
}

/// Puts an event to the suppression rules, and lets those whose first kind it is remember it.
pub fn evaluate_correlations(store: &Storage, state: &mut CorrelationState, source: &str, now: u64) -> (r:
    CorrelationDecision)
    ensures
        r == (if suppressing_rule(correlations_on(*store), old(state).last_a@, source@, now) is Some {
            CorrelationDecision::Suppress { propagated_severity: resolved(*store, source@) }
        } else {
            CorrelationDecision::Pass
        }),
        final(state).last_a@ == stamped(old(state).last_a@, correlations_on(*store), source@, now),
{
    let rules: Vec<CorrelationRuleDto> = load_enabled_correlation_rules(store);
    let drops: bool = find_suppressing(&rules, &state.last_a, source, now).is_some();
    let ghost all = rows_view(rules@);
    let ghost before = state.last_a@;
    let mut i: usize = 0;
    assert(all.take(0) =~= Seq::<CorrelationRuleDtoView>::empty());
    while i < rules.len()
        invariant
            i <= rules@.len(),
            all == rows_view(rules@),
            state.last_a@ == stamped(before, all.take(i as int), source@, now),
        decreases rules@.len() - i,
    {
        assert(all.take(i + 1).drop_last() =~= all.take(i as int));
        assert(all.take(i + 1).last() == rules@[i as int]@);
        if aggregation_kind_matches(rules[i].kind_pattern_a.as_str(), source) {
            state.last_a.put(Stamp { name: rules[i].id.clone(), at: now });
        }
        i += 1;
    }
    assert(all.take(i as int) =~= all);
    if drops {
        CorrelationDecision::Suppress { propagated_severity: correlation_decision_severity(store, source) }
    } else {
        CorrelationDecision::Pass
    }
}

proof fn lemma_stamped(
    last_a: Seq<StampView>,
    rules: Seq<CorrelationRuleDtoView>,
    source: Seq<char>,
    now: u64,
    id: Seq<char>,
)
    requires
        keys_distinct::<Stamp>(last_a),
    ensures
        keys_distinct::<Stamp>(stamped(last_a, rules, source, now)),
        any_of(rules, |r: CorrelationRuleDtoView| r.id == id && glob_fits(r.kind_pattern_a, source)) ==> row_with::<
            Stamp,
        >(stamped(last_a, rules, source, now), id) == Some(StampView { name: id, at: now }),
        !any_of(rules, |r: CorrelationRuleDtoView| r.id == id && glob_fits(r.kind_pattern_a, source)) ==> row_with::<
            Stamp,
        >(stamped(last_a, rules, source, now), id) == row_with::<Stamp>(last_a, id),
    decreases rules.len(),
{
    let hit = |r: CorrelationRuleDtoView| r.id == id && glob_fits(r.kind_pattern_a, source);
    if rules.len() > 0 {
        let front = rules.drop_last();
        lemma_stamped(last_a, front, source, now, id);
        let mid = stamped(last_a, front, source, now);
        let row = StampView { name: rules.last().id, at: now };
        put_then_get::<Stamp>(mid, row, id);
        if any_of(front, hit) {
            let k = choose|k: int| 0 <= k < front.len() && hit(#[trigger] front[k]);
            assert(hit(rules[k]));
        }
        if hit(rules.last()) {
            assert(hit(rules[rules.len() - 1]));
        }
        if any_of(rules, hit) && !any_of(front, hit) {
            let k = choose|k: int| 0 <= k < rules.len() && hit(#[trigger] rules[k]);
            if k < front.len() {
                assert(hit(front[k]));
            }
        }
    }
}

/// An event of the first kind of a rule makes the rule drop events of its second kind for the
/// length of its window.
pub proof fn first_kind_opens_the_window(
    last_a: Seq<StampView>,
    rules: Seq<CorrelationRuleDtoView>,
    k: int,
    first: Seq<char>,
    second: Seq<char>,
    seen: u64,
    now: u64,
)
    requires
        keys_distinct::<Stamp>(last_a),
        0 <= k < rules.len(),
        glob_fits(rules[k].kind_pattern_a, first),
        glob_fits(rules[k].kind_pattern_b, second),
        !glob_fits(rules[k].kind_pattern_a, second),
        seen <= now,
        now - seen <= rules[k].window_secs,
    ensures
        suppressing_rule(rules, stamped(last_a, rules, first, seen), second, now) is Some,
{
    let id = rules[k].id;
    lemma_stamped(last_a, rules, first, seen, id);
    let hit = |r: CorrelationRuleDtoView| r.id == id && glob_fits(r.kind_pattern_a, first);
    assert(hit(rules[k]));
    let after = stamped(last_a, rules, first, seen);
    let drops = |r: CorrelationRuleDtoView| suppresses(r, after, second, now);
    lemma_first_index(rules, drops);
    assert(drops(rules[k]));
}

/// A rule whose two kinds are the same never drops anything.
pub proof fn same_kinds_never_suppress(
    r: CorrelationRuleDtoView,
    last_a: Seq<StampView>,
    source: Seq<char>,
    now: u64,
)
    requires
        r.kind_pattern_a == r.kind_pattern_b,
    ensures
        !suppresses(r, last_a, source, now),
{
}

/// Gives a rule without an id a random one.
pub fn ensure_correlation_id(rule: &mut CorrelationRule)
    ensures
        !is_blank_seq(old(rule)@.id) ==> final(rule)@ == old(rule)@,
        is_blank_seq(old(rule)@.id) ==> exists|fresh: Seq<char>| #[trigger]
            uuid_shape(fresh) && final(rule)@ == (CorrelationRuleView {
                id: "cor-"@ + fresh,
                ..old(rule)@
            }),
{
    if is_blank(rule.id.as_str()) {
        let fresh: String = gen_event_id();
        assert(uuid_shape(fresh@));
        rule.id = join("cor-", fresh.as_str());
    }
}

/// A suppression rule as it is stored.
pub open spec fn correlation_row(rule: CorrelationRuleView, now: u64) -> CorrelationRuleDtoView {
    CorrelationRuleDtoView {
        id: rule.id,
        name: rule.name,
        kind_pattern_a: rule.kind_pattern_a,
        kind_pattern_b: rule.kind_pattern_b,
        window_secs: rule.window_secs,
        enabled: rule.enabled,
        created_at: now,
    }
}

/// All suppression rules, by the time they were stored.
pub fn list_correlations(store: &Storage) -> (r: Vec<CorrelationRuleDto>)
    ensures
        rows_view(r@) == by_rank::<CorrelationRuleDto>(store.correlations@),
{
    store.correlations.list()
}

/// What storing a suppression rule does, given the random identifier for one without an id.
pub open spec fn correlation_saved(
    before: Storage,
    rule: CorrelationRuleView,
    fresh: Seq<char>,
    now: u64,
    after: Storage,
    r: Result<CorrelationRuleDto, String>,
) -> bool {
    let named = CorrelationRuleView { id: id_or_fresh(rule.id, "cor-"@, fresh), ..rule };
    &&& complaint(r) == correlation_complaint(named)
    &&& after == (Storage { correlations: after.correlations, ..before })
    &&& match r {
        Ok(dto) => dto@ == correlation_row(named, now) && after.correlations@ == with_row::<
            CorrelationRuleDto,
        >(before.correlations@, correlation_row(named, now)),
        Err(_) => after.correlations@ == before.correlations@,
    }
}

/// Stores a suppression rule, in the place of the one with its id. One without an id gets `cor-`
/// and `fresh`.
pub fn store_correlation(store: &mut Storage, rule: CorrelationRule, fresh: &str, now: u64) -> (r:
    Result<CorrelationRuleDto, String>)
    ensures
        correlation_saved(*old(store), rule@, fresh@, now, *final(store), r),
{
    let mut rule: CorrelationRule = rule;
    if is_blank(rule.id.as_str()) {
        rule.id = join("cor-", fresh);
    }
    validate_correlation(&rule)?;
    let row: CorrelationRuleDto = CorrelationRuleDto {
        id: rule.id,
        name: rule.name,
        kind_pattern_a: rule.kind_pattern_a,
        kind_pattern_b: rule.kind_pattern_b,
        window_secs: rule.window_secs,
        enabled: rule.enabled,
        created_at: now,
    };
    store.correlations.put(row.clone());
    Ok(row)
}

/// Stores a suppression rule, in the place of the one with its id. One without an id gets a random
/// one.
pub fn save_correlation(store: &mut Storage, rule: CorrelationRule, now: u64) -> (r: Result<
    CorrelationRuleDto,
    String,
>)
    ensures
        exists|fresh: Seq<char>| #[trigger]
            uuid_shape(fresh) && correlation_saved(*old(store), rule@, fresh, now, *final(store), r),
{
    let fresh: String = gen_event_id();
    assert(uuid_shape(fresh@));
    store_correlation(store, rule, fresh.as_str(), now)
}

/// Deletes a suppression rule; says whether there was one with this id.
pub fn delete_correlation(store: &mut Storage, id: &str) -> (r: bool)
    ensures
        *final(store) == (Storage { correlations: final(store).correlations, ..*old(store) }),
        final(store).correlations@ == without_row::<CorrelationRuleDto>(old(store).correlations@, id@),
        r == (row_with::<CorrelationRuleDto>(old(store).correlations@, id@) is Some),
{
    store.correlations.remove(id)
}

/// Deletes all suppression rules; says how many there were.
pub fn clear_correlations(store: &mut Storage) -> (r: usize)
    ensures
        *final(store) == (Storage { correlations: final(store).correlations, ..*old(store) }),
        final(store).correlations@ == Seq::<CorrelationRuleDtoView>::empty(),
        r == old(store).correlations@.len(),
{
    store.correlations.clear()
}

} // verus!
