//! What the rules of alerting decide, said of the operations that decide it and in no terms of how
//! they do.

use vstd::prelude::*;

use super::aggregations::{aggregation_kind_matches, glob_fits};
use super::correlations::{
    correlations_on, evaluate_correlations, stamped, suppresses, CorrelationDecision,
    CorrelationState,
};
use super::escalations::{
    candidates, candidates_for, candidates_view, escalates, escalation_rule_of, escalations_on,
    find_escalation_candidates, Candidate, EscalationState,
};
use super::laws::{covers_kind, lemma_kind_fits};
use super::severity::{hinted, severity_resolved};
use super::silences::{acked, acknowledges, covers, first_silence, is_acked, is_silenced};
use super::stamps::{Stamp, StampView};
use super::storage::{
    CorrelationRuleDto, CorrelationRuleDtoView, EscalationRuleDto, EscalationRuleDtoView,
    EscalationRuleView, SeverityHintRow, SeverityHintRowView, Storage,
};
use super::store::{
    by_rank, first_index, keys_distinct, kept, lemma_first_index, lemma_position_of,
    listing_is_sorted_and_complete, position_of, put_then_get, row_with,
};
use super::types::{
    severity_named, AckRuleRow, AckRuleRowView, Severity, SilenceRuleRow, SilenceRuleRowView,
};
use crate::text::{starts_with_seq};

verus! {

/// Whether a pattern of a frequency, suppression or escalation rule covers a kind of event: it is the
/// kind, or it ends in a star and the kind begins with what stands in front of the star.
pub open spec fn covers_glob(pattern: Seq<char>, kind: Seq<char>) -> bool {
    ||| pattern == kind
    ||| exists|prefix: Seq<char>, rest: Seq<char>|
        pattern == prefix + seq!['*'] && kind == #[trigger] (prefix + rest)
}

pub proof fn lemma_glob(pattern: Seq<char>, kind: Seq<char>)
    ensures
        glob_fits(pattern, kind) == covers_glob(pattern, kind),
{
    if pattern.len() > 0 && pattern.last() == '*' {
        let prefix = pattern.drop_last();
        assert(pattern =~= prefix + seq!['*']);
        if starts_with_seq(kind, prefix) {
            assert(kind =~= prefix + kind.skip(prefix.len() as int));
        }
    }
    assert forall|prefix: Seq<char>, rest: Seq<char>|
        pattern == prefix + seq!['*'] && kind == #[trigger] (prefix + rest) implies glob_fits(
        pattern,
        kind,
    ) by {
        assert(pattern.last() == '*');
        assert(pattern.drop_last() =~= prefix);
        assert(kind.subrange(0, prefix.len() as int) =~= prefix);
    }
}

/// A kind matches exactly the patterns that cover it.
pub proof fn globs_match_what_they_cover(pattern: &str, kind: &str, r: bool)
    requires
        call_ensures(aggregation_kind_matches, (pattern, kind), r),
    ensures
        r == covers_glob(pattern@, kind@),
{
    lemma_glob(pattern@, kind@);
}

/// Whether a silence holds for a kind of event at a time: between its start and its end, on one of its
/// weekdays, of which Monday has the lowest bit, within its hours, and where its pattern covers the
/// kind. 1970-01-01 was a Thursday.
pub open spec fn silence_holds(row: SilenceRuleRowView, kind: Seq<char>, now: u64) -> bool {
    let weekday = (now as int / 86400 + 3) % 7;
    let hour = (now as int % 86400) / 3600;
    let bits = seq![1int, 2, 4, 8, 16, 32, 64];
    &&& row.starts_at <= now
    &&& now < row.ends_at
    &&& (row.weekdays as int / bits[weekday]) % 2 == 1
    &&& row.start_hour <= hour
    &&& hour < row.end_hour
    &&& covers_kind(row.kind_pattern, kind)
}

pub proof fn lemma_silence(row: SilenceRuleRowView, kind: Seq<char>, now: u64)
    ensures
        covers(row, kind, now) == silence_holds(row, kind, now),
{
    lemma_kind_fits(row.kind_pattern, kind);
    let days = now as int / 86400;
    assert((days + 4) % 7 == ((days + 3) % 7 + 1) % 7);
}

pub proof fn lemma_member<R: super::store::Row>(rows: Seq<R::V>, v: R::V)
    ensures
        by_rank::<R>(rows).contains(v) == rows.contains(v),
{
    broadcast use vstd::seq_lib::group_to_multiset_ensures;

    listing_is_sorted_and_complete::<R>(rows);
    assert(by_rank::<R>(rows).to_multiset().count(v) == rows.to_multiset().count(v));
}

/// A kind is silenced exactly where a stored silence holds for it.
pub proof fn silences_hold_when_they_say(store: &Storage, kind: &str, now: u64, r: bool)
    requires
        call_ensures(is_silenced, (store, kind, now), r),
    ensures
        r == exists|i: int|
            0 <= i < store.silences@.len() && silence_holds(#[trigger] store.silences@[i], kind@, now),
{
    let rows = store.silences@;
    let listed = by_rank::<SilenceRuleRow>(rows);
    let hit = |v: SilenceRuleRowView| covers(v, kind@, now);
    if r {
        let k = choose|k: int| 0 <= k < listed.len() && hit(#[trigger] listed[k]);
        lemma_member::<SilenceRuleRow>(rows, listed[k]);
        assert(listed.contains(listed[k]));
        let i = choose|i: int| 0 <= i < rows.len() && rows[i] == listed[k];
        lemma_silence(rows[i], kind@, now);
        assert(silence_holds(rows[i], kind@, now));
    }
    if exists|i: int| 0 <= i < rows.len() && silence_holds(#[trigger] rows[i], kind@, now) {
        let i = choose|i: int| 0 <= i < rows.len() && silence_holds(#[trigger] rows[i], kind@, now);
        lemma_member::<SilenceRuleRow>(rows, rows[i]);
        assert(rows.contains(rows[i]));
        let k = choose|k: int| 0 <= k < listed.len() && listed[k] == rows[i];
        lemma_silence(rows[i], kind@, now);
        assert(hit(listed[k]));
    }
}

/// The silence that is named for a kind holds for it, and no older one does.
pub proof fn the_oldest_silence_is_named(store: &Storage, kind: &str, now: u64, r: Option<SilenceRuleRow>)
    requires
        call_ensures(first_silence, (store, kind, now), r),
    ensures
        r is Some ==> store.silences@.contains(r->0@) && silence_holds(r->0@, kind@, now),
        r is Some ==> forall|i: int|
            0 <= i < store.silences@.len() && silence_holds(#[trigger] store.silences@[i], kind@, now)
                ==> r->0@.created_at <= store.silences@[i].created_at,
        r is None ==> forall|i: int|
            0 <= i < store.silences@.len() ==> !silence_holds(#[trigger] store.silences@[i], kind@, now),
{
    let rows = store.silences@;
    let listed = by_rank::<SilenceRuleRow>(rows);
    let hit = |v: SilenceRuleRowView| covers(v, kind@, now);
    lemma_first_index(listed, hit);
    listing_is_sorted_and_complete::<SilenceRuleRow>(rows);
    let at = first_index(listed, hit);
    if r is Some {
        lemma_member::<SilenceRuleRow>(rows, listed[at->0]);
        assert(listed.contains(listed[at->0]));
        assert(hit(listed[at->0]));
        lemma_silence(r->0@, kind@, now);
    }
    assert forall|i: int|
        0 <= i < rows.len() && silence_holds(#[trigger] rows[i], kind@, now) implies r is Some
        && r->0@.created_at <= rows[i].created_at by {
        lemma_member::<SilenceRuleRow>(rows, rows[i]);
        assert(rows.contains(rows[i]));
        let k = choose|k: int| 0 <= k < listed.len() && listed[k] == rows[i];
        lemma_silence(rows[i], kind@, now);
        assert(hit(listed[k]));
        assert(at is Some && at->0 <= k);
    }
}

/// A kind is acknowledged exactly where a stored acknowledgement whose pattern covers it has not run
/// out.
pub proof fn acknowledgements_hold_until_they_run_out(store: &Storage, kind: &str, now: u64, r: bool)
    requires
        call_ensures(is_acked, (store, kind, now), r),
    ensures
        r == exists|i: int|
            0 <= i < store.acks@.len() && now < (#[trigger] store.acks@[i]).ack_until && covers_kind(
                store.acks@[i].kind_pattern,
                kind@,
            ),
{
    let rows = store.acks@;
    let listed = by_rank::<AckRuleRow>(rows);
    let hit = |v: AckRuleRowView| acknowledges(v, kind@, now);
    if r {
        let k = choose|k: int| 0 <= k < listed.len() && hit(#[trigger] listed[k]);
        lemma_member::<AckRuleRow>(rows, listed[k]);
        assert(listed.contains(listed[k]));
        let i = choose|i: int| 0 <= i < rows.len() && rows[i] == listed[k];
        lemma_kind_fits(rows[i].kind_pattern, kind@);
        assert(now < rows[i].ack_until);
    }
    if exists|i: int|
        0 <= i < rows.len() && now < (#[trigger] rows[i]).ack_until && covers_kind(
            rows[i].kind_pattern,
            kind@,
        ) {
        let i = choose|i: int|
            0 <= i < rows.len() && now < (#[trigger] rows[i]).ack_until && covers_kind(
                rows[i].kind_pattern,
                kind@,
            );
        lemma_member::<AckRuleRow>(rows, rows[i]);
        assert(rows.contains(rows[i]));
        let k = choose|k: int| 0 <= k < listed.len() && listed[k] == rows[i];
        lemma_kind_fits(rows[i].kind_pattern, kind@);
        assert(hit(listed[k]));
    }
}

/// Whether `v` is the only row under its key, and `t` its time.
pub open spec fn stamped_at(stamps: Seq<StampView>, name: Seq<char>, t: u64) -> bool {
    exists|i: int| 0 <= i < stamps.len() && #[trigger] stamps[i] == (StampView { name, at: t })
}

pub proof fn lemma_stamp(stamps: Seq<StampView>, name: Seq<char>, t: u64)
    requires
        keys_distinct::<Stamp>(stamps),
    ensures
        stamped_at(stamps, name, t) == (row_with::<Stamp>(stamps, name) == Some(StampView { name, at: t })),
{
    lemma_position_of::<Stamp>(stamps, name);
    if stamped_at(stamps, name, t) {
        let i = choose|i: int| 0 <= i < stamps.len() && #[trigger] stamps[i] == (StampView { name, at: t });
        let p = position_of::<Stamp>(stamps, name)->0;
        if p != i {
            assert(p < i);
            assert(stamps[p].name != stamps[i].name);
        }
    }
    if row_with::<Stamp>(stamps, name) == Some(StampView { name, at: t }) {
        let p = position_of::<Stamp>(stamps, name)->0;
        assert(stamps[p] == (StampView { name, at: t }));
    }
}

/// How long ago a time is; a time ahead counts as now.
pub open spec fn ago(now: u64, t: u64) -> int {
    if now > t {
        now - t
    } else {
        0
    }
}

/// Whether a suppression rule drops an event: the rule is on, the event is of its second kind and not
/// of its first, and one of its first kind came no longer ago than its window.
pub open spec fn drops(
    rule: CorrelationRuleDtoView,
    last_a: Seq<StampView>,
    source: Seq<char>,
    now: u64,
) -> bool {
    &&& rule.enabled
    &&& covers_glob(rule.kind_pattern_b, source)
    &&& !covers_glob(rule.kind_pattern_a, source)
    &&& exists|t: u64| #[trigger] stamped_at(last_a, rule.id, t) && ago(now, t) <= rule.window_secs
}

pub proof fn lemma_drops(
    rule: CorrelationRuleDtoView,
    last_a: Seq<StampView>,
    source: Seq<char>,
    now: u64,
)
    requires
        keys_distinct::<Stamp>(last_a),
    ensures
        drops(rule, last_a, source, now) == (rule.enabled && suppresses(rule, last_a, source, now)),
{
    lemma_glob(rule.kind_pattern_a, source);
    lemma_glob(rule.kind_pattern_b, source);
    lemma_position_of::<Stamp>(last_a, rule.id);
    if let Some(row) = row_with::<Stamp>(last_a, rule.id) {
        lemma_stamp(last_a, rule.id, row.at);
        assert(row == (StampView { name: rule.id, at: row.at }));
        assert(stamped_at(last_a, rule.id, row.at));
    }
    assert forall|t: u64| #[trigger] stamped_at(last_a, rule.id, t) implies row_with::<Stamp>(
        last_a,
        rule.id,
    ) == Some(StampView { name: rule.id, at: t }) by {
        lemma_stamp(last_a, rule.id, t);
    }
}

/// An event is suppressed exactly where a stored rule that is on drops it.
pub proof fn events_are_suppressed_by_their_rules(
    store: &Storage,
    state: &mut CorrelationState,
    source: &str,
    now: u64,
    r: CorrelationDecision,
)
    requires
        call_ensures(evaluate_correlations, (store, state, source, now), r),
        keys_distinct::<Stamp>(old(state).last_a@),
    ensures
        r is Suppress == exists|i: int|
            0 <= i < store.correlations@.len() && drops(
                #[trigger] store.correlations@[i],
                old(state).last_a@,
                source@,
                now,
            ),
{
    let rows = store.correlations@;
    let last_a = old(state).last_a@;
    let on = |r: CorrelationRuleDtoView| r.enabled;
    let rules = correlations_on(*store);
    let hit = |r: CorrelationRuleDtoView| suppresses(r, last_a, source@, now);
    lemma_first_index(rules, hit);
    lemma_on_members::<CorrelationRuleDto>(rows, on);
    if r is Suppress {
        let k = first_index(rules, hit)->0;
        assert(rules.contains(rules[k]));
        let i = choose|i: int| 0 <= i < rows.len() && rows[i] == rules[k];
        lemma_drops(rows[i], last_a, source@, now);
        assert(hit(rules[k]) && on(rules[k]));
        assert(drops(rows[i], last_a, source@, now));
    }
    if exists|i: int| 0 <= i < rows.len() && drops(#[trigger] rows[i], last_a, source@, now) {
        let i = choose|i: int| 0 <= i < rows.len() && drops(#[trigger] rows[i], last_a, source@, now);
        lemma_drops(rows[i], last_a, source@, now);
        assert(rows.contains(rows[i]) && on(rows[i]));
        assert(rules.contains(rows[i]));
        let k = choose|k: int| 0 <= k < rules.len() && rules[k] == rows[i];
        assert(hit(rules[k]));
    }
}

/// What is kept of a listing are the stored rows that meet the test.
pub proof fn lemma_on_members<R: super::store::Row>(rows: Seq<R::V>, f: spec_fn(R::V) -> bool)
    ensures
        forall|v: R::V| #[trigger]
            kept(by_rank::<R>(rows), f).contains(v) == (rows.contains(v) && f(v)),
{
    broadcast use vstd::seq_lib::group_to_multiset_ensures;
    broadcast use vstd::multiset::group_multiset_axioms;

    listing_is_sorted_and_complete::<R>(rows);
    super::store::keeping_is_filtering(by_rank::<R>(rows), f);
    assert forall|v: R::V| #[trigger] kept(by_rank::<R>(rows), f).contains(v) == (rows.contains(v) && f(v)) by {
        assert(kept(by_rank::<R>(rows), f).to_multiset().count(v) == rows.to_multiset().filter(f).count(v));
        assert(kept(by_rank::<R>(rows), f).contains(v) == (kept(by_rank::<R>(rows), f).to_multiset().count(v) > 0));
        assert(rows.contains(v) == (rows.to_multiset().count(v) > 0));
    }
}

/// After an event, exactly the rules that are on and whose first kind it is have seen it now; what
/// other rules have seen stays.
pub proof fn first_kinds_are_remembered(
    store: &Storage,
    state: &mut CorrelationState,
    source: &str,
    now: u64,
    r: CorrelationDecision,
    id: Seq<char>,
    t: u64,
)
    requires
        call_ensures(evaluate_correlations, (store, state, source, now), r),
        keys_distinct::<Stamp>(old(state).last_a@),
    ensures
        stamped_at(final(state).last_a@, id, t) == if exists|i: int|
            0 <= i < store.correlations@.len() && (#[trigger] store.correlations@[i]).enabled
                && store.correlations@[i].id == id && covers_glob(
                store.correlations@[i].kind_pattern_a,
                source@,
            ) {
            t == now
        } else {
            stamped_at(old(state).last_a@, id, t)
        },
{
    let rows = store.correlations@;
    let before = old(state).last_a@;
    let on = |r: CorrelationRuleDtoView| r.enabled;
    let rules = correlations_on(*store);
    lemma_on_members::<CorrelationRuleDto>(rows, on);
    lemma_stamped(before, rules, source@, now, id);
    lemma_stamp(final(state).last_a@, id, t);
    lemma_stamp(before, id, t);
    if exists|k: int|
        0 <= k < rules.len() && (#[trigger] rules[k]).id == id && covers_glob(
            rules[k].kind_pattern_a,
            source@,
        ) {
        let k = choose|k: int|
            0 <= k < rules.len() && (#[trigger] rules[k]).id == id && covers_glob(
                rules[k].kind_pattern_a,
                source@,
            );
        assert(rules.contains(rules[k]));
        let i = choose|i: int| 0 <= i < rows.len() && rows[i] == rules[k];
        assert(rows[i].enabled);
    } else if exists|i: int|
        0 <= i < rows.len() && (#[trigger] rows[i]).enabled && rows[i].id == id && covers_glob(
            rows[i].kind_pattern_a,
            source@,
        ) {
        let i = choose|i: int|
            0 <= i < rows.len() && (#[trigger] rows[i]).enabled && rows[i].id == id && covers_glob(
                rows[i].kind_pattern_a,
                source@,
            );
        assert(rows.contains(rows[i]) && on(rows[i]));
        assert(rules.contains(rows[i]));
        let k = choose|k: int| 0 <= k < rules.len() && rules[k] == rows[i];
        assert(rules[k].id == id);
    }
}

proof fn lemma_stamped(
    before: Seq<StampView>,
    rules: Seq<CorrelationRuleDtoView>,
    source: Seq<char>,
    now: u64,
    id: Seq<char>,
)
    requires
        keys_distinct::<Stamp>(before),
    ensures
        keys_distinct::<Stamp>(stamped(before, rules, source, now)),
        row_with::<Stamp>(stamped(before, rules, source, now), id) == if exists|k: int|
            0 <= k < rules.len() && (#[trigger] rules[k]).id == id && covers_glob(
                rules[k].kind_pattern_a,
                source,
            ) {
            Some(StampView { name: id, at: now })
        } else {
            row_with::<Stamp>(before, id)
        },
    decreases rules.len(),
{
    if rules.len() > 0 {
        let front = rules.drop_last();
        let last = rules[rules.len() - 1];
        lemma_stamped(before, front, source, now, id);
        lemma_glob(last.kind_pattern_a, source);
        put_then_get::<Stamp>(
            stamped(before, front, source, now),
            StampView { name: last.id, at: now },
            id,
        );
        assert forall|k: int| 0 <= k < front.len() implies front[k] == #[trigger] rules[k] by {}
        if exists|k: int|
            0 <= k < front.len() && (#[trigger] front[k]).id == id && covers_glob(
                front[k].kind_pattern_a,
                source,
            ) {
            let k = choose|k: int|
                0 <= k < front.len() && (#[trigger] front[k]).id == id && covers_glob(
                    front[k].kind_pattern_a,
                    source,
                );
            assert(rules[k].id == id);
        } else if last.id == id && covers_glob(last.kind_pattern_a, source) {
            assert(rules[rules.len() - 1].id == id);
        } else {
            assert forall|k: int| 0 <= k < rules.len() implies !((#[trigger] rules[k]).id == id && covers_glob(
                rules[k].kind_pattern_a,
                source,
            )) by {
                if k < front.len() {
                    assert(front[k] == rules[k]);
                }
            }
        }
    }
}

/// Whether an escalation rule asks for a source: it is on, its pattern covers the source, and the
/// last alert of the source is longer ago than the rule waits.
pub open spec fn asks_to_escalate(
    rule: EscalationRuleDtoView,
    source: Seq<char>,
    last: u64,
    now: u64,
) -> bool {
    rule.enabled && covers_glob(rule.kind_pattern, source) && ago(now, last) > rule.escalate_after_secs
}

/// A rule and a source are candidates for escalation exactly where the rule asks for the source, which
/// has sent at that time, and nobody has acknowledged it.
pub proof fn candidates_waited_too_long(
    store: &Storage,
    state: &EscalationState,
    now: u64,
    r: Vec<Candidate>,
    source: &str,
    quiet: bool,
    last: u64,
    rule: EscalationRuleView,
)
    requires
        call_ensures(find_escalation_candidates, (store, state, now), r),
        call_ensures(is_acked, (store, source, now), quiet),
    ensures
        candidates_view(r@).contains((rule, source@, last)) == (!quiet && stamped_at(
            state.last_by_source@,
            source@,
            last,
        ) && exists|i: int|
            0 <= i < store.escalations@.len() && asks_to_escalate(
                #[trigger] store.escalations@[i],
                source@,
                last,
                now,
            ) && rule == (EscalationRuleView {
                id: store.escalations@[i].id,
                name: store.escalations@[i].name,
                kind_pattern: store.escalations@[i].kind_pattern,
                escalate_after_secs: store.escalations@[i].escalate_after_secs,
                target_severity: store.escalations@[i].target_severity,
                target_endpoint_ids: store.escalations@[i].target_endpoint_ids,
                enabled: store.escalations@[i].enabled,
            })),
{
    lemma_candidates(*store, state.last_by_source@, now, rule, source@, last);
}

proof fn lemma_candidates(
    store: Storage,
    stamps: Seq<StampView>,
    now: u64,
    rule: EscalationRuleView,
    source: Seq<char>,
    last: u64,
)
    ensures
        candidates(store, stamps, now).contains((rule, source, last)) == (!acked(store, source, now)
            && stamped_at(stamps, source, last) && exists|i: int|
            0 <= i < store.escalations@.len() && asks_to_escalate(
                #[trigger] store.escalations@[i],
                source,
                last,
                now,
            ) && rule == escalation_rule_of(store.escalations@[i])),
    decreases stamps.len(),
{
    let found = candidates(store, stamps, now);
    let want = (rule, source, last);
    let asked = exists|i: int|
        0 <= i < store.escalations@.len() && asks_to_escalate(
            #[trigger] store.escalations@[i],
            source,
            last,
            now,
        ) && rule == escalation_rule_of(store.escalations@[i]);
    if stamps.len() > 0 {
        let front = stamps.drop_last();
        let stamp = stamps[stamps.len() - 1];
        lemma_candidates(store, front, now, rule, source, last);
        let before = candidates(store, front, now);
        let own = candidates_for(escalations_on(store), stamp, now);
        lemma_candidates_for(store, stamp, now, rule, source, last);
        if stamped_at(front, source, last) {
            let i = choose|i: int| 0 <= i < front.len() && #[trigger] front[i] == (StampView { name: source, at: last });
            assert(stamps[i] == (StampView { name: source, at: last }));
        }
        if stamped_at(stamps, source, last) && !stamped_at(front, source, last) {
            let i = choose|i: int| 0 <= i < stamps.len() && #[trigger] stamps[i] == (StampView { name: source, at: last });
            if i < front.len() {
                assert(front[i] == stamps[i]);
            }
            assert(stamp == (StampView { name: source, at: last }));
        }
        if stamp == (StampView { name: source, at: last }) {
            assert(stamps[stamps.len() - 1] == (StampView { name: source, at: last }));
        }
        if !acked(store, stamp.name, now) {
            assert(found == before + own);
            if before.contains(want) {
                let k = choose|k: int| 0 <= k < before.len() && before[k] == want;
                assert(found[k] == want);
            }
            if own.contains(want) {
                let k = choose|k: int| 0 <= k < own.len() && own[k] == want;
                assert(found[before.len() + k] == want);
            }
            if found.contains(want) {
                let k = choose|k: int| 0 <= k < found.len() && found[k] == want;
                if k < before.len() {
                    assert(before[k] == want);
                } else {
                    assert(own[k - before.len()] == want);
                }
            }
        }
    }
}

proof fn lemma_candidates_for(
    store: Storage,
    stamp: StampView,
    now: u64,
    rule: EscalationRuleView,
    source: Seq<char>,
    last: u64,
)
    ensures
        candidates_for(escalations_on(store), stamp, now).contains((rule, source, last)) == (stamp == (
        StampView { name: source, at: last }) && exists|i: int|
            0 <= i < store.escalations@.len() && asks_to_escalate(
                #[trigger] store.escalations@[i],
                source,
                last,
                now,
            ) && rule == escalation_rule_of(store.escalations@[i])),
{
    let rows = store.escalations@;
    let on = |r: EscalationRuleDtoView| r.enabled;
    let asks = |r: EscalationRuleDtoView| escalates(r, stamp.name, stamp.at, now);
    let rules = escalations_on(store);
    let hit = kept(rules, asks);
    let own = candidates_for(rules, stamp, now);
    let want = (rule, source, last);
    lemma_on_members::<EscalationRuleDto>(rows, on);
    lemma_kept_members(rules, asks);
    if own.contains(want) {
        let k = choose|k: int| 0 <= k < own.len() && own[k] == want;
        assert(hit.contains(hit[k]));
        assert(rules.contains(hit[k]));
        let i = choose|i: int| 0 <= i < rows.len() && rows[i] == hit[k];
        lemma_glob(rows[i].kind_pattern, source);
        assert(asks(hit[k]));
        assert(asks_to_escalate(rows[i], source, last, now));
    }
    if stamp == (StampView { name: source, at: last }) && exists|i: int|
        0 <= i < rows.len() && asks_to_escalate(#[trigger] rows[i], source, last, now) && rule
            == escalation_rule_of(rows[i]) {
        let i = choose|i: int|
            0 <= i < rows.len() && asks_to_escalate(#[trigger] rows[i], source, last, now) && rule
                == escalation_rule_of(rows[i]);
        lemma_glob(rows[i].kind_pattern, source);
        assert(rows.contains(rows[i]) && on(rows[i]));
        assert(rules.contains(rows[i]) && asks(rows[i]));
        assert(hit.contains(rows[i]));
        let k = choose|k: int| 0 <= k < hit.len() && hit[k] == rows[i];
        assert(own[k] == want);
    }
}

pub proof fn lemma_kept_members<V>(s: Seq<V>, f: spec_fn(V) -> bool)
    ensures
        forall|v: V| #[trigger] kept(s, f).contains(v) == (s.contains(v) && f(v)),
{
    broadcast use vstd::seq_lib::group_to_multiset_ensures;
    broadcast use vstd::multiset::group_multiset_axioms;

    super::store::keeping_is_filtering(s, f);
    assert forall|v: V| #[trigger] kept(s, f).contains(v) == (s.contains(v) && f(v)) by {
        assert(kept(s, f).contains(v) == (kept(s, f).to_multiset().count(v) > 0));
        assert(s.contains(v) == (s.to_multiset().count(v) > 0));
    }
}

/// Whether hints name a severity for a source.
pub open spec fn hints_say(hints: Seq<SeverityHintRowView>, source: Seq<char>, s: Severity) -> bool {
    exists|i: int|
        0 <= i < hints.len() && (#[trigger] hints[i]).source == source && severity_named(hints[i].severity)
            == Some(s)
}

/// The severity of a source is what its user says; else what a plugin says, or `info` where that is no
/// severity; else the default: `warn` for exceeded metrics, `error` for a broken agreement, `critical`
/// for a kill switch or a crash, and `info` for anything else.
pub proof fn severities_come_from_user_plugin_default(store: &Storage, source: &str, s: Severity, r: Severity)
    requires
        call_ensures(severity_resolved, (store, source), r),
        keys_distinct::<SeverityHintRow>(store.user_hints@),
        keys_distinct::<SeverityHintRow>(store.manifest_hints@),
    ensures
        hints_say(store.user_hints@, source@, s) ==> r == s,
        (forall|u: Severity| !#[trigger] hints_say(store.user_hints@, source@, u)) ==> {
            &&& hints_say(store.manifest_hints@, source@, s) ==> r == s
            &&& (exists|i: int|
                0 <= i < store.manifest_hints@.len() && (#[trigger] store.manifest_hints@[i]).source
                    == source@ && severity_named(store.manifest_hints@[i].severity) is None) ==> r
                == Severity::Info
            &&& (forall|i: int|
                0 <= i < store.manifest_hints@.len() ==> (#[trigger] store.manifest_hints@[i]).source
                    != source@) ==> r == (if source@ == "plugin.metrics.exceeded"@ {
                Severity::Warn
            } else if source@ == "capability.sla.violated"@ {
                Severity::Error
            } else if source@ == "plugin.kill_switch.enabled"@ || source@ == "plugin.lifecycle.crashed"@ {
                Severity::Critical
            } else {
                Severity::Info
            })
        },
{
    lemma_hints(store.user_hints@, source@, s);
    lemma_hints(store.manifest_hints@, source@, s);
    lemma_position_of::<SeverityHintRow>(store.manifest_hints@, source@);
    if let Some(u) = hinted(store.user_hints@, source@) {
        lemma_hints(store.user_hints@, source@, u);
    }
    if exists|i: int|
        0 <= i < store.manifest_hints@.len() && (#[trigger] store.manifest_hints@[i]).source == source@
            && severity_named(store.manifest_hints@[i].severity) is None {
        let i = choose|i: int|
            0 <= i < store.manifest_hints@.len() && (#[trigger] store.manifest_hints@[i]).source == source@
                && severity_named(store.manifest_hints@[i].severity) is None;
        let p = position_of::<SeverityHintRow>(store.manifest_hints@, source@)->0;
        if p != i {
            assert(p < i);
            assert(store.manifest_hints@[p].source != store.manifest_hints@[i].source);
        }
    }
}

proof fn lemma_hints(hints: Seq<SeverityHintRowView>, source: Seq<char>, s: Severity)
    requires
        keys_distinct::<SeverityHintRow>(hints),
    ensures
        hints_say(hints, source, s) == (hinted(hints, source) == Some(s)),
{
    lemma_position_of::<SeverityHintRow>(hints, source);
    if hints_say(hints, source, s) {
        let i = choose|i: int|
            0 <= i < hints.len() && (#[trigger] hints[i]).source == source && severity_named(
                hints[i].severity,
            ) == Some(s);
        let p = position_of::<SeverityHintRow>(hints, source)->0;
        if p != i {
            assert(p < i);
            assert(hints[p].source != hints[i].source);
        }
    }
    if hinted(hints, source) == Some(s) {
        let p = position_of::<SeverityHintRow>(hints, source)->0;
        assert(hints[p].source == source);
    }
}

} // verus!
