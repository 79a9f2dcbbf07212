//! Events seen lately, and rules that feed each other in circles.

use vstd::prelude::*;

use super::correlations::{correlations_on, load_enabled_correlation_rules};
use super::ids::{gen_event_id, uuid_shape};
use super::routes::{list_enabled_routes, routes_on};
use super::storage::{CorrelationRuleDto, CorrelationRuleDtoView, Storage};
use super::store::rows_view;
use super::types::{copy_texts, RouteRuleRow, RouteRuleRowView};
use super::util::{kind_fits, kind_matches};
use crate::graph::{
    a_cycle_is_not_missed, cycles_found, edges_inside, is_cycle, is_simple_cycle,
    lemma_search_first, lemma_step, lemma_visit, search_first, search_ok, self_loop_is_found,
    visit, visit_edges, what_is_found_is_a_cycle, Search,
};
use crate::json::texts_view;
use crate::order::{
    insert_ordered, lemma_text_orders, ordered, ordering_keeps_each_value_once, text_before,
    text_order, texts_before, texts_order,
};
use crate::text::{is_one_of, same};

verus! {

/// How many events are remembered.
pub const RECENT_EVENTS_CAP: usize = 256;

/// An event that was sent on.
#[derive(Debug)]
pub struct RouteSeenEvent {
    pub id: String,
    pub source: String,
    /// The first 64 characters of the payload.
    pub payload_summary: String,
    pub ts_secs: u64,
    pub routes_fired: Vec<String>,
    pub correlations_hit: Vec<String>,
}

/// What a [`RouteSeenEvent`] holds.
pub struct RouteSeenEventView {
    pub id: Seq<char>,
    pub source: Seq<char>,
    pub payload_summary: Seq<char>,
    pub ts_secs: u64,
    pub routes_fired: Seq<Seq<char>>,
    pub correlations_hit: Seq<Seq<char>>,
}

impl View for RouteSeenEvent {
    type V = RouteSeenEventView;

    open spec fn view(&self) -> RouteSeenEventView {
        RouteSeenEventView {
            id: self.id@,
            source: self.source@,
            payload_summary: self.payload_summary@,
            ts_secs: self.ts_secs,
            routes_fired: texts_view(self.routes_fired@),
            correlations_hit: texts_view(self.correlations_hit@),
        }
    }
}

impl Clone for RouteSeenEvent {
    fn clone(&self) -> (r: Self)
        ensures
            r@ == self@,
    {
        RouteSeenEvent {
            id: self.id.clone(),
            source: self.source.clone(),
            payload_summary: self.payload_summary.clone(),
            ts_secs: self.ts_secs,
            routes_fired: copy_texts(&self.routes_fired),
            correlations_hit: copy_texts(&self.correlations_hit),
        }
    }
}

/// The events seen lately, oldest first.
pub struct RecentEvents {
    events: Vec<RouteSeenEvent>,
}

impl View for RecentEvents {
    type V = Seq<RouteSeenEventView>;

    closed spec fn view(&self) -> Seq<RouteSeenEventView> {
        rows_view(self.events@)
    }
}

impl RecentEvents {
    #[verifier::type_invariant]
    spec fn wf(self) -> bool {
        self.events@.len() <= RECENT_EVENTS_CAP
    }

    /// Nothing was seen yet.
    pub fn new() -> (r: Self)
        ensures
            r@ == Seq::<RouteSeenEventView>::empty(),
    {
        let r: RecentEvents = RecentEvents { events: Vec::new() };
        assert(r@ =~= Seq::<RouteSeenEventView>::empty());
        r
    }

    /// The events, oldest first.
    pub fn events(&self) -> (r: &Vec<RouteSeenEvent>)
        ensures
            rows_view(r@) == self@,
            self@.len() <= RECENT_EVENTS_CAP,
    {
        proof {
            use_type_invariant(self);
        }
        &self.events
    }
}

/// `s` with `e` behind it, without the oldest where that would be too many.
pub open spec fn remembered(s: Seq<RouteSeenEventView>, e: RouteSeenEventView) -> Seq<RouteSeenEventView> {
    if s.len() >= RECENT_EVENTS_CAP {
        s.drop_first().push(e)
    } else {
        s.push(e)
    }
}

/// The first 64 characters of `s`.
pub open spec fn summary_of(s: Seq<char>) -> Seq<char> {
    if s.len() <= 64 {
        s
    } else {
        s.take(64)
    }
}

/// The first 64 characters of `s`.
pub fn summarize(s: &str) -> (r: String)
    ensures
        r@ == summary_of(s@),
{
    if s.unicode_len() <= 64 {
        s.to_owned()
    } else {
        assert(s@.subrange(0, 64) =~= s@.take(64));
        s.substring_char(0, 64).to_owned()
    }
}

/// Remembers an event under the id `id`.
pub fn push_seen_event(
    recent: &mut RecentEvents,
    id: String,
    source: &str,
    payload_summary: &str,
    ts_secs: u64,
    routes_fired: Vec<String>,
    correlations_hit: Vec<String>,
)
    ensures
        final(recent)@ == remembered(
            old(recent)@,
            RouteSeenEventView {
                id: id@,
                source: source@,
                payload_summary: summary_of(payload_summary@),
                ts_secs,
                routes_fired: texts_view(routes_fired@),
                correlations_hit: texts_view(correlations_hit@),
            },
        ),
{
    proof {
        use_type_invariant(&*recent);
    }
    let ghost before = recent@;
    let mut events: Vec<RouteSeenEvent> = Vec::new();
    std::mem::swap(&mut events, &mut recent.events);
    if events.len() >= RECENT_EVENTS_CAP {
        events.remove(0);
    }
    let event: RouteSeenEvent = RouteSeenEvent {
        id,
        source: source.to_owned(),
        payload_summary: summarize(payload_summary),
        ts_secs,
        routes_fired,
        correlations_hit,
    };
    let ghost e = event@;
    events.push(event);
    assert(rows_view(events@) =~= remembered(before, e));
    recent.events = events;
}

/// Remembers an event under a random id.
pub fn record_seen_event(
    recent: &mut RecentEvents,
    source: &str,
    payload_summary: &str,
    ts_secs: u64,
    routes_fired: Vec<String>,
    correlations_hit: Vec<String>,
)
    ensures
        exists|fresh: Seq<char>| #[trigger]
            uuid_shape(fresh) && final(recent)@ == remembered(
                old(recent)@,
                RouteSeenEventView {
                    id: fresh,
                    source: source@,
                    payload_summary: summary_of(payload_summary@),
                    ts_secs,
                    routes_fired: texts_view(routes_fired@),
                    correlations_hit: texts_view(correlations_hit@),
                },
            ),
{
    let id: String = gen_event_id();
    assert(uuid_shape(id@));
    push_seen_event(recent, id, source, payload_summary, ts_secs, routes_fired, correlations_hit);
}

/// Whether an event counts as one of the last `window_secs` seconds whose source fits `pattern`.
pub open spec fn counts_as_seen(e: RouteSeenEventView, pattern: Seq<char>, window_secs: u64, now: u64) -> bool {
    e.ts_secs + window_secs >= now && kind_fits(pattern, e.source)
}

/// Whether an event whose source fits `pattern` was seen in the last `window_secs` seconds.
pub open spec fn seen_lately(
    recent: Seq<RouteSeenEventView>,
    pattern: Seq<char>,
    window_secs: u64,
    now: u64,
) -> bool {
    &&& window_secs != 0
    &&& pattern.len() > 0
    &&& exists|i: int|
        0 <= i < recent.len() && counts_as_seen(#[trigger] recent[i], pattern, window_secs, now)
}

/// Whether an event whose source fits `pattern` was seen in the last `window_secs` seconds.
pub fn recently_seen(recent: &RecentEvents, pattern: &str, window_secs: u64, now: u64) -> (r: bool)
    ensures
        r == seen_lately(recent@, pattern@, window_secs, now),
{
    if window_secs == 0 || pattern.is_empty() {
        return false;
    }
    let cutoff: u64 = now.saturating_sub(window_secs);
    let events: &Vec<RouteSeenEvent> = recent.events();
    let ghost all = recent@;
    let mut i: usize = events.len();
    while i > 0
        invariant
            i <= events@.len(),
            all == rows_view(events@),
            all == recent@,
            window_secs != 0,
            pattern@.len() > 0,
            cutoff as int == (if now >= window_secs { now - window_secs } else { 0 }),
            forall|j: int| i <= j < all.len() ==> !counts_as_seen(#[trigger] all[j], pattern@, window_secs, now),
        decreases i,
    {
        i -= 1;
        assert(all[i as int] == events@[i as int]@);
        if events[i].ts_secs >= cutoff && kind_matches(pattern, events[i].source.as_str()) {
            assert(counts_as_seen(all[i as int], pattern@, window_secs, now));
            return true;
        }
    }
    false
}

/// An event that was just remembered counts as seen for any pattern that its source fits.
pub proof fn what_was_remembered_is_seen(
    recent: Seq<RouteSeenEventView>,
    e: RouteSeenEventView,
    pattern: Seq<char>,
    window_secs: u64,
    now: u64,
)
    requires
        window_secs != 0,
        pattern.len() > 0,
        kind_fits(pattern, e.source),
        e.ts_secs + window_secs >= now,
    ensures
        seen_lately(remembered(recent, e), pattern, window_secs, now),
{
    let s = remembered(recent, e);
    assert(s[s.len() - 1] == e);
    assert(counts_as_seen(s[s.len() - 1], pattern, window_secs, now));
}

/// The last `limit` events, newest first.
pub open spec fn newest(recent: Seq<RouteSeenEventView>, limit: nat) -> Seq<RouteSeenEventView> {
    Seq::new(
        if limit < recent.len() {
            limit
        } else {
            recent.len()
        },
        |i: int| recent[recent.len() - 1 - i],
    )
}

/// The last `limit` events, newest first.
pub fn recent_events_snapshot(recent: &RecentEvents, limit: usize) -> (r: Vec<RouteSeenEvent>)
    ensures
        rows_view(r@) == newest(recent@, limit as nat),
        r@.len() <= RECENT_EVENTS_CAP,
{
    let events: &Vec<RouteSeenEvent> = recent.events();
    let n: usize = if limit < events.len() {
        limit
    } else {
        events.len()
    };
    let mut out: Vec<RouteSeenEvent> = Vec::new();
    let mut i: usize = 0;
    while i < n
        invariant
            i <= n,
            n <= events@.len(),
            out@.len() == i,
            rows_view(events@) == recent@,
            forall|k: int| 0 <= k < i ==> (#[trigger] out@[k])@ == recent@[recent@.len() - 1 - k],
        decreases n - i,
    {
        out.push(events[events.len() - 1 - i].clone());
        assert(recent@[recent@.len() - 1 - i] == events@[events@.len() - 1 - i]@);
        i += 1;
    }
    assert(rows_view(out@) =~= newest(recent@, limit as nat));
    out
}

/// What a circle of rules is made of.
#[derive(Debug, Clone, Copy, PartialEq, Eq, Structural)]
pub enum CycleKind {
    SelfLoop,
    RouteToRoute,
    RouteToCorrelation,
}

/// A circle of rules, by their names; the first name comes last again.
#[derive(Debug)]
pub struct CycleReport {
    pub cycle: Vec<String>,
    pub kind: CycleKind,
}

/// What a [`CycleReport`] holds.
pub struct CycleReportView {
    pub cycle: Seq<Seq<char>>,
    pub kind: CycleKind,
}

impl View for CycleReport {
    type V = CycleReportView;

    open spec fn view(&self) -> CycleReportView {
        CycleReportView { cycle: texts_view(self.cycle@), kind: self.kind }
    }
}

/// The names of the routes whose pattern fits `pattern`.
pub open spec fn routes_fitting(routes: Seq<RouteRuleRowView>, pattern: Seq<char>) -> Seq<Seq<char>>
    decreases routes.len(),
{
    if routes.len() == 0 {
        Seq::empty()
    } else {
        let before = routes_fitting(routes.drop_last(), pattern);
        if kind_fits(pattern, routes.last().kind_pattern) {
            before.push(routes.last().name)
        } else {
            before
        }
    }
}

/// The names of the suppression rules whose first kind fits `pattern`.
pub open spec fn correlations_fitting(corrs: Seq<CorrelationRuleDtoView>, pattern: Seq<char>) -> Seq<
    Seq<char>,
>
    decreases corrs.len(),
{
    if corrs.len() == 0 {
        Seq::empty()
    } else {
        let before = correlations_fitting(corrs.drop_last(), pattern);
        if kind_fits(pattern, corrs.last().kind_pattern_a) {
            before.push(corrs.last().name)
        } else {
            before
        }
    }
}

/// Where a route leads: to the routes that its look back in time may see, and to the suppression
/// rules that it may set off.
pub open spec fn route_edges(
    routes: Seq<RouteRuleRowView>,
    corrs: Seq<CorrelationRuleDtoView>,
    r: RouteRuleRowView,
) -> Seq<Seq<char>> {
    (match r.seen_in_last {
        Some(look) => routes_fitting(routes, look.pattern),
        None => Seq::empty(),
    }) + correlations_fitting(corrs, r.kind_pattern)
}

/// Where the routes of `some` with this name lead.
pub open spec fn edges_of_routes(
    routes: Seq<RouteRuleRowView>,
    corrs: Seq<CorrelationRuleDtoView>,
    some: Seq<RouteRuleRowView>,
    name: Seq<char>,
) -> Seq<Seq<char>>
    decreases some.len(),
{
    if some.len() == 0 {
        Seq::empty()
    } else {
        let before = edges_of_routes(routes, corrs, some.drop_last(), name);
        if some.last().name == name {
            before + route_edges(routes, corrs, some.last())
        } else {
            before
        }
    }
}

/// Where the suppression rules of `some` with this name lead: to the routes of their second kind.
pub open spec fn edges_of_correlations(
    routes: Seq<RouteRuleRowView>,
    some: Seq<CorrelationRuleDtoView>,
    name: Seq<char>,
) -> Seq<Seq<char>>
    decreases some.len(),
{
    if some.len() == 0 {
        Seq::empty()
    } else {
        let before = edges_of_correlations(routes, some.drop_last(), name);
        if some.last().name == name {
            before + routes_fitting(routes, some.last().kind_pattern_b)
        } else {
            before
        }
    }
}

/// Where the rules of a name lead.
pub open spec fn rule_edges(routes: Seq<RouteRuleRowView>, corrs: Seq<CorrelationRuleDtoView>) -> spec_fn(
    Seq<char>,
) -> Seq<Seq<char>> {
    |name: Seq<char>|
        edges_of_routes(routes, corrs, routes, name) + edges_of_correlations(routes, corrs, name)
}

/// The names of routes, then of suppression rules.
pub open spec fn names_in_turn(routes: Seq<RouteRuleRowView>, corrs: Seq<CorrelationRuleDtoView>) -> Seq<
    Seq<char>,
> {
    Seq::new(routes.len(), |i: int| routes[i].name) + Seq::new(corrs.len(), |i: int| corrs[i].name)
}

/// The names of all rules, in order.
pub open spec fn rule_names(routes: Seq<RouteRuleRowView>, corrs: Seq<CorrelationRuleDtoView>) -> Seq<
    Seq<char>,
> {
    ordered(names_in_turn(routes, corrs), text_order())
}

/// How a circle is reported: one of a single rule as a loop.
pub open spec fn report_of(cycle: Seq<Seq<char>>) -> CycleReportView {
    CycleReportView {
        cycle,
        kind: if cycle.len() == 2 {
            CycleKind::SelfLoop
        } else {
            CycleKind::RouteToRoute
        },
    }
}

/// The circles that a search finds, in order.
pub open spec fn circles(routes: Seq<RouteRuleRowView>, corrs: Seq<CorrelationRuleDtoView>) -> Seq<
    Seq<Seq<char>>,
> {
    ordered(cycles_found(rule_edges(routes, corrs), rule_names(routes, corrs)), texts_order())
}

/// The reports on circles of rules.
pub open spec fn cycle_reports(routes: Seq<RouteRuleRowView>, corrs: Seq<CorrelationRuleDtoView>) -> Seq<
    CycleReportView,
> {
    let all = circles(routes, corrs);
    Seq::new(all.len(), |i: int| report_of(all[i]))
}

proof fn lemma_fitting_inside(
    routes: Seq<RouteRuleRowView>,
    corrs: Seq<CorrelationRuleDtoView>,
    pattern: Seq<char>,
    n: int,
)
    requires
        0 <= n,
    ensures
        n <= routes.len() ==> forall|j: int|
            0 <= j < routes_fitting(routes.take(n), pattern).len() ==> names_in_turn(routes, corrs).contains(
                #[trigger] routes_fitting(routes.take(n), pattern)[j],
            ),
        n <= corrs.len() ==> forall|j: int|
            0 <= j < correlations_fitting(corrs.take(n), pattern).len() ==> names_in_turn(
                routes,
                corrs,
            ).contains(#[trigger] correlations_fitting(corrs.take(n), pattern)[j]),
    decreases n,
{
    if n > 0 {
        lemma_fitting_inside(routes, corrs, pattern, n - 1);
        let names = names_in_turn(routes, corrs);
        if n <= routes.len() {
            assert(routes.take(n).drop_last() =~= routes.take(n - 1));
            assert(names[n - 1] == routes[n - 1].name);
            let before = routes_fitting(routes.take(n - 1), pattern);
            let now = routes_fitting(routes.take(n), pattern);
            assert forall|j: int| 0 <= j < now.len() implies names.contains(#[trigger] now[j]) by {
                if j < before.len() {
                    assert(now[j] == before[j]);
                } else {
                    assert(now[j] == names[n - 1]);
                }
            }
        }
        if n <= corrs.len() {
            assert(corrs.take(n).drop_last() =~= corrs.take(n - 1));
            assert(names[routes.len() + n - 1] == corrs[n - 1].name);
            let before = correlations_fitting(corrs.take(n - 1), pattern);
            let now = correlations_fitting(corrs.take(n), pattern);
            assert forall|j: int| 0 <= j < now.len() implies names.contains(#[trigger] now[j]) by {
                if j < before.len() {
                    assert(now[j] == before[j]);
                } else {
                    assert(now[j] == names[routes.len() + n - 1]);
                }
            }
        }
    }
}

proof fn lemma_route_edges_inside(
    routes: Seq<RouteRuleRowView>,
    corrs: Seq<CorrelationRuleDtoView>,
    n: int,
    name: Seq<char>,
    j: int,
)
    requires
        0 <= n <= routes.len(),
        0 <= j < edges_of_routes(routes, corrs, routes.take(n), name).len(),
    ensures
        names_in_turn(routes, corrs).contains(edges_of_routes(routes, corrs, routes.take(n), name)[j]),
        names_in_turn(routes, corrs).contains(name),
    decreases n,
{
    assert(n > 0);
    assert(routes.take(n).drop_last() =~= routes.take(n - 1));
    let before = edges_of_routes(routes, corrs, routes.take(n - 1), name);
    if j < before.len() {
        lemma_route_edges_inside(routes, corrs, n - 1, name, j);
    } else {
        let r = routes[n - 1];
        assert(names_in_turn(routes, corrs)[n - 1] == name);
        assert(routes.take(routes.len() as int) =~= routes);
        assert(corrs.take(corrs.len() as int) =~= corrs);
        match r.seen_in_last {
            Some(look) => lemma_fitting_inside(routes, corrs, look.pattern, routes.len() as int),
            None => {},
        }
        lemma_fitting_inside(routes, corrs, r.kind_pattern, corrs.len() as int);
        let here = route_edges(routes, corrs, r);
        let looked = match r.seen_in_last {
            Some(look) => routes_fitting(routes, look.pattern),
            None => Seq::empty(),
        };
        let k = j - before.len();
        assert(here[k] == (if k < looked.len() {
            looked[k]
        } else {
            correlations_fitting(corrs, r.kind_pattern)[k - looked.len()]
        }));
    }
}

proof fn lemma_correlation_edges_inside(
    routes: Seq<RouteRuleRowView>,
    corrs: Seq<CorrelationRuleDtoView>,
    n: int,
    name: Seq<char>,
    j: int,
)
    requires
        0 <= n <= corrs.len(),
        0 <= j < edges_of_correlations(routes, corrs.take(n), name).len(),
    ensures
        names_in_turn(routes, corrs).contains(edges_of_correlations(routes, corrs.take(n), name)[j]),
        names_in_turn(routes, corrs).contains(name),
    decreases n,
{
    assert(n > 0);
    assert(corrs.take(n).drop_last() =~= corrs.take(n - 1));
    let before = edges_of_correlations(routes, corrs.take(n - 1), name);
    if j < before.len() {
        lemma_correlation_edges_inside(routes, corrs, n - 1, name, j);
    } else {
        assert(names_in_turn(routes, corrs)[routes.len() + n - 1] == name);
        assert(routes.take(routes.len() as int) =~= routes);
        lemma_fitting_inside(routes, corrs, corrs[n - 1].kind_pattern_b, routes.len() as int);
        let here = routes_fitting(routes, corrs[n - 1].kind_pattern_b);
        assert(here[j - before.len()] == edges_of_correlations(routes, corrs.take(n), name)[j]);
    }
}

/// Rules lead to rules, and only rules lead anywhere.
proof fn lemma_rule_edges(routes: Seq<RouteRuleRowView>, corrs: Seq<CorrelationRuleDtoView>)
    ensures
        edges_inside(rule_edges(routes, corrs), rule_names(routes, corrs)),
        forall|name: Seq<char>| #[trigger]
            rule_edges(routes, corrs)(name).len() > 0 ==> rule_names(routes, corrs).contains(name),
{
    let names = names_in_turn(routes, corrs);
    let nodes = rule_names(routes, corrs);
    let adj = rule_edges(routes, corrs);
    lemma_text_orders();
    ordering_keeps_each_value_once(names, text_order());
    assert(routes.take(routes.len() as int) =~= routes);
    assert(corrs.take(corrs.len() as int) =~= corrs);
    assert forall|a: Seq<char>, j: int| 0 <= j < adj(a).len() implies nodes.contains(#[trigger] adj(a)[j])
        && nodes.contains(a) by {
        let from_routes = edges_of_routes(routes, corrs, routes, a);
        if j < from_routes.len() {
            lemma_route_edges_inside(routes, corrs, routes.len() as int, a, j);
            assert(adj(a)[j] == from_routes[j]);
        } else {
            lemma_correlation_edges_inside(routes, corrs, corrs.len() as int, a, j - from_routes.len());
            assert(adj(a)[j] == edges_of_correlations(routes, corrs, a)[j - from_routes.len()]);
        }
        assert(names.contains(adj(a)[j]) && names.contains(a));
    }
    assert forall|name: Seq<char>| #[trigger] adj(name).len() > 0 implies nodes.contains(name) by {
        assert(nodes.contains(adj(name)[0]));
    }
}

/// A list of names.
struct NamePath {
    names: Vec<String>,
}

impl View for NamePath {
    type V = Seq<Seq<char>>;

    closed spec fn view(&self) -> Seq<Seq<char>> {
        texts_view(self.names@)
    }
}

fn add_routes_fitting(out: &mut Vec<String>, routes: &Vec<RouteRuleRow>, pattern: &str)
    ensures
        texts_view(final(out)@) == texts_view(old(out)@) + routes_fitting(rows_view(routes@), pattern@),
{
    let ghost had = texts_view(out@);
    let ghost all = rows_view(routes@);
    let mut i: usize = 0;
    assert(had + routes_fitting(all.take(0), pattern@) =~= had);
    while i < routes.len()
        invariant
            i <= routes@.len(),
            all == rows_view(routes@),
            texts_view(out@) == had + routes_fitting(all.take(i as int), pattern@),
        decreases routes@.len() - i,
    {
        let ghost before = texts_view(out@);
        assert(all.take(i + 1).drop_last() =~= all.take(i as int));
        assert(all.take(i + 1).last() == routes@[i as int]@);
        if kind_matches(pattern, routes[i].kind_pattern.as_str()) {
            out.push(routes[i].name.clone());
            assert(texts_view(out@) =~= before.push(routes@[i as int]@.name));
        }
        assert(texts_view(out@) =~= had + routes_fitting(all.take(i + 1), pattern@));
        i += 1;
    }
    assert(all.take(i as int) =~= all);
}

fn add_correlations_fitting(out: &mut Vec<String>, corrs: &Vec<CorrelationRuleDto>, pattern: &str)
    ensures
        texts_view(final(out)@) == texts_view(old(out)@) + correlations_fitting(rows_view(corrs@), pattern@),
{
    let ghost had = texts_view(out@);
    let ghost all = rows_view(corrs@);
    let mut i: usize = 0;
    assert(had + correlations_fitting(all.take(0), pattern@) =~= had);
    while i < corrs.len()
        invariant
            i <= corrs@.len(),
            all == rows_view(corrs@),
            texts_view(out@) == had + correlations_fitting(all.take(i as int), pattern@),
        decreases corrs@.len() - i,
    {
        let ghost before = texts_view(out@);
        assert(all.take(i + 1).drop_last() =~= all.take(i as int));
        assert(all.take(i + 1).last() == corrs@[i as int]@);
        if kind_matches(pattern, corrs[i].kind_pattern_a.as_str()) {
            out.push(corrs[i].name.clone());
            assert(texts_view(out@) =~= before.push(corrs@[i as int]@.name));
        }
        assert(texts_view(out@) =~= had + correlations_fitting(all.take(i + 1), pattern@));
        i += 1;
    }
    assert(all.take(i as int) =~= all);
}

/// Where the rules of a name lead.
fn edges_from(routes: &Vec<RouteRuleRow>, corrs: &Vec<CorrelationRuleDto>, name: &str) -> (r: Vec<String>)
    ensures
        texts_view(r@) == rule_edges(rows_view(routes@), rows_view(corrs@))(name@),
{
    let ghost rs = rows_view(routes@);
    let ghost cs = rows_view(corrs@);
    let mut out: Vec<String> = Vec::new();
    let mut i: usize = 0;
    assert(texts_view(out@) =~= edges_of_routes(rs, cs, rs.take(0), name@));
    while i < routes.len()
        invariant
            i <= routes@.len(),
            rs == rows_view(routes@),
            cs == rows_view(corrs@),
            texts_view(out@) == edges_of_routes(rs, cs, rs.take(i as int), name@),
        decreases routes@.len() - i,
    {
        let ghost before = texts_view(out@);
        assert(rs.take(i + 1).drop_last() =~= rs.take(i as int));
        assert(rs.take(i + 1).last() == routes@[i as int]@);
        if same(routes[i].name.as_str(), name) {
            match &routes[i].seen_in_last {
                Some(look) => add_routes_fitting(&mut out, routes, look.pattern.as_str()),
                None => {
                    assert(before + Seq::<Seq<char>>::empty() =~= before);
                },
            }
            add_correlations_fitting(&mut out, corrs, routes[i].kind_pattern.as_str());
            assert(texts_view(out@) =~= before + route_edges(rs, cs, rs[i as int]));
        }
        i += 1;
    }
    assert(rs.take(i as int) =~= rs);
    let ghost first = texts_view(out@);
    let mut k: usize = 0;
    assert(first + edges_of_correlations(rs, cs.take(0), name@) =~= first);
    while k < corrs.len()
        invariant
            k <= corrs@.len(),
            rs == rows_view(routes@),
            cs == rows_view(corrs@),
            texts_view(out@) == first + edges_of_correlations(rs, cs.take(k as int), name@),
        decreases corrs@.len() - k,
    {
        let ghost before = texts_view(out@);
        assert(cs.take(k + 1).drop_last() =~= cs.take(k as int));
        assert(cs.take(k + 1).last() == corrs@[k as int]@);
        if same(corrs[k].name.as_str(), name) {
            add_routes_fitting(&mut out, routes, corrs[k].kind_pattern_b.as_str());
        }
        assert(texts_view(out@) =~= first + edges_of_correlations(rs, cs.take(k + 1), name@));
        k += 1;
    }
    assert(cs.take(k as int) =~= cs);
    out
}

/// The names of all rules, in order.
fn all_names(routes: &Vec<RouteRuleRow>, corrs: &Vec<CorrelationRuleDto>) -> (r: Vec<String>)
    ensures
        texts_view(r@) == rule_names(rows_view(routes@), rows_view(corrs@)),
{
    let ghost names = names_in_turn(rows_view(routes@), rows_view(corrs@));
    let ghost less = text_order();
    let mut out: Vec<String> = Vec::new();
    let mut i: usize = 0;
    let n: usize = routes.len();
    assert(rows_view(out@) =~= ordered(names.take(0), less));
    while i < n
        invariant
            i <= n,
            n == routes@.len(),
            names == names_in_turn(rows_view(routes@), rows_view(corrs@)),
            less == text_order(),
            rows_view(out@) == ordered(names.take(i as int), less),
        decreases n - i,
    {
        assert(names.take(i + 1).drop_last() =~= names.take(i as int));
        assert(names.take(i + 1).last() == routes@[i as int]@.name);
        let before = |a: &String, b: &String| -> (r: bool)
            ensures
                r == text_order()(a@, b@),
        { text_before(a.as_str(), b.as_str()) };
        insert_ordered(&mut out, routes[i].name.clone(), before, Ghost(less));
        i += 1;
    }
    let mut k: usize = 0;
    while k < corrs.len()
        invariant
            k <= corrs@.len(),
            n == routes@.len(),
            names == names_in_turn(rows_view(routes@), rows_view(corrs@)),
            less == text_order(),
            rows_view(out@) == ordered(names.take(n + k), less),
        decreases corrs@.len() - k,
    {
        assert(names.take(n + k + 1).drop_last() =~= names.take(n + k));
        assert(names.take(n + k + 1).last() == corrs@[k as int]@.name);
        let before = |a: &String, b: &String| -> (r: bool)
            ensures
                r == text_order()(a@, b@),
        { text_before(a.as_str(), b.as_str()) };
        insert_ordered(&mut out, corrs[k].name.clone(), before, Ghost(less));
        k += 1;
    }
    assert(names.take(n + k) =~= names);
    assert(rows_view(out@) =~= texts_view(out@));
    out
}

/// What a search has come to.
spec fn search_view(done: Seq<String>, found: Seq<NamePath>) -> Search<Seq<char>> {
    Search { done: texts_view(done), found: rows_view(found) }
}

fn position_in(path: &Vec<String>, name: &str) -> (r: Option<usize>)
    ensures
        match r {
            Some(i) => i < path@.len() && path@[i as int]@ == name@,
            None => !texts_view(path@).contains(name@),
        },
{
    let mut i: usize = 0;
    while i < path.len()
        invariant
            i <= path@.len(),
            forall|j: int| 0 <= j < i ==> (#[trigger] path@[j])@ != name@,
        decreases path@.len() - i,
    {
        if same(path[i].as_str(), name) {
            return Some(i);
        }
        i += 1;
    }
    None
}

/// The part of `path` from `from` on, then `name`.
fn closed_path(path: &Vec<String>, from: usize, name: &str) -> (r: NamePath)
    requires
        from <= path@.len(),
    ensures
        r@ == texts_view(path@).skip(from as int).push(name@),
{
    let mut names: Vec<String> = Vec::new();
    let mut i: usize = from;
    while i < path.len()
        invariant
            from <= i <= path@.len(),
            names@.len() == i - from,
            forall|k: int| 0 <= k < names@.len() ==> (#[trigger] names@[k])@ == path@[from + k]@,
        decreases path@.len() - i,
    {
        names.push(path[i].clone());
        i += 1;
    }
    names.push(name.to_owned());
    assert(texts_view(names@) =~= texts_view(path@).skip(from as int).push(name@));
    NamePath { names }
}

/// Searches on from `node`, to which `path` led.
fn follow(
    routes: &Vec<RouteRuleRow>,
    corrs: &Vec<CorrelationRuleDto>,
    node: &str,
    path: &mut Vec<String>,
    done: &mut Vec<String>,
    found: &mut Vec<NamePath>,
    Ghost(nodes): Ghost<Seq<Seq<char>>>,
)
    requires
        search_ok(
            rule_edges(rows_view(routes@), rows_view(corrs@)),
            nodes,
            texts_view(old(path)@),
            search_view(old(done)@, old(found)@),
        ),
        nodes.contains(node@),
        !texts_view(old(path)@).contains(node@),
        !texts_view(old(done)@).contains(node@),
        old(path)@.len() > 0 ==> rule_edges(rows_view(routes@), rows_view(corrs@))(
            texts_view(old(path)@).last(),
        ).contains(node@),
    ensures
        texts_view(final(path)@) == texts_view(old(path)@),
        search_view(final(done)@, final(found)@) == visit(
            rule_edges(rows_view(routes@), rows_view(corrs@)),
            nodes.len(),
            texts_view(old(path)@),
            node@,
            search_view(old(done)@, old(found)@),
        ),
    decreases nodes.len() - old(path)@.len(),
{
    let ghost adj = rule_edges(rows_view(routes@), rows_view(corrs@));
    let ghost limit = nodes.len();
    let ghost short = texts_view(path@);
    let ghost start = search_view(done@, found@);
    proof {
        lemma_visit(adj, nodes, short, node@, start);
    }
    path.push(node.to_owned());
    let ghost long = short.push(node@);
    assert(texts_view(path@) =~= long);
    let next: Vec<String> = edges_from(routes, corrs, node);
    let mut k: usize = 0;
    while k < next.len()
        invariant
            k <= next@.len(),
            adj == rule_edges(rows_view(routes@), rows_view(corrs@)),
            limit == nodes.len(),
            long == short.push(node@),
            texts_view(path@) == long,
            path@.len() == old(path)@.len() + 1,
            short.len() == old(path)@.len(),
            short.len() < nodes.len(),
            texts_view(next@) == adj(long.last()),
            search_ok(adj, nodes, long, search_view(done@, found@)),
            visit_edges(adj, limit, long, 0, start) == visit_edges(
                adj,
                limit,
                long,
                k as int,
                search_view(done@, found@),
            ),
        decreases next@.len() - k,
    {
        let ghost here = search_view(done@, found@);
        let ghost m = next@[k as int]@;
        assert(adj(long.last())[k as int] == m);
        assert(adj(long.last()).contains(m));
        proof {
            assert(long[long.len() - 1] == long.last());
            assert(nodes.contains(long[long.len() - 1]));
            assert(nodes.contains(adj(long.last())[k as int]));
            lemma_step(adj, nodes, long, m, here);
        }
        match position_in(path, next[k].as_str()) {
            Some(at) => {
                assert(long[at as int] == m);
                assert(long.contains(m));
                assert(long.index_of(m) == at);
                found.push(closed_path(path, at, next[k].as_str()));
                assert(rows_view(found@) =~= here.found.push(long.skip(long.index_of(m)).push(m)));
            },
            None => {
                if !is_one_of(done.as_slice(), next[k].as_str()) {
                    assert(!here.done.contains(m)) by {
                        if here.done.contains(m) {
                            let p = choose|p: int| 0 <= p < here.done.len() && here.done[p] == m;
                            assert(done@[p]@ == m);
                        }
                    }
                    follow(routes, corrs, next[k].as_str(), path, done, found, Ghost(nodes));
                } else {
                    let ghost p = choose|p: int| 0 <= p < done@.len() && (#[trigger] done@[p])@ == m;
                    assert(here.done[p] == m);
                }
            },
        }
        k += 1;
    }
    let ghost before = texts_view(done@);
    done.push(node.to_owned());
    assert(texts_view(done@) =~= before.push(node@));
    let ghost full = path@;
    path.pop();
    assert forall|i: int| 0 <= i < short.len() implies texts_view(path@)[i] == #[trigger] short[i] by {
        assert(texts_view(full)[i] == long[i]);
    }
    assert(texts_view(path@) =~= short);
}

/// The circles in which routes and suppression rules that are on feed each other, in order.
pub fn detect_route_cycles(store: &Storage) -> (r: Vec<CycleReport>)
    ensures
        rows_view(r@) == cycle_reports(routes_on(*store), correlations_on(*store)),
{
    let routes: Vec<RouteRuleRow> = list_enabled_routes(store);
    let corrs: Vec<CorrelationRuleDto> = load_enabled_correlation_rules(store);
    let ghost rs = rows_view(routes@);
    let ghost cs = rows_view(corrs@);
    let ghost adj = rule_edges(rs, cs);
    let names: Vec<String> = all_names(&routes, &corrs);
    let ghost nodes = texts_view(names@);
    proof {
        lemma_rule_edges(rs, cs);
    }
    let mut path: Vec<String> = Vec::new();
    let mut done: Vec<String> = Vec::new();
    let mut found: Vec<NamePath> = Vec::new();
    let mut i: usize = 0;
    assert(texts_view(path@) =~= Seq::<Seq<char>>::empty());
    assert(texts_view(done@) =~= Seq::<Seq<char>>::empty());
    assert(rows_view(found@) =~= Seq::<Seq<Seq<char>>>::empty());
    while i < names.len()
        invariant
            i <= names@.len(),
            nodes == texts_view(names@),
            rs == rows_view(routes@),
            cs == rows_view(corrs@),
            adj == rule_edges(rs, cs),
            edges_inside(adj, nodes),
            texts_view(path@) == Seq::<Seq<char>>::empty(),
            search_view(done@, found@) == search_first(adj, nodes, i as nat),
        decreases names@.len() - i,
    {
        proof {
            lemma_search_first(adj, nodes, i as nat);
            assert(nodes[i as int] == names@[i as int]@);
            assert(nodes.contains(nodes[i as int]));
        }
        let ghost here = search_view(done@, found@);
        if !is_one_of(done.as_slice(), names[i].as_str()) {
            assert(!here.done.contains(nodes[i as int])) by {
                if here.done.contains(nodes[i as int]) {
                    let p = choose|p: int| 0 <= p < here.done.len() && here.done[p] == nodes[i as int];
                    assert(done@[p]@ == nodes[i as int]);
                }
            }
            follow(&routes, &corrs, names[i].as_str(), &mut path, &mut done, &mut found, Ghost(nodes));
        } else {
            let ghost p = choose|p: int| 0 <= p < done@.len() && (#[trigger] done@[p])@ == nodes[i as int];
            assert(here.done[p] == nodes[i as int]);
        }
        i += 1;
    }
    reports_on(&found)
}

/// Reports on circles, in order, each once.
fn reports_on(found: &Vec<NamePath>) -> (r: Vec<CycleReport>)
    ensures
        rows_view(r@).len() == ordered(rows_view(found@), texts_order()).len(),
        forall|i: int|
            0 <= i < r@.len() ==> (#[trigger] r@[i])@ == report_of(
                ordered(rows_view(found@), texts_order())[i],
            ),
{
    let ghost all = rows_view(found@);
    let ghost less = texts_order();
    let mut sorted: Vec<NamePath> = Vec::new();
    let mut i: usize = 0;
    assert(rows_view(sorted@) =~= ordered(all.take(0), less));
    while i < found.len()
        invariant
            i <= found@.len(),
            all == rows_view(found@),
            less == texts_order(),
            rows_view(sorted@) == ordered(all.take(i as int), less),
        decreases found@.len() - i,
    {
        assert(all.take(i + 1).drop_last() =~= all.take(i as int));
        assert(all.take(i + 1).last() == found@[i as int]@);
        let before = |a: &NamePath, b: &NamePath| -> (r: bool)
            ensures
                r == texts_order()(a@, b@),
        { path_before(a, b) };
        insert_ordered(&mut sorted, NamePath { names: copy_texts(&found[i].names) }, before, Ghost(less));
        i += 1;
    }
    assert(all.take(i as int) =~= all);
    let ghost want = rows_view(sorted@);
    let mut out: Vec<CycleReport> = Vec::new();
    let mut k: usize = 0;
    while k < sorted.len()
        invariant
            k <= sorted@.len(),
            want == rows_view(sorted@),
            out@.len() == k,
            forall|i: int| 0 <= i < k ==> (#[trigger] out@[i])@ == report_of(want[i]),
        decreases sorted@.len() - k,
    {
        let cycle: Vec<String> = copy_texts(&sorted[k].names);
        assert(want[k as int] == sorted@[k as int]@);
        let kind: CycleKind = if cycle.len() == 2 {
            CycleKind::SelfLoop
        } else {
            CycleKind::RouteToRoute
        };
        assert(texts_view(cycle@).len() == cycle@.len());
        out.push(CycleReport { cycle, kind });
        k += 1;
    }
    out
}

fn path_before(a: &NamePath, b: &NamePath) -> (r: bool)
    ensures
        r == texts_order()(a@, b@),
{
    assert(rows_view(a.names@) =~= texts_view(a.names@));
    assert(rows_view(b.names@) =~= texts_view(b.names@));
    texts_before(&a.names, &b.names)
}

/// Every reported circle is one: each name in it leads to the next, the last is the first, and no
/// other name comes twice. A circle of one rule is reported as a loop, any other as a circle of routes.
pub proof fn reports_are_circles(routes: Seq<RouteRuleRowView>, corrs: Seq<CorrelationRuleDtoView>, i: int)
    requires
        0 <= i < cycle_reports(routes, corrs).len(),
    ensures
        is_simple_cycle(rule_edges(routes, corrs), cycle_reports(routes, corrs)[i].cycle),
        cycle_reports(routes, corrs)[i] == report_of(cycle_reports(routes, corrs)[i].cycle),
{
    let adj = rule_edges(routes, corrs);
    let nodes = rule_names(routes, corrs);
    let found = cycles_found(adj, nodes);
    lemma_rule_edges(routes, corrs);
    lemma_text_orders();
    ordering_keeps_each_value_once(found, texts_order());
    let c = circles(routes, corrs)[i];
    assert(circles(routes, corrs).contains(c));
    assert(found.contains(c));
    let k = choose|k: int| 0 <= k < found.len() && found[k] == c;
    what_is_found_is_a_cycle(adj, nodes, k);
}

/// Where rules feed each other in a circle, a circle is reported.
pub proof fn circles_do_not_go_unreported(
    routes: Seq<RouteRuleRowView>,
    corrs: Seq<CorrelationRuleDtoView>,
    w: Seq<Seq<char>>,
)
    requires
        is_cycle(rule_edges(routes, corrs), w),
    ensures
        cycle_reports(routes, corrs).len() > 0,
{
    let adj = rule_edges(routes, corrs);
    let nodes = rule_names(routes, corrs);
    let found = cycles_found(adj, nodes);
    lemma_rule_edges(routes, corrs);
    assert(adj(w[0]).contains(w[0int + 1]));
    assert(adj(w[0]).len() > 0);
    a_cycle_is_not_missed(adj, nodes, w);
    lemma_text_orders();
    ordering_keeps_each_value_once(found, texts_order());
    assert(found.contains(found[0]));
    assert(circles(routes, corrs).contains(found[0]));
}

/// A rule that leads to itself is reported as a loop.
pub proof fn loops_are_reported(
    routes: Seq<RouteRuleRowView>,
    corrs: Seq<CorrelationRuleDtoView>,
    name: Seq<char>,
)
    requires
        rule_edges(routes, corrs)(name).contains(name),
    ensures
        cycle_reports(routes, corrs).contains(
            CycleReportView { cycle: seq![name, name], kind: CycleKind::SelfLoop },
        ),
{
    let adj = rule_edges(routes, corrs);
    let nodes = rule_names(routes, corrs);
    let found = cycles_found(adj, nodes);
    lemma_rule_edges(routes, corrs);
    assert(adj(name).len() > 0);
    self_loop_is_found(adj, nodes, name);
    lemma_text_orders();
    ordering_keeps_each_value_once(found, texts_order());
    let all = circles(routes, corrs);
    assert(all.contains(seq![name, name]));
    let k = choose|k: int| 0 <= k < all.len() && all[k] == seq![name, name];
    assert(cycle_reports(routes, corrs)[k] == (CycleReportView {
        cycle: seq![name, name],
        kind: CycleKind::SelfLoop,
    }));
}

/// Reports come in the order of their circles, and no circle comes twice.
pub proof fn reports_come_in_order(
    routes: Seq<RouteRuleRowView>,
    corrs: Seq<CorrelationRuleDtoView>,
    i: int,
    j: int,
)
    requires
        0 <= i < j < cycle_reports(routes, corrs).len(),
    ensures
        texts_order()(cycle_reports(routes, corrs)[i].cycle, cycle_reports(routes, corrs)[j].cycle),
        cycle_reports(routes, corrs)[i].cycle != cycle_reports(routes, corrs)[j].cycle,
{
    let found = cycles_found(rule_edges(routes, corrs), rule_names(routes, corrs));
    lemma_text_orders();
    ordering_keeps_each_value_once(found, texts_order());
    assert(texts_order()(circles(routes, corrs)[i], circles(routes, corrs)[j]));
}

} // verus!
