//! What routes take, what is remembered of events, and how failed deliveries are tried again, said of
//! the operations and in no terms of how they come to their results.

use vstd::arithmetic::power2::{lemma2_to64, lemma_pow2_unfold, pow2};
use vstd::prelude::*;

use super::dispatch::Delivery;
use super::laws::{
    covers_kind, holds_now, lemma_holds_now, lemma_kind_fits, lemma_lists, lemma_same_test,
    lists,
};
use super::retry::{
    clear_resolved_failed_deliveries, compute_backoff_secs, doubled, due_deliveries, is_due,
    manual_retry_failed_delivery, prune_old_failed_deliveries, queue_failed, record_retry,
    RetryConfig,
};
use super::routes::{
    first_route, lemma_first_route, list_enabled_routes, match_route, payload_match, route_matches,
    routes_on, Comparison,
};
use super::rule_laws::lemma_kept_members;
use super::storage::Storage;
use super::store::{by_rank, kept, keys_distinct, lemma_position_of, position_of, rows_view};
use super::timeline::{
    push_seen_event, recent_events_snapshot, recently_seen, summarize, RecentEvents, RouteSeenEvent,
    RouteSeenEventView,
};
use super::types::{FailedDeliveryRow, FailedDeliveryRowView, RouteRuleRow, RouteRuleRowView};
use crate::json::{dot_parts, texts_view, walk_payload, Json, JsonView};
use crate::text::{contains_seq, occurs_at, starts_with_seq, trim_seq};

verus! {

/// Whether a text begins with another, and what follows it there.
pub open spec fn begins(s: Seq<char>, with: Seq<char>, rest: Seq<char>) -> bool {
    s == with + rest
}

proof fn lemma_begins(s: Seq<char>, with: Seq<char>, rest: Seq<char>)
    ensures
        begins(s, with, rest) == (starts_with_seq(s, with) && rest == s.skip(with.len() as int)),
{
    if begins(s, with, rest) {
        assert(s.subrange(0, with.len() as int) =~= with);
        assert(s.skip(with.len() as int) =~= rest);
    }
    if starts_with_seq(s, with) && rest == s.skip(with.len() as int) {
        assert(s.subrange(0, with.len() as int) =~= with);
        assert(s =~= with + rest);
    }
}

/// A test on a number holds as its sign says: `>=` and `<=` where the number is at least or at most the
/// other, `>` and `<` where it is above or below, `==` and `=` where they are the same. A value that is
/// no number passes none of them but `=` with its own text.
pub proof fn signs_compare_numbers(
    payload: &Json,
    path: &str,
    expr: &str,
    numbers: Option<Comparison>,
    v: JsonView,
    rest: Seq<char>,
    r: bool,
)
    requires
        call_ensures(payload_match, (payload, path, expr, numbers), r),
        walk_payload(payload@, dot_parts(path@)) == Some(v),
    ensures
        ({
            let test = trim_seq(expr@);
            let known = (v is Number || v is Text) && numbers is Some;
            &&& begins(test, ">="@, rest) ==> r == (known && numbers->0.at_least)
            &&& begins(test, "<="@, rest) ==> r == (known && numbers->0.at_most)
            &&& begins(test, "=="@, rest) ==> r == (known && numbers->0.near)
            &&& begins(test, ">"@, rest) && (rest.len() == 0 || rest[0] != '=') ==> r == (known
                && numbers->0.above)
            &&& begins(test, "<"@, rest) && (rest.len() == 0 || rest[0] != '=') ==> r == (known
                && numbers->0.below)
            &&& begins(test, "="@, rest) && (rest.len() == 0 || rest[0] != '=') ==> r == (if known {
                numbers->0.near
            } else {
                v == JsonView::Text(trim_seq(rest))
            })
        }),
{
    let test = trim_seq(expr@);
    reveal_strlit(">=");
    reveal_strlit("<=");
    reveal_strlit("==");
    reveal_strlit(">");
    reveal_strlit("<");
    reveal_strlit("=");
    lemma_begins(test, ">="@, rest);
    lemma_begins(test, "<="@, rest);
    lemma_begins(test, "=="@, rest);
    lemma_begins(test, ">"@, rest);
    lemma_begins(test, "<"@, rest);
    lemma_begins(test, "="@, rest);
    if test.len() > 0 {
        assert(test.subrange(0, 1)[0] == test[0]);
        assert(starts_with_seq(test, ">"@) == (test[0] == '>')) by {
            if test[0] == '>' {
                assert(test.subrange(0, 1) =~= ">"@);
            }
        }
        assert(starts_with_seq(test, "<"@) == (test[0] == '<')) by {
            if test[0] == '<' {
                assert(test.subrange(0, 1) =~= "<"@);
            }
        }
        assert(starts_with_seq(test, "="@) == (test[0] == '=')) by {
            if test[0] == '=' {
                assert(test.subrange(0, 1) =~= "="@);
            }
        }
    }
    if test.len() > 1 {
        assert(test.subrange(0, 2)[0] == test[0] && test.subrange(0, 2)[1] == test[1]);
        assert(starts_with_seq(test, ">="@) == (test[0] == '>' && test[1] == '=')) by {
            if test[0] == '>' && test[1] == '=' {
                assert(test.subrange(0, 2) =~= ">="@);
            }
        }
        assert(starts_with_seq(test, "<="@) == (test[0] == '<' && test[1] == '=')) by {
            if test[0] == '<' && test[1] == '=' {
                assert(test.subrange(0, 2) =~= "<="@);
            }
        }
        assert(starts_with_seq(test, "=="@) == (test[0] == '=' && test[1] == '=')) by {
            if test[0] == '=' && test[1] == '=' {
                assert(test.subrange(0, 2) =~= "=="@);
            }
        }
    }
}

/// A test without a sign asks that a text begin with, hold or be the text that is given, and that a
/// number be the same as the other.
pub proof fn tests_without_a_sign_compare_texts(
    payload: &Json,
    path: &str,
    expr: &str,
    numbers: Option<Comparison>,
    v: JsonView,
    rest: Seq<char>,
    r: bool,
)
    requires
        call_ensures(payload_match, (payload, path, expr, numbers), r),
        walk_payload(payload@, dot_parts(path@)) == Some(v),
    ensures
        ({
            let test = trim_seq(expr@);
            &&& begins(test, "prefix:"@, rest) ==> r == (v is Text && exists|more: Seq<char>|
                v->Text_0 == #[trigger] (rest + more))
            &&& begins(test, "contains:"@, rest) ==> r == (v is Text && exists|
                before: Seq<char>,
                behind: Seq<char>,
            |
                v->Text_0 == #[trigger] (before + rest + behind))
            &&& test.len() > 0 && test[0] != '>' && test[0] != '<' && test[0] != '=' && !starts_with_seq(
                test,
                "prefix:"@,
            ) && !starts_with_seq(test, "contains:"@) && v is Text ==> r == (v->Text_0 == test)
        }),
{
    let test = trim_seq(expr@);
    reveal_strlit(">=");
    reveal_strlit("<=");
    reveal_strlit("==");
    reveal_strlit(">");
    reveal_strlit("<");
    reveal_strlit("=");
    reveal_strlit("prefix:");
    reveal_strlit("contains:");
    lemma_begins(test, "prefix:"@, rest);
    lemma_begins(test, "contains:"@, rest);
    if test.len() > 0 {
        assert forall|sign: Seq<char>|
            sign.len() > 0 && #[trigger] starts_with_seq(test, sign) implies test[0] == sign[0] by {
            assert(test.subrange(0, sign.len() as int)[0] == test[0]);
        }
        assert(">="@[0] == '>' && "<="@[0] == '<' && "=="@[0] == '=' && ">"@[0] == '>' && "<"@[0] == '<'
            && "="@[0] == '=');
        assert("prefix:"@[0] == 'p' && "contains:"@[0] == 'c');
    }
    if v is Text {
        let t = v->Text_0;
        if starts_with_seq(t, rest) {
            assert(t.subrange(0, rest.len() as int) =~= rest);
            assert(t =~= rest + t.skip(rest.len() as int));
        }
        assert forall|more: Seq<char>| t == #[trigger] (rest + more) implies starts_with_seq(t, rest) by {
            assert(t.subrange(0, rest.len() as int) =~= rest);
        }
        if contains_seq(t, rest) {
            let i = choose|i: int| occurs_at(t, rest, i);
            assert(t =~= t.take(i) + rest + t.skip(i + rest.len()));
        }
        assert forall|before: Seq<char>, behind: Seq<char>| t == #[trigger] (before + rest + behind) implies contains_seq(
            t,
            rest,
        ) by {
            assert(t.subrange(before.len() as int, (before.len() + rest.len()) as int) =~= rest);
            assert(occurs_at(t, rest, before.len() as int));
        }
    }
}

/// A path that leads to nothing in the payload lets no test pass.
pub proof fn missing_values_pass_no_test(
    payload: &Json,
    path: &str,
    expr: &str,
    numbers: Option<Comparison>,
    r: bool,
)
    requires
        call_ensures(payload_match, (payload, path, expr, numbers), r),
        walk_payload(payload@, dot_parts(path@)) is None,
    ensures
        !r,
{
}

/// A route takes an event where the route is on, its pattern covers the kind of the event, its test on
/// the payload passes, where it has one, and the event that it looks for was seen lately, where it
/// looks for one.
pub proof fn routes_take_what_they_ask_for(
    rule: &RouteRuleRow,
    kind: &str,
    payload: &Json,
    numbers: Option<Comparison>,
    recent: &RecentEvents,
    now: u64,
    path: &str,
    expr: &str,
    passes: bool,
    pattern: &str,
    seen: bool,
    r: bool,
)
    requires
        call_ensures(route_matches, (rule, kind, payload, numbers, recent, now), r),
        rule@.payload_path is Some ==> path@ == rule@.payload_path->0,
        rule@.payload_match is Some ==> expr@ == rule@.payload_match->0,
        call_ensures(payload_match, (payload, path, expr, numbers), passes),
        rule@.seen_in_last is Some ==> pattern@ == rule@.seen_in_last->0.pattern && call_ensures(
            recently_seen,
            (recent, pattern, rule@.seen_in_last->0.window_secs, now),
            seen,
        ),
    ensures
        r == (rule@.enabled && covers_kind(rule@.kind_pattern, kind@) && (rule@.payload_path is Some
            && rule@.payload_match is Some ==> passes) && (rule@.seen_in_last is Some ==> seen)),
{
    lemma_kind_fits(rule@.kind_pattern, kind@);
}

/// The routes that are on are listed by their priority, the lowest number first.
pub proof fn routes_that_are_on(store: &Storage, r: Vec<RouteRuleRow>)
    requires
        call_ensures(list_enabled_routes, (store,), r),
    ensures
        lists(
            rows_view(r@),
            store.routes@,
            |row: RouteRuleRowView| row.enabled,
            |row: RouteRuleRowView| row.priority as int,
        ),
{
    lemma_lists::<RouteRuleRow>(
        store.routes@,
        |row: RouteRuleRowView| row.enabled,
        |row: RouteRuleRowView| row.priority as int,
    );
}

/// Of the routes that are on, by priority, the first that takes an event gets it.
pub proof fn the_first_route_gets_the_event(
    store: &Storage,
    kind: &str,
    payload: &Json,
    numbers: &Vec<Option<Comparison>>,
    recent: &RecentEvents,
    now: u64,
    on: Vec<RouteRuleRow>,
    i: int,
    taken: bool,
    r: Option<RouteRuleRow>,
)
    requires
        call_ensures(match_route, (store, kind, payload, numbers, recent, now), r),
        call_ensures(list_enabled_routes, (store,), on),
        0 <= i < on@.len(),
        i < numbers@.len(),
        call_ensures(route_matches, (&on@[i], kind, payload, numbers@[i], recent, now), taken),
    ensures
        taken ==> r is Some && r->0@.priority <= on@[i]@.priority,
        r is None ==> !taken,
        r is Some ==> exists|k: int| 0 <= k < on@.len() && (#[trigger] on@[k])@ == r->0@ && (taken ==> k <= i),
{
    let routes = routes_on(*store);
    assert(rows_view(on@) == routes);
    assert(routes[i] == on@[i]@);
    lemma_first_route(routes, kind@, payload@, numbers@, recent@, now, 0);
    lemma_lists::<RouteRuleRow>(
        store.routes@,
        |row: RouteRuleRowView| row.enabled,
        |row: RouteRuleRowView| row.priority as int,
    );
    if let Some(k) = first_route(routes, kind@, payload@, numbers@, recent@, now, 0) {
        assert(routes[k] == on@[k]@);
        if taken {
            assert(k <= i);
            let number = |row: RouteRuleRowView| row.priority as int;
            assert(number(routes[k]) <= number(routes[i]));
        }
    }
}

/// An event was seen lately exactly where one whose source the pattern covers is remembered from no
/// longer ago than the window; an empty window or pattern sees nothing.
pub proof fn windows_see_what_is_remembered(
    recent: &RecentEvents,
    pattern: &str,
    window_secs: u64,
    now: u64,
    r: bool,
)
    requires
        call_ensures(recently_seen, (recent, pattern, window_secs, now), r),
    ensures
        r == (window_secs > 0 && pattern@.len() > 0 && exists|i: int|
            0 <= i < recent@.len() && now - (#[trigger] recent@[i]).ts_secs <= window_secs && covers_kind(
                pattern@,
                recent@[i].source,
            )),
{
    assert forall|i: int| 0 <= i < recent@.len() implies super::util::kind_fits(
        pattern@,
        (#[trigger] recent@[i]).source,
    ) == covers_kind(pattern@, recent@[i].source) by {
        lemma_kind_fits(pattern@, recent@[i].source);
    }
}

/// The last 256 events are remembered, each with at most 64 characters of its payload; the newest
/// comes behind the others and, once there is no room, in place of the oldest.
pub proof fn the_latest_events_are_remembered(
    recent: &mut RecentEvents,
    id: String,
    source: &str,
    payload_summary: &str,
    ts_secs: u64,
    routes_fired: Vec<String>,
    correlations_hit: Vec<String>,
    summary: String,
)
    requires
        call_ensures(
            push_seen_event,
            (recent, id, source, payload_summary, ts_secs, routes_fired, correlations_hit),
            (),
        ),
        call_ensures(summarize, (payload_summary,), summary),
    ensures
        final(recent)@.len() == if old(recent)@.len() >= 256 {
            old(recent)@.len()
        } else {
            old(recent)@.len() + 1
        },
        final(recent)@.last() == (RouteSeenEventView {
            id: id@,
            source: source@,
            payload_summary: summary@,
            ts_secs,
            routes_fired: texts_view(routes_fired@),
            correlations_hit: texts_view(correlations_hit@),
        }),
        forall|i: int|
            1 <= i < final(recent)@.len() ==> final(recent)@[final(recent)@.len() - 1 - i] == #[trigger] old(
                recent,
            )@[old(recent)@.len() - i],
        payload_summary@.len() <= 64 ==> summary@ == payload_summary@,
        payload_summary@.len() > 64 ==> summary@.len() == 64 && forall|i: int|
            0 <= i < 64 ==> #[trigger] summary@[i] == payload_summary@[i],
{
}

/// A look at what is remembered gives the newest events first, as many as are asked for and there.
pub proof fn the_newest_events_come_first(recent: &RecentEvents, limit: usize, r: Vec<RouteSeenEvent>)
    requires
        call_ensures(recent_events_snapshot, (recent, limit), r),
    ensures
        r@.len() == if limit <= recent@.len() {
            limit as int
        } else {
            recent@.len() as int
        },
        forall|i: int| 0 <= i < r@.len() ==> (#[trigger] r@[i])@ == recent@[recent@.len() - 1 - i],
{
    assert(rows_view(r@).len() == r@.len());
    assert forall|i: int| 0 <= i < r@.len() implies (#[trigger] r@[i])@ == recent@[recent@.len() - 1 - i] by {
        assert(rows_view(r@)[i] == r@[i]@);
    }
}

proof fn lemma_doubled(n: nat, k: nat)
    ensures
        doubled(n, k) == n * pow2(k),
    decreases k,
{
    if k == 0 {
        lemma2_to64();
        assert(n * 1 == n) by (nonlinear_arith);
    } else {
        lemma_doubled(n, (k - 1) as nat);
        lemma_pow2_unfold(k);
        let p = pow2((k - 1) as nat);
        assert(2 * (n * p) == n * (2 * p)) by (nonlinear_arith);
    }
}

/// The wait after an attempt is the first interval, twice as long with each further attempt, up to the
/// longest one.
pub proof fn waits_double_up_to_the_longest(attempts: u32, cfg: &RetryConfig, r: u64)
    requires
        call_ensures(compute_backoff_secs, (attempts, cfg), r),
    ensures
        attempts <= 1 && cfg.initial_backoff_secs <= cfg.max_backoff_secs ==> r
            == cfg.initial_backoff_secs,
        attempts >= 1 && cfg.initial_backoff_secs > 0 ==> {
            let wait = cfg.initial_backoff_secs as int * pow2((attempts - 1) as nat);
            r == if wait < cfg.max_backoff_secs {
                wait
            } else {
                cfg.max_backoff_secs as int
            }
        },
        cfg.initial_backoff_secs == 0 ==> r == 0,
{
    if attempts >= 1 {
        lemma_doubled(cfg.initial_backoff_secs as nat, (attempts - 1) as nat);
    }
    lemma2_to64();
}

/// What names a kept delivery.
pub open spec fn delivery_key() -> spec_fn(FailedDeliveryRowView) -> Seq<char> {
    |v: FailedDeliveryRowView| v.id
}

/// The sum of a time and some seconds, or the last time there is.
pub open spec fn in_secs(now: u64, secs: int) -> int {
    if now + secs > u64::MAX {
        u64::MAX as int
    } else {
        now + secs
    }
}

/// A delivery that failed is kept with what is to be sent again, its address and its endpoint; it
/// counts as tried once, and is due after the first interval.
pub proof fn failed_deliveries_are_kept(
    store: &mut Storage,
    delivery: &Delivery,
    id: &str,
    source: &str,
    error: &str,
    cfg: &RetryConfig,
    now: u64,
)
    requires
        call_ensures(queue_failed, (store, delivery, id, source, error, cfg, now), ()),
        keys_distinct::<FailedDeliveryRow>(old(store).deliveries@),
    ensures
        exists|row: FailedDeliveryRowView|
            {
                &&& #[trigger] holds_now(
                    old(store).deliveries@,
                    final(store).deliveries@,
                    row,
                    delivery_key(),
                )
                &&& row.id == id@
                &&& row.source == source@
                &&& row.url == delivery@.url
                &&& row.payload == delivery@.queued
                &&& row.endpoint_id == delivery@.endpoint_id
                &&& row.attempts == 1
                &&& row.max_attempts == cfg.max_attempts
                &&& row.next_retry_ts == in_secs(now, cfg.initial_backoff_secs as int)
                &&& row.state == "pending"@
                &&& row.last_error == error@
                &&& row.created_at == now
            },
{
    let row = super::retry::failed_row(
        id@,
        source@,
        delivery@.url,
        delivery@.queued,
        now,
        cfg.max_attempts,
        super::retry::capped_sum(now, cfg.initial_backoff_secs as int),
        error@,
        delivery@.endpoint_id,
    );
    lemma_holds_now::<FailedDeliveryRow>(old(store).deliveries@, row, delivery_key());
}

/// A delivery that was sent at last is done with. One that failed again has one more attempt behind it:
/// with the last one it is given up, else it is due after the wait for so many attempts, and stays as
/// it was otherwise.
pub proof fn retries_are_counted_until_given_up(
    store: &mut Storage,
    id: &str,
    error: Option<&str>,
    cfg: &RetryConfig,
    now: u64,
    row: FailedDeliveryRowView,
    wait: u64,
)
    requires
        call_ensures(record_retry, (store, id, error, cfg, now), ()),
        keys_distinct::<FailedDeliveryRow>(old(store).deliveries@),
        old(store).deliveries@.contains(row),
        row.id == id@,
        row.attempts < u32::MAX,
        call_ensures(compute_backoff_secs, ((row.attempts + 1) as u32, cfg), wait),
    ensures
        exists|after: FailedDeliveryRowView|
            {
                let last = row.attempts + 1 >= row.max_attempts;
                &&& #[trigger] holds_now(
                    old(store).deliveries@,
                    final(store).deliveries@,
                    after,
                    delivery_key(),
                )
                &&& after.id == id@
                &&& after.payload == row.payload && after.url == row.url && after.source == row.source
                &&& after.endpoint_id == row.endpoint_id && after.created_at == row.created_at
                &&& after.updated_at == now
                &&& error is None ==> after.state == "resolved"@ && after.attempts == row.attempts
                &&& error is Some ==> after.attempts == row.attempts + 1 && after.last_error == error->0@
                &&& error is Some && last ==> after.state == "exhausted"@
                &&& error is Some && !last && now + wait > 0 ==> after.next_retry_ts == in_secs(now, wait as int)
                    && after.state == row.state
            },
{
    let rows = old(store).deliveries@;
    lemma_position_of::<FailedDeliveryRow>(rows, id@);
    let p = choose|p: int| 0 <= p < rows.len() && rows[p] == row;
    let q = position_of::<FailedDeliveryRow>(rows, id@)->0;
    if p != q {
        assert(q < p);
        assert(rows[q].id != rows[p].id);
    }
    let after = super::retry::after_retry(
        row,
        match error {
            Some(e) => Some(e@),
            None => None,
        },
        *cfg,
        now,
    );
    lemma_holds_now::<FailedDeliveryRow>(rows, after, delivery_key());
    assert(holds_now(rows, final(store).deliveries@, after, delivery_key()));
}

/// Which deliveries wait to be tried and have come to their time.
pub open spec fn waits_since(now: u64) -> spec_fn(FailedDeliveryRowView) -> bool {
    |v: FailedDeliveryRowView| v.state == "pending"@ && v.next_retry_ts <= now
}

/// When a delivery was kept.
pub open spec fn came_at() -> spec_fn(FailedDeliveryRowView) -> int {
    |v: FailedDeliveryRowView| v.created_at as int
}

/// What is due are deliveries that wait to be tried and whose time has come, the oldest first, as many
/// as are asked for; where fewer come, they are all.
pub proof fn due_deliveries_wait_and_their_time_has_come(
    store: &Storage,
    now: u64,
    limit: usize,
    r: Vec<FailedDeliveryRow>,
)
    requires
        call_ensures(due_deliveries, (store, now, limit), r),
    ensures
        exists|all: Seq<FailedDeliveryRowView>|
            {
                &&& #[trigger] lists(all, store.deliveries@, waits_since(now), came_at())
                &&& r@.len() == if all.len() <= limit {
                    all.len() as int
                } else {
                    limit as int
                }
                &&& forall|i: int| 0 <= i < r@.len() ==> (#[trigger] r@[i])@ == all[i]
            },
{
    let rows = by_rank::<FailedDeliveryRow>(store.deliveries@);
    let all = kept(rows, |v: FailedDeliveryRowView| is_due(v, now));
    lemma_lists::<FailedDeliveryRow>(store.deliveries@, waits_since(now), came_at());
    lemma_same_test(rows, waits_since(now), |v: FailedDeliveryRowView| is_due(v, now));
    assert(lists(all, store.deliveries@, waits_since(now), came_at()));
    assert(rows_view(r@).len() == r@.len());
    assert forall|i: int| 0 <= i < r@.len() implies (#[trigger] r@[i])@ == all[i] by {
        assert(rows_view(r@)[i] == r@[i]@);
    }
}

/// Setting a delivery back makes it wait to be tried now, as if it had never been tried; all else of
/// it stays.
pub proof fn set_back_deliveries_start_anew(
    store: &mut Storage,
    id: &str,
    now: u64,
    row: FailedDeliveryRowView,
    r: bool,
)
    requires
        call_ensures(manual_retry_failed_delivery, (store, id, now), r),
        keys_distinct::<FailedDeliveryRow>(old(store).deliveries@),
        old(store).deliveries@.contains(row),
        row.id == id@,
    ensures
        exists|after: FailedDeliveryRowView|
            {
                &&& #[trigger] holds_now(
                    old(store).deliveries@,
                    final(store).deliveries@,
                    after,
                    delivery_key(),
                )
                &&& after.id == id@ && after.attempts == 0 && after.state == "pending"@
                &&& after.next_retry_ts == now
                &&& after.payload == row.payload && after.url == row.url && after.source == row.source
                &&& after.endpoint_id == row.endpoint_id && after.max_attempts == row.max_attempts
            },
{
    let rows = old(store).deliveries@;
    lemma_position_of::<FailedDeliveryRow>(rows, id@);
    let p = choose|p: int| 0 <= p < rows.len() && rows[p] == row;
    let q = position_of::<FailedDeliveryRow>(rows, id@)->0;
    if p != q {
        assert(q < p);
        assert(rows[q].id != rows[p].id);
    }
    let after = FailedDeliveryRowView {
        attempts: 0,
        state: "pending"@,
        next_retry_ts: now,
        updated_at: now,
        ..row
    };
    lemma_holds_now::<FailedDeliveryRow>(rows, after, delivery_key());
    assert(holds_now(rows, final(store).deliveries@, after, delivery_key()));
}

/// Deliveries are kept for as many days as the configuration says, and no longer.
pub proof fn old_deliveries_are_let_go(
    store: &mut Storage,
    cfg: &RetryConfig,
    now: u64,
    v: FailedDeliveryRowView,
)
    requires
        call_ensures(prune_old_failed_deliveries, (store, cfg, now), ()),
    ensures
        final(store).deliveries@.contains(v) == (old(store).deliveries@.contains(v) && now - v.created_at
            <= cfg.retention_days * 86400),
{
    lemma_kept_members(
        old(store).deliveries@,
        |w: FailedDeliveryRowView| super::retry::within_days(w, now, cfg.retention_days),
    );
    assert(final(store).deliveries@.contains(v) == kept(
        old(store).deliveries@,
        |w: FailedDeliveryRowView| super::retry::within_days(w, now, cfg.retention_days),
    ).contains(v));
}

/// Clearing takes away exactly the deliveries that were sent or given up.
pub proof fn finished_deliveries_are_cleared(store: &mut Storage, r: usize, v: FailedDeliveryRowView)
    requires
        call_ensures(clear_resolved_failed_deliveries, (store,), r),
    ensures
        final(store).deliveries@.contains(v) == (old(store).deliveries@.contains(v) && v.state
            != "resolved"@ && v.state != "exhausted"@),
        r == old(store).deliveries@.len() - final(store).deliveries@.len(),
{
    lemma_kept_members(
        old(store).deliveries@,
        |w: FailedDeliveryRowView| !super::retry::is_over(w),
    );
    assert(final(store).deliveries@.contains(v) == kept(
        old(store).deliveries@,
        |w: FailedDeliveryRowView| !super::retry::is_over(w),
    ).contains(v));
}

} // verus!
