//! Routes: which endpoints an event goes to.

use vstd::prelude::*;

use super::ids::{counted_on, gen_time_id, time_id};
use super::rows::{route_of, route_row_to_dto};
use super::storage::Storage;
use super::store::{
    by_rank, copy_kept, kept, keys_distinct, lemma_by_rank_of_sorted, lemma_kept_sorted,
    lemma_listing_keys, lemma_position_of, listing_is_sorted_and_complete, position_of, row_with,
    rows_view, with_row, without_row,
};
use super::timeline::{recently_seen, seen_lately, RecentEvents, RouteSeenEventView};
use super::types::{
    RouteRule, RouteRuleRow, RouteRuleRowView, RouteRuleView, RouteRuleYamlDoc, SeenInLastSpecView,
};
use super::util::{kind_fits, kind_matches};
use crate::json::{
    dot_parts, json_read, parse_json, payload_path_get, texts_view, walk_payload, Json, JsonView,
};
use crate::text::{
    byte_count, byte_len, complaint, contains, contains_seq, is_blank,
    is_blank_seq, join, same, starts_with, starts_with_seq, trim, trim_seq,
};

verus! {

/// Whether one of `list` is empty or longer than `max` bytes.
pub open spec fn any_ill_sized(list: Seq<Seq<char>>, max: nat) -> bool {
    exists|i: int|
        0 <= i < list.len() && ((#[trigger] list[i]).len() == 0 || byte_count(list[i]) > max)
}

/// What is wrong with a look back in time.
pub open spec fn seen_in_last_complaint(look: SeenInLastSpecView) -> Option<Seq<char>> {
    if is_blank_seq(look.pattern) {
        Some("seen_in_last.pattern is required"@)
    } else if byte_count(look.pattern) > 256 {
        Some("seen_in_last.pattern too long (max 256 chars)"@)
    } else if look.window_secs == 0 {
        Some("seen_in_last.window_secs must be > 0"@)
    } else if look.window_secs > 3600 {
        Some("seen_in_last.window_secs too long (max 3600)"@)
    } else {
        None
    }
}

/// What is wrong with a route.
pub open spec fn route_complaint(r: RouteRuleView) -> Option<Seq<char>> {
    if is_blank_seq(r.name) {
        Some("route name is required"@)
    } else if byte_count(r.name) > 128 {
        Some("route name too long (max 128 chars)"@)
    } else if r.kind_pattern.len() == 0 {
        Some("kind_pattern is required (use '*' for all)"@)
    } else if byte_count(r.kind_pattern) > 256 {
        Some("kind_pattern too long (max 256 chars)"@)
    } else if r.target_endpoint_ids.len() == 0 && r.recipients.len() == 0 {
        Some("route must have either target_endpoint_ids or recipients"@)
    } else if r.target_endpoint_ids.len() > 32 {
        Some("target_endpoint_ids too many (max 32)"@)
    } else if r.recipients.len() > 32 {
        Some("recipients too many (max 32)"@)
    } else if any_ill_sized(r.target_endpoint_ids, 128) {
        Some("target_endpoint_id invalid (empty or > 128 chars)"@)
    } else if r.priority < -1000 || r.priority > 10000 {
        Some("priority must be in -1000..=10000"@)
    } else if r.payload_path is Some && (r.payload_path->0.len() == 0 || byte_count(r.payload_path->0) > 256) {
        Some("payload_path invalid (empty or > 256 chars)"@)
    } else if r.payload_match is Some && byte_count(r.payload_match->0) > 1024 {
        Some("payload_match too long (max 1024 chars)"@)
    } else if r.tags.len() > 32 {
        Some("tags too many (max 32)"@)
    } else if any_ill_sized(r.tags, 64) {
        Some("tag invalid (empty or > 64 chars)"@)
    } else {
        match r.seen_in_last {
            Some(look) => seen_in_last_complaint(look),
            None => None,
        }
    }
}

fn has_ill_sized(list: &Vec<String>, max: usize) -> (r: bool)
    ensures
        r == any_ill_sized(texts_view(list@), max as nat),
{
    let ghost all = texts_view(list@);
    let mut i: usize = 0;
    while i < list.len()
        invariant
            i <= list@.len(),
            all == texts_view(list@),
            forall|j: int| 0 <= j < i ==> (#[trigger] all[j]).len() != 0 && byte_count(all[j]) <= max,
        decreases list@.len() - i,
    {
        assert(all[i as int] == list@[i as int]@);
        if list[i].as_str().is_empty() || byte_len(list[i].as_str()) > max {
            return true;
        }
        i += 1;
    }
    false
}

/// Checks a route.
pub fn validate_route(r: &RouteRule) -> (result: Result<(), String>)
    ensures
        complaint(result) == route_complaint(r@),
{
    if is_blank(r.name.as_str()) {
        return Err("route name is required".to_owned());
    }
    if byte_len(r.name.as_str()) > 128 {
        return Err("route name too long (max 128 chars)".to_owned());
    }
    if r.kind_pattern.as_str().is_empty() {
        return Err("kind_pattern is required (use '*' for all)".to_owned());
    }
    if byte_len(r.kind_pattern.as_str()) > 256 {
        return Err("kind_pattern too long (max 256 chars)".to_owned());
    }
    if r.target_endpoint_ids.len() == 0 && r.recipients.len() == 0 {
        return Err("route must have either target_endpoint_ids or recipients".to_owned());
    }
    if r.target_endpoint_ids.len() > 32 {
        return Err("target_endpoint_ids too many (max 32)".to_owned());
    }
    if r.recipients.len() > 32 {
        return Err("recipients too many (max 32)".to_owned());
    }
    if has_ill_sized(&r.target_endpoint_ids, 128) {
        return Err("target_endpoint_id invalid (empty or > 128 chars)".to_owned());
    }
    if r.priority < -1000 || r.priority > 10000 {
        return Err("priority must be in -1000..=10000".to_owned());
    }
    if let Some(p) = &r.payload_path {
        if p.as_str().is_empty() || byte_len(p.as_str()) > 256 {
            return Err("payload_path invalid (empty or > 256 chars)".to_owned());
        }
    }
    if let Some(m) = &r.payload_match {
        if byte_len(m.as_str()) > 1024 {
            return Err("payload_match too long (max 1024 chars)".to_owned());
        }
    }
    if r.tags.len() > 32 {
        return Err("tags too many (max 32)".to_owned());
    }
    if has_ill_sized(&r.tags, 64) {
        return Err("tag invalid (empty or > 64 chars)".to_owned());
    }
    if let Some(look) = &r.seen_in_last {
        if is_blank(look.pattern.as_str()) {
            return Err("seen_in_last.pattern is required".to_owned());
        }
        if byte_len(look.pattern.as_str()) > 256 {
            return Err("seen_in_last.pattern too long (max 256 chars)".to_owned());
        }
        if look.window_secs == 0 {
            return Err("seen_in_last.window_secs must be > 0".to_owned());
        }
        if look.window_secs > 3600 {
            return Err("seen_in_last.window_secs too long (max 3600)".to_owned());
        }
    }
    Ok(())
}

/// A route id made of the time in nanoseconds and a counter.
pub open spec fn route_id(nanos: u64, n: u64) -> Seq<char> {
    time_id("rt-"@, nanos, n)
}

/// A route id made of the time in nanoseconds and a counter.
pub fn gen_route_id(nanos: u64, n: u64) -> (r: String)
    ensures
        r@ == route_id(nanos, n),
{
    gen_time_id("rt-", nanos, n)
}

/// All routes, by priority.
pub fn list_routes(store: &Storage) -> (r: Vec<RouteRuleRow>)
    ensures
        rows_view(r@) == by_rank::<RouteRuleRow>(store.routes@),
{
    store.routes.list()
}

/// The routes that are on, by priority.
pub open spec fn routes_on(store: Storage) -> Seq<RouteRuleRowView> {
    kept(by_rank::<RouteRuleRow>(store.routes@), |r: RouteRuleRowView| r.enabled)
}

/// The routes that are on, by priority.
pub fn list_enabled_routes(store: &Storage) -> (r: Vec<RouteRuleRow>)
    ensures
        rows_view(r@) == routes_on(*store),
{
    let ghost on = |v: RouteRuleRowView| v.enabled;
    let is_on = |row: &RouteRuleRow| -> (b: bool)
        ensures
            b == row@.enabled,
    { row.enabled };
    copy_kept(&store.routes.list(), is_on, Ghost(on))
}

/// A route as it is stored.
pub open spec fn route_row(rule: RouteRuleView, id: Seq<char>, created_at: u64) -> RouteRuleRowView {
    RouteRuleRowView {
        id,
        name: rule.name,
        priority: rule.priority,
        enabled: rule.enabled,
        kind_pattern: rule.kind_pattern,
        payload_path: rule.payload_path,
        payload_match: rule.payload_match,
        target_endpoint_ids: rule.target_endpoint_ids,
        recipients: rule.recipients,
        tags: rule.tags,
        seen_in_last: rule.seen_in_last,
        created_at,
    }
}

fn to_row(rule: RouteRule, id: String, created_at: u64) -> (r: RouteRuleRow)
    ensures
        r@ == route_row(rule@, id@, created_at),
{
    RouteRuleRow {
        id,
        name: rule.name,
        priority: rule.priority,
        enabled: rule.enabled,
        kind_pattern: rule.kind_pattern,
        payload_path: rule.payload_path,
        payload_match: rule.payload_match,
        target_endpoint_ids: rule.target_endpoint_ids,
        recipients: rule.recipients,
        tags: rule.tags,
        seen_in_last: rule.seen_in_last,
        created_at,
    }
}

/// `id`, or `fresh` where it is empty.
pub open spec fn id_or(id: Seq<char>, fresh: Seq<char>) -> Seq<char> {
    if id.len() == 0 {
        fresh
    } else {
        id
    }
}

/// When the route with this id was made: now, unless there is one.
pub open spec fn route_made_at(rows: Seq<RouteRuleRowView>, id: Seq<char>, now: u64) -> u64 {
    match row_with::<RouteRuleRow>(rows, id) {
        Some(row) => row.created_at,
        None => now,
    }
}

/// Stores a route, in the place of the one with its id. One without an id gets `fresh_id`; one that
/// takes the place of another keeps the time of its making.
pub fn save_route(store: &mut Storage, rule: RouteRule, fresh_id: &str, now: u64) -> (r: Result<
    RouteRuleRow,
    String,
>)
    ensures
        complaint(r) == route_complaint(rule@),
        *final(store) == (Storage { routes: final(store).routes, ..*old(store) }),
        match r {
            Ok(row) => {
                &&& row@ == route_row(
                    rule@,
                    id_or(rule@.id, fresh_id@),
                    route_made_at(old(store).routes@, id_or(rule@.id, fresh_id@), now),
                )
                &&& final(store).routes@ == with_row::<RouteRuleRow>(old(store).routes@, row@)
            },
            Err(_) => final(store).routes@ == old(store).routes@,
        },
{
    validate_route(&rule)?;
    let id: String = if rule.id.as_str().is_empty() {
        fresh_id.to_owned()
    } else {
        rule.id.clone()
    };
    let created_at: u64 = match store.routes.get(id.as_str()) {
        Some(row) => row.created_at,
        None => now,
    };
    let row: RouteRuleRow = to_row(rule, id, created_at);
    store.routes.put(row.clone());
    Ok(row)
}

/// Deletes a route; says whether there was one with this id.
pub fn delete_route(store: &mut Storage, id: &str) -> (r: bool)
    ensures
        *final(store) == (Storage { routes: final(store).routes, ..*old(store) }),
        final(store).routes@ == without_row::<RouteRuleRow>(old(store).routes@, id@),
        r == (row_with::<RouteRuleRow>(old(store).routes@, id@) is Some),
{
    store.routes.remove(id)
}

/// How two numbers compare. Where one of them is not a number at all, nothing holds.
#[derive(Debug, Clone, Copy, PartialEq, Eq, Structural)]
pub struct Comparison {
    pub at_least: bool,
    pub at_most: bool,
    pub above: bool,
    pub below: bool,
    /// They differ by less than the gap above one.
    pub near: bool,
}

/// The text that a value is read as a number from.
pub open spec fn number_text(v: JsonView) -> Option<Seq<char>> {
    match v {
        JsonView::Number(n) => Some(n),
        JsonView::Text(t) => Some(t),
        _ => None,
    }
}

/// What stands behind the sign of comparison that `expr` begins with.
pub open spec fn operand(expr: Seq<char>) -> Option<Seq<char>> {
    if starts_with_seq(expr, ">="@) || starts_with_seq(expr, "<="@) || starts_with_seq(expr, "=="@) {
        Some(trim_seq(expr.skip(2)))
    } else if starts_with_seq(expr, ">"@) || starts_with_seq(expr, "<"@) || starts_with_seq(expr, "="@) {
        Some(trim_seq(expr.skip(1)))
    } else {
        None
    }
}

/// Whether a test asks for neither a beginning nor a part.
pub open spec fn is_plain(expr: Seq<char>) -> bool {
    !starts_with_seq(expr, "prefix:"@) && !starts_with_seq(expr, "contains:"@)
}

/// The two texts that a test on a value compares as numbers.
pub open spec fn texts_compared(v: JsonView, expr: Seq<char>) -> Option<(Seq<char>, Seq<char>)> {
    match (number_text(v), operand(expr)) {
        (Some(a), Some(b)) => Some((a, b)),
        (Some(a), None) => if v is Number && is_plain(expr) {
            Some((a, expr))
        } else {
            None
        },
        _ => None,
    }
}

/// The two texts that a test on a payload compares as numbers.
pub open spec fn texts_to_compare(payload: JsonView, path: Seq<char>, expr: Seq<char>) -> Option<
    (Seq<char>, Seq<char>),
> {
    match walk_payload(payload, dot_parts(path)) {
        Some(v) => texts_compared(v, trim_seq(expr)),
        None => None,
    }
}

/// The rest of `s` behind its first `n` characters.
fn behind(s: &str, n: usize) -> (r: &str)
    requires
        n <= s@.len(),
    ensures
        r@ == s@.skip(n as int),
{
    let len: usize = s.unicode_len();
    assert(s@.subrange(n as int, len as int) =~= s@.skip(n as int));
    s.substring_char(n, len)
}

fn operand_of(expr: &str) -> (r: Option<&str>)
    ensures
        match r {
            Some(t) => operand(expr@) == Some(t@),
            None => operand(expr@) is None,
        },
{
    proof {
        reveal_strlit(">=");
        reveal_strlit("<=");
        reveal_strlit("==");
        reveal_strlit(">");
        reveal_strlit("<");
        reveal_strlit("=");
    }
    if starts_with(expr, ">=") || starts_with(expr, "<=") || starts_with(expr, "==") {
        return Some(trim(behind(expr, 2)));
    }
    if starts_with(expr, ">") || starts_with(expr, "<") || starts_with(expr, "=") {
        return Some(trim(behind(expr, 1)));
    }
    None
}

/// The two texts that a test on a payload compares as numbers.
pub fn comparison_needed(payload: &Json, path: &str, expr: &str) -> (r: Option<(String, String)>)
    ensures
        match r {
            Some(p) => texts_to_compare(payload@, path@, expr@) == Some((p.0@, p.1@)),
            None => texts_to_compare(payload@, path@, expr@) is None,
        },
{
    let value: &Json = match payload_path_get(payload, path) {
        Some(v) => v,
        None => {
            return None;
        },
    };
    let expr: &str = trim(expr);
    match (value, operand_of(expr)) {
        (Json::Number(n), Some(right)) => Some((n.clone(), right.to_owned())),
        (Json::Number(n), None) => if starts_with(expr, "prefix:") || starts_with(expr, "contains:") {
            None
        } else {
            Some((n.clone(), expr.to_owned()))
        },
        (Json::Text(t), Some(right)) => Some((t.clone(), right.to_owned())),
        _ => None,
    }
}

/// Whether a value passes a test, given how the two numbers that it compares stand to each other,
/// where both are readable.
pub open spec fn value_passes(v: JsonView, expr: Seq<char>, numbers: Option<Comparison>) -> bool {
    let known = if number_text(v) is Some {
        numbers
    } else {
        None
    };
    if starts_with_seq(expr, ">="@) {
        known is Some && known->0.at_least
    } else if starts_with_seq(expr, "<="@) {
        known is Some && known->0.at_most
    } else if starts_with_seq(expr, "=="@) {
        known is Some && known->0.near
    } else if starts_with_seq(expr, ">"@) {
        known is Some && known->0.above
    } else if starts_with_seq(expr, "<"@) {
        known is Some && known->0.below
    } else if starts_with_seq(expr, "="@) {
        match known {
            Some(c) => c.near,
            None => v == JsonView::Text(trim_seq(expr.skip(1))),
        }
    } else {
        match v {
            JsonView::Text(t) => if starts_with_seq(expr, "prefix:"@) {
                starts_with_seq(t, expr.skip(7))
            } else if starts_with_seq(expr, "contains:"@) {
                contains_seq(t, expr.skip(9))
            } else {
                t == expr
            },
            JsonView::Number(_) => is_plain(expr) && known is Some && known->0.near,
            _ => false,
        }
    }
}

/// Whether what `path` leads to in a payload passes a test.
pub open spec fn payload_passes(
    payload: JsonView,
    path: Seq<char>,
    expr: Seq<char>,
    numbers: Option<Comparison>,
) -> bool {
    match walk_payload(payload, dot_parts(path)) {
        Some(v) => value_passes(v, trim_seq(expr), numbers),
        None => false,
    }
}

/// Whether what `path` leads to in a payload passes a test: a comparison of numbers (`>=`, `<=`,
/// `==`, `>`, `<`, `=`), a beginning (`prefix:`), a part (`contains:`) or else the same text or
/// number. `numbers` says how the texts of [`comparison_needed`] compare, where both are numbers.
pub fn payload_match(payload: &Json, path: &str, expr: &str, numbers: Option<Comparison>) -> (r: bool)
    ensures
        r == payload_passes(payload@, path@, expr@, numbers),
{
    let value: &Json = match payload_path_get(payload, path) {
        Some(v) => v,
        None => {
            return false;
        },
    };
    proof {
        reveal_strlit("=");
        reveal_strlit("prefix:");
        reveal_strlit("contains:");
    }
    let expr: &str = trim(expr);
    let known: Option<Comparison> = match value {
        Json::Number(_) => numbers,
        Json::Text(_) => numbers,
        _ => None,
    };
    if starts_with(expr, ">=") {
        return match known {
            Some(c) => c.at_least,
            None => false,
        };
    }
    if starts_with(expr, "<=") {
        return match known {
            Some(c) => c.at_most,
            None => false,
        };
    }
    if starts_with(expr, "==") {
        return match known {
            Some(c) => c.near,
            None => false,
        };
    }
    if starts_with(expr, ">") {
        return match known {
            Some(c) => c.above,
            None => false,
        };
    }
    if starts_with(expr, "<") {
        return match known {
            Some(c) => c.below,
            None => false,
        };
    }
    if starts_with(expr, "=") {
        return match known {
            Some(c) => c.near,
            None => match value.as_text() {
                Some(t) => same(t, trim(behind(expr, 1))),
                None => false,
            },
        };
    }
    match value.as_text() {
        Some(t) => {
            if starts_with(expr, "prefix:") {
                starts_with(t, behind(expr, 7))
            } else if starts_with(expr, "contains:") {
                contains(t, behind(expr, 9))
            } else {
                same(t, expr)
            }
        },
        None => match (value, known) {
            (Json::Number(_), Some(c)) => c.near && !starts_with(expr, "prefix:") && !starts_with(
                expr,
                "contains:",
            ),
            _ => false,
        },
    }
}

/// Whether a route takes an event.
pub open spec fn route_takes(
    rule: RouteRuleRowView,
    kind: Seq<char>,
    payload: JsonView,
    numbers: Option<Comparison>,
    recent: Seq<RouteSeenEventView>,
    now: u64,
) -> bool {
    &&& rule.enabled
    &&& kind_fits(rule.kind_pattern, kind)
    &&& rule.payload_path is Some && rule.payload_match is Some ==> payload_passes(
        payload,
        rule.payload_path->0,
        rule.payload_match->0,
        numbers,
    )
    &&& rule.seen_in_last is Some ==> seen_lately(
        recent,
        rule.seen_in_last->0.pattern,
        rule.seen_in_last->0.window_secs,
        now,
    )
}

/// Whether a route takes an event.
pub fn route_matches(
    rule: &RouteRuleRow,
    kind: &str,
    payload: &Json,
    numbers: Option<Comparison>,
    recent: &RecentEvents,
    now: u64,
) -> (r: bool)
    ensures
        r == route_takes(rule@, kind@, payload@, numbers, recent@, now),
{
    if !rule.enabled {
        return false;
    }
    if !kind_matches(rule.kind_pattern.as_str(), kind) {
        return false;
    }
    if let Some(path) = &rule.payload_path {
        if let Some(expr) = &rule.payload_match {
            if !payload_match(payload, path.as_str(), expr.as_str(), numbers) {
                return false;
            }
        }
    }
    if let Some(look) = &rule.seen_in_last {
        if !recently_seen(recent, look.pattern.as_str(), look.window_secs, now) {
            return false;
        }
    }
    true
}

/// What is known of the comparison at position `i`.
pub open spec fn comparison_at(numbers: Seq<Option<Comparison>>, i: int) -> Option<Comparison> {
    if 0 <= i < numbers.len() {
        numbers[i]
    } else {
        None
    }
}

/// The first of `routes` from `i` on that takes an event.
pub open spec fn first_route(
    routes: Seq<RouteRuleRowView>,
    kind: Seq<char>,
    payload: JsonView,
    numbers: Seq<Option<Comparison>>,
    recent: Seq<RouteSeenEventView>,
    now: u64,
    i: int,
) -> Option<int>
    decreases routes.len() - i,
{
    if i < 0 || i >= routes.len() {
        None
    } else if route_takes(routes[i], kind, payload, comparison_at(numbers, i), recent, now) {
        Some(i)
    } else {
        first_route(routes, kind, payload, numbers, recent, now, i + 1)
    }
}

/// The route that takes an event: the first that does, by priority.
pub open spec fn matching_route(
    store: Storage,
    kind: Seq<char>,
    payload: JsonView,
    numbers: Seq<Option<Comparison>>,
    recent: Seq<RouteSeenEventView>,
    now: u64,
) -> Option<RouteRuleRowView> {
    match first_route(routes_on(store), kind, payload, numbers, recent, now, 0) {
        Some(i) => Some(routes_on(store)[i]),
        None => None,
    }
}

/// For each route that is on, the two texts that it compares as numbers.
pub fn comparisons_needed(store: &Storage, payload: &Json) -> (r: Vec<Option<(String, String)>>)
    ensures
        r@.len() == routes_on(*store).len(),
        forall|i: int|
            0 <= i < r@.len() ==> needs(routes_on(*store)[i], payload@, #[trigger] r@[i]),
{
    let routes: Vec<RouteRuleRow> = list_enabled_routes(store);
    let ghost all = rows_view(routes@);
    let mut out: Vec<Option<(String, String)>> = Vec::new();
    let mut i: usize = 0;
    while i < routes.len()
        invariant
            i <= routes@.len(),
            all == rows_view(routes@),
            out@.len() == i,
            forall|k: int| 0 <= k < i ==> needs(all[k], payload@, #[trigger] out@[k]),
        decreases routes@.len() - i,
    {
        assert(all[i as int] == routes@[i as int]@);
        let mut pair: Option<(String, String)> = None;
        if let Some(path) = &routes[i].payload_path {
            if let Some(expr) = &routes[i].payload_match {
                pair = comparison_needed(payload, path.as_str(), expr.as_str());
            }
        }
        out.push(pair);
        i += 1;
    }
    out
}

/// Whether `pair` are the two texts that a route compares as numbers.
pub open spec fn needs(rule: RouteRuleRowView, payload: JsonView, pair: Option<(String, String)>) -> bool {
    let want = if rule.payload_path is Some && rule.payload_match is Some {
        texts_to_compare(payload, rule.payload_path->0, rule.payload_match->0)
    } else {
        None
    };
    match pair {
        Some(p) => want == Some((p.0@, p.1@)),
        None => want is None,
    }
}

/// The route that takes an event: the first that does, by priority. `numbers` says for each route
/// that is on how the texts of [`comparisons_needed`] compare.
pub fn match_route(
    store: &Storage,
    kind: &str,
    payload: &Json,
    numbers: &Vec<Option<Comparison>>,
    recent: &RecentEvents,
    now: u64,
) -> (r: Option<RouteRuleRow>)
    ensures
        match r {
            Some(row) => matching_route(*store, kind@, payload@, numbers@, recent@, now) == Some(row@),
            None => matching_route(*store, kind@, payload@, numbers@, recent@, now) is None,
        },
{
    let routes: Vec<RouteRuleRow> = list_enabled_routes(store);
    let ghost all = rows_view(routes@);
    let mut i: usize = 0;
    while i < routes.len()
        invariant
            i <= routes@.len(),
            all == rows_view(routes@),
            all == routes_on(*store),
            first_route(all, kind@, payload@, numbers@, recent@, now, 0) == first_route(
                all,
                kind@,
                payload@,
                numbers@,
                recent@,
                now,
                i as int,
            ),
        decreases routes@.len() - i,
    {
        assert(all[i as int] == routes@[i as int]@);
        let known: Option<Comparison> = if i < numbers.len() {
            numbers[i]
        } else {
            None
        };
        if route_matches(&routes[i], kind, payload, known, recent, now) {
            return Some(routes[i].clone());
        }
        i += 1;
    }
    None
}

/// The endpoints of the route that takes an event.
pub fn route_target_ids(
    store: &Storage,
    kind: &str,
    payload: &Json,
    numbers: &Vec<Option<Comparison>>,
    recent: &RecentEvents,
    now: u64,
) -> (r: Option<Vec<String>>)
    ensures
        match r {
            Some(ids) => {
                &&& matching_route(*store, kind@, payload@, numbers@, recent@, now) is Some
                &&& texts_view(ids@) == matching_route(
                    *store,
                    kind@,
                    payload@,
                    numbers@,
                    recent@,
                    now,
                )->0.target_endpoint_ids
            },
            None => matching_route(*store, kind@, payload@, numbers@, recent@, now) is None,
        },
{
    match match_route(store, kind, payload, numbers, recent, now) {
        Some(row) => Some(row.target_endpoint_ids),
        None => None,
    }
}

/// Reads the payload of a trial run; a text that is no JSON is refused with the reason.
pub fn trial_payload(payload_json: &str) -> (r: Result<Json, String>)
    ensures
        match (r, json_read(payload_json@)) {
            (Ok(j), Ok(v)) => j@ == v,
            (Err(e), Err(m)) => e@ == "payload not valid json: "@ + m,
            _ => false,
        },
{
    match parse_json(payload_json) {
        Ok(j) => Ok(j),
        Err(e) => Err(join("payload not valid json: ", e.as_str())),
    }
}

/// The route that would take an event with this payload, which is given as text.
pub fn dry_run_route(
    store: &Storage,
    source: &str,
    payload_json: &str,
    numbers: &Vec<Option<Comparison>>,
    recent: &RecentEvents,
    now: u64,
) -> (r: Result<Option<RouteRuleRow>, String>)
    ensures
        match (r, json_read(payload_json@)) {
            (Ok(Some(row)), Ok(v)) => matching_route(*store, source@, v, numbers@, recent@, now) == Some(row@),
            (Ok(None), Ok(v)) => matching_route(*store, source@, v, numbers@, recent@, now) is None,
            (Err(e), Err(m)) => e@ == "payload not valid json: "@ + m,
            _ => false,
        },
{
    let payload: Json = match trial_payload(payload_json) {
        Ok(j) => j,
        Err(e) => {
            return Err(e);
        },
    };
    Ok(match_route(store, source, &payload, numbers, recent, now))
}

pub proof fn lemma_first_route(
    routes: Seq<RouteRuleRowView>,
    kind: Seq<char>,
    payload: JsonView,
    numbers: Seq<Option<Comparison>>,
    recent: Seq<RouteSeenEventView>,
    now: u64,
    i: int,
)
    requires
        0 <= i,
    ensures
        match first_route(routes, kind, payload, numbers, recent, now, i) {
            Some(k) => i <= k < routes.len() && route_takes(
                routes[k],
                kind,
                payload,
                comparison_at(numbers, k),
                recent,
                now,
            ) && (forall|j: int|
                i <= j < k ==> !route_takes(
                    #[trigger] routes[j],
                    kind,
                    payload,
                    comparison_at(numbers, j),
                    recent,
                    now,
                )),
            None => forall|j: int|
                i <= j < routes.len() ==> !route_takes(
                    #[trigger] routes[j],
                    kind,
                    payload,
                    comparison_at(numbers, j),
                    recent,
                    now,
                ),
        },
    decreases routes.len() - i,
{
    if i < routes.len() && !route_takes(
        routes[i],
        kind,
        payload,
        comparison_at(numbers, i),
        recent,
        now,
    ) {
        lemma_first_route(routes, kind, payload, numbers, recent, now, i + 1);
    }
}

/// Of the routes that take an event, one of the lowest priority number gets it; where none takes
/// it, none gets it.
pub proof fn lowest_priority_wins(
    store: Storage,
    kind: Seq<char>,
    payload: JsonView,
    numbers: Seq<Option<Comparison>>,
    recent: Seq<RouteSeenEventView>,
    now: u64,
    j: int,
)
    requires
        0 <= j < routes_on(store).len(),
        route_takes(routes_on(store)[j], kind, payload, comparison_at(numbers, j), recent, now),
    ensures
        matching_route(store, kind, payload, numbers, recent, now) is Some,
        matching_route(store, kind, payload, numbers, recent, now)->0.priority <= routes_on(store)[j].priority,
{
    let on = routes_on(store);
    lemma_first_route(on, kind, payload, numbers, recent, now, 0);
    listing_is_sorted_and_complete::<RouteRuleRow>(store.routes@);
    lemma_kept_sorted::<RouteRuleRow>(by_rank::<RouteRuleRow>(store.routes@), |r: RouteRuleRowView| r.enabled);
    let k = first_route(on, kind, payload, numbers, recent, now, 0)->0;
    assert(on[k].priority <= on[j].priority);
}

/// What is wrong with the first ill-formed route from position `i` on.
pub open spec fn routes_complaint(rules: Seq<RouteRuleView>, i: int) -> Option<Seq<char>>
    decreases rules.len() - i,
{
    if i < 0 || i >= rules.len() {
        None
    } else if route_complaint(rules[i]) is Some {
        route_complaint(rules[i])
    } else {
        routes_complaint(rules, i + 1)
    }
}

/// What is wrong with a list of routes to take over.
pub open spec fn import_complaint(rules: Seq<RouteRuleView>) -> Option<Seq<char>> {
    if rules.len() == 0 {
        Some("yaml contains no rules"@)
    } else {
        routes_complaint(rules, 0)
    }
}

/// The rows of a list of routes that was taken over.
pub open spec fn imported(rules: Seq<RouteRuleView>, nanos: u64, counter: u64, now: u64) -> Seq<RouteRuleRowView>
    decreases rules.len(),
{
    if rules.len() == 0 {
        Seq::empty()
    } else {
        let last = rules.last();
        with_row::<RouteRuleRow>(
            imported(rules.drop_last(), nanos, counter, now),
            route_row(last, id_or(last.id, route_id(nanos, counted_on(counter, rules.len() - 1))), now),
        )
    }
}

fn imported_row(rule: &RouteRule, nanos: u64, n: u64, now: u64) -> (r: RouteRuleRow)
    ensures
        r@ == route_row(rule@, id_or(rule@.id, route_id(nanos, n)), now),
{
    let id: String = if rule.id.as_str().is_empty() {
        gen_route_id(nanos, n)
    } else {
        rule.id.clone()
    };
    to_row(rule.clone(), id, now)
}

/// Takes over a list of routes in place of all that are there; says how many there are then. A list
/// without routes, or with an ill-formed one, is refused, and nothing changes. Routes without an id
/// get one made of `nanos` and their number, counted from `counter`.
pub fn import_routes_yaml(store: &mut Storage, doc: RouteRuleYamlDoc, nanos: u64, counter: u64, now: u64) -> (r:
    Result<usize, String>)
    ensures
        complaint(r) == import_complaint(rows_view(doc.rules@)),
        *final(store) == (Storage { routes: final(store).routes, ..*old(store) }),
        match r {
            Ok(n) => {
                &&& final(store).routes@ == imported(rows_view(doc.rules@), nanos, counter, now)
                &&& n == final(store).routes@.len()
            },
            Err(_) => final(store).routes@ == old(store).routes@,
        },
{
    let rules: Vec<RouteRule> = doc.rules;
    let ghost all = rows_view(rules@);
    if rules.len() == 0 {
        return Err("yaml contains no rules".to_owned());
    }
    let mut i: usize = 0;
    while i < rules.len()
        invariant
            i <= rules@.len(),
            rules@.len() > 0,
            all == rows_view(rules@),
            *store == *old(store),
            routes_complaint(all, 0) == routes_complaint(all, i as int),
            all == rows_view(doc.rules@),
        decreases rules@.len() - i,
    {
        assert(all[i as int] == rules@[i as int]@);
        match validate_route(&rules[i]) {
            Ok(_) => {},
            Err(e) => {
                return Err(e);
            },
        }
        i += 1;
    }
    store.routes.clear();
    let mut k: usize = 0;
    let mut n: u64 = counter;
    assert(all.take(0) =~= Seq::<RouteRuleView>::empty());
    while k < rules.len()
        invariant
            k <= rules@.len(),
            all == rows_view(rules@),
            n == counted_on(counter, k as int),
            *store == (Storage { routes: store.routes, ..*old(store) }),
            store.routes@ == imported(all.take(k as int), nanos, counter, now),
        decreases rules@.len() - k,
    {
        assert(all.take(k + 1).drop_last() =~= all.take(k as int));
        assert(all.take(k + 1).last() == rules@[k as int]@);
        let ghost before = store.routes@;
        let row: RouteRuleRow = imported_row(&rules[k], nanos, n, now);
        let ghost v = row@;
        store.routes.put(row);
        assert(store.routes@ == with_row::<RouteRuleRow>(before, v));
        assert(imported(all.take(k + 1), nanos, counter, now) == with_row::<RouteRuleRow>(before, v));
        n = n.wrapping_add(1);
        k += 1;
    }
    assert(all.take(k as int) =~= all);
    Ok(store.routes.rows().len())
}

/// The routes of a list as users edit them.
pub open spec fn routes_of(rows: Seq<RouteRuleRowView>) -> Seq<RouteRuleView> {
    Seq::new(rows.len(), |i: int| route_of(rows[i]))
}

/// All routes, by priority, as a list to take over elsewhere.
pub fn export_routes_yaml(store: &Storage) -> (r: RouteRuleYamlDoc)
    ensures
        r.version == 1,
        rows_view(r.rules@) == routes_of(by_rank::<RouteRuleRow>(store.routes@)),
{
    let rows: Vec<RouteRuleRow> = list_routes(store);
    let ghost all = rows_view(rows@);
    let mut rules: Vec<RouteRule> = Vec::new();
    let mut i: usize = 0;
    while i < rows.len()
        invariant
            i <= rows@.len(),
            all == rows_view(rows@),
            rules@.len() == i,
            forall|k: int| 0 <= k < i ==> (#[trigger] rules@[k])@ == route_of(all[k]),
        decreases rows@.len() - i,
    {
        assert(all[i as int] == rows@[i as int]@);
        rules.push(route_row_to_dto(&rows[i]));
        i += 1;
    }
    assert(rows_view(rules@) =~= routes_of(all));
    RouteRuleYamlDoc { version: 1, rules }
}

proof fn lemma_imported_in_turn(rules: Seq<RouteRuleView>, nanos: u64, counter: u64, now: u64)
    requires
        forall|i: int| 0 <= i < rules.len() ==> (#[trigger] rules[i]).id.len() > 0,
        forall|i: int, j: int|
            0 <= i < j < rules.len() ==> (#[trigger] rules[i]).id != (#[trigger] rules[j]).id,
    ensures
        imported(rules, nanos, counter, now).len() == rules.len(),
        forall|i: int|
            0 <= i < rules.len() ==> #[trigger] imported(rules, nanos, counter, now)[i] == route_row(
                rules[i],
                rules[i].id,
                now,
            ),
    decreases rules.len(),
{
    if rules.len() > 0 {
        let front = rules.drop_last();
        assert forall|i: int| 0 <= i < front.len() implies (#[trigger] front[i]).id.len() > 0 by {
            assert(rules[i].id.len() > 0);
        }
        assert forall|i: int, j: int| 0 <= i < j < front.len() implies (#[trigger] front[i]).id != (
        #[trigger] front[j]).id by {
            assert(rules[i].id != rules[j].id);
        }
        lemma_imported_in_turn(front, nanos, counter, now);
        let rows = imported(front, nanos, counter, now);
        lemma_position_of::<RouteRuleRow>(rows, rules.last().id);
        match position_of::<RouteRuleRow>(rows, rules.last().id) {
            Some(p) => {
                assert(rows[p] == route_row(front[p], front[p].id, now));
                assert(rules[p].id != rules[rules.len() - 1].id);
            },
            None => {},
        }
        assert(rules[rules.len() - 1].id.len() > 0);
    }
}

/// Taking over what was handed out gives the same routes again, in the same order.
pub proof fn import_gives_back_export(rows: Seq<RouteRuleRowView>, nanos: u64, counter: u64, now: u64)
    requires
        keys_distinct::<RouteRuleRow>(rows),
        forall|i: int| 0 <= i < rows.len() ==> (#[trigger] rows[i]).id.len() > 0,
    ensures
        routes_of(
            by_rank::<RouteRuleRow>(
                imported(routes_of(by_rank::<RouteRuleRow>(rows)), nanos, counter, now),
            ),
        ) == routes_of(by_rank::<RouteRuleRow>(rows)),
{
    let listed = by_rank::<RouteRuleRow>(rows);
    let rules = routes_of(listed);
    listing_is_sorted_and_complete::<RouteRuleRow>(rows);
    lemma_listing_keys::<RouteRuleRow>(rows);
    assert forall|i: int| 0 <= i < rules.len() implies (#[trigger] rules[i]).id.len() > 0 by {
        assert(rules[i].id == listed[i].id);
        assert(rows.contains(listed[i]));
    }
    assert forall|i: int, j: int| 0 <= i < j < rules.len() implies (#[trigger] rules[i]).id != (
    #[trigger] rules[j]).id by {
        assert(listed[i].id != listed[j].id);
    }
    lemma_imported_in_turn(rules, nanos, counter, now);
    let again = imported(rules, nanos, counter, now);
    assert forall|i: int, j: int| 0 <= i <= j < again.len() implies (#[trigger] again[i]).priority <= (
    #[trigger] again[j]).priority by {
        assert(again[i] == route_row(rules[i], rules[i].id, now));
        assert(again[j] == route_row(rules[j], rules[j].id, now));
        assert(listed[i].priority <= listed[j].priority);
    }
    lemma_by_rank_of_sorted::<RouteRuleRow>(again);
    assert forall|i: int| 0 <= i < rules.len() implies route_of(again[i]) == #[trigger] rules[i] by {
        assert(again[i] == route_row(rules[i], rules[i].id, now));
    }
    assert(routes_of(again) =~= rules);
}

} // verus!
