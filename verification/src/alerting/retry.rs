//! Deliveries that failed: kept, sent again at growing intervals, given up in the end.

use vstd::prelude::*;

use super::dispatch::{
    build_request_headers, envelope_of, envelope_with_id, request_headers, wire_body, wire_text,
    Delivery, DeliveryView,
};
use super::ids::{gen_event_id, gen_time_id, time_id, uuid_shape};
use super::severity::{resolved, severity_resolved};
use super::storage::Storage;
use super::store::{
    by_rank, copy_kept, kept, lemma_kept, row_with, rows_view, with_row, without_row,
};
use super::template::{content_type_name, content_type_of, render_template, rendered};
use super::types::{
    copy_opt_text, pairs_view, AlertEnvelope, AlertingEndpointRow, FailedDeliveryRow,
    FailedDeliveryRowView,
};
use crate::json::{json_read, parse_json, texts_view, Json, JsonView};
use crate::text::{complaint, decimal, decimal_seq, join, same};

verus! {

/// How deliveries are tried again. `max_attempts` counts the first attempt too.
#[derive(Debug, Clone, Copy, PartialEq, Eq, Structural)]
pub struct RetryConfig {
    pub max_attempts: u32,
    pub initial_backoff_secs: u32,
    pub max_backoff_secs: u32,
    pub retention_days: u32,
}

impl Default for RetryConfig {
    fn default() -> (r: Self)
        ensures
            r == (RetryConfig {
                max_attempts: 5,
                initial_backoff_secs: 30,
                max_backoff_secs: 600,
                retention_days: 7,
            }),
    {
        RetryConfig {
            max_attempts: 5,
            initial_backoff_secs: 30,
            max_backoff_secs: 600,
            retention_days: 7,
        }
    }
}

/// What is wrong with a configuration of retries.
pub open spec fn retry_complaint(cfg: RetryConfig) -> Option<Seq<char>> {
    if cfg.max_attempts == 0 || cfg.max_attempts > 100 {
        Some("max_attempts out of range: "@ + decimal_seq(cfg.max_attempts as nat))
    } else if cfg.initial_backoff_secs == 0 || cfg.initial_backoff_secs > 86400 {
        Some("initial_backoff_secs out of range: "@ + decimal_seq(cfg.initial_backoff_secs as nat))
    } else if cfg.max_backoff_secs < cfg.initial_backoff_secs {
        Some("max_backoff_secs must be >= initial_backoff_secs"@)
    } else if cfg.max_backoff_secs > 604800 {
        Some("max_backoff_secs too large (max 7 days)"@)
    } else if cfg.retention_days > 365 {
        Some("retention_days too large (max 365)"@)
    } else {
        None
    }
}

/// Checks a configuration of retries.
pub fn validate_retry(cfg: &RetryConfig) -> (r: Result<(), String>)
    ensures
        complaint(r) == retry_complaint(*cfg),
{
    if cfg.max_attempts == 0 || cfg.max_attempts > 100 {
        return Err(join("max_attempts out of range: ", decimal(cfg.max_attempts as u64).as_str()));
    }
    if cfg.initial_backoff_secs == 0 || cfg.initial_backoff_secs > 86400 {
        return Err(
            join(
                "initial_backoff_secs out of range: ",
                decimal(cfg.initial_backoff_secs as u64).as_str(),
            ),
        );
    }
    if cfg.max_backoff_secs < cfg.initial_backoff_secs {
        return Err("max_backoff_secs must be >= initial_backoff_secs".to_owned());
    }
    if cfg.max_backoff_secs > 604800 {
        return Err("max_backoff_secs too large (max 7 days)".to_owned());
    }
    if cfg.retention_days > 365 {
        return Err("retention_days too large (max 365)".to_owned());
    }
    Ok(())
}

/// `n`, doubled `times` times.
pub open spec fn doubled(n: nat, times: nat) -> nat
    decreases times,
{
    if times == 0 {
        n
    } else {
        2 * doubled(n, (times - 1) as nat)
    }
}

/// How long to wait after so many attempts: the first interval, doubled with each further attempt,
/// up to the longest one.
pub open spec fn backoff(attempts: u32, cfg: RetryConfig) -> nat {
    if attempts == 0 || cfg.initial_backoff_secs == 0 {
        cfg.initial_backoff_secs as nat
    } else {
        let raw = doubled(cfg.initial_backoff_secs as nat, (attempts - 1) as nat);
        if raw < cfg.max_backoff_secs {
            raw
        } else {
            cfg.max_backoff_secs as nat
        }
    }
}

proof fn lemma_doubled_grows(n: nat, a: nat, b: nat)
    requires
        a <= b,
    ensures
        doubled(n, a) <= doubled(n, b),
    decreases b,
{
    if a < b {
        lemma_doubled_grows(n, a, (b - 1) as nat);
    }
}

/// How long to wait after so many attempts, in seconds.
pub fn compute_backoff_secs(attempts: u32, cfg: &RetryConfig) -> (r: u64)
    ensures
        r == backoff(attempts, *cfg),
{
    if attempts == 0 || cfg.initial_backoff_secs == 0 {
        return cfg.initial_backoff_secs as u64;
    }
    let max: u64 = cfg.max_backoff_secs as u64;
    let mut raw: u64 = cfg.initial_backoff_secs as u64;
    let mut done: u32 = 1;
    while done < attempts && raw < max
        invariant
            1 <= done <= attempts,
            max == cfg.max_backoff_secs,
            raw == doubled(cfg.initial_backoff_secs as nat, (done - 1) as nat),
            raw < 0x2_0000_0000,
        decreases attempts - done,
    {
        raw = raw * 2;
        done += 1;
    }
    proof {
        lemma_doubled_grows(
            cfg.initial_backoff_secs as nat,
            (done - 1) as nat,
            (attempts - 1) as nat,
        );
    }
    if raw < max {
        raw
    } else {
        max
    }
}

/// Waiting times never shrink from one attempt to the next, and never exceed the longest one.
pub proof fn backoff_grows_up_to_its_limit(attempts: u32, more: u32, cfg: RetryConfig)
    requires
        cfg.initial_backoff_secs <= cfg.max_backoff_secs,
        attempts <= more,
    ensures
        backoff(attempts, cfg) <= backoff(more, cfg) <= cfg.max_backoff_secs,
{
    if attempts > 0 {
        lemma_doubled_grows(
            cfg.initial_backoff_secs as nat,
            (attempts - 1) as nat,
            (more - 1) as nat,
        );
    } else if more > 0 {
        lemma_doubled_grows(cfg.initial_backoff_secs as nat, 0, (more - 1) as nat);
    }
}

/// A delivery id made of the time in nanoseconds and a counter.
pub open spec fn delivery_id(nanos: u64, n: u64) -> Seq<char> {
    time_id("dl-"@, nanos, n)
}

/// A delivery id made of the time in nanoseconds and a counter.
pub fn gen_delivery_id(nanos: u64, n: u64) -> (r: String)
    ensures
        r@ == delivery_id(nanos, n),
{
    gen_time_id("dl-", nanos, n)
}

/// A delivery that has failed for the first time.
pub open spec fn failed_row(
    id: Seq<char>,
    source: Seq<char>,
    url: Seq<char>,
    payload: Seq<char>,
    now: u64,
    max_attempts: u32,
    next_retry_ts: u64,
    last_error: Seq<char>,
    endpoint_id: Option<Seq<char>>,
) -> FailedDeliveryRowView {
    FailedDeliveryRowView {
        id,
        source,
        url,
        payload,
        endpoint_id,
        attempts: 1,
        max_attempts,
        next_retry_ts,
        state: "pending"@,
        last_error,
        created_at: now,
        updated_at: now,
    }
}

/// Keeps a delivery that has failed for the first time.
pub fn enqueue_failed_delivery(
    store: &mut Storage,
    id: &str,
    source: &str,
    url: &str,
    payload: &str,
    now: u64,
    max_attempts: u32,
    next_retry_ts: u64,
    last_error: &str,
    endpoint_id: Option<&str>,
)
    ensures
        *final(store) == (Storage { deliveries: final(store).deliveries, ..*old(store) }),
        final(store).deliveries@ == with_row::<FailedDeliveryRow>(
            old(store).deliveries@,
            failed_row(
                id@,
                source@,
                url@,
                payload@,
                now,
                max_attempts,
                next_retry_ts,
                last_error@,
                match endpoint_id {
                    Some(e) => Some(e@),
                    None => None,
                },
            ),
        ),
{
    let endpoint_id: Option<String> = match endpoint_id {
        Some(e) => Some(e.to_owned()),
        None => None,
    };
    store.deliveries.put(
        FailedDeliveryRow {
            id: id.to_owned(),
            source: source.to_owned(),
            url: url.to_owned(),
            payload: payload.to_owned(),
            endpoint_id,
            attempts: 1,
            max_attempts,
            next_retry_ts,
            state: "pending".to_owned(),
            last_error: last_error.to_owned(),
            created_at: now,
            updated_at: now,
        },
    );
}

/// `a + b`, up to the highest number.
pub open spec fn capped_sum(a: u64, b: int) -> u64 {
    if a + b > u64::MAX {
        u64::MAX
    } else {
        (a + b) as u64
    }
}

/// Keeps a delivery that could not be sent; it is due again after the first interval.
pub fn queue_failed(
    store: &mut Storage,
    delivery: &Delivery,
    id: &str,
    source: &str,
    error: &str,
    cfg: &RetryConfig,
    now: u64,
)
    ensures
        *final(store) == (Storage { deliveries: final(store).deliveries, ..*old(store) }),
        final(store).deliveries@ == with_row::<FailedDeliveryRow>(
            old(store).deliveries@,
            failed_row(
                id@,
                source@,
                delivery@.url,
                delivery@.queued,
                now,
                cfg.max_attempts,
                capped_sum(now, cfg.initial_backoff_secs as int),
                error@,
                delivery@.endpoint_id,
            ),
        ),
{
    let next: u64 = now.saturating_add(cfg.initial_backoff_secs as u64);
    let endpoint_id: Option<&str> = match &delivery.endpoint_id {
        Some(e) => Some(e.as_str()),
        None => None,
    };
    enqueue_failed_delivery(
        store,
        id,
        source,
        delivery.url.as_str(),
        delivery.queued.as_str(),
        now,
        cfg.max_attempts,
        next,
        error,
        endpoint_id,
    );
}

/// At most the first `n` of `s`.
pub open spec fn at_most<T>(s: Seq<T>, n: nat) -> Seq<T> {
    if s.len() <= n {
        s
    } else {
        s.take(n as int)
    }
}

/// The number of rows that a listing shows: what is asked for, but at least one and at most a
/// thousand.
pub open spec fn listing_limit(limit: nat) -> nat {
    if limit < 1 {
        1
    } else if limit > 1000 {
        1000
    } else {
        limit
    }
}

fn first_rows(rows: &Vec<FailedDeliveryRow>, n: usize) -> (r: Vec<FailedDeliveryRow>)
    ensures
        rows_view(r@) == at_most(rows_view(rows@), n as nat),
{
    let mut out: Vec<FailedDeliveryRow> = Vec::new();
    let ghost all = rows_view(rows@);
    let mut i: usize = 0;
    while i < rows.len() && i < n
        invariant
            i <= rows@.len(),
            i <= n,
            all == rows_view(rows@),
            out@.len() == i,
            forall|k: int| 0 <= k < i ==> (#[trigger] out@[k])@ == all[k],
        decreases rows@.len() - i,
    {
        out.push(rows[i].clone());
        i += 1;
    }
    assert(rows_view(out@) =~= at_most(all, n as nat));
    out
}

/// The kept deliveries in a state, or all, by the time they came in.
pub fn list_failed_deliveries(store: &Storage, state: Option<&str>, limit: usize) -> (r: Vec<
    FailedDeliveryRow,
>)
    ensures
        rows_view(r@) == at_most(
            match state {
                Some(s) => kept(
                    by_rank::<FailedDeliveryRow>(store.deliveries@),
                    |v: FailedDeliveryRowView| v.state == s@,
                ),
                None => by_rank::<FailedDeliveryRow>(store.deliveries@),
            },
            listing_limit(limit as nat),
        ),
{
    let n: usize = if limit < 1 {
        1
    } else if limit > 1000 {
        1000
    } else {
        limit
    };
    let rows: Vec<FailedDeliveryRow> = store.deliveries.list();
    match state {
        Some(s) => {
            let ghost wanted = |v: FailedDeliveryRowView| v.state == s@;
            let test = |row: &FailedDeliveryRow| -> (b: bool)
                ensures
                    b == (row@.state == s@),
            { same(row.state.as_str(), s) };
            first_rows(&copy_kept(&rows, test, Ghost(wanted)), n)
        },
        None => first_rows(&rows, n),
    }
}

/// Whether a delivery is due at time `now`.
pub open spec fn is_due(v: FailedDeliveryRowView, now: u64) -> bool {
    v.state == "pending"@ && v.next_retry_ts <= now
}

/// At most `limit` deliveries that are due, by the time they came in.
pub fn due_deliveries(store: &Storage, now: u64, limit: usize) -> (r: Vec<FailedDeliveryRow>)
    ensures
        rows_view(r@) == at_most(
            kept(
                by_rank::<FailedDeliveryRow>(store.deliveries@),
                |v: FailedDeliveryRowView| is_due(v, now),
            ),
            limit as nat,
        ),
{
    let ghost wanted = |v: FailedDeliveryRowView| is_due(v, now);
    let test = |row: &FailedDeliveryRow| -> (b: bool)
        ensures
            b == is_due(row@, now),
    { same(row.state.as_str(), "pending") && row.next_retry_ts <= now };
    first_rows(&copy_kept(&store.deliveries.list(), test, Ghost(wanted)), limit)
}

/// The deliveries after one of them was set back to be tried at once.
pub open spec fn set_back(rows: Seq<FailedDeliveryRowView>, id: Seq<char>, now: u64) -> Seq<
    FailedDeliveryRowView,
> {
    match row_with::<FailedDeliveryRow>(rows, id) {
        Some(row) => with_row::<FailedDeliveryRow>(
            rows,
            FailedDeliveryRowView {
                attempts: 0,
                state: "pending"@,
                next_retry_ts: now,
                updated_at: now,
                ..row
            },
        ),
        None => rows,
    }
}

/// Sets a delivery back to be tried at once, as if it had never been tried.
pub fn manual_retry_failed_delivery(store: &mut Storage, id: &str, now: u64) -> (r: bool)
    ensures
        r,
        *final(store) == (Storage { deliveries: final(store).deliveries, ..*old(store) }),
        final(store).deliveries@ == set_back(old(store).deliveries@, id@, now),
{
    let row: Option<FailedDeliveryRow> = match store.deliveries.get(id) {
        Some(row) => Some(row.clone()),
        None => None,
    };
    if let Some(row) = row {
        let mut row: FailedDeliveryRow = row;
        row.attempts = 0;
        row.state = "pending".to_owned();
        row.next_retry_ts = now;
        row.updated_at = now;
        store.deliveries.put(row);
    }
    true
}

/// Deletes a kept delivery; says whether there was one with this id.
pub fn delete_failed_delivery(store: &mut Storage, id: &str) -> (r: bool)
    ensures
        *final(store) == (Storage { deliveries: final(store).deliveries, ..*old(store) }),
        final(store).deliveries@ == without_row::<FailedDeliveryRow>(old(store).deliveries@, id@),
        r == (row_with::<FailedDeliveryRow>(old(store).deliveries@, id@) is Some),
{
    store.deliveries.remove(id)
}

/// Whether a delivery is over: sent in the end, or given up.
pub open spec fn is_over(v: FailedDeliveryRowView) -> bool {
    v.state == "exhausted"@ || v.state == "resolved"@
}

/// Deletes all kept deliveries that are over; says how many there were.
pub fn clear_resolved_failed_deliveries(store: &mut Storage) -> (r: usize)
    ensures
        *final(store) == (Storage { deliveries: final(store).deliveries, ..*old(store) }),
        final(store).deliveries@ == kept(
            old(store).deliveries@,
            |v: FailedDeliveryRowView| !is_over(v),
        ),
        r == old(store).deliveries@.len() - final(store).deliveries@.len(),
{
    let ghost stays = |v: FailedDeliveryRowView| !is_over(v);
    let test = |row: &FailedDeliveryRow| -> (b: bool)
        ensures
            b == !is_over(row@),
    { !(same(row.state.as_str(), "exhausted") || same(row.state.as_str(), "resolved")) };
    let rows: &Vec<FailedDeliveryRow> = store.deliveries.rows();
    let n: usize = rows.len();
    let left: Vec<FailedDeliveryRow> = copy_kept(rows, test, Ghost(stays));
    proof {
        lemma_kept::<FailedDeliveryRow>(store.deliveries@, stays);
        assert(rows_view(left@).len() == left@.len());
    }
    let gone: usize = n - left.len();
    store.deliveries.replace_rows(left);
    gone
}

/// Whether a delivery came in within the last `days` days.
pub open spec fn within_days(v: FailedDeliveryRowView, now: u64, days: u32) -> bool {
    v.created_at + days * 86400 >= now
}

/// Deletes all kept deliveries that came in before the time that they are kept for.
pub fn prune_old_failed_deliveries(store: &mut Storage, cfg: &RetryConfig, now: u64)
    ensures
        *final(store) == (Storage { deliveries: final(store).deliveries, ..*old(store) }),
        final(store).deliveries@ == kept(
            old(store).deliveries@,
            |v: FailedDeliveryRowView| within_days(v, now, cfg.retention_days),
        ),
{
    let days: u32 = cfg.retention_days;
    let cutoff: u64 = now.saturating_sub(days as u64 * 86400);
    let ghost stays = |v: FailedDeliveryRowView| within_days(v, now, days);
    let test = |row: &FailedDeliveryRow| -> (b: bool)
        ensures
            b == within_days(row@, now, days),
    { row.created_at >= cutoff };
    let left: Vec<FailedDeliveryRow> = copy_kept(store.deliveries.rows(), test, Ghost(stays));
    proof {
        lemma_kept::<FailedDeliveryRow>(store.deliveries@, stays);
    }
    store.deliveries.replace_rows(left);
}

/// The payload that a kept delivery holds; null where its text is no JSON.
pub open spec fn kept_payload(row: FailedDeliveryRowView) -> JsonView {
    match json_read(row.payload) {
        Ok(v) => v,
        Err(_) => JsonView::Null,
    }
}

/// The request with which a kept delivery is tried again: by the endpoint that it was for, where
/// that is still there, rendered anew where it has a template; else as it was kept.
pub open spec fn retry_delivery_of(
    store: Storage,
    row: FailedDeliveryRowView,
    event_id: Seq<char>,
    now: u64,
) -> DeliveryView {
    let plain = DeliveryView {
        endpoint_id: row.endpoint_id,
        url: row.url,
        headers: Seq::empty(),
        body: row.payload,
        content_type: "application/json"@,
        queued: row.payload,
    };
    match row.endpoint_id {
        Some(id) => match row_with::<AlertingEndpointRow>(store.endpoints@, id) {
            Some(ep) => {
                let payload = kept_payload(row);
                let env = envelope_of(
                    row.source,
                    payload,
                    Seq::empty(),
                    resolved(store, row.source),
                    event_id,
                    now,
                );
                let wired = wire_text(row.source, now, payload);
                let (body, content_type) = match ep.template {
                    Some(template) => match rendered(template, env) {
                        Ok(body) => (body, content_type_name(content_type_of(body))),
                        Err(_) => (wired, "application/json"@),
                    },
                    None => (wired, "application/json"@),
                };
                DeliveryView { headers: request_headers(ep, body), body, content_type, ..plain }
            },
            None => plain,
        },
        None => plain,
    }
}

fn kept_value(row: &FailedDeliveryRow) -> (r: Json)
    ensures
        r@ == kept_payload(row@),
{
    match parse_json(row.payload.as_str()) {
        Ok(v) => v,
        Err(_) => Json::Null,
    }
}

/// The request with which a kept delivery is tried again.
pub fn retry_delivery(store: &Storage, row: &FailedDeliveryRow, event_id: String, now: u64) -> (r:
    Delivery)
    ensures
        r@ == retry_delivery_of(*store, row@, event_id@, now),
{
    let endpoint: Option<&AlertingEndpointRow> = match &row.endpoint_id {
        Some(id) => store.endpoints.get(id.as_str()),
        None => None,
    };
    let ep: &AlertingEndpointRow = match endpoint {
        Some(ep) => ep,
        None => {
            let headers: Vec<(String, String)> = Vec::new();
            assert(pairs_view(headers@) =~= Seq::<(Seq<char>, Seq<char>)>::empty());
            return Delivery {
                endpoint_id: copy_opt_text(&row.endpoint_id),
                url: row.url.clone(),
                headers,
                body: row.payload.clone(),
                content_type: "application/json".to_owned(),
                queued: row.payload.clone(),
            };
        },
    };
    let payload: Json = kept_value(row);
    let wired: String = wire_body(row.source.as_str(), now, &payload);
    let tags: Vec<String> = Vec::new();
    assert(texts_view(tags@) =~= Seq::<Seq<char>>::empty());
    let severity: super::types::Severity = severity_resolved(store, row.source.as_str());
    let env: AlertEnvelope = envelope_with_id(
        row.source.as_str(),
        payload,
        tags,
        severity,
        event_id,
        now,
    );
    let (body, content_type) = match &ep.template {
        Some(template) => match render_template(template.as_str(), &env) {
            Ok((body, kind)) => (body, kind.as_content_type().to_owned()),
            Err(_) => (wired, "application/json".to_owned()),
        },
        None => (wired, "application/json".to_owned()),
    };
    let headers: Vec<(String, String)> = build_request_headers(ep, body.as_str());
    Delivery {
        endpoint_id: copy_opt_text(&row.endpoint_id),
        url: row.url.clone(),
        headers,
        body,
        content_type,
        queued: row.payload.clone(),
    }
}

/// The request with which a kept delivery is tried again, with a random id where it is rendered
/// anew.
pub fn retry_request(store: &Storage, row: &FailedDeliveryRow, now: u64) -> (r: Delivery)
    ensures
        exists|fresh: Seq<char>| #[trigger]
            uuid_shape(fresh) && r@ == retry_delivery_of(*store, row@, fresh, now),
{
    let event_id: String = gen_event_id();
    let ghost fresh = event_id@;
    assert(uuid_shape(fresh));
    retry_delivery(store, row, event_id, now)
}

/// A kept delivery after it was tried again: sent, or failed once more for the reason `error` and
/// due again later, unless that was the last attempt.
pub open spec fn after_retry(
    row: FailedDeliveryRowView,
    error: Option<Seq<char>>,
    cfg: RetryConfig,
    now: u64,
) -> FailedDeliveryRowView {
    match error {
        None => FailedDeliveryRowView { state: "resolved"@, updated_at: now, ..row },
        Some(e) => {
            let attempts = (row.attempts + 1) as u32;
            let next = if attempts >= row.max_attempts {
                0
            } else {
                capped_sum(now, backoff(attempts, cfg) as int)
            };
            FailedDeliveryRowView {
                attempts,
                next_retry_ts: next,
                state: if next == 0 {
                    "exhausted"@
                } else {
                    row.state
                },
                last_error: e,
                updated_at: now,
                ..row
            }
        },
    }
}

/// Notes how trying a kept delivery again went: `error` is why it failed, or nothing where it was
/// sent.
pub fn record_retry(store: &mut Storage, id: &str, error: Option<&str>, cfg: &RetryConfig, now: u64)
    requires
        row_with::<FailedDeliveryRow>(old(store).deliveries@, id@) is Some ==> row_with::<
            FailedDeliveryRow,
        >(old(store).deliveries@, id@)->0.attempts < u32::MAX,
    ensures
        *final(store) == (Storage { deliveries: final(store).deliveries, ..*old(store) }),
        final(store).deliveries@ == (match row_with::<FailedDeliveryRow>(
            old(store).deliveries@,
            id@,
        ) {
            Some(row) => with_row::<FailedDeliveryRow>(
                old(store).deliveries@,
                after_retry(
                    row,
                    match error {
                        Some(e) => Some(e@),
                        None => None,
                    },
                    *cfg,
                    now,
                ),
            ),
            None => old(store).deliveries@,
        }),
{
    let found: Option<FailedDeliveryRow> = match store.deliveries.get(id) {
        Some(row) => Some(row.clone()),
        None => None,
    };
    let mut row: FailedDeliveryRow = match found {
        Some(row) => row,
        None => {
            return ;
        },
    };
    row.updated_at = now;
    match error {
        None => {
            row.state = "resolved".to_owned();
        },
        Some(e) => {
            let attempts: u32 = row.attempts + 1;
            let next: u64 = if attempts >= row.max_attempts {
                0
            } else {
                now.saturating_add(compute_backoff_secs(attempts, cfg))
            };
            row.attempts = attempts;
            row.next_retry_ts = next;
            if next == 0 {
                row.state = "exhausted".to_owned();
            }
            row.last_error = e.to_owned();
        },
    }
    store.deliveries.put(row);
}

/// A delivery whose last attempt fails is given up: it is not due again.
pub proof fn last_attempt_gives_up(row: FailedDeliveryRowView, error: Seq<char>, cfg: RetryConfig, now: u64)
    requires
        row.attempts + 1 >= row.max_attempts,
        row.attempts < u32::MAX,
    ensures
        after_retry(row, Some(error), cfg, now).state == "exhausted"@,
        forall|later: u64| !#[trigger] is_due(after_retry(row, Some(error), cfg, now), later),
{
    reveal_strlit("exhausted");
    reveal_strlit("pending");
    assert("exhausted"@.len() != "pending"@.len());
}

/// A delivery that was set back by hand is due at once.
pub proof fn manual_retry_is_due_at_once(rows: Seq<FailedDeliveryRowView>, id: Seq<char>, now: u64)
    requires
        super::store::keys_distinct::<FailedDeliveryRow>(rows),
        row_with::<FailedDeliveryRow>(rows, id) is Some,
    ensures
        row_with::<FailedDeliveryRow>(set_back(rows, id, now), id) is Some,
        is_due(row_with::<FailedDeliveryRow>(set_back(rows, id, now), id)->0, now),
{
    super::store::lemma_position_of::<FailedDeliveryRow>(rows, id);
    let row = row_with::<FailedDeliveryRow>(rows, id)->0;
    super::store::put_then_get::<FailedDeliveryRow>(
        rows,
        FailedDeliveryRowView {
            attempts: 0,
            state: "pending"@,
            next_retry_ts: now,
            updated_at: now,
            ..row
        },
        id,
    );
}

/// How many of some deliveries were tried again, and how many of them arrived.
pub fn retry_tally(sent: &Vec<bool>) -> (r: (usize, usize))
    ensures
        r.0 == sent@.len(),
        r.1 == sent@.filter(|b: bool| b).len(),
{
    let mut arrived: usize = 0;
    let mut i: usize = 0;
    let ghost yes = |b: bool| b;
    assert(sent@.take(0).filter(yes).len() == 0) by {
        reveal(Seq::filter);
    }
    while i < sent.len()
        invariant
            i <= sent@.len(),
            arrived <= i,
            yes == (|b: bool| b),
            arrived == sent@.take(i as int).filter(yes).len(),
        decreases sent@.len() - i,
    {
        proof {
            assert(sent@.take(i + 1).drop_last() =~= sent@.take(i as int));
            reveal(Seq::filter);
        }
        if sent[i] {
            arrived += 1;
        }
        i += 1;
    }
    assert(sent@.take(i as int) =~= sent@);
    (sent.len(), arrived)
}

} // verus!
