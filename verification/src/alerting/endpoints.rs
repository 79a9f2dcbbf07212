//! Endpoints: where alerts are sent.

use vstd::prelude::*;

use super::config::{endpoint_complaint, url_complaint, validate_endpoint, validate_url};
use super::dispatch::{
    build_request_headers, request_headers, wire_body, wire_text, Delivery, DeliveryView,
};
use super::ids::{gen_time_id, time_id};
use super::storage::Storage;
use super::store::{
    any_of, by_rank, copy_kept, find_first, kept, lemma_first_index, lemma_kept, row_with,
    rows_view, with_row, without_row,
};
use super::types::{
    overrides_view, AlertingEndpointRow, AlertingEndpointRowView, FailedDeliveryRow,
    FailedDeliveryRowView, WebhookEndpoint, WebhookEndpointView,
};
use crate::json::{lemma_members_view, members_view, Json, JsonView};
use crate::text::{complaint, join, same};

verus! {

/// An endpoint id made of the time in nanoseconds and a counter.
pub open spec fn endpoint_id(nanos: u64, n: u64) -> Seq<char> {
    time_id("ep-"@, nanos, n)
}

/// An endpoint id made of the time in nanoseconds and a counter.
pub fn gen_endpoint_id(nanos: u64, n: u64) -> (r: String)
    ensures
        r@ == endpoint_id(nanos, n),
{
    gen_time_id("ep-", nanos, n)
}

/// All endpoints, by the time of their making.
pub fn list_endpoints(store: &Storage) -> (r: Vec<AlertingEndpointRow>)
    ensures
        rows_view(r@) == by_rank::<AlertingEndpointRow>(store.endpoints@),
{
    store.endpoints.list()
}

/// Whether another endpoint than the one with this id has this name.
pub open spec fn name_taken(rows: Seq<AlertingEndpointRowView>, name: Seq<char>, id: Seq<char>) -> bool {
    any_of(rows, |e: AlertingEndpointRowView| e.name == name && e.id != id)
}

/// What is wrong with storing an endpoint.
pub open spec fn save_endpoint_complaint(rows: Seq<AlertingEndpointRowView>, ep: WebhookEndpointView) -> Option<
    Seq<char>,
> {
    if endpoint_complaint(ep) is Some {
        endpoint_complaint(ep)
    } else if name_taken(rows, ep.name, ep.id) {
        Some("endpoint name already in use: "@ + ep.name)
    } else {
        None
    }
}

/// An endpoint as it is stored: under its own id, or `fresh_id` where it has none. The time of its
/// making stays that of the endpoint with this id, where there is one.
pub open spec fn endpoint_row(
    rows: Seq<AlertingEndpointRowView>,
    ep: WebhookEndpointView,
    fresh_id: Seq<char>,
    now: u64,
) -> AlertingEndpointRowView {
    let id = if ep.id.len() == 0 {
        fresh_id
    } else {
        ep.id
    };
    AlertingEndpointRowView {
        id,
        name: ep.name,
        url: ep.url,
        enabled: ep.enabled,
        headers: ep.headers,
        secret: ep.secret,
        source_filter: ep.source_filter,
        schema_version: ep.schema_version,
        template: ep.template,
        template_sample: ep.template_sample,
        severity_overrides: if ep.severity_overrides.len() == 0 {
            None
        } else {
            Some(ep.severity_overrides)
        },
        created_at: match row_with::<AlertingEndpointRow>(rows, id) {
            Some(row) => row.created_at,
            None => now,
        },
    }
}

fn is_name_taken(rows: &Vec<AlertingEndpointRow>, name: &str, id: &str) -> (r: bool)
    ensures
        r == name_taken(rows_view(rows@), name@, id@),
{
    let ghost other = |e: AlertingEndpointRowView| e.name == name@ && e.id != id@;
    let test = |row: &AlertingEndpointRow| -> (b: bool)
        ensures
            b == (row@.name == name@ && row@.id != id@),
    { same(row.name.as_str(), name) && !same(row.id.as_str(), id) };
    proof {
        lemma_first_index(rows_view(rows@), other);
    }
    find_first(rows, test, Ghost(other)).is_some()
}

/// Stores an endpoint, in the place of the one with its id. One without an id gets `fresh_id`. No
/// two endpoints have the same name.
pub fn save_endpoint(store: &mut Storage, ep: WebhookEndpoint, fresh_id: &str, now: u64) -> (r: Result<
    AlertingEndpointRow,
    String,
>)
    ensures
        complaint(r) == save_endpoint_complaint(old(store).endpoints@, ep@),
        *final(store) == (Storage { endpoints: final(store).endpoints, ..*old(store) }),
        match r {
            Ok(row) => {
                &&& row@ == endpoint_row(old(store).endpoints@, ep@, fresh_id@, now)
                &&& final(store).endpoints@ == with_row::<AlertingEndpointRow>(
                    old(store).endpoints@,
                    row@,
                )
            },
            Err(_) => final(store).endpoints@ == old(store).endpoints@,
        },
{
    validate_endpoint(&ep)?;
    if is_name_taken(store.endpoints.rows(), ep.name.as_str(), ep.id.as_str()) {
        return Err(join("endpoint name already in use: ", ep.name.as_str()));
    }
    let id: String = if ep.id.as_str().is_empty() {
        fresh_id.to_owned()
    } else {
        ep.id.clone()
    };
    let created_at: u64 = match store.endpoints.get(id.as_str()) {
        Some(row) => row.created_at,
        None => now,
    };
    assert(overrides_view(ep.severity_overrides@).len() == ep.severity_overrides@.len());
    let row: AlertingEndpointRow = AlertingEndpointRow {
        id,
        name: ep.name,
        url: ep.url,
        enabled: ep.enabled,
        headers: ep.headers,
        secret: ep.secret,
        source_filter: ep.source_filter,
        schema_version: ep.schema_version,
        template: ep.template,
        template_sample: ep.template_sample,
        severity_overrides: if ep.severity_overrides.len() == 0 {
            None
        } else {
            Some(ep.severity_overrides)
        },
        created_at,
    };
    store.endpoints.put(row.clone());
    Ok(row)
}

/// Deletes an endpoint and the deliveries that are kept for it; says whether there was one with
/// this id, and how many deliveries there were.
pub fn delete_endpoint(store: &mut Storage, id: &str) -> (r: (bool, usize))
    ensures
        *final(store) == (Storage {
            endpoints: final(store).endpoints,
            deliveries: final(store).deliveries,
            ..*old(store)
        }),
        final(store).endpoints@ == without_row::<AlertingEndpointRow>(old(store).endpoints@, id@),
        final(store).deliveries@ == kept(
            old(store).deliveries@,
            |v: FailedDeliveryRowView| v.endpoint_id != Some(id@),
        ),
        r.0 == (row_with::<AlertingEndpointRow>(old(store).endpoints@, id@) is Some),
        r.1 == old(store).deliveries@.len() - final(store).deliveries@.len(),
{
    let ghost stays = |v: FailedDeliveryRowView| v.endpoint_id != Some(id@);
    let test = |row: &FailedDeliveryRow| -> (b: bool)
        ensures
            b == (row@.endpoint_id != Some(id@)),
    {
        match &row.endpoint_id {
            Some(e) => !same(e.as_str(), id),
            None => true,
        }
    };
    let rows: &Vec<FailedDeliveryRow> = store.deliveries.rows();
    let n: usize = rows.len();
    let left: Vec<FailedDeliveryRow> = copy_kept(rows, test, Ghost(stays));
    proof {
        lemma_kept::<FailedDeliveryRow>(store.deliveries@, stays);
        assert(rows_view(left@).len() == left@.len());
    }
    let gone: usize = n - left.len();
    store.deliveries.replace_rows(left);
    let found: bool = store.endpoints.remove(id);
    (found, gone)
}

/// What a test of an endpoint carries.
pub open spec fn endpoint_test_data(name: Seq<char>) -> JsonView {
    JsonView::Object(
        seq![
            ("endpoint"@, JsonView::Text(name)),
            ("message"@, JsonView::Text("Test alert from OpenCapX"@)),
        ],
    )
}

/// What is wrong with sending a test to the endpoint with this id.
pub open spec fn test_endpoint_complaint(store: Storage, id: Seq<char>) -> Option<Seq<char>> {
    match row_with::<AlertingEndpointRow>(store.endpoints@, id) {
        Some(ep) => url_complaint(ep.url),
        None => Some("endpoint not found: "@ + id),
    }
}

/// The request with which an endpoint is tested.
pub fn test_endpoint_request(store: &Storage, id: &str, now: u64) -> (r: Result<Delivery, String>)
    ensures
        complaint(r) == test_endpoint_complaint(*store, id@),
        r is Ok ==> {
            let ep = row_with::<AlertingEndpointRow>(store.endpoints@, id@)->0;
            let body = wire_text("webhook.test"@, now, endpoint_test_data(ep.name));
            r->Ok_0@ == (DeliveryView {
                endpoint_id: Some(ep.id),
                url: ep.url,
                headers: request_headers(ep, body),
                body,
                content_type: "application/json"@,
                queued: body,
            })
        },
{
    let ep: &AlertingEndpointRow = match store.endpoints.get(id) {
        Some(ep) => ep,
        None => {
            return Err(join("endpoint not found: ", id));
        },
    };
    validate_url(ep.url.as_str())?;
    let mut members: Vec<(String, Json)> = Vec::new();
    members.push(("endpoint".to_owned(), Json::Text(ep.name.clone())));
    members.push(("message".to_owned(), Json::Text("Test alert from OpenCapX".to_owned())));
    proof {
        lemma_members_view(members@);
        assert(members_view(members@) =~= seq![
            ("endpoint"@, JsonView::Text(ep@.name)),
            ("message"@, JsonView::Text("Test alert from OpenCapX"@)),
        ]);
    }
    let body: String = wire_body("webhook.test", now, &Json::Object(members));
    let headers: Vec<(String, String)> = build_request_headers(ep, body.as_str());
    Ok(
        Delivery {
            endpoint_id: Some(ep.id.clone()),
            url: ep.url.clone(),
            headers,
            queued: body.clone(),
            body,
            content_type: "application/json".to_owned(),
        },
    )
}

} // verus!
