//! From what is stored to what a user edits.

use vstd::prelude::*;

use super::types::{
    copy_opt_text, copy_overrides, copy_pairs, copy_texts, overrides_view, severity_name,
    severity_named, AckRule, AckRuleRow, AckRuleRowView, AckRuleView, AlertingEndpointRow,
    AlertingEndpointRowView, RouteRule, RouteRuleRow, RouteRuleRowView, RouteRuleView, Severity,
    SilenceRule, SilenceRuleRow, SilenceRuleRowView, SilenceRuleView, WebhookEndpoint,
    WebhookEndpointView,
};
use crate::json::{
    is_text_table, items_view, json_read, json_text, json_text_of, json_view, lemma_items_view,
    parse_json, Json, JsonView,
};
use crate::text::lower_ascii_seq;

verus! {

/// An endpoint as a user edits it.
pub open spec fn endpoint_of(row: AlertingEndpointRowView) -> WebhookEndpointView {
    WebhookEndpointView {
        id: row.id,
        name: row.name,
        url: row.url,
        enabled: row.enabled,
        headers: row.headers,
        secret: row.secret,
        source_filter: row.source_filter,
        schema_version: row.schema_version,
        template: row.template,
        template_sample: row.template_sample,
        severity_overrides: match row.severity_overrides {
            Some(o) => o,
            None => Seq::empty(),
        },
    }
}

/// An endpoint as a user edits it.
pub fn endpoint_row_to_dto(row: &AlertingEndpointRow) -> (r: WebhookEndpoint)
    ensures
        r@ == endpoint_of(row@),
{
    let severity_overrides: Vec<(String, Severity)> = match &row.severity_overrides {
        Some(o) => copy_overrides(o),
        None => {
            let none: Vec<(String, Severity)> = Vec::new();
            assert(overrides_view(none@) =~= Seq::<(Seq<char>, Severity)>::empty());
            none
        },
    };
    WebhookEndpoint {
        id: row.id.clone(),
        name: row.name.clone(),
        url: row.url.clone(),
        enabled: row.enabled,
        headers: copy_pairs(&row.headers),
        secret: row.secret.clone(),
        source_filter: copy_texts(&row.source_filter),
        schema_version: row.schema_version,
        template: copy_opt_text(&row.template),
        template_sample: copy_opt_text(&row.template_sample),
        severity_overrides,
    }
}

/// A silence as a user edits it.
pub open spec fn silence_of(row: SilenceRuleRowView) -> SilenceRuleView {
    SilenceRuleView {
        id: row.id,
        name: row.name,
        kind_pattern: row.kind_pattern,
        starts_at: row.starts_at,
        ends_at: row.ends_at,
        weekdays: row.weekdays,
        start_hour: row.start_hour,
        end_hour: row.end_hour,
    }
}

/// A silence as a user edits it.
pub fn silence_row_to_dto(row: &SilenceRuleRow) -> (r: SilenceRule)
    ensures
        r@ == silence_of(row@),
{
    SilenceRule {
        id: row.id.clone(),
        name: row.name.clone(),
        kind_pattern: row.kind_pattern.clone(),
        starts_at: row.starts_at,
        ends_at: row.ends_at,
        weekdays: row.weekdays,
        start_hour: row.start_hour,
        end_hour: row.end_hour,
    }
}

/// What is left of an acknowledgement at time `now`; one second where it has run out.
pub open spec fn ack_of(row: AckRuleRowView, now: u64) -> AckRuleView {
    AckRuleView {
        kind_pattern: row.kind_pattern,
        window_secs: if row.ack_until > now {
            (row.ack_until - now) as u64
        } else {
            1
        },
    }
}

/// What is left of an acknowledgement at time `now`; one second where it has run out.
pub fn ack_row_to_dto(row: &AckRuleRow, now: u64) -> (r: AckRule)
    ensures
        r@ == ack_of(row@, now),
{
    let window_secs: u64 = if row.ack_until > now {
        row.ack_until - now
    } else {
        1
    };
    AckRule { kind_pattern: row.kind_pattern.clone(), window_secs }
}

/// A route as a user edits it.
pub open spec fn route_of(row: RouteRuleRowView) -> RouteRuleView {
    RouteRuleView {
        id: row.id,
        name: row.name,
        priority: row.priority,
        enabled: row.enabled,
        kind_pattern: row.kind_pattern,
        payload_path: row.payload_path,
        payload_match: row.payload_match,
        target_endpoint_ids: row.target_endpoint_ids,
        recipients: row.recipients,
        tags: row.tags,
        seen_in_last: row.seen_in_last,
    }
}

/// A route as a user edits it.
pub fn route_row_to_dto(row: &RouteRuleRow) -> (r: RouteRule)
    ensures
        r@ == route_of(row@),
{
    RouteRule {
        id: row.id.clone(),
        name: row.name.clone(),
        priority: row.priority,
        enabled: row.enabled,
        kind_pattern: row.kind_pattern.clone(),
        payload_path: copy_opt_text(&row.payload_path),
        payload_match: copy_opt_text(&row.payload_match),
        target_endpoint_ids: copy_texts(&row.target_endpoint_ids),
        recipients: copy_texts(&row.recipients),
        tags: copy_texts(&row.tags),
        seen_in_last: match &row.seen_in_last {
            Some(s) => Some(s.clone()),
            None => None,
        },
    }
}

/// Whether a value is a list of two texts.
pub open spec fn is_text_pair(j: JsonView) -> bool {
    match j {
        JsonView::Array(cells) => cells.len() == 2 && cells[0] is Text && cells[1] is Text,
        _ => false,
    }
}

/// The source and the severity that a pair of texts names, if it names a severity.
pub open spec fn override_in(j: JsonView) -> Option<(Seq<char>, Severity)> {
    match j {
        JsonView::Array(cells) => match (cells[0], cells[1]) {
            (JsonView::Text(source), JsonView::Text(name)) => match severity_named(name) {
                Some(severity) => Some((source, severity)),
                None => None,
            },
            _ => None,
        },
        _ => None,
    }
}

/// The overrides among pairs of texts: those that name a severity.
pub open spec fn overrides_among(items: Seq<JsonView>) -> Seq<(Seq<char>, Severity)>
    decreases items.len(),
{
    if items.len() == 0 {
        Seq::empty()
    } else {
        match override_in(items.last()) {
            Some(o) => overrides_among(items.drop_last()).push(o),
            None => overrides_among(items.drop_last()),
        }
    }
}

/// The severity overrides in the text that they are stored as: none where there is no text, or one
/// that is no list of pairs of texts. Pairs that name no severity are passed over.
pub open spec fn overrides_of(text: Option<Seq<char>>) -> Seq<(Seq<char>, Severity)> {
    match text {
        None => Seq::empty(),
        Some(t) => match json_read(t) {
            Ok(JsonView::Array(items)) => if forall|i: int|
                0 <= i < items.len() ==> is_text_pair(#[trigger] items[i]) {
                overrides_among(items)
            } else {
                Seq::empty()
            },
            _ => Seq::empty(),
        },
    }
}

fn read_override(item: &Json) -> (r: Option<(String, Severity)>)
    requires
        is_text_pair(item@),
    ensures
        match r {
            Some(o) => override_in(item@) == Some((o.0@, o.1)),
            None => override_in(item@) is None,
        },
{
    if let Json::Array(cells) = item {
        proof {
            lemma_items_view(cells@);
            assert(item@ == JsonView::Array(items_view(cells@)));
            assert(items_view(cells@)[0] == json_view(cells@[0]));
            assert(items_view(cells@)[1] == json_view(cells@[1]));
        }
        if let (Json::Text(source), Json::Text(name)) = (&cells[0], &cells[1]) {
            return match Severity::parse(name.as_str()) {
                Some(severity) => Some((source.clone(), severity)),
                None => None,
            };
        }
    }
    None
}

fn text_pair(item: &Json) -> (r: bool)
    ensures
        r == is_text_pair(item@),
{
    if let Json::Array(cells) = item {
        proof {
            lemma_items_view(cells@);
            assert(item@ == JsonView::Array(items_view(cells@)));
        }
        if cells.len() != 2 {
            return false;
        }
        assert(items_view(cells@)[0] == json_view(cells@[0]));
        assert(items_view(cells@)[1] == json_view(cells@[1]));
        return match (&cells[0], &cells[1]) {
            (Json::Text(_), Json::Text(_)) => true,
            _ => false,
        };
    }
    false
}

/// The severity overrides in the text that they are stored as.
pub fn overrides_in(text: Option<&str>) -> (r: Vec<(String, Severity)>)
    ensures
        overrides_view(r@) == overrides_of(
            match text {
                Some(t) => Some(t@),
                None => None,
            },
        ),
{
    let mut out: Vec<(String, Severity)> = Vec::new();
    assert(overrides_view(out@) =~= Seq::empty());
    let read: Json = match text {
        Some(t) => match parse_json(t) {
            Ok(j) => j,
            Err(_) => {
                return out;
            },
        },
        None => {
            return out;
        },
    };
    let items: &Vec<Json> = match &read {
        Json::Array(items) => items,
        _ => {
            return out;
        },
    };
    let ghost all = items_view(items@);
    proof {
        lemma_items_view(items@);
        assert(read@ == JsonView::Array(all));
    }
    let mut i: usize = 0;
    while i < items.len()
        invariant
            i <= items@.len(),
            all == items_view(items@),
            all.len() == items@.len(),
            text is Some,
            json_read(text->0@) == Ok::<JsonView, Seq<char>>(JsonView::Array(all)),
            overrides_view(out@) == Seq::<(Seq<char>, Severity)>::empty(),
            forall|k: int| 0 <= k < items@.len() ==> all[k] == #[trigger] json_view(items@[k]),
            forall|k: int| 0 <= k < i ==> is_text_pair(#[trigger] all[k]),
        decreases items@.len() - i,
    {
        assert(all[i as int] == json_view(items@[i as int]));
        if !text_pair(&items[i]) {
            assert(!is_text_pair(all[i as int]));
            return out;
        }
        i += 1;
    }
    let mut i: usize = 0;
    assert(all.take(0) =~= Seq::<JsonView>::empty());
    while i < items.len()
        invariant
            i <= items@.len(),
            all == items_view(items@),
            all.len() == items@.len(),
            forall|k: int| 0 <= k < items@.len() ==> all[k] == #[trigger] json_view(items@[k]),
            forall|k: int| 0 <= k < items@.len() ==> is_text_pair(#[trigger] all[k]),
            overrides_view(out@) == overrides_among(all.take(i as int)),
        decreases items@.len() - i,
    {
        assert(all[i as int] == json_view(items@[i as int]));
        assert(all.take(i + 1).drop_last() =~= all.take(i as int));
        if let Some(o) = read_override(&items[i]) {
            let ghost before = out@;
            out.push(o);
            assert(overrides_view(out@) =~= overrides_view(before).push((o.0@, o.1)));
        }
        i += 1;
    }
    assert(all.take(i as int) =~= all);
    out
}

/// Severity overrides as a value: a list of pairs of source and severity.
pub open spec fn overrides_value(o: Seq<(Seq<char>, Severity)>) -> JsonView {
    JsonView::Array(
        Seq::new(
            o.len(),
            |i: int| JsonView::Array(
                seq![JsonView::Text(o[i].0), JsonView::Text(severity_name(o[i].1))],
            ),
        ),
    )
}

proof fn lemma_severity_named(severity: Severity)
    ensures
        severity_named(severity_name(severity)) == Some(severity),
{
    reveal_strlit("info");
    reveal_strlit("warn");
    reveal_strlit("error");
    reveal_strlit("critical");
    reveal_strlit("fatal");
    let name = severity_name(severity);
    assert(lower_ascii_seq(name) =~= name);
    assert("warn"@[0] == 'w' && "info"@[0] == 'i');
    assert("error"@.len() == 5 && "critical"@.len() == 8 && "warn"@.len() == 4 && "info"@.len() == 4);
}

proof fn lemma_overrides_among(o: Seq<(Seq<char>, Severity)>, items: Seq<JsonView>)
    requires
        overrides_value(o) == JsonView::Array(items),
    ensures
        overrides_among(items) == o,
    decreases o.len(),
{
    assert(items.len() == o.len());
    if o.len() > 0 {
        let before = items.drop_last();
        assert(overrides_value(o.drop_last()) == JsonView::Array(before)) by {
            assert(overrides_value(o.drop_last())->Array_0 =~= before);
        }
        lemma_overrides_among(o.drop_last(), before);
        lemma_severity_named(o.last().1);
        assert(items.last() == JsonView::Array(
            seq![JsonView::Text(o.last().0), JsonView::Text(severity_name(o.last().1))],
        ));
        assert(o.drop_last().push(o.last()) =~= o);
    } else {
        assert(o =~= Seq::empty());
    }
}

/// The text that severity overrides are stored as. They are read from it as they were.
pub fn overrides_text(overrides: &Vec<(String, Severity)>) -> (r: String)
    ensures
        r@ == json_text_of(overrides_value(overrides_view(overrides@))),
        overrides_of(Some(r@)) == overrides_view(overrides@),
{
    let ghost all = overrides_view(overrides@);
    let mut items: Vec<Json> = Vec::new();
    let mut i: usize = 0;
    while i < overrides.len()
        invariant
            i <= overrides@.len(),
            items@.len() == i,
            all == overrides_view(overrides@),
            forall|k: int|
                0 <= k < i ==> json_view(#[trigger] items@[k]) == JsonView::Array(
                    seq![JsonView::Text(all[k].0), JsonView::Text(severity_name(all[k].1))],
                ),
        decreases overrides@.len() - i,
    {
        let mut pair: Vec<Json> = Vec::new();
        pair.push(Json::Text(overrides[i].0.clone()));
        pair.push(Json::Text(overrides[i].1.as_str().to_owned()));
        proof {
            lemma_items_view(pair@);
            assert(items_view(pair@)[0] == json_view(pair@[0]));
            assert(items_view(pair@)[1] == json_view(pair@[1]));
            assert(items_view(pair@) =~= seq![
                JsonView::Text(all[i as int].0),
                JsonView::Text(severity_name(all[i as int].1)),
            ]);
        }
        items.push(Json::Array(pair));
        i += 1;
    }
    let ghost want = overrides_value(all)->Array_0;
    proof {
        lemma_items_view(items@);
        assert forall|k: int| 0 <= k < want.len() implies items_view(items@)[k] == want[k] by {
            assert(items_view(items@)[k] == json_view(items@[k]));
        }
        assert(items_view(items@) =~= want);
        lemma_overrides_among(all, want);
    }
    let value: Json = Json::Array(items);
    assert(value@ == overrides_value(all));
    assert(is_text_table(value@));
    assert forall|k: int| 0 <= k < want.len() implies is_text_pair(#[trigger] want[k]) by {}
    json_text(&value)
}

} // verus!
