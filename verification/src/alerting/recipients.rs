//! Recipients: named sinks that routes may refer to.

use vstd::prelude::*;

use super::ids::{gen_event_id, uuid_shape};
use super::storage::{RecipientDef, RecipientDefView, Storage};
use super::store::{
    any_of, by_rank, find_first, keys_distinct, lemma_first_index, row_with, rows_view, with_row,
    without_row,
};
use super::types::{
    AlertEnvelope, AlertEnvelopeView, RouteRuleRow, RouteRuleRowView, Severity,
};
use crate::json::{
    get_member, lemma_members_view, members_view, parse_u64, texts_view, unsigned_value, Json,
    JsonView,
};
use crate::text::{
    byte_count, byte_len, complaint, decimal, decimal_seq, join, join3, same, trim, trim_seq,
};

verus! {

/// Whether recipients of this kind are allowed.
pub open spec fn kind_allowed(kind: Seq<char>) -> bool {
    ||| kind == "webhook"@
    ||| kind == "log:stderr"@
    ||| kind == "log:file"@
    ||| kind == "email:smtp"@
}

/// The kinds of recipients that are allowed.
pub fn recipient_kinds() -> (r: Vec<&'static str>)
    ensures
        r@.len() == 4,
        r@[0]@ == "webhook"@,
        r@[1]@ == "log:stderr"@,
        r@[2]@ == "log:file"@,
        r@[3]@ == "email:smtp"@,
{
    vec!["webhook", "log:stderr", "log:file", "email:smtp"]
}

/// What is wrong with a kind of recipient.
pub open spec fn recipient_kind_complaint(kind: Seq<char>) -> Option<Seq<char>> {
    if kind_allowed(kind) {
        None
    } else {
        Some(
            "recipient kind '"@ + kind
                + "' not in whitelist (webhook, log:stderr, log:file, email:smtp); refusing"@,
        )
    }
}

/// Checks a kind of recipient.
pub fn validate_recipient_kind(kind: &str) -> (r: Result<(), String>)
    ensures
        complaint(r) == recipient_kind_complaint(kind@),
{
    if same(kind, "webhook") || same(kind, "log:stderr") || same(kind, "log:file") || same(
        kind,
        "email:smtp",
    ) {
        Ok(())
    } else {
        Err(
            join3(
                "recipient kind '",
                kind,
                "' not in whitelist (webhook, log:stderr, log:file, email:smtp); refusing",
            ),
        )
    }
}

/// All recipients, by the time of their making.
pub fn list_recipients(store: &Storage) -> (r: Vec<RecipientDef>)
    ensures
        rows_view(r@) == by_rank::<RecipientDef>(store.recipients@),
{
    store.recipients.list()
}

/// A recipient as it is stored: its name trimmed, with `fresh` for an id where it has none and the
/// present time where it has none.
pub open spec fn recipient_row(rec: RecipientDefView, fresh: Seq<char>, now: u64) -> RecipientDefView {
    RecipientDefView {
        id: if rec.id.len() == 0 {
            fresh
        } else {
            rec.id
        },
        name: trim_seq(rec.name),
        created_at: if rec.created_at == 0 {
            now
        } else {
            rec.created_at
        },
        ..rec
    }
}

/// Whether another recipient than the one with this id has this name.
pub open spec fn recipient_name_taken(rows: Seq<RecipientDefView>, name: Seq<char>, id: Seq<char>) -> bool {
    any_of(rows, |r: RecipientDefView| r.name == name && r.id != id)
}

/// What is wrong with storing a recipient, given the id for one without an id.
pub open spec fn recipient_complaint(rows: Seq<RecipientDefView>, rec: RecipientDefView, fresh: Seq<char>) -> Option<
    Seq<char>,
> {
    let row = recipient_row(rec, fresh, 0);
    if !kind_allowed(rec.kind) {
        recipient_kind_complaint(rec.kind)
    } else if row.name.len() == 0 {
        Some("recipient name required"@)
    } else if byte_count(row.name) > 64 {
        Some("recipient name too long (max 64)"@)
    } else if recipient_name_taken(rows, row.name, row.id) {
        Some("save recipient: recipient name already exists: "@ + row.name)
    } else {
        None
    }
}

/// What storing a recipient does, given the id for one without an id.
pub open spec fn recipient_saved(
    before: Storage,
    rec: RecipientDefView,
    fresh: Seq<char>,
    now: u64,
    after: Storage,
    r: Result<RecipientDef, String>,
) -> bool {
    &&& complaint(r) == recipient_complaint(before.recipients@, rec, fresh)
    &&& after == (Storage { recipients: after.recipients, ..before })
    &&& match r {
        Ok(row) => row@ == recipient_row(rec, fresh, now) && after.recipients@ == with_row::<
            RecipientDef,
        >(before.recipients@, row@),
        Err(_) => after.recipients@ == before.recipients@,
    }
}

/// Stores a recipient, in the place of the one with its id. One without an id gets `fresh`. No two
/// recipients have the same name.
pub fn store_recipient(store: &mut Storage, rec: RecipientDef, fresh: &str, now: u64) -> (r: Result<
    RecipientDef,
    String,
>)
    ensures
        recipient_saved(*old(store), rec@, fresh@, now, *final(store), r),
{
    validate_recipient_kind(rec.kind.as_str())?;
    let name: String = trim(rec.name.as_str()).to_owned();
    if name.as_str().is_empty() {
        return Err("recipient name required".to_owned());
    }
    if byte_len(name.as_str()) > 64 {
        return Err("recipient name too long (max 64)".to_owned());
    }
    let id: String = if rec.id.as_str().is_empty() {
        fresh.to_owned()
    } else {
        rec.id
    };
    let ghost other = |r: RecipientDefView| r.name == name@ && r.id != id@;
    let test = |row: &RecipientDef| -> (b: bool)
        ensures
            b == (row@.name == name@ && row@.id != id@),
    { same(row.name.as_str(), name.as_str()) && !same(row.id.as_str(), id.as_str()) };
    proof {
        lemma_first_index(store.recipients@, other);
    }
    if find_first(store.recipients.rows(), test, Ghost(other)).is_some() {
        return Err(join("save recipient: recipient name already exists: ", name.as_str()));
    }
    let row: RecipientDef = RecipientDef {
        id,
        name,
        kind: rec.kind,
        config: rec.config,
        enabled: rec.enabled,
        created_at: if rec.created_at == 0 {
            now
        } else {
            rec.created_at
        },
    };
    store.recipients.put(row.clone());
    Ok(row)
}

/// Stores a recipient, in the place of the one with its id. One without an id gets a random one.
pub fn save_recipient(store: &mut Storage, rec: RecipientDef, now: u64) -> (r: Result<
    RecipientDef,
    String,
>)
    ensures
        exists|fresh: Seq<char>| #[trigger]
            uuid_shape(fresh) && recipient_saved(*old(store), rec@, fresh, now, *final(store), r),
{
    let fresh: String = gen_event_id();
    assert(uuid_shape(fresh@));
    store_recipient(store, rec, fresh.as_str(), now)
}

/// How a route refers to the recipient with this id.
pub open spec fn reference_to(id: Seq<char>) -> Seq<char> {
    "webhook:"@ + id
}

/// `list` without `gone`.
pub open spec fn without_text(list: Seq<Seq<char>>, gone: Seq<char>) -> Seq<Seq<char>>
    decreases list.len(),
{
    if list.len() == 0 {
        Seq::empty()
    } else {
        let before = without_text(list.drop_last(), gone);
        if list.last() == gone {
            before
        } else {
            before.push(list.last())
        }
    }
}

/// The routes without references to the recipient with this id.
pub open spec fn unreferred(routes: Seq<RouteRuleRowView>, id: Seq<char>) -> Seq<RouteRuleRowView> {
    Seq::new(
        routes.len(),
        |i: int|
            RouteRuleRowView {
                recipients: without_text(routes[i].recipients, reference_to(id)),
                ..routes[i]
            },
    )
}

/// How many routes refer to `reference`.
pub open spec fn referring(routes: Seq<RouteRuleRowView>, reference: Seq<char>) -> nat
    decreases routes.len(),
{
    if routes.len() == 0 {
        0
    } else {
        referring(routes.drop_last(), reference) + if routes.last().recipients.contains(reference) {
            1nat
        } else {
            0nat
        }
    }
}

fn drop_text(list: &Vec<String>, gone: &str) -> (r: (Vec<String>, bool))
    ensures
        texts_view(r.0@) == without_text(texts_view(list@), gone@),
        r.1 == texts_view(list@).contains(gone@),
{
    let ghost all = texts_view(list@);
    let mut out: Vec<String> = Vec::new();
    let mut found: bool = false;
    let mut i: usize = 0;
    assert(texts_view(out@) =~= without_text(all.take(0), gone@));
    while i < list.len()
        invariant
            i <= list@.len(),
            all == texts_view(list@),
            texts_view(out@) == without_text(all.take(i as int), gone@),
            found == exists|k: int| 0 <= k < i && #[trigger] all[k] == gone@,
        decreases list@.len() - i,
    {
        let ghost before = texts_view(out@);
        assert(all.take(i + 1).drop_last() =~= all.take(i as int));
        assert(all.take(i + 1).last() == all[i as int]);
        assert(all[i as int] == list@[i as int]@);
        if same(list[i].as_str(), gone) {
            found = true;
        } else {
            out.push(list[i].clone());
            assert(texts_view(out@) =~= before.push(list@[i as int]@));
        }
        i += 1;
    }
    assert(all.take(i as int) =~= all);
    (out, found)
}

/// Deletes a recipient and all references of routes to it; says whether there was one with this
/// id, and how many routes referred to it.
pub fn delete_recipient(store: &mut Storage, id: &str) -> (r: (bool, usize))
    ensures
        *final(store) == (Storage {
            recipients: final(store).recipients,
            routes: final(store).routes,
            ..*old(store)
        }),
        final(store).recipients@ == without_row::<RecipientDef>(old(store).recipients@, id@),
        final(store).routes@ == unreferred(old(store).routes@, id@),
        r.0 == (row_with::<RecipientDef>(old(store).recipients@, id@) is Some),
        r.1 == referring(old(store).routes@, reference_to(id@)),
{
    let reference: String = join("webhook:", id);
    let routes: &Vec<RouteRuleRow> = store.routes.rows();
    let ghost all = rows_view(routes@);
    let mut left: Vec<RouteRuleRow> = Vec::new();
    let mut count: usize = 0;
    let mut i: usize = 0;
    assert(all.take(0) =~= Seq::<RouteRuleRowView>::empty());
    while i < routes.len()
        invariant
            i <= routes@.len(),
            all == rows_view(routes@),
            reference@ == reference_to(id@),
            left@.len() == i,
            count <= i,
            count == referring(all.take(i as int), reference@),
            forall|k: int| 0 <= k < i ==> (#[trigger] left@[k])@ == unreferred(all, id@)[k],
        decreases routes@.len() - i,
    {
        assert(all.take(i + 1).drop_last() =~= all.take(i as int));
        assert(all.take(i + 1).last() == all[i as int]);
        assert(all[i as int] == routes@[i as int]@);
        let (recipients, found) = drop_text(&routes[i].recipients, reference.as_str());
        let mut row: RouteRuleRow = routes[i].clone();
        row.recipients = recipients;
        left.push(row);
        if found {
            count += 1;
        }
        i += 1;
    }
    assert(all.take(i as int) =~= all);
    assert(rows_view(left@) =~= unreferred(all, id@));
    assert(keys_distinct::<RouteRuleRow>(rows_view(left@))) by {
        let v = rows_view(left@);
        assert forall|a: int, b: int| 0 <= a < b < v.len() implies (#[trigger] v[a]).id != (
        #[trigger] v[b]).id by {
            assert(v[a].id == all[a].id && v[b].id == all[b].id);
        }
    }
    store.routes.replace_rows(left);
    let gone: bool = store.recipients.remove(id);
    (gone, count)
}

/// After a recipient was deleted, no route refers to it any more, and all other references stand.
pub proof fn deleted_recipient_is_not_referred_to(list: Seq<Seq<char>>, id: Seq<char>, other: Seq<char>)
    ensures
        !without_text(list, reference_to(id)).contains(reference_to(id)),
        other != reference_to(id) ==> (without_text(list, reference_to(id)).contains(other)
            == list.contains(other)),
    decreases list.len(),
{
    let gone = reference_to(id);
    if list.len() > 0 {
        let front = list.drop_last();
        deleted_recipient_is_not_referred_to(front, id, other);
        let before = without_text(front, gone);
        let r = without_text(list, gone);
        assert(list =~= front.push(list.last()));
        if list.last() != gone {
            assert forall|x: Seq<char>| #[trigger] r.contains(x) == (before.contains(x) || x == list.last()) by {
                if before.contains(x) {
                    let k = choose|k: int| 0 <= k < before.len() && before[k] == x;
                    assert(r[k] == x);
                }
                assert(r[before.len() as int] == list.last());
            }
        }
        assert(list.contains(other) == (front.contains(other) || other == list.last())) by {
            if front.contains(other) {
                let k = choose|k: int| 0 <= k < front.len() && front[k] == other;
                assert(list[k] == other);
            }
            if list.contains(other) {
                let k = choose|k: int| 0 <= k < list.len() && list[k] == other;
                if k < front.len() {
                    assert(front[k] == other);
                }
            }
            assert(list[list.len() - 1] == list.last());
        }
    }
}

/// The text under a name in the configuration of a recipient.
pub open spec fn config_text(config: JsonView, name: Seq<char>) -> Option<Seq<char>> {
    match get_member(config, name) {
        Some(JsonView::Text(t)) => Some(t),
        _ => None,
    }
}

/// The text under a name in the configuration of a recipient; none counts as empty.
pub open spec fn config_text_or_none(config: JsonView, name: Seq<char>) -> Seq<char> {
    match config_text(config, name) {
        Some(t) => t,
        None => Seq::empty(),
    }
}

/// The port in the configuration of a recipient.
pub open spec fn config_port(config: JsonView) -> nat {
    match get_member(config, "port"@) {
        Some(JsonView::Number(n)) => match unsigned_value(n, u64::MAX as nat) {
            Some(v) => v,
            None => 587,
        },
        _ => 587,
    }
}

/// The line that says where a recipient sends to, or what is missing in its configuration.
pub open spec fn sink_line(rec: RecipientDefView) -> Result<Seq<char>, Seq<char>> {
    if rec.kind == "webhook"@ {
        match config_text(rec.config, "endpoint_id"@) {
            Some(id) => Ok("webhook:"@ + id),
            None => Err("webhook recipient missing endpoint_id in config"@),
        }
    } else if rec.kind == "log:stderr"@ {
        Ok("log:stderr"@)
    } else if rec.kind == "log:file"@ {
        match config_text(rec.config, "path"@) {
            Some(path) => Ok("log:file:"@ + path),
            None => Err("log:file recipient missing path in config"@),
        }
    } else if rec.kind == "email:smtp"@ {
        Ok(
            "email:smtp:"@ + config_text_or_none(rec.config, "relay"@) + ":"@ + decimal_seq(
                config_port(rec.config),
            ) + ":"@ + config_text_or_none(rec.config, "from"@) + ":"@ + config_text_or_none(
                rec.config,
                "to"@,
            ),
        )
    } else {
        Err("unknown recipient kind: "@ + rec.kind)
    }
}

fn text_in<'a>(config: &'a Json, name: &str) -> (r: Option<&'a str>)
    ensures
        match r {
            Some(t) => config_text(config@, name@) == Some(t@),
            None => config_text(config@, name@) is None,
        },
{
    match config.member(name) {
        Some(v) => v.as_text(),
        None => None,
    }
}

fn text_or_none<'a>(config: &'a Json, name: &str) -> (r: &'a str)
    ensures
        r@ == config_text_or_none(config@, name@),
{
    match text_in(config, name) {
        Some(t) => t,
        None => {
            proof {
                reveal_strlit("");
                assert(""@ =~= Seq::<char>::empty());
            }
            ""
        },
    }
}

fn port_in(config: &Json) -> (r: u64)
    ensures
        r == config_port(config@),
{
    match config.member("port") {
        Some(v) => match v {
            Json::Number(n) => match parse_u64(n.as_str()) {
                Some(p) => p,
                None => 587,
            },
            _ => 587,
        },
        None => 587,
    }
}

/// The line that says where a recipient sends to, or what is missing in its configuration.
pub fn recipient_sink(rec: &RecipientDef) -> (r: Result<String, String>)
    ensures
        match (r, sink_line(rec@)) {
            (Ok(line), Ok(want)) => line@ == want,
            (Err(e), Err(want)) => e@ == want,
            _ => false,
        },
{
    if same(rec.kind.as_str(), "webhook") {
        match text_in(&rec.config, "endpoint_id") {
            Some(id) => Ok(join("webhook:", id)),
            None => Err("webhook recipient missing endpoint_id in config".to_owned()),
        }
    } else if same(rec.kind.as_str(), "log:stderr") {
        Ok("log:stderr".to_owned())
    } else if same(rec.kind.as_str(), "log:file") {
        match text_in(&rec.config, "path") {
            Some(path) => Ok(join("log:file:", path)),
            None => Err("log:file recipient missing path in config".to_owned()),
        }
    } else if same(rec.kind.as_str(), "email:smtp") {
        let host: String = join3("email:smtp:", text_or_none(&rec.config, "relay"), ":");
        let port: String = join3(host.as_str(), decimal(port_in(&rec.config)).as_str(), ":");
        let from: String = join3(port.as_str(), text_or_none(&rec.config, "from"), ":");
        Ok(join(from.as_str(), text_or_none(&rec.config, "to")))
    } else {
        Err(join("unknown recipient kind: ", rec.kind.as_str()))
    }
}

/// The recipient to test: it must be there and on, and say where it sends to.
pub open spec fn test_line(store: Storage, id: Seq<char>) -> Result<Seq<char>, Seq<char>> {
    match row_with::<RecipientDef>(store.recipients@, id) {
        None => Err("recipient not found: "@ + id),
        Some(rec) => if rec.enabled {
            sink_line(rec)
        } else {
            Err("recipient '"@ + rec.name + "' is disabled"@)
        },
    }
}

/// The alert with which a recipient is tested.
pub open spec fn test_envelope_of(name: Seq<char>, now: u64) -> AlertEnvelopeView {
    AlertEnvelopeView {
        schema_version: 1,
        event_id: "test-"@ + decimal_seq(now as nat),
        source: "manual.test"@,
        severity: Severity::Info,
        tags: seq!["phase67"@, "manual-test"@],
        timestamp: now,
        payload: JsonView::Object(
            seq![("test"@, JsonView::Bool(true)), ("recipient"@, JsonView::Text(name))],
        ),
    }
}

/// What to send to test a recipient: the line that says where it sends to, and the alert.
pub fn test_recipient_request(store: &Storage, id: &str, now: u64) -> (r: Result<
    (String, AlertEnvelope),
    String,
>)
    ensures
        match (r, test_line(*store, id@)) {
            (Ok(out), Ok(line)) => out.0@ == line && out.1@ == test_envelope_of(
                row_with::<RecipientDef>(store.recipients@, id@)->0.name,
                now,
            ),
            (Err(e), Err(want)) => e@ == want,
            _ => false,
        },
{
    let rec: &RecipientDef = match store.recipients.get(id) {
        Some(rec) => rec,
        None => {
            return Err(join("recipient not found: ", id));
        },
    };
    if !rec.enabled {
        return Err(join3("recipient '", rec.name.as_str(), "' is disabled"));
    }
    let line: String = match recipient_sink(rec) {
        Ok(line) => line,
        Err(e) => {
            return Err(e);
        },
    };
    let mut tags: Vec<String> = Vec::new();
    tags.push("phase67".to_owned());
    tags.push("manual-test".to_owned());
    assert(texts_view(tags@) =~= seq!["phase67"@, "manual-test"@]);
    let mut members: Vec<(String, Json)> = Vec::new();
    members.push(("test".to_owned(), Json::Bool(true)));
    members.push(("recipient".to_owned(), Json::Text(rec.name.clone())));
    proof {
        lemma_members_view(members@);
        assert(members_view(members@) =~= seq![
            ("test"@, JsonView::Bool(true)),
            ("recipient"@, JsonView::Text(rec@.name)),
        ]);
    }
    let env: AlertEnvelope = AlertEnvelope {
        schema_version: 1,
        event_id: join("test-", decimal(now).as_str()),
        source: "manual.test".to_owned(),
        severity: Severity::Info,
        tags,
        timestamp: now,
        payload: Json::Object(members),
    };
    Ok((line, env))
}

} // verus!
