//! What automation does, how settings and secrets are asked for, what reports on sessions lead to, and
//! what recordings and backups hold, said of the operations and in no terms of how they come to their
//! results.

use vstd::prelude::*;

use crate::alerting::rule_laws::{lemma_kept_members, lemma_stamp, stamped_at};
use crate::alerting::stamps::{Stamp, StampView};
use crate::alerting::store::{
    keeping_is_filtering, keys_distinct, kept, lemma_position_of, put_then_get, row_with, rows_view,
    Table,
};
use crate::automation::{
    cooled, engine_run, fire, firing_of, firings_view, has_id, part_of, remove_rule, rule_waits_for,
    run_rules, validate_rule, DeedView, Firing,
};
use crate::backup::{
    check_backup, even_rows, is_backup_name, list_backups, newer_first, plan_table, restores_table,
    rows_values, width_of, BackupMeta, TablePlan,
};
use crate::config::{
    dots_gone, file_char, get_secret, sanitize, serve, valid_secret_key, ConfigRequest,
    ConfigRequestView, Served,
};
use crate::event::{
    agent_event_type, ingest, Ingested, OpencapxEvent, OpencapxEventView, SessionNote,
};
use crate::event_replay::{
    events_to_replay, later_first, list_sessions, read_session, replayed, summarize_session,
    ReplaySession,
};
use crate::json::{
    get_member, items_view, json_view, lemma_items_view, members_view, Json, JsonView,
};
use crate::laws::{holds_at, members_are_read_by_name};
use crate::order::{sorting_keeps_every_value, strict_weak};
use crate::text::{byte_count, starts_with_seq};
use crate::values::{drop_then_read, set_then_read, text_member, text_or};

verus! {

/// Whether an object holds no text under a name.
pub open spec fn no_text_at(j: JsonView, key: Seq<char>) -> bool {
    forall|t: Seq<char>| !#[trigger] holds_at(j, key, JsonView::Text(t))
}

proof fn lemma_text_at(j: JsonView, key: Seq<char>, t: Seq<char>)
    ensures
        holds_at(j, key, JsonView::Text(t)) == (text_member(j, key) == Some(t)),
        no_text_at(j, key) == (text_member(j, key) is None),
{
    members_are_read_by_name(j, key, JsonView::Text(t));
    if let Some(x) = text_member(j, key) {
        members_are_read_by_name(j, key, JsonView::Text(x));
        assert(holds_at(j, key, JsonView::Text(x)));
    }
    assert forall|x: Seq<char>| #[trigger] holds_at(j, key, JsonView::Text(x)) implies text_member(j, key)
        == Some(x) by {
        members_are_read_by_name(j, key, JsonView::Text(x));
    }
}

/// A rule that notifies shows its title, or that of the automation, and its body; one that says
/// something says its text. Either is announced. Any other does nothing.
pub proof fn fired_rules_notify_or_say(
    id: &str,
    then_do: &Json,
    kind: &str,
    title: Seq<char>,
    body: Seq<char>,
    text: Seq<char>,
    r: Firing,
)
    requires
        call_ensures(fire, (id, then_do, kind), r),
    ensures
        holds_at(then_do@, "action"@, JsonView::Text("notify"@)) && holds_at(
            then_do@,
            "body"@,
            JsonView::Text(body),
        ) ==> {
            &&& holds_at(then_do@, "title"@, JsonView::Text(title)) ==> r@.deed == (DeedView::Notify {
                title,
                body,
            })
            &&& no_text_at(then_do@, "title"@) ==> r@.deed == (DeedView::Notify {
                title: "OpenCapX Automation"@,
                body,
            })
            &&& r@.first.kind == "notification.posted"@
            &&& r@.second is Some && r@.second->0.kind == "automation.rule_fired"@
        },
        holds_at(then_do@, "action"@, JsonView::Text("say"@)) && holds_at(
            then_do@,
            "text"@,
            JsonView::Text(text),
        ) ==> {
            &&& r@.deed == (DeedView::Say { text })
            &&& r@.first.kind == "pet.say"@
            &&& r@.second is Some && r@.second->0.kind == "automation.rule_fired"@
        },
        !holds_at(then_do@, "action"@, JsonView::Text("notify"@)) && !holds_at(
            then_do@,
            "action"@,
            JsonView::Text("say"@),
        ) ==> r@.deed is Nothing,
{
    reveal_strlit("notify");
    reveal_strlit("say");
    assert("notify"@.len() == 6 && "say"@.len() == 3);
    lemma_text_at(then_do@, "action"@, "notify"@);
    lemma_text_at(then_do@, "action"@, "say"@);
    lemma_text_at(then_do@, "title"@, title);
    lemma_text_at(then_do@, "body"@, body);
    lemma_text_at(then_do@, "text"@, text);
}

/// Whether a rule is ready for an event: it is not switched off, has a name, and fits the event.
pub open spec fn is_ready(rule: JsonView, id: Seq<char>, fits: bool) -> bool {
    &&& !holds_at(rule, "enabled"@, JsonView::Bool(false))
    &&& holds_at(rule, "id"@, JsonView::Text(id))
    &&& fits
}

proof fn lemma_waits(rule: JsonView, ev: OpencapxEventView, id: Seq<char>)
    ensures
        rule_waits_for(rule, ev) && text_member(rule, "id"@) == Some(id) ==> !holds_at(
            rule,
            "enabled"@,
            JsonView::Bool(false),
        ) && holds_at(rule, "id"@, JsonView::Text(id)),
        !holds_at(rule, "enabled"@, JsonView::Bool(false)) && holds_at(rule, "id"@, JsonView::Text(id))
            && get_member(rule, "when"@) is Some && crate::automation::rule_fits(
            get_member(rule, "when"@)->0,
            ev,
        ) ==> rule_waits_for(rule, ev),
{
    members_are_read_by_name(rule, "enabled"@, JsonView::Bool(false));
    lemma_text_at(rule, "id"@, id);
}

proof fn lemma_engine(
    rules: Seq<JsonView>,
    fired: Seq<StampView>,
    ev: OpencapxEventView,
    clock: u64,
)
    requires
        keys_distinct::<Stamp>(fired),
    ensures
        keys_distinct::<Stamp>(engine_run(rules, fired, ev, clock).1),
        engine_run(rules, fired, ev, clock).0.len() <= rules.len(),
        forall|i: int|
            0 <= i < engine_run(rules, fired, ev, clock).0.len() ==> exists|k: int|
                0 <= k < rules.len() && rule_waits_for(#[trigger] rules[k], ev) && (
                #[trigger] engine_run(rules, fired, ev, clock).0[i]) == firing_of(
                    text_or(rules[k], "id"@, Seq::empty()),
                    part_of(rules[k], "then"@),
                    ev.kind,
                ),
        forall|name: Seq<char>|
            (forall|k: int|
                0 <= k < rules.len() ==> text_or(#[trigger] rules[k], "id"@, Seq::empty()) != name)
                ==> #[trigger] row_with::<Stamp>(engine_run(rules, fired, ev, clock).1, name) == row_with::<
                Stamp,
            >(fired, name),
    decreases rules.len(),
{
    if rules.len() > 0 {
        let front = rules.drop_last();
        let rule = rules[rules.len() - 1];
        lemma_engine(front, fired, ev, clock);
        let (done, seen) = engine_run(front, fired, ev, clock);
        let (out, after) = engine_run(rules, fired, ev, clock);
        let id = text_or(rule, "id"@, Seq::empty());
        assert forall|i: int| 0 <= i < out.len() implies exists|k: int|
            0 <= k < rules.len() && rule_waits_for(#[trigger] rules[k], ev) && (#[trigger] out[i])
                == firing_of(
                text_or(rules[k], "id"@, Seq::empty()),
                part_of(rules[k], "then"@),
                ev.kind,
            ) by {
            if i < done.len() {
                assert(out[i] == done[i]);
                let k = choose|k: int|
                    0 <= k < front.len() && rule_waits_for(#[trigger] front[k], ev) && done[i]
                        == firing_of(
                        text_or(front[k], "id"@, Seq::empty()),
                        part_of(front[k], "then"@),
                        ev.kind,
                    );
                assert(rules[k] == front[k]);
            } else {
                assert(rule_waits_for(rules[rules.len() - 1], ev));
            }
        }
        assert forall|name: Seq<char>|
            (forall|k: int|
                0 <= k < rules.len() ==> text_or(#[trigger] rules[k], "id"@, Seq::empty()) != name) implies #[trigger] row_with::<
            Stamp,
        >(after, name) == row_with::<Stamp>(fired, name) by {
            assert forall|k: int| 0 <= k < front.len() implies text_or(#[trigger] front[k], "id"@, Seq::empty())
                != name by {
                assert(front[k] == rules[k]);
            }
            assert(text_or(rules[rules.len() - 1], "id"@, Seq::empty()) != name);
            put_then_get::<Stamp>(seen, StampView { name: id, at: clock }, name);
            assert(row_with::<Stamp>(seen, name) == row_with::<Stamp>(fired, name));
        }
        put_then_get::<Stamp>(seen, StampView { name: id, at: clock }, id);
    }
}

proof fn lemma_engine_fires(
    rules: Seq<JsonView>,
    fired: Seq<StampView>,
    ev: OpencapxEventView,
    clock: u64,
    k: int,
)
    requires
        keys_distinct::<Stamp>(fired),
        0 <= k < rules.len(),
        rule_waits_for(rules[k], ev),
        cooled(fired, text_or(rules[k], "id"@, Seq::empty()), clock),
        forall|j: int|
            0 <= j < k ==> text_or(#[trigger] rules[j], "id"@, Seq::empty()) != text_or(
                rules[k],
                "id"@,
                Seq::empty(),
            ),
    ensures
        exists|i: int|
            0 <= i < engine_run(rules, fired, ev, clock).0.len() && #[trigger] engine_run(
                rules,
                fired,
                ev,
                clock,
            ).0[i] == firing_of(
                text_or(rules[k], "id"@, Seq::empty()),
                part_of(rules[k], "then"@),
                ev.kind,
            ),
    decreases rules.len(),
{
    let front = rules.drop_last();
    let (done, seen) = engine_run(front, fired, ev, clock);
    let (out, after) = engine_run(rules, fired, ev, clock);
    let id = text_or(rules[k], "id"@, Seq::empty());
    if k < front.len() {
        assert forall|j: int| 0 <= j < k implies text_or(#[trigger] front[j], "id"@, Seq::empty()) != text_or(
            front[k],
            "id"@,
            Seq::empty(),
        ) by {
            assert(front[j] == rules[j]);
        }
        lemma_engine_fires(front, fired, ev, clock, k);
        let i = choose|i: int|
            0 <= i < done.len() && #[trigger] done[i] == firing_of(
                text_or(front[k], "id"@, Seq::empty()),
                part_of(front[k], "then"@),
                ev.kind,
            );
        assert(out[i] == done[i]);
    } else {
        lemma_engine(front, fired, ev, clock);
        assert forall|j: int| 0 <= j < front.len() implies text_or(#[trigger] front[j], "id"@, Seq::empty())
            != id by {
            assert(front[j] == rules[j]);
        }
        assert(row_with::<Stamp>(seen, id) == row_with::<Stamp>(fired, id));
        assert(out[done.len() as int] == firing_of(id, part_of(rules[k], "then"@), ev.kind));
    }
}

/// Only rules that are ready for an event fire on it; a rule that is ready fires, unless it fired less
/// than five seconds ago or another rule of its name comes before it.
pub proof fn ready_rules_fire(
    rules: &Vec<Json>,
    fired: &mut Table<Stamp>,
    ev: &OpencapxEvent,
    clock: u64,
    r: Vec<Firing>,
    k: int,
    when: &Json,
    fits: bool,
    id: &str,
    then_do: &Json,
    kind: &str,
    firing: Firing,
)
    requires
        call_ensures(run_rules, (rules, fired, ev, clock), r),
        keys_distinct::<Stamp>(old(fired)@),
        0 <= k < rules@.len(),
        holds_at(rules@[k]@, "when"@, when@),
        call_ensures(crate::automation::matches, (when, ev), fits),
        holds_at(rules@[k]@, "then"@, then_do@),
        kind@ == ev@.kind,
        call_ensures(fire, (id, then_do, kind), firing),
    ensures
        r@.len() <= rules@.len(),
        is_ready(rules@[k]@, id@, fits) && (forall|t: u64| #[trigger]
            stamped_at(old(fired)@, id@, t) ==> clock - t >= 5_000_000_000) && (forall|j: int|
            0 <= j < k ==> !holds_at((#[trigger] rules@[j])@, "id"@, JsonView::Text(id@)))
            && id@.len() > 0 ==> exists|i: int|
            0 <= i < r@.len() && (#[trigger] r@[i])@ == firing@,
        (forall|j: int|
            0 <= j < rules@.len() ==> holds_at((#[trigger] rules@[j])@, "enabled"@, JsonView::Bool(false)))
            ==> r@.len() == 0,
{
    let all = items_view(rules@);
    lemma_items_view(rules@);
    assert forall|j: int| 0 <= j < rules@.len() implies all[j] == (#[trigger] rules@[j])@ by {
        assert(all[j] == json_view(rules@[j]));
    }
    lemma_engine(all, old(fired)@, ev@, clock);
    let out = engine_run(all, old(fired)@, ev@, clock).0;
    assert(firings_view(r@) == out);
    members_are_read_by_name(rules@[k]@, "when"@, when@);
    members_are_read_by_name(rules@[k]@, "then"@, then_do@);
    lemma_text_at(rules@[k]@, "id"@, id@);
    lemma_waits(rules@[k]@, ev@, id@);
    if is_ready(rules@[k]@, id@, fits) && (forall|t: u64| #[trigger]
        stamped_at(old(fired)@, id@, t) ==> clock - t >= 5_000_000_000) && (forall|j: int|
        0 <= j < k ==> !holds_at((#[trigger] rules@[j])@, "id"@, JsonView::Text(id@)))
        && id@.len() > 0 {
        lemma_position_of::<Stamp>(old(fired)@, id@);
        if let Some(row) = row_with::<Stamp>(old(fired)@, id@) {
            lemma_stamp(old(fired)@, id@, row.at);
            assert(row == (StampView { name: id@, at: row.at }));
            assert(stamped_at(old(fired)@, id@, row.at));
        }
        assert forall|j: int| 0 <= j < k implies text_or(#[trigger] all[j], "id"@, Seq::empty()) != text_or(
            all[k],
            "id"@,
            Seq::empty(),
        ) by {
            assert(!holds_at(rules@[j]@, "id"@, JsonView::Text(id@)));
            lemma_text_at(rules@[j]@, "id"@, id@);
        }
        assert(all[k] == rules@[k]@);
        lemma_engine_fires(all, old(fired)@, ev@, clock, k);
        let i = choose|i: int|
            0 <= i < out.len() && #[trigger] out[i] == firing_of(
                text_or(all[k], "id"@, Seq::empty()),
                part_of(all[k], "then"@),
                ev@.kind,
            );
        assert(firings_view(r@)[i] == r@[i]@);
    }
    if forall|j: int|
        0 <= j < rules@.len() ==> holds_at((#[trigger] rules@[j])@, "enabled"@, JsonView::Bool(false)) {
        if r@.len() > 0 {
            let j = choose|j: int|
                0 <= j < all.len() && rule_waits_for(#[trigger] all[j], ev@) && out[0] == firing_of(
                    text_or(all[j], "id"@, Seq::empty()),
                    part_of(all[j], "then"@),
                    ev@.kind,
                );
            assert(holds_at(rules@[j]@, "enabled"@, JsonView::Bool(false)));
            members_are_read_by_name(rules@[j]@, "enabled"@, JsonView::Bool(false));
        }
    }
}

/// A rule may be kept where it waits for a kind of event, its conditions are an object, if it has any,
/// and it notifies with a body or says a text.
pub proof fn rules_are_checked(when: &Json, then_do: &Json, nanos: u64, r: Result<Json, String>)
    requires
        call_ensures(validate_rule, (when, then_do, nanos), r),
    ensures
        r is Ok == {
            &&& exists|t: Seq<char>| t.len() > 0 && #[trigger] holds_at(when@, "event"@, JsonView::Text(t))
            &&& forall|m: JsonView| #[trigger] holds_at(when@, "match"@, m) ==> m is Object
            &&& {
                ||| holds_at(then_do@, "action"@, JsonView::Text("notify"@)) && exists|t: Seq<char>|
                    t.len() > 0 && #[trigger] holds_at(then_do@, "body"@, JsonView::Text(t))
                ||| holds_at(then_do@, "action"@, JsonView::Text("say"@)) && exists|t: Seq<char>|
                    t.len() > 0 && #[trigger] holds_at(then_do@, "text"@, JsonView::Text(t))
            }
        },
{
    reveal_strlit("notify");
    reveal_strlit("say");
    assert("notify"@.len() == 6 && "say"@.len() == 3);
    lemma_text_at(then_do@, "action"@, "notify"@);
    lemma_text_at(then_do@, "action"@, "say"@);
    lemma_some_text(when@, "event"@);
    lemma_some_text(then_do@, "body"@);
    lemma_some_text(then_do@, "text"@);
    if let Some(m) = get_member(when@, "match"@) {
        members_are_read_by_name(when@, "match"@, m);
        assert(holds_at(when@, "match"@, m));
    }
    assert forall|m: JsonView| #[trigger] holds_at(when@, "match"@, m) implies get_member(when@, "match"@)
        == Some(m) by {
        members_are_read_by_name(when@, "match"@, m);
    }
}

proof fn lemma_some_text(j: JsonView, key: Seq<char>)
    ensures
        (text_or(j, key, Seq::empty()).len() > 0) == exists|t: Seq<char>|
            t.len() > 0 && #[trigger] holds_at(j, key, JsonView::Text(t)),
{
    if let Some(t) = text_member(j, key) {
        lemma_text_at(j, key, t);
        assert(holds_at(j, key, JsonView::Text(t)));
    }
    assert forall|t: Seq<char>| #[trigger] holds_at(j, key, JsonView::Text(t)) implies text_member(j, key)
        == Some(t) by {
        lemma_text_at(j, key, t);
    }
}

/// Taking a rule out takes all of its name out and leaves the others.
pub proof fn rules_are_taken_out_by_name(rules: &mut Vec<Json>, id: &str, v: JsonView, r: bool)
    requires
        call_ensures(remove_rule, (rules, id), r),
    ensures
        items_view(final(rules)@).contains(v) == (items_view(old(rules)@).contains(v) && !holds_at(
            v,
            "id"@,
            JsonView::Text(id@),
        )),
        r == exists|k: int|
            0 <= k < items_view(old(rules)@).len() && holds_at(
                #[trigger] items_view(old(rules)@)[k],
                "id"@,
                JsonView::Text(id@),
            ),
{
    let all = items_view(old(rules)@);
    lemma_items_view(old(rules)@);
    let stays = |j: JsonView| !has_id(j, id@);
    lemma_kept_members(all, stays);
    assert(items_view(final(rules)@).contains(v) == kept(all, stays).contains(v));
    lemma_text_at(v, "id"@, id@);
    assert forall|k: int| 0 <= k < all.len() implies has_id(#[trigger] all[k], id@) == holds_at(
        all[k],
        "id"@,
        JsonView::Text(id@),
    ) by {
        lemma_text_at(all[k], "id"@, id@);
    }
    if r {
        let k = choose|k: int| 0 <= k < old(rules)@.len() && has_id(#[trigger] all[k], id@);
        assert(holds_at(all[k], "id"@, JsonView::Text(id@)));
    }
}

/// What is written under a name is what is read there from then on, and nothing else changes; what is
/// deleted is gone. Reading answers with what is there, or with the default.
pub proof fn settings_are_what_was_last_written(
    settings: Vec<(String, Json)>,
    request: &ConfigRequest,
    key: Seq<char>,
    v: JsonView,
    r: Served,
)
    requires
        call_ensures(serve, (settings, request), r),
    ensures
        ({
            let before = JsonView::Object(members_view(settings@));
            let after = JsonView::Object(members_view(r.settings@));
            &&& request@ is Write && request@->Write_key == key ==> holds_at(after, key, v) == (v
                == request@->Write_value) && r.changed
            &&& request@ is Write && request@->Write_key != key ==> holds_at(after, key, v) == holds_at(
                before,
                key,
                v,
            )
            &&& request@ is Delete && request@->Delete_key == key ==> !holds_at(after, key, v)
            &&& request@ is Delete && request@->Delete_key != key ==> holds_at(after, key, v) == holds_at(
                before,
                key,
                v,
            )
            &&& !(request@ is Write) && !(request@ is Delete) ==> after == before && !r.changed
            &&& request@ is Read && request@->Read_key == key && holds_at(before, key, v) ==> r.reply is Some
                && r.reply->0@ == v
            &&& request@ is Read && request@->Read_key == key && (forall|w: JsonView| !#[trigger]
                holds_at(before, key, w)) ==> r.reply is Some && r.reply->0@ == request@->Read_default
            &&& request@ is All ==> r.reply is Some && r.reply->0@ == before
        }),
{
    let had = members_view(settings@);
    let has = members_view(r.settings@);
    members_are_read_by_name(JsonView::Object(had), key, v);
    members_are_read_by_name(JsonView::Object(has), key, v);
    match request@ {
        ConfigRequestView::Write { key: k, value } => {
            set_then_read(had, k, value, key);
        },
        ConfigRequestView::Delete { key: k } => {
            drop_then_read(had, k, key);
        },
        ConfigRequestView::Read { key: k, default } => {
            if k == key {
                if let Some(found) = get_member(JsonView::Object(had), key) {
                    members_are_read_by_name(JsonView::Object(had), key, found);
                    assert(holds_at(JsonView::Object(had), key, found));
                }
            }
        },
        _ => {},
    }
}

/// A name can be that of a secret where it has one to 64 letters, digits, underscores and dashes.
pub proof fn secrets_have_plain_names(key: &str, r: bool)
    requires
        call_ensures(valid_secret_key, (key,), r),
    ensures
        r == (key@.len() > 0 && byte_count(key@) <= 64 && forall|i: int|
            0 <= i < key@.len() ==> {
                ||| 'a' <= #[trigger] key@[i] <= 'z'
                ||| 'A' <= key@[i] <= 'Z'
                ||| '0' <= key@[i] <= '9'
                ||| key@[i] == '_'
                ||| key@[i] == '-'
            }),
{
}

/// A secret comes from the keychain, and from the file only where the keychain fails; there is none
/// under a name that cannot be that of a secret. It is handed out as a text, else the default is.
pub proof fn secrets_come_from_the_keychain_first(
    key: &str,
    keychain: Result<Option<String>, String>,
    file: Option<String>,
    named: bool,
    r: Option<String>,
)
    requires
        call_ensures(get_secret, (key, keychain, file), r),
        call_ensures(valid_secret_key, (key,), named),
    ensures
        !named ==> r is None,
        named && keychain is Ok ==> r == keychain->Ok_0,
        named && keychain is Err ==> r == file,
{
}

/// Whether a character is a letter, a digit, a dot, an underscore or a dash.
pub open spec fn is_file_char(c: char) -> bool {
    'a' <= c <= 'z' || 'A' <= c <= 'Z' || '0' <= c <= '9' || c == '.' || c == '_' || c == '-'
}

/// An id of letters, digits, underscores, dashes and single dots names its own file; whatever else is
/// in it, the name of the file keeps its length and leads to no other directory.
pub proof fn plain_ids_name_their_own_files(plugin_id: &str, r: String)
    requires
        call_ensures(sanitize, (plugin_id,), r),
    ensures
        r@.len() == plugin_id@.len(),
        (forall|i: int| 0 <= i < plugin_id@.len() ==> is_file_char(#[trigger] plugin_id@[i])) && (forall|i: int|
            0 <= i < plugin_id@.len() - 1 ==> !(#[trigger] plugin_id@[i] == '.' && plugin_id@[i + 1] == '.'))
            ==> r@ == plugin_id@,
        forall|i: int| 0 <= i < r@.len() ==> is_file_char(#[trigger] r@[i]),
{
    lemma_dots(plugin_id@);
    assert(forall|i: int| 0 <= i < r@.len() ==> file_char(#[trigger] r@[i]));
    assert(forall|c: char| #[trigger] is_file_char(c) == file_char(c));
    if (forall|i: int| 0 <= i < plugin_id@.len() ==> is_file_char(#[trigger] plugin_id@[i])) && (forall|i: int|
        0 <= i < plugin_id@.len() - 1 ==> !(#[trigger] plugin_id@[i] == '.' && plugin_id@[i + 1] == '.')) {
        assert(r@ =~= plugin_id@);
    }
}

proof fn lemma_dots(s: Seq<char>)
    ensures
        dots_gone(s).len() == s.len(),
        (forall|i: int| 0 <= i < s.len() - 1 ==> !(#[trigger] s[i] == '.' && s[i + 1] == '.')) ==> dots_gone(s) == s,
    decreases s.len(),
{
    if s.len() == 0 {
    } else if s.len() >= 2 && s[0] == '.' && s[1] == '.' {
        lemma_dots(s.skip(2));
    } else {
        let rest = s.skip(1);
        lemma_dots(rest);
        if forall|i: int| 0 <= i < s.len() - 1 ==> !(#[trigger] s[i] == '.' && s[i + 1] == '.') {
            assert forall|i: int| 0 <= i < rest.len() - 1 implies !(#[trigger] rest[i] == '.' && rest[i + 1] == '.') by {
                assert(!(s[i + 1] == '.' && s[i + 2] == '.'));
            }
            assert(seq![s[0]] + rest =~= s);
        }
    }
}

/// Sessions that work, wait or are done say so; any other state says that a session has started.
pub proof fn states_make_their_events(state: &str, r: &'static str)
    requires
        call_ensures(agent_event_type, (state,), r),
    ensures
        state@ == "working"@ ==> r@ == "agent.working"@,
        state@ == "waiting"@ ==> r@ == "agent.waiting"@,
        state@ == "done"@ ==> r@ == "agent.completed"@,
        state@ != "working"@ && state@ != "waiting"@ && state@ != "done"@ ==> r@ == "agent.started"@,
{
    reveal_strlit("working");
    reveal_strlit("waiting");
    reveal_strlit("done");
    assert("working"@.len() == 7 && "waiting"@.len() == 7 && "done"@.len() == 4);
    assert("working"@[1] == 'o' && "waiting"@[1] == 'a');
}

/// A report on a session replaces what was known of it, but for model, speech and directory that it
/// says nothing of. The user is told where the session has just begun to wait or is just done. The
/// report is filed under the agent that the sender has proved to be, or else the one it names.
pub proof fn reports_keep_what_they_do_not_say(
    new: SessionNote,
    before: Option<&SessionNote>,
    caller: Option<&str>,
    kind: &'static str,
    state: &str,
    r: Ingested,
)
    requires
        call_ensures(ingest, (new, before, caller), r),
        state@ == new@.state,
        call_ensures(agent_event_type, (state,), kind),
    ensures
        r.session@.id == new@.id && r.session@.agent == new@.agent && r.session@.state == new@.state
            && r.session@.message == new@.message,
        r.session@.model == if new@.model.len() > 0 || before is None {
            new@.model
        } else {
            before->0@.model
        },
        r.session@.speech == if new@.speech.len() > 0 || before is None {
            new@.speech
        } else {
            before->0@.speech
        },
        r.session@.cwd == if new@.cwd.len() > 0 || before is None {
            new@.cwd
        } else {
            before->0@.cwd
        },
        r.kind@ == kind@,
        r.source@ == "hooks:"@ + new@.agent,
        r.filed_under@ == (match caller {
            Some(c) => c@,
            None => new@.agent,
        }),
        r.notify == ((new@.state == "waiting"@ || new@.state == "done"@) && (before is None || before->0@.state
            != new@.state)),
{
}

/// A recording is read from its end: as many of the last events as are asked for, at most five
/// thousand, in the order in which they came.
pub proof fn recordings_are_read_from_their_end(events: &Vec<OpencapxEvent>, limit: usize, r: Vec<OpencapxEvent>)
    requires
        call_ensures(read_session, (events, limit), r),
    ensures
        r@.len() <= events@.len(),
        r@.len() <= limit,
        r@.len() == events@.len() || r@.len() == limit || r@.len() == 5000,
        r@.len() <= 5000,
        forall|i: int|
            0 <= i < r@.len() ==> (#[trigger] r@[i])@ == events@[events@.len() - r@.len() + i]@,
{
    let all = rows_view(events@);
    assert(rows_view(r@).len() == r@.len());
    assert forall|i: int| 0 <= i < r@.len() implies (#[trigger] r@[i])@ == events@[events@.len() - r@.len() + i]@ by {
        assert(rows_view(r@)[i] == r@[i]@);
        assert(all[events@.len() - r@.len() + i] == events@[events@.len() - r@.len() + i]@);
    }
}

/// Whether an event is to be replayed: there is no filter, or its kind begins with it.
pub open spec fn passes_filter(filter: Option<&str>) -> spec_fn(OpencapxEventView) -> bool {
    |e: OpencapxEventView|
        filter is None || exists|rest: Seq<char>| e.kind == #[trigger] (filter->0@ + rest)
}

/// The events of a recording whose kind begins with the filter are replayed, and no others, in the order
/// in which they came.
pub proof fn filters_pick_by_the_beginning(
    events: &Vec<OpencapxEvent>,
    filter: Option<&str>,
    r: Vec<OpencapxEvent>,
)
    requires
        call_ensures(events_to_replay, (events, filter), r),
    ensures
        rows_view(r@) == rows_view(events@).filter(passes_filter(filter)),
{
    let wanted = match filter {
        Some(f) => Some(f@),
        None => None,
    };
    let test = |e: OpencapxEventView| replayed(wanted, e);
    assert forall|e: OpencapxEventView| #[trigger] test(e) == passes_filter(filter)(e) by {
        if let Some(f) = filter {
            if starts_with_seq(e.kind, f@) {
                assert(e.kind.subrange(0, f@.len() as int) =~= f@);
                assert(e.kind =~= f@ + e.kind.skip(f@.len() as int));
            }
            if f@.len() == 0 {
                assert(e.kind =~= f@ + e.kind);
            }
            assert forall|rest: Seq<char>| e.kind == #[trigger] (f@ + rest) implies starts_with_seq(e.kind, f@) by {
                assert(e.kind.subrange(0, f@.len() as int) =~= f@);
            }
        }
    }
    crate::alerting::laws::lemma_same_test(rows_view(events@), test, passes_filter(filter));
    keeping_is_filtering(rows_view(events@), passes_filter(filter));
}

/// Recordings are listed once each, those that began later first.
pub proof fn recordings_are_listed_by_their_beginning(sessions: Vec<ReplaySession>, r: Vec<ReplaySession>)
    requires
        call_ensures(list_sessions, (sessions,), r),
    ensures
        rows_view(r@).to_multiset() == rows_view(sessions@).to_multiset(),
        forall|i: int, j: int|
            0 <= i < j < r@.len() ==> (#[trigger] r@[i])@.started_at >= (#[trigger] r@[j])@.started_at,
{
    assert(strict_weak(later_first()));
    sorting_keeps_every_value(rows_view(sessions@), later_first());
    let out = rows_view(r@);
    assert forall|i: int, j: int| 0 <= i < j < r@.len() implies (#[trigger] r@[i])@.started_at >= (
    #[trigger] r@[j])@.started_at by {
        assert(out[i] == r@[i]@ && out[j] == r@[j]@);
        assert(!later_first()(out[j], out[i]));
    }
}

/// A recording begins with its first event and ends with its last.
pub proof fn recordings_span_their_events(id: &str, size: u64, times: &Vec<u64>, r: ReplaySession)
    requires
        call_ensures(summarize_session, (id, size, times), r),
        times@.len() > 0,
    ensures
        r@.session_id == id@,
        r@.size_bytes == size,
        r@.started_at == times@[0],
        r@.ended_at == Some(times@[times@.len() - 1]),
        times@.len() <= u64::MAX ==> r@.line_count == times@.len(),
{
}

/// Backups are listed once each, those made later first.
pub proof fn backups_are_listed_by_their_time(backups: Vec<BackupMeta>, r: Vec<BackupMeta>)
    requires
        call_ensures(list_backups, (backups,), r),
    ensures
        rows_view(r@).to_multiset() == rows_view(backups@).to_multiset(),
        forall|i: int, j: int|
            0 <= i < j < r@.len() ==> (#[trigger] r@[i])@.created_at >= (#[trigger] r@[j])@.created_at,
{
    assert(strict_weak(newer_first()));
    sorting_keeps_every_value(rows_view(backups@), newer_first());
    let out = rows_view(r@);
    assert forall|i: int, j: int| 0 <= i < j < r@.len() implies (#[trigger] r@[i])@.created_at >= (
    #[trigger] r@[j])@.created_at by {
        assert(out[i] == r@[i]@ && out[j] == r@[j]@);
        assert(!newer_first()(out[j], out[i]));
    }
}

/// History is not restored; every other table is.
pub proof fn history_stays(table: &str, r: bool)
    requires
        call_ensures(restores_table, (table,), r),
    ensures
        r == (table@ != "events"@ && table@ != "sessions"@ && table@ != "capability_stats"@),
{
    let names = crate::backup::history_tables();
    assert(names[0] == "events"@ && names[1] == "sessions"@ && names[2] == "capability_stats"@);
    if names.contains(table@) {
        let i = choose|i: int| 0 <= i < names.len() && names[i] == table@;
        assert(i == 0 || i == 1 || i == 2);
    }
}

/// A backup can be touched where its name leads to no other directory and it is there.
pub proof fn backups_stay_in_their_directory(
    filename: &str,
    inside: bool,
    there: bool,
    r: Result<(), String>,
)
    requires
        call_ensures(is_backup_name, (filename,), inside),
        call_ensures(check_backup, (filename, inside, there), r),
    ensures
        r is Ok == (there && filename@.len() > 0 && filename@ != "."@ && filename@ != ".."@ && forall|i: int|
            0 <= i < filename@.len() ==> #[trigger] filename@[i] != '/' && filename@[i] != '\\'),
{
    if filename@.contains('/') {
        let i = choose|i: int| 0 <= i < filename@.len() && filename@[i] == '/';
        assert(filename@[i] == '/');
    }
    if filename@.contains('\\') {
        let i = choose|i: int| 0 <= i < filename@.len() && filename@[i] == '\\';
        assert(filename@[i] == '\\');
    }
    assert forall|i: int| 0 <= i < filename@.len() && (#[trigger] filename@[i] == '/' || filename@[i] == '\\') implies filename@.contains(
        '/',
    ) || filename@.contains('\\') by {
        assert(filename@.contains(filename@[i]));
    }
}

/// A table is emptied before it is filled. Its rows are put in from the first on, up to one that has
/// another number of fields than the first; then it says so.
pub proof fn tables_are_emptied_and_filled(table: &str, rows: &Vec<Vec<Json>>, r: TablePlan)
    requires
        call_ensures(plan_table, (table, rows), r),
    ensures
        r.clear@ == "DELETE FROM "@ + table@,
        r.rows@.len() <= rows@.len(),
        rows@.len() > 0 && rows@[0]@.len() > 0 ==> {
            &&& r.insert is Some
            &&& r.rows@.len() > 0
            &&& forall|i: int| 0 <= i < r.rows@.len() ==> (#[trigger] rows@[i])@.len() == rows@[0]@.len()
            &&& r.error is None == (r.rows@.len() == rows@.len())
            &&& r.error is Some ==> rows@[r.rows@.len() as int]@.len() != rows@[0]@.len()
        },
{
    let all = rows_values(rows@);
    assert(all.len() == rows@.len());
    assert forall|i: int| 0 <= i < all.len() implies (#[trigger] all[i]).len() == rows@[i]@.len() by {
        lemma_items_view(rows@[i]@);
    }
    lemma_even(all, width_of(all), 0);
    assert(crate::backup::cells_view(r.rows@).len() == r.rows@.len());
    if rows@.len() > 0 && rows@[0]@.len() > 0 {
        assert(all[0].len() == rows@[0]@.len());
        assert forall|i: int| 0 <= i < r.rows@.len() implies (#[trigger] rows@[i])@.len() == rows@[0]@.len() by {
            assert(all[i].len() == rows@[i]@.len());
        }
        if r.error is Some {
            assert(all[r.rows@.len() as int].len() == rows@[r.rows@.len() as int]@.len());
        }
    }
}

proof fn lemma_even(rows: Seq<Seq<JsonView>>, width: nat, i: int)
    requires
        0 <= i <= rows.len(),
    ensures
        i <= even_rows(rows, width, i) <= rows.len(),
        forall|k: int| i <= k < even_rows(rows, width, i) ==> (#[trigger] rows[k]).len() == width,
        even_rows(rows, width, i) < rows.len() ==> rows[even_rows(rows, width, i)].len() != width,
    decreases rows.len() - i,
{
    if i < rows.len() && rows[i].len() == width {
        lemma_even(rows, width, i + 1);
    }
}

} // verus!
