//! What lists, backups and answers hold, said of the operations and in no terms of how they come to their
//! results.

use vstd::prelude::*;

use crate::alerting::aggregations::list_aggregations;
use crate::alerting::correlations::list_correlations;
use crate::alerting::dispatch::Delivery;
use crate::alerting::endpoints::{list_endpoints, test_endpoint_request};
use crate::alerting::escalations::list_escalations;
use crate::alerting::laws::{is_plain_body, lemma_signed, signed_for};
use crate::alerting::recipients::list_recipients;
use crate::alerting::routes::{
    comparison_needed, list_routes, match_route, route_target_ids, Comparison,
};
use crate::alerting::rows::{overrides_in, overrides_text};
use crate::alerting::rule_laws::{lemma_silence, silence_holds};
use crate::alerting::severity::{preview_alerting_endpoint_severity, EndpointSeverityPreview};
use crate::alerting::silences::{list_acks, list_silences, silence_covers};
use crate::alerting::storage::{
    AggregationRuleDto, AggregationRuleDtoView, CorrelationRuleDto, CorrelationRuleDtoView,
    EscalationRuleDto, EscalationRuleDtoView, RecipientDef, RecipientDefView, Storage,
};
use crate::alerting::store::{
    keys_distinct, lemma_position_of, listing_is_sorted_and_complete, position_of, rows_view,
};
use crate::alerting::timeline::RecentEvents;
use crate::alerting::types::{
    overrides_view, AckRuleRow, AckRuleRowView, AlertingEndpointRow, AlertingEndpointRowView,
    RouteRuleRow, RouteRuleRowView, Severity, SilenceRuleRow, SilenceRuleRowView,
};
use crate::automation::{answer_command, has_id, rules_in, CommandAnswer, RuleCommand};
use crate::backup::{
    all_settings_in, backup_filename, describe_backup, dump_cell, plain_fields_come_back,
    read_plugin_configs, restore_cell, settings_in, table_counts, BackupMeta, BackupSnapshot, Cell,
    CellView, SettingsFile, SettingsFileView,
};
use crate::capability::{
    core_value, has_builtin, is_registered, list, listing_values, provided_ids, registered,
    registered_capabilities, unprovided, watched_ids, watched_value, Listing, ListingView, Registry,
};
use crate::clipboard::content;
use crate::config::{plugin_of_file, safe_chars, PluginConfigEntry, PluginConfigEntryView};
use crate::context::{current, parse_applescript, parse_lsappinfo_bundle};
use crate::desk_laws::{is_file_char, no_text_at};
use crate::event::rule_audit_of;
use crate::files::FileSearch;
use crate::json::{get_member, items_view, json_read, member_of, payload_path_get, Json, JsonView};
use crate::laws::{holds_at, members_are_read_by_name};
use crate::order::{in_order, lemma_text_orders, sorted, sorting_keeps_every_value, text_order};
use crate::text::{decimal_seq, ends_with_seq, is_blank_seq, starts_with_seq, trim_seq};
use crate::values::{
    and_member, items_same, json_equal, json_same, members_same, no_members, text_member,
};

verus! {

/// Whether `listed` holds what is stored, in the order of these numbers.
pub open spec fn lists_all<V>(listed: Seq<V>, stored: Seq<V>, number: spec_fn(V) -> int) -> bool {
    &&& listed.to_multiset() == stored.to_multiset()
    &&& forall|i: int, j: int|
        0 <= i <= j < listed.len() ==> number(#[trigger] listed[i]) <= number(#[trigger] listed[j])
}

/// Endpoints, silences, acknowledgements, rules and recipients are listed by when they were made, and
/// routes by their priority.
pub proof fn lists_come_in_order(
    store: &Storage,
    endpoints: Vec<AlertingEndpointRow>,
    silences: Vec<SilenceRuleRow>,
    acks: Vec<AckRuleRow>,
    aggregations: Vec<AggregationRuleDto>,
    correlations: Vec<CorrelationRuleDto>,
    escalations: Vec<EscalationRuleDto>,
    recipients: Vec<RecipientDef>,
    routes: Vec<RouteRuleRow>,
)
    requires
        call_ensures(list_endpoints, (store,), endpoints),
        call_ensures(list_silences, (store,), silences),
        call_ensures(list_acks, (store,), acks),
        call_ensures(list_aggregations, (store,), aggregations),
        call_ensures(list_correlations, (store,), correlations),
        call_ensures(list_escalations, (store,), escalations),
        call_ensures(list_recipients, (store,), recipients),
        call_ensures(list_routes, (store,), routes),
    ensures
        lists_all(rows_view(endpoints@), store.endpoints@, |v: AlertingEndpointRowView| v.created_at as int),
        lists_all(rows_view(silences@), store.silences@, |v: SilenceRuleRowView| v.created_at as int),
        lists_all(rows_view(acks@), store.acks@, |v: AckRuleRowView| v.created_at as int),
        lists_all(rows_view(aggregations@), store.aggregations@, |v: AggregationRuleDtoView| v.created_at as int),
        lists_all(rows_view(correlations@), store.correlations@, |v: CorrelationRuleDtoView| v.created_at as int),
        lists_all(rows_view(escalations@), store.escalations@, |v: EscalationRuleDtoView| v.created_at as int),
        lists_all(rows_view(recipients@), store.recipients@, |v: RecipientDefView| v.created_at as int),
        lists_all(rows_view(routes@), store.routes@, |v: RouteRuleRowView| v.priority as int),
{
    listing_is_sorted_and_complete::<AlertingEndpointRow>(store.endpoints@);
    listing_is_sorted_and_complete::<SilenceRuleRow>(store.silences@);
    listing_is_sorted_and_complete::<AckRuleRow>(store.acks@);
    listing_is_sorted_and_complete::<AggregationRuleDto>(store.aggregations@);
    listing_is_sorted_and_complete::<CorrelationRuleDto>(store.correlations@);
    listing_is_sorted_and_complete::<EscalationRuleDto>(store.escalations@);
    listing_is_sorted_and_complete::<RecipientDef>(store.recipients@);
    listing_is_sorted_and_complete::<RouteRuleRow>(store.routes@);
}

proof fn lemma_items_same(x: Seq<JsonView>, y: Seq<JsonView>)
    requires
        x.len() <= y.len(),
    ensures
        items_same(x, y) == forall|i: int| 0 <= i < x.len() ==> json_same(#[trigger] x[i], y[i]),
    decreases x.len(),
{
    if x.len() > 0 {
        let front = x.drop_last();
        lemma_items_same(front, y);
        assert forall|i: int| 0 <= i < front.len() implies #[trigger] front[i] == x[i] by {}
        let n = x.len() - 1;
        if items_same(x, y) {
            assert forall|i: int| 0 <= i < x.len() implies json_same(#[trigger] x[i], y[i]) by {
                if i < n {
                    assert(json_same(front[i], y[i]));
                }
            }
        }
        if forall|i: int| 0 <= i < x.len() ==> json_same(#[trigger] x[i], y[i]) {
            assert(json_same(x[n], y[n]));
            assert forall|i: int| 0 <= i < front.len() implies json_same(#[trigger] front[i], y[i]) by {
                assert(json_same(x[i], y[i]));
            }
        }
    }
}

proof fn lemma_members_same(x: Seq<(Seq<char>, JsonView)>, y: Seq<(Seq<char>, JsonView)>)
    ensures
        members_same(x, y) == forall|i: int|
            0 <= i < x.len() ==> member_of(y, (#[trigger] x[i]).0) is Some && json_same(
                x[i].1,
                member_of(y, x[i].0)->0,
            ),
    decreases x.len(),
{
    if x.len() > 0 {
        let front = x.drop_last();
        lemma_members_same(front, y);
        assert forall|i: int| 0 <= i < front.len() implies #[trigger] front[i] == x[i] by {}
        let n = x.len() - 1;
        if members_same(x, y) {
            assert forall|i: int| 0 <= i < x.len() implies member_of(y, (#[trigger] x[i]).0) is Some && json_same(
                x[i].1,
                member_of(y, x[i].0)->0,
            ) by {
                if i < n {
                    assert(member_of(y, front[i].0) is Some);
                }
            }
        }
        if forall|i: int|
            0 <= i < x.len() ==> member_of(y, (#[trigger] x[i]).0) is Some && json_same(
                x[i].1,
                member_of(y, x[i].0)->0,
            ) {
            assert(member_of(y, x[n].0) is Some);
            assert forall|i: int| 0 <= i < front.len() implies member_of(y, (#[trigger] front[i]).0) is Some
                && json_same(front[i].1, member_of(y, front[i].0)->0) by {
                assert(member_of(y, x[i].0) is Some);
            }
        }
    }
}

/// Whether an object has a member of the name of this one that equals it.
pub open spec fn has_equal_member(j: JsonView, m: (Seq<char>, JsonView)) -> bool {
    exists|v: JsonView| #[trigger] holds_at(j, m.0, v) && json_same(m.1, v)
}

/// Texts, truth values and nothing equal only themselves. Lists are equal where they are as long and equal
/// item by item; objects where they have as many members and each member of the one equals that of its
/// name in the other, in whatever order. No value equals one of another kind.
pub proof fn values_are_equal_part_by_part(a: &Json, b: &Json, r: bool)
    requires
        call_ensures(json_equal, (a, b), r),
    ensures
        a@ is Text || a@ is Bool || a@ is Null ==> r == (a@ == b@),
        a@ is Number ==> (r ==> b@ is Number) && (a@ == b@ ==> r),
        a@ is Array ==> r == (b@ is Array && a@->Array_0.len() == b@->Array_0.len() && forall|i: int|
            0 <= i < a@->Array_0.len() ==> json_same(#[trigger] a@->Array_0[i], b@->Array_0[i])),
        a@ is Object ==> r == (b@ is Object && a@->Object_0.len() == b@->Object_0.len() && forall|i: int|
            0 <= i < a@->Object_0.len() ==> has_equal_member(b@, #[trigger] a@->Object_0[i])),
{
    if a@ is Array && b@ is Array && a@->Array_0.len() == b@->Array_0.len() {
        lemma_items_same(a@->Array_0, b@->Array_0);
    }
    if a@ is Object && b@ is Object {
        let x = a@->Object_0;
        let y = b@->Object_0;
        lemma_members_same(x, y);
        if members_same(x, y) {
            assert forall|i: int| 0 <= i < x.len() implies has_equal_member(b@, #[trigger] x[i]) by {
                assert(member_of(y, x[i].0) is Some);
                let v = member_of(y, x[i].0)->0;
                members_are_read_by_name(b@, x[i].0, v);
                assert(holds_at(b@, x[i].0, v));
            }
        }
        if forall|i: int| 0 <= i < x.len() ==> has_equal_member(b@, #[trigger] x[i]) {
            assert forall|i: int| 0 <= i < x.len() implies member_of(y, (#[trigger] x[i]).0) is Some && json_same(
                x[i].1,
                member_of(y, x[i].0)->0,
            ) by {
                assert(has_equal_member(b@, x[i]));
                let v = choose|v: JsonView| #[trigger] holds_at(b@, x[i].0, v) && json_same(x[i].1, v);
                members_are_read_by_name(b@, x[i].0, v);
            }
        }
    }
}

/// A field of a backup is written as a value of its kind and comes back as it was; a truth value comes back
/// as one or zero.
pub proof fn fields_come_back(c: &Cell, j: Json, v: &Json, r: Cell)
    requires
        call_ensures(dump_cell, (c,), j),
        call_ensures(restore_cell, (v,), r),
    ensures
        c@ is Null ==> j@ is Null,
        c@ is Text ==> j@ == JsonView::Text(c@->Text_0),
        c@ is Integer && c@->Integer_0 >= 0 ==> j@ == JsonView::Number(decimal_seq(c@->Integer_0 as nat)),
        v@ == j@ && (c@ is Null || c@ is Text || c@ is Integer) ==> r@ == c@,
        v@ is Bool ==> r@ == CellView::Integer(
            if v@->Bool_0 {
                1
            } else {
                0
            },
        ),
        v@ is Text ==> r@ == CellView::Text(v@->Text_0),
{
    if c@ is Null || c@ is Text || c@ is Integer {
        plain_fields_come_back(c@);
    }
}

/// The name of a backup tells when it was made and by which version.
pub proof fn backups_are_named_by_time_and_version(snapshot: &BackupSnapshot, r: String)
    requires
        call_ensures(backup_filename, (snapshot,), r),
        forall|i: int| 0 <= i < snapshot@.app_version.len() ==> is_file_char(#[trigger] snapshot@.app_version[i]),
    ensures
        r@ == "backup-"@ + decimal_seq(snapshot@.created_at as nat) + "-"@ + snapshot@.app_version + ".json"@,
{
    assert forall|i: int| 0 <= i < snapshot@.app_version.len() implies crate::config::safe_char(
        #[trigger] snapshot@.app_version[i],
    ) == snapshot@.app_version[i] by {
        assert(is_file_char(snapshot@.app_version[i]));
    }
    assert(safe_chars(snapshot@.app_version) =~= snapshot@.app_version);
}

/// What is told of a backup is how many rows each of its tables has and how many plugins have settings in
/// it; of one that cannot be read nothing is told but its name and size.
pub proof fn backups_are_told_by_their_counts(
    filename: &str,
    size: u64,
    snapshot: &BackupSnapshot,
    r: BackupMeta,
    unread: BackupMeta,
    i: int,
)
    requires
        call_ensures(describe_backup, (filename, size, Some(snapshot)), r),
        call_ensures(describe_backup, (filename, size, None::<&BackupSnapshot>), unread),
    ensures
        r@.filename == filename@ && r@.size_bytes == size && r@.created_at == snapshot@.created_at
            && r@.app_version == snapshot@.app_version && r@.plugin_config_count
            == snapshot@.plugin_configs.len(),
        r@.table_counts.len() == snapshot@.tables.len(),
        0 <= i < snapshot@.tables.len() ==> r@.table_counts[i].name == snapshot@.tables[i].name
            && r@.table_counts[i].count == snapshot@.tables[i].rows.len(),
        unread@.filename == filename@ && unread@.size_bytes == size && unread@.created_at == 0
            && unread@.table_counts.len() == 0 && unread@.plugin_config_count == 0,
{
}

proof fn lemma_settings(files: Seq<SettingsFileView>, e: PluginConfigEntryView)
    ensures
        all_settings_in(files).contains(e) == exists|i: int|
            0 <= i < files.len() && settings_in(#[trigger] files[i]) == Some(e),
    decreases files.len(),
{
    let all = all_settings_in(files);
    if files.len() > 0 {
        let front = files.drop_last();
        let n = files.len() - 1;
        lemma_settings(front, e);
        let before = all_settings_in(front);
        if before.contains(e) {
            let i = choose|i: int| 0 <= i < front.len() && settings_in(#[trigger] front[i]) == Some(e);
            assert(files[i] == front[i]);
            let p = choose|p: int| 0 <= p < before.len() && before[p] == e;
            assert(all[p] == e);
        }
        if all.contains(e) && !before.contains(e) {
            let p = choose|p: int| 0 <= p < all.len() && all[p] == e;
            if p < before.len() {
                assert(before[p] == e);
            }
            assert(settings_in(files[n]) == Some(e));
        }
        if exists|i: int| 0 <= i < files.len() && settings_in(#[trigger] files[i]) == Some(e) {
            let i = choose|i: int| 0 <= i < files.len() && settings_in(#[trigger] files[i]) == Some(e);
            if i < n {
                assert(front[i] == files[i]);
            } else {
                assert(all[before.len() as int] == e);
            }
        }
    }
}

/// The settings of a plugin are backed up from the file that bears its id and `.json`, where anything is
/// in it; what cannot be read counts as nothing.
pub proof fn settings_are_backed_up_from_their_files(
    files: &Vec<SettingsFile>,
    r: Vec<PluginConfigEntry>,
    id: Seq<char>,
    config: JsonView,
    k: int,
)
    requires
        call_ensures(read_plugin_configs, (files,), r),
        0 <= k < files@.len(),
        id.len() > 0,
        files@[k]@.name == id + ".json"@,
        !is_blank_seq(files@[k]@.text),
    ensures
        json_read(files@[k]@.text) == Ok::<JsonView, Seq<char>>(config) ==> rows_view(r@).contains(
            PluginConfigEntryView { id, config },
        ),
        json_read(files@[k]@.text) is Err ==> rows_view(r@).contains(
            PluginConfigEntryView { id, config: JsonView::Null },
        ),
{
    reveal_strlit(".json");
    let all = rows_view(files@);
    let name = files@[k]@.name;
    assert(all[k] == files@[k]@);
    assert(name.subrange(name.len() - 5, name.len() as int) =~= ".json"@);
    assert(ends_with_seq(name, ".json"@));
    assert(name.take(name.len() - 5) =~= id);
    lemma_settings(all, PluginConfigEntryView { id, config });
    lemma_settings(all, PluginConfigEntryView { id, config: JsonView::Null });
    assert(settings_in(all[k]) is Some);
}

proof fn lemma_and(j: JsonView, key: Seq<char>, v: JsonView, other: Seq<char>)
    requires
        j is Object,
    ensures
        and_member(j, key, v) is Object,
        get_member(and_member(j, key, v), other) == (match get_member(j, other) {
            Some(x) => Some(x),
            None => if key == other {
                Some(v)
            } else {
                None
            },
        }),
{
    lemma_pushed_member(j->Object_0, key, v, other);
}

proof fn lemma_pushed_member(m: Seq<(Seq<char>, JsonView)>, key: Seq<char>, v: JsonView, other: Seq<char>)
    ensures
        member_of(m.push((key, v)), other) == (match member_of(m, other) {
            Some(x) => Some(x),
            None => if key == other {
                Some(v)
            } else {
                None
            },
        }),
    decreases m.len(),
{
    let all = m.push((key, v));
    if m.len() == 0 {
        assert(all[0] == (key, v));
        assert(all.drop_first().len() == 0);
        assert(member_of(all.drop_first(), other) is None);
    } else {
        assert(all[0] == m[0]);
        assert(all.drop_first() =~= m.drop_first().push((key, v)));
        lemma_pushed_member(m.drop_first(), key, v, other);
    }
}

/// What is on the clipboard is shown as text; an image only where there is no text.
pub proof fn clipboards_show_text_before_images(text: &str, image: &str, a: Json, b: Json, c: Json)
    requires
        call_ensures(content, (Some(text), Some(image)), a),
        call_ensures(content, (None::<&str>, Some(image)), b),
        call_ensures(content, (None::<&str>, None::<&str>), c),
    ensures
        holds_at(a@, "text"@, JsonView::Text(text@)),
        no_text_at(a@, "image"@),
        holds_at(b@, "text"@, JsonView::Text(Seq::empty())),
        holds_at(b@, "image"@, JsonView::Text(image@)),
        holds_at(c@, "text"@, JsonView::Text(Seq::empty())),
        no_text_at(c@, "image"@),
{
    reveal_strlit("text");
    reveal_strlit("image");
    assert("text"@.len() == 4 && "image"@.len() == 5);
    let empty = JsonView::Text(Seq::empty());
    lemma_and(no_members(), "text"@, JsonView::Text(text@), "text"@);
    lemma_and(no_members(), "text"@, JsonView::Text(text@), "image"@);
    lemma_and(no_members(), "text"@, empty, "text"@);
    lemma_and(no_members(), "text"@, empty, "image"@);
    let one = and_member(no_members(), "text"@, empty);
    lemma_and(one, "image"@, JsonView::Text(image@), "text"@);
    lemma_and(one, "image"@, JsonView::Text(image@), "image"@);
    members_are_read_by_name(a@, "text"@, JsonView::Text(text@));
    members_are_read_by_name(b@, "text"@, empty);
    members_are_read_by_name(b@, "image"@, JsonView::Text(image@));
    members_are_read_by_name(c@, "text"@, empty);
    assert forall|t: Seq<char>| !#[trigger] holds_at(a@, "image"@, JsonView::Text(t)) by {
        members_are_read_by_name(a@, "image"@, JsonView::Text(t));
    }
    assert forall|t: Seq<char>| !#[trigger] holds_at(c@, "image"@, JsonView::Text(t)) by {
        members_are_read_by_name(c@, "image"@, JsonView::Text(t));
    }
}

/// The app in front is the one that its script names, with the title of its window; where the script
/// names none, it is the one whose bundle is in front, and the answer says that less is known.
pub proof fn the_app_in_front_is_named(
    front: Option<&str>,
    bundle: Option<&str>,
    clipboard: Option<&str>,
    screen: bool,
    named: (String, Option<String>),
    id: Option<String>,
    r: Json,
)
    requires
        call_ensures(current, (front, bundle, clipboard, screen), r),
        front is Some ==> call_ensures(parse_applescript, (front->0,), named),
        bundle is Some ==> call_ensures(parse_lsappinfo_bundle, (bundle->0,), id),
    ensures
        holds_at(r@, "screen_available"@, JsonView::Bool(screen)),
        clipboard is None ==> holds_at(r@, "clipboard"@, JsonView::Null),
        front is Some && named.0@.len() > 0 ==> {
            &&& holds_at(r@, "active_app"@, JsonView::Text(named.0@))
            &&& named.1 is Some ==> holds_at(r@, "window_title"@, JsonView::Text(named.1->0@))
            &&& named.1 is None ==> holds_at(r@, "window_title"@, JsonView::Null)
            &&& holds_at(r@, "degraded"@, JsonView::Bool(false))
        },
        front is None || named.0@.len() == 0 ==> {
            &&& bundle is Some && id is Some ==> holds_at(r@, "active_app"@, JsonView::Text(id->0@))
            &&& bundle is None || id is None ==> holds_at(r@, "active_app"@, JsonView::Text(Seq::empty()))
            &&& holds_at(r@, "window_title"@, JsonView::Null)
            &&& holds_at(r@, "degraded"@, JsonView::Bool(true))
        },
{
    reveal_strlit("active_app");
    reveal_strlit("window_title");
    reveal_strlit("clipboard");
    reveal_strlit("screen_available");
    reveal_strlit("degraded");
    assert("active_app"@.len() == 10 && "window_title"@.len() == 12 && "clipboard"@.len() == 9
        && "screen_available"@.len() == 16 && "degraded"@.len() == 8);
    let m = r@->Object_0;
    assert(m.len() == 5);
    assert(m[0].0 == "active_app"@ && m[1].0 == "window_title"@ && m[2].0 == "clipboard"@ && m[3].0
        == "screen_available"@ && m[4].0 == "degraded"@);
    lemma_at(m, 0);
    lemma_at(m, 1);
    lemma_at(m, 2);
    lemma_at(m, 3);
    lemma_at(m, 4);
}

/// An object holds under each of its names the first value that bears it.
pub proof fn lemma_at(m: Seq<(Seq<char>, JsonView)>, i: int)
    requires
        0 <= i < m.len(),
        forall|k: int| 0 <= k < i ==> (#[trigger] m[k]).0 != m[i].0,
    ensures
        holds_at(JsonView::Object(m), m[i].0, m[i].1),
{
    let (key, v) = m[i];
    assert(m[i] == (key, v));
    let j = JsonView::Object(m);
    let members = j->Object_0;
    assert(members =~= m);
    assert(members[i] == (key, v) && (forall|k: int| 0 <= k < i ==> (#[trigger] members[k]).0 != key));
    assert(holds_at(j, key, v));
}

/// The settings of a plugin are in the file that bears its id and `.json`.
pub proof fn settings_files_bear_the_id(file: &str, id: Seq<char>, r: Option<String>)
    requires
        call_ensures(plugin_of_file, (file,), r),
    ensures
        file@ == id + ".json"@ && !ends_with_seq(id, ".json"@) ==> r is Some && r->0@ == id,
        file@ == id + ".json.tmp"@ ==> r is None,
{
    reveal_strlit(".json");
    reveal_strlit(".json.tmp");
    let n = file@.len() as int;
    if file@ == id + ".json"@ {
        assert(file@.subrange(n - 5, n) =~= ".json"@);
        assert(ends_with_seq(file@, ".json"@));
        if ends_with_seq(file@, ".json.tmp"@) {
            assert(file@.subrange(n - 9, n)[8] == file@[n - 1]);
            assert(file@[n - 1] == 'n');
        }
        assert(file@.take(n - 5) =~= id);
        reveal_with_fuel(crate::config::without_endings, 2);
    }
    if file@ == id + ".json.tmp"@ {
        if ends_with_seq(file@, ".json"@) {
            assert(file@.subrange(n - 5, n)[4] == file@[n - 1]);
            assert(file@[n - 1] == 'p');
        }
    }
}

/// On the command line, rules are listed, added where they are in order, and removed where they are there;
/// only what is refused ends in an error.
pub proof fn commands_are_refused_where_they_fail(
    rules: &mut Vec<Json>,
    command: &RuleCommand,
    nanos: u64,
    r: CommandAnswer,
    answer: &CommandAnswer,
    code: i32,
)
    requires
        call_ensures(answer_command, (rules, command, nanos), r),
        *answer == r,
        call_ensures(CommandAnswer::exit_code, (answer,), code),
    ensures
        code == if r@ is Refused {
            1int
        } else {
            0int
        },
        *command is List ==> items_view(final(rules)@) == items_view(old(rules)@) && r@ is Shown && holds_at(
            r@->Shown_0,
            "rules"@,
            JsonView::Array(items_view(old(rules)@)),
        ),
        *command is Add && json_read(command->spec@) is Err ==> r@ is Refused && items_view(final(rules)@)
            == items_view(old(rules)@),
        *command is Add && r@ is Shown ==> items_view(final(rules)@) == items_view(old(rules)@).push(
            r@->Shown_0,
        ),
        *command is Add && r@ is Refused ==> items_view(final(rules)@) == items_view(old(rules)@),
        *command is Remove ==> r@ is Refused == (forall|k: int|
            0 <= k < items_view(old(rules)@).len() ==> !holds_at(
                #[trigger] items_view(old(rules)@)[k],
                "id"@,
                JsonView::Text(command->id@),
            )),
{
    let all = items_view(old(rules)@);
    if *command is List {
        let m = r@->Shown_0->Object_0;
        assert(m[0] == ("rules"@, JsonView::Array(all)));
        lemma_at(m, 0);
    }
    if *command is Remove {
        let id = command->id@;
        assert forall|k: int| 0 <= k < all.len() implies has_id(#[trigger] all[k], id) == holds_at(
            all[k],
            "id"@,
            JsonView::Text(id),
        ) by {
            members_are_read_by_name(all[k], "id"@, JsonView::Text(id));
        }
    }
}

/// Of a document, those of its rules that are objects are taken, in order.
pub proof fn rules_are_read_from_their_document(doc: &Json, items: Seq<JsonView>, v: JsonView, r: Vec<Json>)
    requires
        call_ensures(rules_in, (doc,), r),
        holds_at(doc@, "rules"@, JsonView::Array(items)),
    ensures
        items_view(r@).contains(v) == (items.contains(v) && v is Object),
        items_view(r@).len() <= items.len(),
{
    members_are_read_by_name(doc@, "rules"@, JsonView::Array(items));
    let object = |j: JsonView| crate::automation::is_object(j);
    crate::alerting::rule_laws::lemma_kept_members(items, object);
    lemma_kept_len(items, object);
}

proof fn lemma_kept_len<V>(s: Seq<V>, f: spec_fn(V) -> bool)
    ensures
        crate::alerting::store::kept(s, f).len() <= s.len(),
    decreases s.len(),
{
    if s.len() > 0 {
        lemma_kept_len(s.drop_last(), f);
    }
}

/// A report names the rule, the command and the agent, the one it names or else the one it came from;
/// without a rule there is none.
pub proof fn reports_name_their_rule(
    v: &Json,
    default_agent: &str,
    rule: Seq<char>,
    agent: Seq<char>,
    r: Option<Json>,
)
    requires
        call_ensures(rule_audit_of, (v, default_agent), r),
        holds_at(v@, "agent"@, JsonView::Text(agent)) || (no_text_at(v@, "agent"@) && agent
            == default_agent@),
    ensures
        no_text_at(v@, "__rule"@) ==> r is None,
        holds_at(v@, "__rule"@, JsonView::Text(rule)) ==> r is Some && holds_at(
            r->0@,
            "ruleId"@,
            JsonView::Text(rule),
        ) && holds_at(r->0@, "agent"@, JsonView::Text(agent)),
{
    lemma_text(v@, "__rule"@);
    lemma_text(v@, "agent"@);
    if holds_at(v@, "__rule"@, JsonView::Text(rule)) {
        reveal_strlit("ruleId");
        reveal_strlit("agent");
        assert("ruleId"@.len() == 6 && "agent"@.len() == 5);
        let m = r->0@->Object_0;
        assert(m.len() >= 3);
        assert(m[0] == ("ruleId"@, JsonView::Text(rule)) && m[1] == ("agent"@, JsonView::Text(agent)));
        lemma_at(m, 0);
        lemma_at(m, 1);
    }
}

proof fn lemma_text(j: JsonView, key: Seq<char>)
    ensures
        forall|t: Seq<char>| #[trigger]
            holds_at(j, key, JsonView::Text(t)) == (text_member(j, key) == Some(t)),
        no_text_at(j, key) == (text_member(j, key) is None),
{
    assert forall|t: Seq<char>| #[trigger]
        holds_at(j, key, JsonView::Text(t)) == (text_member(j, key) == Some(t)) by {
        members_are_read_by_name(j, key, JsonView::Text(t));
    }
    if let Some(x) = text_member(j, key) {
        assert(holds_at(j, key, JsonView::Text(x)));
    }
}

/// A test with a sign compares what its path leads to, a number or a text, with what stands behind the
/// sign; where the path leads nowhere, nothing is compared.
pub proof fn signs_compare_what_stands_behind_them(
    payload: &Json,
    path: &str,
    found: Option<&Json>,
    expr: &str,
    rest: Seq<char>,
    r: Option<(String, String)>,
)
    requires
        call_ensures(comparison_needed, (payload, path, expr), r),
        call_ensures(payload_path_get, (payload, path), found),
        trim_seq(expr@) == expr@,
        rest.len() > 0 && rest[0] != '=',
        expr@ == seq!['>'] + rest || expr@ == seq!['<'] + rest || expr@ == seq!['>', '='] + rest || expr@
            == seq!['<', '='] + rest || expr@ == seq!['=', '='] + rest,
    ensures
        found is None ==> r is None,
        found is Some && found->0@ is Number ==> r is Some && (r->0).0@ == found->0@->Number_0 && (r->0).1@
            == trim_seq(rest),
        found is Some && found->0@ is Text ==> r is Some && (r->0).0@ == found->0@->Text_0 && (r->0).1@
            == trim_seq(rest),
        found is Some && !(found->0@ is Number) && !(found->0@ is Text) ==> r is None,
{
    reveal_strlit(">=");
    reveal_strlit("<=");
    reveal_strlit("==");
    reveal_strlit(">");
    reveal_strlit("<");
    reveal_strlit("=");
    let e = expr@;
    if e == seq!['>', '='] + rest || e == seq!['<', '='] + rest || e == seq!['=', '='] + rest {
        assert(e.skip(2) =~= rest);
        if e[0] == '>' {
            assert(e.subrange(0, 2) =~= ">="@);
        } else if e[0] == '<' {
            assert(e.subrange(0, 2) =~= "<="@);
        } else {
            assert(e.subrange(0, 2) =~= "=="@);
        }
    } else {
        assert(e.skip(1) =~= rest);
        assert(e[1] == rest[0]);
        if starts_with_seq(e, ">="@) || starts_with_seq(e, "<="@) || starts_with_seq(e, "=="@) {
            assert(e.subrange(0, 2)[1] == e[1]);
        }
        if e[0] == '>' {
            assert(e.subrange(0, 1) =~= ">"@);
        } else {
            assert(e.subrange(0, 1) =~= "<"@);
        }
    }
}

/// The overrides of an endpoint come back from the text that they are kept in.
pub proof fn overrides_come_back(
    overrides: &Vec<(String, Severity)>,
    text: String,
    kept: &str,
    r: Vec<(String, Severity)>,
)
    requires
        call_ensures(overrides_text, (overrides,), text),
        kept@ == text@,
        call_ensures(overrides_in, (Some(kept),), r),
    ensures
        overrides_view(r@) == overrides_view(overrides@),
{
}

/// The endpoints of an event are those of the route that takes it.
pub proof fn routes_give_their_endpoints(
    store: &Storage,
    kind: &str,
    payload: &Json,
    numbers: &Vec<Option<Comparison>>,
    recent: &RecentEvents,
    now: u64,
    route: Option<RouteRuleRow>,
    r: Option<Vec<String>>,
)
    requires
        call_ensures(route_target_ids, (store, kind, payload, numbers, recent, now), r),
        call_ensures(match_route, (store, kind, payload, numbers, recent, now), route),
    ensures
        r is Some == route is Some,
        r is Some ==> crate::json::texts_view(r->0@) == route->0@.target_endpoint_ids,
{
}

/// A silence covers an event where it holds for its kind at that time.
pub proof fn silences_cover_what_they_hold_for(row: &SilenceRuleRow, kind: &str, now: u64, r: bool)
    requires
        call_ensures(silence_covers, (row, kind, now), r),
    ensures
        r == silence_holds(row@, kind@, now),
{
    lemma_silence(row@, kind@, now);
}

/// A preview is of the endpoint that is named, where it is there, or of none; a source that is blank has no
/// preview.
pub proof fn previews_are_of_the_endpoint_named(
    store: &Storage,
    source: &str,
    id: &str,
    r: Result<EndpointSeverityPreview, String>,
    i: int,
)
    requires
        call_ensures(preview_alerting_endpoint_severity, (store, source, Some(id)), r),
        id@.len() > 0,
        keys_distinct::<AlertingEndpointRow>(store.endpoints@),
    ensures
        r is Err == is_blank_seq(source@),
        r is Ok && 0 <= i < store.endpoints@.len() && store.endpoints@[i].id == id@
            ==> r->Ok_0.endpoints@.len() == 1 && r->Ok_0.endpoints@[0]@.endpoint_id == id@
            && r->Ok_0.endpoints@[0]@.endpoint_name == store.endpoints@[i].name,
        r is Ok && (forall|k: int|
            0 <= k < store.endpoints@.len() ==> (#[trigger] store.endpoints@[k]).id != id@)
            ==> r->Ok_0.endpoints@.len() == 0,
{
    lemma_position_of::<AlertingEndpointRow>(store.endpoints@, id@);
    if r is Ok {
        let out = rows_view(r->Ok_0.endpoints@);
        assert(out.len() == r->Ok_0.endpoints@.len());
        if 0 <= i < store.endpoints@.len() && store.endpoints@[i].id == id@ {
            let p = position_of::<AlertingEndpointRow>(store.endpoints@, id@)->0;
            if p != i {
                assert(store.endpoints@[p].id != store.endpoints@[i].id);
            }
            assert(out[0] == r->Ok_0.endpoints@[0]@);
        }
    }
}

/// A trial of an endpoint goes to its address, signed for what it sends, and says which endpoint it is for.
pub proof fn endpoint_trials_are_signed(
    store: &Storage,
    id: &str,
    now: u64,
    ep: AlertingEndpointRowView,
    url: &str,
    good: Result<(), String>,
    r: Result<Delivery, String>,
)
    requires
        call_ensures(test_endpoint_request, (store, id, now), r),
        keys_distinct::<AlertingEndpointRow>(store.endpoints@),
        store.endpoints@.contains(ep),
        ep.id == id@,
        url@ == ep.url,
        call_ensures(crate::alerting::config::validate_url, (url,), good),
    ensures
        r is Ok == good is Ok,
        r is Ok ==> r->Ok_0@.url == ep.url && r->Ok_0@.endpoint_id == Some(ep.id) && signed_for(
            ep,
            r->Ok_0@.headers,
            r->Ok_0@.body,
        ) && is_plain_body(
            r->Ok_0@.body,
            "webhook.test"@,
            JsonView::Object(
                seq![
                    ("endpoint"@, JsonView::Text(ep.name)),
                    ("message"@, JsonView::Text("Test alert from OpenCapX"@)),
                ],
            ),
            now,
        ),
{
    lemma_position_of::<AlertingEndpointRow>(store.endpoints@, id@);
    let i = choose|i: int| 0 <= i < store.endpoints@.len() && store.endpoints@[i] == ep;
    let p = position_of::<AlertingEndpointRow>(store.endpoints@, id@)->0;
    if p != i {
        assert(store.endpoints@[p].id != store.endpoints@[i].id);
    }
    if r is Ok {
        lemma_signed(ep, r->Ok_0@.body);
    }
}

/// What a search has found is answered in the order of the alphabet, each path as often as it was found.
pub proof fn searches_answer_in_order(search: FileSearch, r: Json, items: Seq<JsonView>)
    requires
        call_ensures(FileSearch::answer, (search,), r),
        holds_at(r@, "matches"@, JsonView::Array(items)),
    ensures
        items.len() == search@.found.len(),
        forall|i: int| 0 <= i < items.len() ==> #[trigger] items[i] is Text,
        forall|i: int, j: int|
            0 <= i < j < items.len() ==> !text_order()(
                (#[trigger] items[j])->Text_0,
                (#[trigger] items[i])->Text_0,
            ),
        holds_at(r@, "truncated"@, JsonView::Bool(search@.truncated)),
{
    reveal_strlit("matches");
    reveal_strlit("truncated");
    assert("matches"@.len() == 7 && "truncated"@.len() == 9);
    lemma_text_orders();
    sorting_keeps_every_value(search@.found, text_order());
    let m = r@->Object_0;
    assert(m.len() == 2);
    assert(m[0].0 == "matches"@ && m[1].0 == "truncated"@);
    lemma_at(m, 0);
    lemma_at(m, 1);
    members_are_read_by_name(r@, "matches"@, JsonView::Array(items));
    members_are_read_by_name(r@, "matches"@, m[0].1);
    let all = sorted(search@.found, text_order());
    assert(in_order(all, text_order()));
    assert forall|i: int, j: int| 0 <= i < j < items.len() implies !text_order()(
        (#[trigger] items[j])->Text_0,
        (#[trigger] items[i])->Text_0,
    ) by {
        assert(items[i] == JsonView::Text(all[i]) && items[j] == JsonView::Text(all[j]));
        assert(!text_order()(all[j], all[i]));
    }
}

proof fn lemma_unprovided(
    registered: Seq<ListingView>,
    ids: Seq<Seq<char>>,
    value: spec_fn(Seq<char>) -> JsonView,
    id: Seq<char>,
)
    requires
        ids.contains(id),
        !is_registered(registered, id),
    ensures
        unprovided(registered, ids, value).contains(value(id)),
    decreases ids.len(),
{
    let front = ids.drop_last();
    let all = unprovided(registered, ids, value);
    let before = unprovided(registered, front, value);
    if ids.last() == id {
        assert(all[before.len() as int] == value(id));
    } else {
        let i = choose|i: int| 0 <= i < ids.len() && ids[i] == id;
        assert(front[i] == id);
        lemma_unprovided(registered, front, value, id);
        let p = choose|p: int| 0 <= p < before.len() && before[p] == value(id);
        assert(all[p] == value(id));
    }
}

/// All that plugins provide is listed; and what comes along and no plugin provides is listed with the core
/// as its provider.
pub proof fn what_comes_along_is_listed(
    registry: &Registry,
    provided: Vec<Listing>,
    id: &str,
    own: bool,
    r: Json,
    items: Seq<JsonView>,
)
    requires
        call_ensures(list, (Some(registry),), r),
        call_ensures(registered_capabilities, (registry,), provided),
        call_ensures(has_builtin, (id,), own),
        holds_at(r@, "capabilities"@, JsonView::Array(items)),
    ensures
        items.len() >= provided@.len(),
        forall|i: int|
            0 <= i < provided@.len() ==> holds_at(
                items[i],
                "id"@,
                JsonView::Text((#[trigger] provided@[i])@.id),
            ),
        own && (forall|i: int| 0 <= i < provided@.len() ==> (#[trigger] provided@[i])@.id != id@)
            ==> exists|k: int|
            0 <= k < items.len() && holds_at(#[trigger] items[k], "id"@, JsonView::Text(id@)) && holds_at(
                items[k],
                "providers"@,
                JsonView::Array(seq![JsonView::Text("core"@)]),
            ),
{
    let reg = registered(registry@.rows);
    let out = rows_view(provided@);
    assert(out == reg && out.len() == provided@.len());
    let m = r@->Object_0;
    assert(m.len() == 1);
    lemma_at(m, 0);
    members_are_read_by_name(r@, "capabilities"@, JsonView::Array(items));
    members_are_read_by_name(r@, "capabilities"@, m[0].1);
    let value = |i: Seq<char>| core_value(i);
    let first = listing_values(reg);
    let second = unprovided(reg, provided_ids(), value);
    let third = unprovided(reg, watched_ids(), |i: Seq<char>| watched_value(i));
    assert(items == first + second + third);
    assert forall|i: int| 0 <= i < provided@.len() implies holds_at(
        items[i],
        "id"@,
        JsonView::Text((#[trigger] provided@[i])@.id),
    ) by {
        assert(out[i] == provided@[i]@);
        assert(items[i] == first[i]);
        let f = first[i]->Object_0;
        assert(f[0] == ("id"@, JsonView::Text(out[i].id)));
        lemma_at(f, 0);
    }
    if own && (forall|i: int| 0 <= i < provided@.len() ==> (#[trigger] provided@[i])@.id != id@) {
        assert(!is_registered(reg, id@)) by {
            if is_registered(reg, id@) {
                let i = choose|i: int| 0 <= i < reg.len() && (#[trigger] reg[i]).id == id@;
                assert(out[i] == provided@[i]@);
            }
        }
        lemma_unprovided(reg, provided_ids(), value, id@);
        let p = choose|p: int| 0 <= p < second.len() && second[p] == value(id@);
        let k = first.len() + p;
        assert(items[k] == core_value(id@));
        reveal_strlit("id");
        reveal_strlit("version");
        reveal_strlit("providers");
        assert("id"@.len() == 2 && "version"@.len() == 7 && "providers"@.len() == 9);
        let c = core_value(id@)->Object_0;
        assert(c[0] == ("id"@, JsonView::Text(id@)) && c[1].0 == "version"@ && c[2].0 == "providers"@);
        lemma_at(c, 0);
        lemma_at(c, 2);
        assert(c[2].1->Array_0 =~= seq![JsonView::Text("core"@)]);
        assert(holds_at(items[k], "id"@, JsonView::Text(id@)));
    }
}

} // verus!
