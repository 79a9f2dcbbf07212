//! Automation: rules that say what is done when an event of some kind comes.

use vstd::prelude::*;

use crate::alerting::stamps::{Stamp, StampView};
use crate::alerting::store::{kept, put_then_get, row_with, with_row, Table};
use crate::crypt::{hex_number, hex_seq};
use crate::event::{OpencapxEvent, OpencapxEventView};
use crate::json::{
    get_member, items_view, json_read, json_view, lemma_items_view, lemma_members_view,
    members_view, parse_json, Json, JsonView,
};
use crate::text::{
    chars_of, complaint, contains, contains_seq, ends_with, ends_with_seq, join, join3, same,
    slice_text,
};
use crate::values::{
    and_member, bool_member, empty_object, json_equal, json_same, no_members, set_member,
    text_member, text_or, text_value, with_member,
};

verus! {

/// How many nanoseconds pass at least between two firings of a rule.
pub const RULE_COOLDOWN: u64 = 5000000000;

/// Whether a value is an object.
pub open spec fn is_object(j: JsonView) -> bool {
    j is Object
}

/// The rules that a file of rules holds: the objects in the list under `rules`.
pub open spec fn rules_of(doc: JsonView) -> Seq<JsonView> {
    match get_member(doc, "rules"@) {
        Some(JsonView::Array(items)) => kept(items, |j: JsonView| is_object(j)),
        _ => Seq::empty(),
    }
}

/// The rules that the text of a file holds: none where it is no JSON.
pub open spec fn rules_read(text: Seq<char>) -> Seq<JsonView> {
    match json_read(text) {
        Ok(doc) => rules_of(doc),
        Err(_) => Seq::empty(),
    }
}

/// The rules that a file of rules holds: the objects in the list under `rules`.
pub fn rules_in(doc: &Json) -> (r: Vec<Json>)
    ensures
        items_view(r@) == rules_of(doc@),
{
    let mut out: Vec<Json> = Vec::new();
    assert(items_view(out@) =~= Seq::empty());
    if let Some(found) = doc.member("rules") {
        if let Json::Array(items) = found {
            let ghost all = items_view(items@);
            proof {
                lemma_items_view(items@);
                assert(json_view(*found) == found@);
                assert(found@ == JsonView::Array(all));
            }
            let ghost good = |j: JsonView| is_object(j);
            let mut i: usize = 0;
            assert(items_view(out@) =~= kept(all.take(0), good));
            while i < items.len()
                invariant
                    i <= items@.len(),
                    all == items_view(items@),
                    all.len() == items@.len(),
                    good == (|j: JsonView| is_object(j)),
                    forall|k: int| 0 <= k < items@.len() ==> all[k] == #[trigger] json_view(items@[k]),
                    items_view(out@) == kept(all.take(i as int), good),
                decreases items@.len() - i,
            {
                let ghost next = all.take(i + 1);
                let ghost before = out@;
                assert(next.drop_last() =~= all.take(i as int));
                assert(next.last() == json_view(items@[i as int]));
                if let Json::Object(_) = &items[i] {
                    assert(good(next.last()));
                    out.push(items[i].clone());
                    assert(out@.drop_last() =~= before);
                    assert(json_view(out@.last()) == out@.last()@);
                } else {
                    assert(!good(next.last()));
                }
                i += 1;
            }
            assert(all.take(all.len() as int) =~= all);
        }
    }
    out
}

/// The rules that the text of a file holds: none where it is no JSON.
pub fn read_rules(text: &str) -> (r: Vec<Json>)
    ensures
        items_view(r@) == rules_read(text@),
{
    match parse_json(text) {
        Ok(doc) => rules_in(&doc),
        Err(_) => {
            let r: Vec<Json> = Vec::new();
            assert(items_view(r@) =~= Seq::empty());
            r
        },
    }
}

/// A file of rules.
pub open spec fn rules_doc(rules: Seq<JsonView>) -> JsonView {
    and_member(no_members(), "rules"@, JsonView::Array(rules))
}

/// A file of rules.
pub fn rules_file(rules: Vec<Json>) -> (r: Json)
    ensures
        r@ == rules_doc(items_view(rules@)),
{
    let list: Json = Json::Array(rules);
    assert(list@ == JsonView::Array(items_view(rules@)));
    empty_object().with("rules", list)
}

/// What is written to a file of rules is read back from it.
pub proof fn rules_come_back(rules: Seq<JsonView>)
    requires
        forall|i: int| 0 <= i < rules.len() ==> is_object(#[trigger] rules[i]),
    ensures
        rules_of(rules_doc(rules)) == rules,
{
    let members = seq![("rules"@, JsonView::Array(rules))];
    assert(rules_doc(rules) == JsonView::Object(members));
    assert(members[0].0 == "rules"@);
    lemma_all_kept(rules, |j: JsonView| is_object(j));
}

proof fn lemma_all_kept(s: Seq<JsonView>, f: spec_fn(JsonView) -> bool)
    requires
        forall|i: int| 0 <= i < s.len() ==> f(#[trigger] s[i]),
    ensures
        kept(s, f) == s,
    decreases s.len(),
{
    if s.len() > 0 {
        lemma_all_kept(s.drop_last(), f);
        assert(s.drop_last().push(s.last()) =~= s);
    } else {
        assert(kept(s, f) =~= s);
    }
}

/// What is wrong with a rule.
pub open spec fn rule_complaint(when: JsonView, then: JsonView) -> Option<Seq<char>> {
    let action = text_or(then, "action"@, Seq::empty());
    if text_or(when, "event"@, Seq::empty()).len() == 0 {
        Some("when.event (string) is required, e.g. \"capability.event\""@)
    } else if get_member(when, "match"@) is Some && !is_object(get_member(when, "match"@)->Some_0) {
        Some("when.match must be an object of {field: value}"@)
    } else if action == "notify"@ {
        if text_or(then, "body"@, Seq::empty()).len() == 0 {
            Some("then.body is required for notify"@)
        } else {
            None
        }
    } else if action == "say"@ {
        if text_or(then, "text"@, Seq::empty()).len() == 0 {
            Some("then.text is required for say"@)
        } else {
            None
        }
    } else {
        Some("unknown then.action: "@ + action + " (allowed: notify, say)"@)
    }
}

/// A rule as it is kept.
pub open spec fn rule_with_id(id: Seq<char>, when: JsonView, then: JsonView) -> JsonView {
    and_member(
        and_member(
            and_member(
                and_member(no_members(), "id"@, JsonView::Text(id)),
                "enabled"@,
                JsonView::Bool(true),
            ),
            "when"@,
            when,
        ),
        "then"@,
        then,
    )
}

/// Checks a rule and hands out what is kept of it. Its id is made of the nanosecond.
pub fn validate_rule(when: &Json, then_do: &Json, nanos: u64) -> (r: Result<Json, String>)
    ensures
        complaint(r) == rule_complaint(when@, then_do@),
        r is Ok ==> r->Ok_0@ == rule_with_id("rule-"@ + hex_seq(nanos as nat), when@, then_do@),
{
    proof {
        reveal_strlit("");
        assert(""@ =~= Seq::<char>::empty());
    }
    if when.text_at_or("event", "").is_empty() {
        return Err(
            "when.event (string) is required, e.g. \"capability.event\"".to_string(),
        );
    }
    if let Some(m) = when.member("match") {
        assert(json_view(*m) == m@);
        if let Json::Object(_) = m {
        } else {
            return Err("when.match must be an object of {field: value}".to_string());
        }
    }
    let action: &str = then_do.text_at_or("action", "");
    if same(action, "notify") {
        if then_do.text_at_or("body", "").is_empty() {
            return Err("then.body is required for notify".to_string());
        }
    } else if same(action, "say") {
        if then_do.text_at_or("text", "").is_empty() {
            return Err("then.text is required for say".to_string());
        }
    } else {
        return Err(join3("unknown then.action: ", action, " (allowed: notify, say)"));
    }
    let id: String = join("rule-", hex_number(nanos).as_str());
    Ok(
        empty_object().with("id", Json::Text(id)).with("enabled", Json::Bool(true)).with(
            "when",
            when.clone(),
        ).with("then", then_do.clone()),
    )
}

/// Adds a rule at the end of the rules, if nothing is wrong with it.
pub fn add_rule(rules: &mut Vec<Json>, when: &Json, then_do: &Json, nanos: u64) -> (r: Result<
    Json,
    String,
>)
    ensures
        complaint(r) == rule_complaint(when@, then_do@),
        match r {
            Ok(rule) => {
                &&& rule@ == rule_with_id("rule-"@ + hex_seq(nanos as nat), when@, then_do@)
                &&& items_view(final(rules)@) == items_view(old(rules)@).push(rule@)
            },
            Err(_) => final(rules)@ == old(rules)@,
        },
{
    let rule: Json = match validate_rule(when, then_do, nanos) {
        Ok(rule) => rule,
        Err(e) => {
            return Err(e);
        },
    };
    let ghost before = rules@;
    let copy: Json = rule.clone();
    assert(json_view(copy) == rule@);
    rules.push(copy);
    assert(rules@.drop_last() =~= before);
    Ok(rule)
}

/// Whether a rule has this id.
pub open spec fn has_id(rule: JsonView, id: Seq<char>) -> bool {
    text_member(rule, "id"@) == Some(id)
}

fn rule_has_id(rule: &Json, id: &str) -> (r: bool)
    ensures
        r == has_id(rule@, id@),
{
    match rule.text_at("id") {
        Some(t) => same(t, id),
        None => false,
    }
}

/// The rules without those of an id.
pub open spec fn rules_without(rules: Seq<JsonView>, id: Seq<char>) -> Seq<JsonView> {
    kept(rules, |j: JsonView| !has_id(j, id))
}

/// Takes the rules of an id out. Says whether there was one.
pub fn remove_rule(rules: &mut Vec<Json>, id: &str) -> (r: bool)
    ensures
        items_view(final(rules)@) == rules_without(items_view(old(rules)@), id@),
        r == exists|i: int|
            0 <= i < old(rules)@.len() && has_id(#[trigger] items_view(old(rules)@)[i], id@),
{
    let ghost all = items_view(rules@);
    let ghost good = |j: JsonView| !has_id(j, id@);
    let mut out: Vec<Json> = Vec::new();
    let mut gone: bool = false;
    let mut i: usize = 0;
    proof {
        lemma_items_view(rules@);
        assert(items_view(out@) =~= kept(all.take(0), good));
    }
    while i < rules.len()
        invariant
            i <= rules@.len(),
            rules@ == old(rules)@,
            all == items_view(rules@),
            all.len() == rules@.len(),
            good == (|j: JsonView| !has_id(j, id@)),
            forall|k: int| 0 <= k < rules@.len() ==> all[k] == #[trigger] json_view(rules@[k]),
            items_view(out@) == kept(all.take(i as int), good),
            gone == exists|k: int| 0 <= k < i && has_id(#[trigger] all[k], id@),
        decreases rules@.len() - i,
    {
        let ghost next = all.take(i + 1);
        let ghost before = out@;
        assert(next.drop_last() =~= all.take(i as int));
        assert(next.last() == json_view(rules@[i as int]));
        assert(all[i as int] == rules@[i as int]@);
        if rule_has_id(&rules[i], id) {
            gone = true;
            assert(!good(next.last()));
            assert(has_id(all[i as int], id@));
        } else {
            assert(good(next.last()));
            out.push(rules[i].clone());
            assert(out@.drop_last() =~= before);
            assert(json_view(out@.last()) == out@.last()@);
        }
        i += 1;
    }
    assert(all.take(all.len() as int) =~= all);
    *rules = out;
    gone
}

/// A rule switched on or off.
pub open spec fn switched(rule: JsonView, enabled: bool) -> JsonView {
    match rule {
        JsonView::Object(members) => JsonView::Object(
            with_member(members, "enabled"@, JsonView::Bool(enabled)),
        ),
        _ => rule,
    }
}

/// The rules with those of an id switched on or off.
pub open spec fn rules_switched(rules: Seq<JsonView>, id: Seq<char>, enabled: bool) -> Seq<JsonView> {
    Seq::new(
        rules.len(),
        |i: int|
            if has_id(rules[i], id) {
                switched(rules[i], enabled)
            } else {
                rules[i]
            },
    )
}

/// The last rule of an id, switched on or off.
pub open spec fn last_switched(rules: Seq<JsonView>, id: Seq<char>, enabled: bool) -> Option<JsonView>
    decreases rules.len(),
{
    if rules.len() == 0 {
        None
    } else if has_id(rules.last(), id) {
        Some(switched(rules.last(), enabled))
    } else {
        last_switched(rules.drop_last(), id, enabled)
    }
}

fn switch_rule(rule: Json, enabled: bool) -> (r: Json)
    ensures
        r@ == switched(rule@, enabled),
{
    match rule {
        Json::Object(members) => {
            let mut members: Vec<(String, Json)> = members;
            set_member(&mut members, "enabled", Json::Bool(enabled));
            let r: Json = Json::Object(members);
            assert(r@ == JsonView::Object(members_view(members@)));
            r
        },
        other => other,
    }
}

/// Switches the rules of an id on or off and hands out the last of them.
pub fn set_enabled_in(rules: &mut Vec<Json>, id: &str, enabled: bool) -> (r: Option<Json>)
    ensures
        items_view(final(rules)@) == rules_switched(items_view(old(rules)@), id@, enabled),
        match r {
            Some(j) => last_switched(items_view(old(rules)@), id@, enabled) == Some(j@),
            None => last_switched(items_view(old(rules)@), id@, enabled) is None,
        },
{
    let ghost start = rules@;
    let ghost all = items_view(start);
    let mut updated: Option<Json> = None;
    let mut i: usize = 0;
    proof {
        lemma_items_view(start);
        assert(all.take(0) =~= Seq::empty());
    }
    while i < rules.len()
        invariant
            i <= rules@.len(),
            rules@.len() == start.len(),
            start == old(rules)@,
            all == items_view(start),
            all.len() == start.len(),
            forall|k: int| 0 <= k < start.len() ==> all[k] == #[trigger] json_view(start[k]),
            forall|k: int| i <= k < start.len() ==> #[trigger] rules@[k] == start[k],
            forall|k: int|
                0 <= k < i ==> json_view(#[trigger] rules@[k]) == rules_switched(
                    all,
                    id@,
                    enabled,
                )[k],
            match updated {
                Some(j) => last_switched(all.take(i as int), id@, enabled) == Some(j@),
                None => last_switched(all.take(i as int), id@, enabled) is None,
            },
        decreases rules@.len() - i,
    {
        let ghost next = all.take(i + 1);
        assert(next.drop_last() =~= all.take(i as int));
        assert(next.last() == json_view(start[i as int]));
        assert(rules@[i as int] == start[i as int]);
        assert(json_view(start[i as int]) == start[i as int]@);
        if rule_has_id(&rules[i], id) {
            let changed: Json = switch_rule(rules[i].clone(), enabled);
            let copy: Json = changed.clone();
            assert(json_view(copy) == changed@);
            rules.set(i, copy);
            updated = Some(changed);
        }
        i += 1;
    }
    proof {
        assert(all.take(all.len() as int) =~= all);
        lemma_items_view(rules@);
        assert(items_view(rules@) =~= rules_switched(all, id@, enabled)) by {
            assert forall|k: int| 0 <= k < all.len() implies items_view(rules@)[k]
                == rules_switched(all, id@, enabled)[k] by {
                assert(items_view(rules@)[k] == json_view(rules@[k]));
            }
        }
    }
    updated
}

/// Switches a rule on or off and hands it out. Complains where there is none of the id.
pub fn set_rule_enabled(rules: &mut Vec<Json>, id: &str, enabled: bool) -> (r: Result<Json, String>)
    ensures
        items_view(final(rules)@) == rules_switched(items_view(old(rules)@), id@, enabled),
        match r {
            Ok(j) => last_switched(items_view(old(rules)@), id@, enabled) == Some(j@),
            Err(e) => last_switched(items_view(old(rules)@), id@, enabled) is None && e@
                == "no such rule: "@ + id@,
        },
{
    match set_enabled_in(rules, id, enabled) {
        Some(rule) => Ok(rule),
        None => Err(join("no such rule: ", id)),
    }
}

/// Whether a payload meets one condition of a rule: an equal member, or one that contains a text
/// where the name of the condition ends in `_contains`.
pub open spec fn condition_met(payload: JsonView, key: Seq<char>, want: JsonView) -> bool {
    if ends_with_seq(key, "_contains"@) {
        match (text_member(payload, key.take(key.len() - 9)), want) {
            (Some(have), JsonView::Text(part)) => contains_seq(have, part),
            _ => false,
        }
    } else {
        match get_member(payload, key) {
            Some(have) => json_same(have, want),
            None => false,
        }
    }
}

/// Whether a payload meets all conditions of a rule.
pub open spec fn conditions_met(
    payload: JsonView,
    conditions: Seq<(Seq<char>, JsonView)>,
) -> bool {
    forall|i: int|
        0 <= i < conditions.len() ==> condition_met(
            payload,
            (#[trigger] conditions[i]).0,
            conditions[i].1,
        )
}

/// Whether an event is one that a rule waits for.
pub open spec fn rule_fits(when: JsonView, ev: OpencapxEventView) -> bool {
    &&& text_member(when, "event"@) == Some(ev.kind)
    &&& match get_member(when, "match"@) {
        Some(JsonView::Object(conditions)) => conditions_met(ev.payload, conditions),
        _ => true,
    }
}

fn meets(payload: &Json, key: &str, want: &Json) -> (r: bool)
    ensures
        r == condition_met(payload@, key@, want@),
{
    if ends_with(key, "_contains") {
        proof {
            reveal_strlit("_contains");
        }
        let cs: Vec<char> = chars_of(key);
        let field: String = slice_text(&cs, 0, cs.len() - 9);
        assert(field@ =~= key@.take(key@.len() - 9));
        match payload.text_at(field.as_str()) {
            Some(have) => match want {
                Json::Text(part) => contains(have, part.as_str()),
                _ => false,
            },
            None => false,
        }
    } else {
        match payload.member(key) {
            Some(have) => json_equal(have, want),
            None => false,
        }
    }
}

/// Whether an event is one that a rule waits for.
pub fn matches(when: &Json, ev: &OpencapxEvent) -> (r: bool)
    ensures
        r == rule_fits(when@, ev@),
{
    match when.text_at("event") {
        Some(want) => if !same(want, ev.kind.as_str()) {
            return false;
        },
        None => {
            return false;
        },
    }
    let conditions: &Vec<(String, Json)> = match when.member("match") {
        Some(Json::Object(members)) => members,
        _ => {
            return true;
        },
    };
    let ghost all = members_view(conditions@);
    proof {
        lemma_members_view(conditions@);
        assert(get_member(when@, "match"@) == Some(JsonView::Object(all)));
    }
    let mut i: usize = 0;
    while i < conditions.len()
        invariant
            i <= conditions@.len(),
            all == members_view(conditions@),
            all.len() == conditions@.len(),
            forall|k: int|
                0 <= k < all.len() ==> #[trigger] all[k] == (
                    conditions@[k].0@,
                    json_view(conditions@[k].1),
                ),
            forall|k: int|
                0 <= k < i ==> condition_met(ev@.payload, (#[trigger] all[k]).0, all[k].1),
            text_member(when@, "event"@) == Some(ev@.kind),
            get_member(when@, "match"@) == Some(JsonView::Object(all)),
        decreases conditions@.len() - i,
    {
        assert(all[i as int] == (conditions@[i as int].0@, json_view(conditions@[i as int].1)));
        assert(json_view(conditions@[i as int].1) == conditions@[i as int].1@);
        if !meets(&ev.payload, conditions[i].0.as_str(), &conditions[i].1) {
            return false;
        }
        i += 1;
    }
    true
}

/// Whether a rule has not fired for a while.
pub open spec fn cooled(fired: Seq<StampView>, id: Seq<char>, clock: u64) -> bool {
    match row_with::<Stamp>(fired, id) {
        Some(s) => clock - s.at >= RULE_COOLDOWN,
        None => true,
    }
}

/// What is remembered once a rule has fired.
pub open spec fn fired_at(fired: Seq<StampView>, id: Seq<char>, clock: u64) -> Seq<StampView> {
    with_row::<Stamp>(fired, StampView { name: id, at: clock })
}

/// Whether a rule has not fired for a while; if so, it is taken to fire now.
pub fn cooled_down(fired: &mut Table<Stamp>, id: &str, clock: u64) -> (r: bool)
    ensures
        r == cooled(old(fired)@, id@, clock),
        final(fired)@ == if r {
            fired_at(old(fired)@, id@, clock)
        } else {
            old(fired)@
        },
{
    let ready: bool = match fired.get(id) {
        Some(s) => s.at <= clock && clock - s.at >= RULE_COOLDOWN,
        None => true,
    };
    if ready {
        fired.put(Stamp { name: id.to_string(), at: clock });
    }
    ready
}

/// A rule that has fired does not fire again within the cooldown.
pub proof fn no_second_firing_within_the_cooldown(
    fired: Seq<StampView>,
    id: Seq<char>,
    clock: u64,
    later: u64,
)
    requires
        crate::alerting::store::keys_distinct::<Stamp>(fired),
        clock <= later < clock + RULE_COOLDOWN,
    ensures
        !cooled(fired_at(fired, id, clock), id, later),
{
    put_then_get::<Stamp>(fired, StampView { name: id, at: clock }, id);
}

/// What is done when a rule fires.
#[derive(Debug)]
pub enum Deed {
    /// A notification is shown.
    Notify { title: String, body: String },
    /// Something is said.
    Say { text: String },
    /// Nothing: the rule asks for something that is not known.
    Nothing,
}

/// What a [`Deed`] holds.
pub enum DeedView {
    Notify { title: Seq<char>, body: Seq<char> },
    Say { text: Seq<char> },
    Nothing,
}

impl View for Deed {
    type V = DeedView;

    open spec fn view(&self) -> DeedView {
        match self {
            Deed::Notify { title, body } => DeedView::Notify { title: title@, body: body@ },
            Deed::Say { text } => DeedView::Say { text: text@ },
            Deed::Nothing => DeedView::Nothing,
        }
    }
}

/// An event that is to be published.
#[derive(Debug)]
pub struct Announcement {
    pub kind: String,
    pub payload: Json,
}

/// What an [`Announcement`] holds.
pub struct AnnouncementView {
    pub kind: Seq<char>,
    pub payload: JsonView,
}

impl View for Announcement {
    type V = AnnouncementView;

    open spec fn view(&self) -> AnnouncementView {
        AnnouncementView { kind: self.kind@, payload: self.payload@ }
    }
}

/// What the firing of a rule leads to: something that is done, and one or two events.
#[derive(Debug)]
pub struct Firing {
    pub deed: Deed,
    pub first: Announcement,
    pub second: Option<Announcement>,
}

/// What a [`Firing`] holds.
pub struct FiringView {
    pub deed: DeedView,
    pub first: AnnouncementView,
    pub second: Option<AnnouncementView>,
}

impl View for Firing {
    type V = FiringView;

    open spec fn view(&self) -> FiringView {
        FiringView {
            deed: self.deed@,
            first: self.first@,
            second: match self.second {
                Some(a) => Some(a@),
                None => None,
            },
        }
    }
}

/// The event that tells of a rule that has fired.
pub open spec fn fired_event(id: Seq<char>, kind: Seq<char>, action: Seq<char>) -> AnnouncementView {
    AnnouncementView {
        kind: "automation.rule_fired"@,
        payload: and_member(
            and_member(
                and_member(no_members(), "ruleId"@, JsonView::Text(id)),
                "event"@,
                JsonView::Text(kind),
            ),
            "action"@,
            JsonView::Text(action),
        ),
    }
}

/// What the firing of a rule leads to.
pub open spec fn firing_of(id: Seq<char>, then: JsonView, kind: Seq<char>) -> FiringView {
    let action = text_or(then, "action"@, Seq::empty());
    if action == "notify"@ {
        let title = text_or(then, "title"@, "OpenCapX Automation"@);
        let body = text_or(then, "body"@, Seq::empty());
        FiringView {
            deed: DeedView::Notify { title, body },
            first: AnnouncementView {
                kind: "notification.posted"@,
                payload: and_member(
                    and_member(
                        and_member(
                            and_member(
                                no_members(),
                                "agentId"@,
                                JsonView::Text("automation"@),
                            ),
                            "title"@,
                            JsonView::Text(title),
                        ),
                        "body"@,
                        JsonView::Text(body),
                    ),
                    "severity"@,
                    JsonView::Text("info"@),
                ),
            },
            second: Some(fired_event(id, kind, action)),
        }
    } else if action == "say"@ {
        let text = text_or(then, "text"@, Seq::empty());
        FiringView {
            deed: DeedView::Say { text },
            first: AnnouncementView {
                kind: "pet.say"@,
                payload: and_member(no_members(), "text"@, JsonView::Text(text)),
            },
            second: Some(fired_event(id, kind, action)),
        }
    } else {
        FiringView {
            deed: DeedView::Nothing,
            first: AnnouncementView {
                kind: "automation.rule_failed"@,
                payload: and_member(
                    and_member(no_members(), "ruleId"@, JsonView::Text(id)),
                    "error"@,
                    JsonView::Text("unknown action: "@ + action),
                ),
            },
            second: None,
        }
    }
}

fn announce_firing(id: &str, kind: &str, action: &str) -> (r: Announcement)
    ensures
        r@ == fired_event(id@, kind@, action@),
{
    Announcement {
        kind: "automation.rule_fired".to_string(),
        payload: empty_object().with("ruleId", text_value(id)).with("event", text_value(kind)).with(
            "action",
            text_value(action),
        ),
    }
}

/// What the firing of a rule leads to. A rule that asks for something that is not known does
/// nothing, and an event tells of that.
pub fn fire(id: &str, then_do: &Json, kind: &str) -> (r: Firing)
    ensures
        r@ == firing_of(id@, then_do@, kind@),
{
    proof {
        reveal_strlit("");
        assert(""@ =~= Seq::<char>::empty());
    }
    let action: &str = then_do.text_at_or("action", "");
    if same(action, "notify") {
        let title: &str = then_do.text_at_or("title", "OpenCapX Automation");
        let body: &str = then_do.text_at_or("body", "");
        Firing {
            deed: Deed::Notify { title: title.to_string(), body: body.to_string() },
            first: Announcement {
                kind: "notification.posted".to_string(),
                payload: empty_object().with("agentId", text_value("automation")).with(
                    "title",
                    text_value(title),
                ).with("body", text_value(body)).with("severity", text_value("info")),
            },
            second: Some(announce_firing(id, kind, action)),
        }
    } else if same(action, "say") {
        let text: &str = then_do.text_at_or("text", "");
        Firing {
            deed: Deed::Say { text: text.to_string() },
            first: Announcement {
                kind: "pet.say".to_string(),
                payload: empty_object().with("text", text_value(text)),
            },
            second: Some(announce_firing(id, kind, action)),
        }
    } else {
        Firing {
            deed: Deed::Nothing,
            first: Announcement {
                kind: "automation.rule_failed".to_string(),
                payload: empty_object().with("ruleId", text_value(id)).with(
                    "error",
                    Json::Text(join("unknown action: ", action)),
                ),
            },
            second: None,
        }
    }
}

/// A rule that was found to be in order does something when it fires.
pub proof fn rules_in_order_do_something(
    id: Seq<char>,
    when: JsonView,
    then: JsonView,
    kind: Seq<char>,
)
    requires
        rule_complaint(when, then) is None,
    ensures
        !(firing_of(id, then, kind).deed is Nothing),
        firing_of(id, then, kind).second is Some,
{
}

/// A part of a value: null where there is none.
pub open spec fn part_of(v: JsonView, key: Seq<char>) -> JsonView {
    match get_member(v, key) {
        Some(part) => part,
        None => JsonView::Null,
    }
}

/// Whether a rule is ready to fire on an event, but for the cooldown.
pub open spec fn rule_waits_for(rule: JsonView, ev: OpencapxEventView) -> bool {
    &&& bool_member(rule, "enabled"@) != Some(false)
    &&& get_member(rule, "when"@) is Some
    &&& rule_fits(get_member(rule, "when"@)->Some_0, ev)
    &&& text_member(rule, "id"@) is Some
}

/// The rules that fire on an event, one after the other, and what is remembered of it.
pub open spec fn engine_run(
    rules: Seq<JsonView>,
    fired: Seq<StampView>,
    ev: OpencapxEventView,
    clock: u64,
) -> (Seq<FiringView>, Seq<StampView>)
    decreases rules.len(),
{
    if rules.len() == 0 {
        (Seq::empty(), fired)
    } else {
        let (done, seen) = engine_run(rules.drop_last(), fired, ev, clock);
        let rule = rules.last();
        let id = text_or(rule, "id"@, Seq::empty());
        if rule_waits_for(rule, ev) && cooled(seen, id, clock) {
            (done.push(firing_of(id, part_of(rule, "then"@), ev.kind)), fired_at(seen, id, clock))
        } else {
            (done, seen)
        }
    }
}

/// The views of firings.
pub open spec fn firings_view(s: Seq<Firing>) -> Seq<FiringView> {
    Seq::new(s.len(), |i: int| s[i]@)
}

fn waiting_rule<'a>(rule: &'a Json, ev: &OpencapxEvent) -> (r: Option<&'a str>)
    ensures
        match r {
            Some(id) => rule_waits_for(rule@, ev@) && text_member(rule@, "id"@) == Some(id@),
            None => !rule_waits_for(rule@, ev@),
        },
{
    if let Some(enabled) = rule.bool_at("enabled") {
        if !enabled {
            return None;
        }
    }
    match rule.member("when") {
        Some(when) => {
            if !matches(when, ev) {
                return None;
            }
        },
        None => {
            return None;
        },
    }
    rule.text_at("id")
}

/// Lets the rules that wait for an event fire, one after the other.
pub fn run_rules(rules: &Vec<Json>, fired: &mut Table<Stamp>, ev: &OpencapxEvent, clock: u64) -> (r:
    Vec<Firing>)
    ensures
        (firings_view(r@), final(fired)@) == engine_run(
            items_view(rules@),
            old(fired)@,
            ev@,
            clock,
        ),
{
    let ghost all = items_view(rules@);
    let ghost start = fired@;
    let mut out: Vec<Firing> = Vec::new();
    let mut i: usize = 0;
    proof {
        lemma_items_view(rules@);
        assert(all.take(0) =~= Seq::empty());
        assert(firings_view(out@) =~= Seq::empty());
    }
    while i < rules.len()
        invariant
            i <= rules@.len(),
            all == items_view(rules@),
            all.len() == rules@.len(),
            start == old(fired)@,
            forall|k: int| 0 <= k < rules@.len() ==> all[k] == #[trigger] json_view(rules@[k]),
            (firings_view(out@), fired@) == engine_run(all.take(i as int), start, ev@, clock),
        decreases rules@.len() - i,
    {
        let ghost next = all.take(i + 1);
        assert(next.drop_last() =~= all.take(i as int));
        assert(next.last() == json_view(rules@[i as int]));
        assert(json_view(rules@[i as int]) == rules@[i as int]@);
        let rule: &Json = &rules[i];
        if let Some(id) = waiting_rule(rule, ev) {
            if cooled_down(fired, id, clock) {
                let ghost before = out@;
                let nothing: Json = Json::Null;
                let then_do: &Json = match rule.member("then") {
                    Some(t) => t,
                    None => &nothing,
                };
                out.push(fire(id, then_do, ev.kind.as_str()));
                assert(firings_view(out@) =~= firings_view(before).push(out@.last()@));
            }
        }
        i += 1;
    }
    assert(all.take(all.len() as int) =~= all);
    out
}

/// A rule that is switched off does not wait for anything.
pub proof fn switched_off_rules_do_not_fire(rule: JsonView, ev: OpencapxEventView)
    requires
        is_object(rule),
    ensures
        !rule_waits_for(switched(rule, false), ev),
{
    crate::values::set_then_read(
        rule->Object_0,
        "enabled"@,
        JsonView::Bool(false),
        "enabled"@,
    );
}

fn part(v: &Json, key: &str) -> (r: Json)
    ensures
        r@ == part_of(v@, key@),
{
    match v.member(key) {
        Some(part) => part.clone(),
        None => Json::Null,
    }
}

/// Adds the rule that a value with `when` and `then` asks for.
pub fn add_spec(rules: &mut Vec<Json>, spec: &Json, nanos: u64) -> (r: Result<Json, String>)
    ensures
        complaint(r) == rule_complaint(part_of(spec@, "when"@), part_of(spec@, "then"@)),
        match r {
            Ok(rule) => {
                &&& rule@ == rule_with_id(
                    "rule-"@ + hex_seq(nanos as nat),
                    part_of(spec@, "when"@),
                    part_of(spec@, "then"@),
                )
                &&& items_view(final(rules)@) == items_view(old(rules)@).push(rule@)
            },
            Err(_) => final(rules)@ == old(rules)@,
        },
{
    add_rule(rules, &part(spec, "when"), &part(spec, "then"), nanos)
}

/// What is asked of the rules on the command line.
#[derive(Debug)]
pub enum RuleCommand {
    List,
    /// Adds the rule that this text, in JSON, asks for.
    Add { spec: String },
    Remove { id: String },
}

/// What a command is answered.
#[derive(Debug)]
pub enum CommandAnswer {
    /// It is done, and this value is shown.
    Shown(Json),
    /// It is done, and this line is shown.
    Said(String),
    /// It is not done, for this reason.
    Refused(String),
}

/// What a [`CommandAnswer`] holds.
pub enum CommandAnswerView {
    Shown(JsonView),
    Said(Seq<char>),
    Refused(Seq<char>),
}

impl View for CommandAnswer {
    type V = CommandAnswerView;

    open spec fn view(&self) -> CommandAnswerView {
        match self {
            CommandAnswer::Shown(j) => CommandAnswerView::Shown(j@),
            CommandAnswer::Said(s) => CommandAnswerView::Said(s@),
            CommandAnswer::Refused(s) => CommandAnswerView::Refused(s@),
        }
    }
}

impl CommandAnswer {
    /// The exit code that tells of it.
    pub fn exit_code(&self) -> (r: i32)
        ensures
            r == if self@ is Refused {
                1int
            } else {
                0int
            },
    {
        match self {
            CommandAnswer::Refused(_) => 1,
            _ => 0,
        }
    }
}

/// What a command is answered, and the rules once it is done.
pub open spec fn command_done(rules: Seq<JsonView>, command: RuleCommand, nanos: u64) -> (
    CommandAnswerView,
    Seq<JsonView>,
) {
    match command {
        RuleCommand::List => (CommandAnswerView::Shown(rules_doc(rules)), rules),
        RuleCommand::Add { spec } => match json_read(spec@) {
            Err(_) => (CommandAnswerView::Refused("bad JSON: "@ + spec@), rules),
            Ok(v) => match rule_complaint(part_of(v, "when"@), part_of(v, "then"@)) {
                Some(e) => (CommandAnswerView::Refused(e), rules),
                None => {
                    let rule = rule_with_id(
                        "rule-"@ + hex_seq(nanos as nat),
                        part_of(v, "when"@),
                        part_of(v, "then"@),
                    );
                    (CommandAnswerView::Shown(rule), rules.push(rule))
                },
            },
        },
        RuleCommand::Remove { id } => if exists|i: int|
            0 <= i < rules.len() && has_id(#[trigger] rules[i], id@) {
            (CommandAnswerView::Said("removed "@ + id@), rules_without(rules, id@))
        } else {
            (CommandAnswerView::Refused("no such rule: "@ + id@), rules_without(rules, id@))
        },
    }
}

fn copy_rules(rules: &Vec<Json>) -> (r: Vec<Json>)
    ensures
        items_view(r@) == items_view(rules@),
{
    let ghost all = items_view(rules@);
    let mut out: Vec<Json> = Vec::new();
    let mut i: usize = 0;
    proof {
        lemma_items_view(rules@);
        assert(items_view(out@) =~= all.take(0));
    }
    while i < rules.len()
        invariant
            i <= rules@.len(),
            all == items_view(rules@),
            all.len() == rules@.len(),
            forall|k: int| 0 <= k < rules@.len() ==> all[k] == #[trigger] json_view(rules@[k]),
            items_view(out@) == all.take(i as int),
        decreases rules@.len() - i,
    {
        let ghost before = out@;
        out.push(rules[i].clone());
        assert(out@.drop_last() =~= before);
        assert(json_view(out@.last()) == out@.last()@);
        assert(json_view(rules@[i as int]) == rules@[i as int]@);
        assert(all.take(i + 1) =~= all.take(i as int).push(all[i as int]));
        i += 1;
    }
    assert(all.take(i as int) =~= all);
    out
}

/// Does what is asked of the rules on the command line.
pub fn answer_command(rules: &mut Vec<Json>, command: &RuleCommand, nanos: u64) -> (r: CommandAnswer)
    ensures
        (r@, items_view(final(rules)@)) == command_done(items_view(old(rules)@), *command, nanos),
{
    match command {
        RuleCommand::List => {
            CommandAnswer::Shown(rules_file(copy_rules(rules)))
        },
        RuleCommand::Add { spec } => match parse_json(spec.as_str()) {
            Err(_) => CommandAnswer::Refused(join("bad JSON: ", spec.as_str())),
            Ok(v) => match add_spec(rules, &v, nanos) {
                Ok(rule) => CommandAnswer::Shown(rule),
                Err(e) => CommandAnswer::Refused(e),
            },
        },
        RuleCommand::Remove { id } => {
            proof {
                lemma_items_view(rules@);
            }
            if remove_rule(rules, id.as_str()) {
                CommandAnswer::Said(join("removed ", id.as_str()))
            } else {
                CommandAnswer::Refused(join("no such rule: ", id.as_str()))
            }
        },
    }
}

} // verus!
