//! What plugins declare and ask of their settings, which rules users keep, and which capabilities are
//! listed, said of the operations and in no terms of how they come to their results.

use vstd::prelude::*;

use crate::alerting::rule_laws::lemma_kept_members;
use crate::alerting::store::{first_index, kept, lemma_first_index, rows_view};
use crate::automation::{add_rule, has_id, last_switched, set_rule_enabled, validate_rule};
use crate::capability::{
    by_capability_id, list, listings, registered_capabilities, CapabilityRowView, Listing,
    ListingView, Registry,
};
use crate::config::{dispatch, valid_secret_key, ConfigRequest, ConfigRequestView};
use crate::declaration::{
    by_plugin, capabilities_of, conflicting_provider, declared_capability_ids, declared_default,
    declared_for, declared_permission_defaults, declared_permission_set, declared_with,
    declares_otherwise, decision_of, leniency, permissions_of, row_for, same_provider, stricter,
    strictest, with_declaration, with_declarations, write_in_tx, ConfirmedView, DeclarationStore,
    DeclarationView, Decision, NewDeclaration, NewDeclarationView, PermissionDefault, Vocabulary,
};
use crate::execution::finish_builtin;
use crate::json::{items_view, texts_view, Json, JsonView};
use crate::laws::{holds_at, members_are_read_by_name};
use crate::order::{
    lemma_text_orders, ordered, ordering_keeps_each_value_once, sorted, sorting_keeps_every_value,
    strict_weak, text_order,
};
use crate::run_laws::{lemma_by_plugin, lemma_declared_for};
use crate::tool_laws::lemma_pushed;
use crate::values::set_then_read;

verus! {

/// Of what is decided, nothing is stricter than to deny and nothing is more lenient than to grant.
pub proof fn denial_is_strictest(denied: u8, ask: u8, granted: u8)
    requires
        call_ensures(stricter, (Decision::Denied,), denied),
        call_ensures(stricter, (Decision::Ask,), ask),
        call_ensures(stricter, (Decision::Granted,), granted),
    ensures
        denied < ask < granted,
{
}

/// The permissions and the capabilities that plugins declare are listed, each once.
pub proof fn what_is_declared_is_listed_once(
    store: &DeclarationStore,
    permissions: Vec<String>,
    capabilities: Vec<String>,
    name: Seq<char>,
)
    requires
        call_ensures(declared_permission_set, (store,), permissions),
        call_ensures(declared_capability_ids, (store,), capabilities),
    ensures
        texts_view(permissions@).contains(name) == exists|i: int|
            0 <= i < store@.rows.len() && (#[trigger] store@.rows[i]).row.permission == name,
        texts_view(capabilities@).contains(name) == exists|i: int|
            0 <= i < store@.rows.len() && (#[trigger] store@.rows[i]).row.capability == name,
        texts_view(permissions@).no_duplicates(),
        texts_view(capabilities@).no_duplicates(),
{
    lemma_text_orders();
    let rows = store@.declarations();
    ordering_keeps_each_value_once(permissions_of(rows), text_order());
    ordering_keeps_each_value_once(capabilities_of(rows), text_order());
    let p = permissions_of(rows);
    let c = capabilities_of(rows);
    assert(texts_view(permissions@).contains(name) == p.contains(name));
    assert(texts_view(capabilities@).contains(name) == c.contains(name));
    if p.contains(name) {
        let i = choose|i: int| 0 <= i < p.len() && p[i] == name;
        assert(store@.rows[i].row == rows[i]);
    }
    if c.contains(name) {
        let i = choose|i: int| 0 <= i < c.len() && c[i] == name;
        assert(store@.rows[i].row == rows[i]);
    }
    assert forall|i: int| 0 <= i < store@.rows.len() implies p.contains((#[trigger] store@.rows[i]).row.permission)
        && c.contains(store@.rows[i].row.capability) by {
        assert(p[i] == store@.rows[i].row.permission);
        assert(c[i] == store@.rows[i].row.capability);
    }
}

/// A permission has the default that all who declare it agree on; where they do not, or nobody does, it
/// has none.
pub proof fn defaults_are_agreed_on(store: &DeclarationStore, permission: &str, k: int, r: Option<Decision>)
    requires
        call_ensures(declared_default, (store, permission), r),
    ensures
        0 <= k < store@.rows.len() && store@.rows[k].row.permission == permission@ && (forall|i: int|
            0 <= i < store@.rows.len() && (#[trigger] store@.rows[i]).row.permission == permission@
                ==> store@.rows[i].row.default_decision == store@.rows[k].row.default_decision) ==> r == Some(
            decision_of(store@.rows[k].row.default_decision),
        ),
        (exists|i: int, j: int|
            0 <= i < store@.rows.len() && 0 <= j < store@.rows.len() && (#[trigger] store@.rows[i]).row.permission
                == permission@ && (#[trigger] store@.rows[j]).row.permission == permission@
                && store@.rows[i].row.default_decision != store@.rows[j].row.default_decision) ==> r is None,
        (forall|i: int|
            0 <= i < store@.rows.len() ==> (#[trigger] store@.rows[i]).row.permission != permission@) ==> r
            is None,
{
    let rows = store@.declarations();
    let found = declared_with(rows, permission@);
    lemma_declared_with(rows, permission@);
    let differs = |d: DeclarationView| d.default_decision != found[0].default_decision;
    lemma_first_index(found, differs);
    assert forall|i: int| 0 <= i < rows.len() && (#[trigger] store@.rows[i]).row.permission == permission@ implies found.contains(
        store@.rows[i].row,
    ) by {
        assert(rows[i] == store@.rows[i].row);
        assert(rows.contains(rows[i]));
    }
    assert forall|p: int| 0 <= p < found.len() implies exists|i: int|
        0 <= i < store@.rows.len() && (#[trigger] store@.rows[i]).row == #[trigger] found[p] && found[p].permission
            == permission@ by {
        assert(found.contains(found[p]));
        let i = choose|i: int| 0 <= i < rows.len() && rows[i] == found[p];
        assert(store@.rows[i].row == found[p]);
    }
    if found.len() > 0 {
        let i0 = choose|i: int|
            0 <= i < store@.rows.len() && (#[trigger] store@.rows[i]).row == found[0] && found[0].permission
                == permission@;
        assert(store@.rows[i0].row.permission == permission@);
        if let Some(p) = first_index(found, differs) {
            assert(differs(found[p]));
            let i = choose|i: int|
                0 <= i < store@.rows.len() && (#[trigger] store@.rows[i]).row == found[p]
                    && found[p].permission == permission@;
            assert(store@.rows[i].row.default_decision != store@.rows[i0].row.default_decision);
        } else {
            assert forall|i: int| 0 <= i < store@.rows.len() && (#[trigger] store@.rows[i]).row.permission
                == permission@ implies store@.rows[i].row.default_decision == found[0].default_decision by {
                assert(found.contains(store@.rows[i].row));
                let p = choose|p: int| 0 <= p < found.len() && found[p] == store@.rows[i].row;
                assert(!differs(found[p]));
            }
        }
    }
    if 0 <= k < store@.rows.len() && store@.rows[k].row.permission == permission@ {
        assert(found.contains(store@.rows[k].row));
    }
}

proof fn lemma_declared_with(rows: Seq<DeclarationView>, permission: Seq<char>)
    ensures
        forall|d: DeclarationView| #[trigger]
            declared_with(rows, permission).contains(d) == (rows.contains(d) && d.permission == permission),
{
    let of = |d: DeclarationView| d.permission == permission;
    lemma_by_plugin();
    lemma_kept_members(rows, of);
    let some = kept(rows, of);
    sorting_keeps_every_value(some, by_plugin());
    lemma_same_members(some, sorted(some, by_plugin()));
}

proof fn lemma_same_members<T>(a: Seq<T>, b: Seq<T>)
    requires
        a.to_multiset() == b.to_multiset(),
    ensures
        forall|x: T| #[trigger] b.contains(x) == a.contains(x),
{
    broadcast use vstd::seq_lib::group_to_multiset_ensures;

    assert forall|x: T| #[trigger] b.contains(x) == a.contains(x) by {
        assert(a.to_multiset().count(x) > 0 <==> a.contains(x));
        assert(b.to_multiset().count(x) > 0 <==> b.contains(x));
    }
}

proof fn lemma_strictest(rows: Seq<DeclarationView>, permission: Seq<char>)
    ensures
        strictest(rows, permission) is None == (forall|i: int|
            0 <= i < rows.len() ==> (#[trigger] rows[i]).permission != permission),
        strictest(rows, permission) is Some ==> forall|i: int|
            0 <= i < rows.len() && (#[trigger] rows[i]).permission == permission ==> leniency(
                strictest(rows, permission)->0,
            ) <= leniency(decision_of(rows[i].default_decision)),
        strictest(rows, permission) is Some ==> exists|i: int|
            0 <= i < rows.len() && (#[trigger] rows[i]).permission == permission && decision_of(
                rows[i].default_decision,
            ) == strictest(rows, permission)->0,
    decreases rows.len(),
{
    if rows.len() > 0 {
        let front = rows.drop_last();
        let n = rows.len() - 1;
        lemma_strictest(front, permission);
        assert forall|i: int| 0 <= i < front.len() implies #[trigger] front[i] == rows[i] by {}
        if strictest(front, permission) is Some {
            let i = choose|i: int|
                0 <= i < front.len() && (#[trigger] front[i]).permission == permission && decision_of(
                    front[i].default_decision,
                ) == strictest(front, permission)->0;
            assert(rows[i] == front[i]);
        }
        if strictest(front, permission) is None && rows[n].permission != permission {
            assert forall|i: int| 0 <= i < rows.len() implies (#[trigger] rows[i]).permission != permission by {
                if i < n {
                    assert(front[i].permission != permission);
                }
            }
        }
        if strictest(rows, permission) is Some {
            assert forall|i: int| 0 <= i < rows.len() && (#[trigger] rows[i]).permission == permission implies leniency(
                strictest(rows, permission)->0,
            ) <= leniency(decision_of(rows[i].default_decision)) by {
                if i < n {
                    assert(front[i].permission == permission);
                }
            }
        }
    }
}

/// A permission that is listed with a default has the strictest that is declared for it: it is denied
/// where anyone denies it, asked for where anyone asks, and granted only where all grant it.
pub proof fn the_strictest_default_counts(store: &DeclarationStore, r: Vec<PermissionDefault>, k: int, i: int)
    requires
        call_ensures(declared_permission_defaults, (store,), r),
        0 <= k < r@.len(),
        0 <= i < store@.rows.len(),
        store@.rows[i].row.permission == r@[k]@.permission,
    ensures
        store@.rows[i].row.default_decision != "granted"@ && store@.rows[i].row.default_decision != "ask"@
            ==> r@[k]@.decision == Decision::Denied,
        store@.rows[i].row.default_decision == "ask"@ ==> r@[k]@.decision != Decision::Granted,
        (forall|j: int|
            0 <= j < store@.rows.len() && (#[trigger] store@.rows[j]).row.permission == r@[k]@.permission
                ==> store@.rows[j].row.default_decision == "granted"@) ==> r@[k]@.decision
            == Decision::Granted,
        (forall|j: int|
            0 <= j < store@.rows.len() && (#[trigger] store@.rows[j]).row.permission == r@[k]@.permission
                ==> store@.rows[j].row.default_decision == "granted"@ || store@.rows[j].row.default_decision
                == "ask"@) ==> r@[k]@.decision != Decision::Denied,
{
    reveal_strlit("granted");
    reveal_strlit("ask");
    assert("granted"@.len() == 7 && "ask"@.len() == 3);
    let rows = store@.declarations();
    let name = r@[k]@.permission;
    assert(rows_view(r@)[k] == r@[k]@);
    lemma_strictest(rows, name);
    assert(rows[i] == store@.rows[i].row);
    assert(rows[i].permission == name);
    assert(strictest(rows, name) is Some);
    assert(crate::declaration::permission_defaults(rows)[k] == r@[k]@);
    let names = ordered(permissions_of(rows), text_order());
    assert(rows_view(r@).len() == r@.len());
    assert(k < names.len() && names[k] == name);
    assert(r@[k]@.decision == crate::declaration::strictest_or_denied(rows, names[k]));
    let j = choose|j: int|
        0 <= j < rows.len() && (#[trigger] rows[j]).permission == name && decision_of(
            rows[j].default_decision,
        ) == strictest(rows, name)->0;
    assert(store@.rows[j].row == rows[j]);
}

/// A plugin conflicts with a declaration where it, and not the one that is left out, declares the same
/// capability with another permission or another default.
pub proof fn conflicts_are_with_others_that_differ(
    store: &DeclarationStore,
    capability: &str,
    permission: &str,
    default_decision: &str,
    exclude: &str,
    r: Option<String>,
)
    requires
        call_ensures(
            conflicting_provider,
            (store, capability, permission, default_decision, exclude),
            r,
        ),
    ensures
        r is Some ==> exists|i: int|
            0 <= i < store@.rows.len() && (#[trigger] store@.rows[i]).row.plugin_id == r->0@
                && store@.rows[i].row.capability == capability@ && r->0@ != exclude@ && (
            store@.rows[i].row.permission != permission@ || store@.rows[i].row.default_decision
                != default_decision@),
        r is None ==> forall|i: int|
            0 <= i < store@.rows.len() && (#[trigger] store@.rows[i]).row.capability == capability@
                && store@.rows[i].row.plugin_id != exclude@ ==> store@.rows[i].row.permission == permission@
                && store@.rows[i].row.default_decision == default_decision@,
{
    let rows = store@.declarations();
    let found = declared_for(rows, capability@);
    lemma_declared_for(rows, capability@);
    let other = |d: DeclarationView| declares_otherwise(d, permission@, default_decision@, exclude@);
    lemma_first_index(found, other);
    if let Some(p) = first_index(found, other) {
        assert(found.contains(found[p]));
        let i = choose|i: int| 0 <= i < rows.len() && rows[i] == found[p];
        assert(store@.rows[i].row == found[p]);
        assert(other(found[p]));
    } else {
        assert forall|i: int| 0 <= i < store@.rows.len() && (#[trigger] store@.rows[i]).row.capability
            == capability@ && store@.rows[i].row.plugin_id != exclude@ implies store@.rows[i].row.permission
            == permission@ && store@.rows[i].row.default_decision == default_decision@ by {
            assert(rows[i] == store@.rows[i].row);
            assert(rows.contains(rows[i]));
            assert(found.contains(rows[i]));
            let p = choose|p: int| 0 <= p < found.len() && found[p] == rows[i];
            assert(!other(found[p]));
        }
    }
}

proof fn lemma_written(
    rows: Seq<ConfirmedView>,
    asked: Seq<NewDeclarationView>,
    plugin: Seq<char>,
    now: u64,
    c: ConfirmedView,
)
    ensures
        c.row.plugin_id != plugin ==> with_declarations(rows, asked, plugin, now).contains(c)
            == rows.contains(c),
        forall|k: int|
            0 <= k < asked.len() && (forall|j: int|
                k < j < asked.len() ==> (#[trigger] asked[j]).capability != asked[k].capability)
                ==> with_declarations(rows, asked, plugin, now).contains(
                row_for(#[trigger] asked[k], plugin, now),
            ),
    decreases asked.len(),
{
    if asked.len() > 0 {
        let front = asked.drop_last();
        let n = asked.len() - 1;
        lemma_written(rows, front, plugin, now, c);
        let before = with_declarations(rows, front, plugin, now);
        let own = row_for(asked[n], plugin, now);
        let after = with_declarations(rows, asked, plugin, now);
        assert(after == with_declaration(before, own));
        let same = |x: ConfirmedView| same_provider(x.row, own.row);
        lemma_first_index(before, same);
        lemma_put(before, own, c);
        assert forall|k: int|
            0 <= k < asked.len() && (forall|j: int|
                k < j < asked.len() ==> (#[trigger] asked[j]).capability != asked[k].capability) implies after.contains(
            row_for(#[trigger] asked[k], plugin, now),
        ) by {
            let want = row_for(asked[k], plugin, now);
            lemma_put(before, own, want);
            if k < n {
                assert(front[k] == asked[k]);
                assert forall|j: int| k < j < front.len() implies (#[trigger] front[j]).capability != front[k].capability by {
                    assert(front[j] == asked[j]);
                }
                assert(asked[n].capability != asked[k].capability);
                assert(before.contains(want));
            }
        }
    }
}

proof fn lemma_put(rows: Seq<ConfirmedView>, own: ConfirmedView, c: ConfirmedView)
    ensures
        with_declaration(rows, own).contains(own),
        !same_provider(c.row, own.row) ==> with_declaration(rows, own).contains(c) == rows.contains(c),
{
    let same = |x: ConfirmedView| same_provider(x.row, own.row);
    lemma_first_index(rows, same);
    let after = with_declaration(rows, own);
    match first_index(rows, same) {
        Some(i) => {
            assert(after[i] == own);
            assert(same(rows[i]));
            if rows.contains(c) {
                let k = choose|k: int| 0 <= k < rows.len() && rows[k] == c;
                if k != i {
                    assert(after[k] == c);
                }
            }
            if after.contains(c) {
                let k = choose|k: int| 0 <= k < after.len() && after[k] == c;
                if k != i {
                    assert(rows[k] == c);
                }
            }
        },
        None => {
            assert(after[rows.len() as int] == own);
            if rows.contains(c) {
                let k = choose|k: int| 0 <= k < rows.len() && rows[k] == c;
                assert(after[k] == c);
            }
            if after.contains(c) {
                let k = choose|k: int| 0 <= k < after.len() && after[k] == c;
                if k < rows.len() {
                    assert(rows[k] == c);
                }
            }
        },
    }
}

/// What a plugin declares is written down in its name, the last for each capability, and what others
/// declared stays; where a domain cannot be had, nothing is written.
pub proof fn declarations_are_written_whole_or_not_at_all(
    words: &Vocabulary,
    store: &mut DeclarationStore,
    plugin_id: &str,
    declarations: &Vec<NewDeclaration>,
    now: u64,
    r: Result<(), String>,
    k: int,
    c: ConfirmedView,
)
    requires
        call_ensures(write_in_tx, (words, store, plugin_id, declarations, now), r),
    ensures
        r is Err ==> final(store)@ == old(store)@,
        r is Ok && c.row.plugin_id != plugin_id@ ==> final(store)@.rows.contains(c) == old(
            store,
        )@.rows.contains(c),
        r is Ok && 0 <= k < declarations@.len() && (forall|j: int|
            k < j < declarations@.len() ==> (#[trigger] declarations@[j])@.capability
                != declarations@[k]@.capability) ==> final(store)@.rows.contains(
            ConfirmedView {
                row: DeclarationView {
                    capability: declarations@[k]@.capability,
                    plugin_id: plugin_id@,
                    permission: declarations@[k]@.permission,
                    default_decision: declarations@[k]@.default_decision,
                    timeout_secs: declarations@[k]@.timeout_secs,
                },
                at: now,
            },
        ),
{
    let asked = rows_view(declarations@);
    assert forall|j: int| 0 <= j < asked.len() implies asked[j] == (#[trigger] declarations@[j])@ by {}
    lemma_written(old(store)@.rows, asked, plugin_id@, now, c);
    if r is Ok && 0 <= k < declarations@.len() && (forall|j: int|
        k < j < declarations@.len() ==> (#[trigger] declarations@[j])@.capability
            != declarations@[k]@.capability) {
        assert forall|j: int| k < j < asked.len() implies (#[trigger] asked[j]).capability != asked[k].capability by {
            assert(asked[j] == declarations@[j]@);
        }
        assert(asked[k] == declarations@[k]@);
        assert(final(store)@.rows.contains(row_for(asked[k], plugin_id@, now)));
    }
}

/// A plugin reads, writes and deletes settings by their key. A key behind `secret:` is that of a secret,
/// whose value must be a text.
pub proof fn plugins_ask_by_key(
    op: &str,
    params: &Json,
    key: Seq<char>,
    name: &str,
    good: bool,
    v: JsonView,
    r: Result<ConfigRequest, String>,
)
    requires
        call_ensures(dispatch, (op, params), r),
        holds_at(params@, "key"@, JsonView::Text(key)),
        call_ensures(valid_secret_key, (name,), good),
        holds_at(params@, "value"@, v) && holds_at(params@, "default"@, v),
    ensures
        key.len() < 7 || key.take(7) != "secret:"@ ==> {
            &&& op@ == "get"@ ==> r is Ok && r->Ok_0@ == (ConfigRequestView::Read { key, default: v })
            &&& op@ == "set"@ ==> r is Ok && r->Ok_0@ == (ConfigRequestView::Write { key, value: v })
            &&& op@ == "delete"@ ==> r is Ok && r->Ok_0@ == (ConfigRequestView::Delete { key })
        },
        key == "secret:"@ + name@ ==> {
            &&& op@ == "get"@ ==> r is Ok && r->Ok_0@ == (if good {
                ConfigRequestView::GetSecret { key: name@, default: v }
            } else {
                ConfigRequestView::Reply(v)
            })
            &&& op@ == "set"@ ==> r is Ok == (good && v is Text)
            &&& op@ == "set"@ && good && v is Text ==> r->Ok_0@ == (ConfigRequestView::SetSecret {
                key: name@,
                value: v->Text_0,
            })
            &&& op@ == "delete"@ ==> r is Ok == good
            &&& op@ == "delete"@ && good ==> r->Ok_0@ == (ConfigRequestView::DeleteSecret { key: name@ })
        },
        op@ == "all"@ ==> r is Ok && r->Ok_0@ is All,
        op@ == "list"@ ==> r is Ok && r->Ok_0@ is List,
        op@ != "get"@ && op@ != "set"@ && op@ != "delete"@ && op@ != "all"@ && op@ != "list"@ ==> r is Err,
{
    members_are_read_by_name(params@, "key"@, JsonView::Text(key));
    members_are_read_by_name(params@, "value"@, v);
    members_are_read_by_name(params@, "default"@, v);
    reveal_strlit("secret:");
    reveal_strlit("get");
    reveal_strlit("set");
    reveal_strlit("delete");
    reveal_strlit("all");
    reveal_strlit("list");
    assert("get"@.len() == 3 && "set"@.len() == 3 && "delete"@.len() == 6 && "all"@.len() == 3 && "list"@.len()
        == 4);
    assert("get"@[0] == 'g' && "set"@[0] == 's' && "all"@[0] == 'a');
    if key.len() >= 7 {
        assert(key.subrange(0, 7) =~= key.take(7));
    }
    if key == "secret:"@ + name@ {
        assert(key.subrange(0, 7) =~= "secret:"@);
        assert(key.skip(7) =~= name@);
    }
}

/// A rule that is added stands behind the others, is on, and holds what it was made of; one that is not in
/// order changes nothing.
pub proof fn added_rules_are_on(
    rules: &mut Vec<Json>,
    when: &Json,
    then_do: &Json,
    nanos: u64,
    checked: Result<Json, String>,
    r: Result<Json, String>,
)
    requires
        call_ensures(add_rule, (rules, when, then_do, nanos), r),
        call_ensures(validate_rule, (when, then_do, nanos), checked),
    ensures
        r is Ok == checked is Ok,
        r is Err ==> final(rules)@ == old(rules)@,
        r is Ok ==> {
            &&& items_view(final(rules)@) == items_view(old(rules)@).push(r->Ok_0@)
            &&& holds_at(r->Ok_0@, "enabled"@, JsonView::Bool(true))
            &&& holds_at(r->Ok_0@, "when"@, when@)
            &&& holds_at(r->Ok_0@, "then"@, then_do@)
            &&& exists|id: Seq<char>| #[trigger] holds_at(r->Ok_0@, "id"@, JsonView::Text(id))
        },
{
    if r is Ok {
        reveal_strlit("id");
        reveal_strlit("enabled");
        reveal_strlit("when");
        reveal_strlit("then");
        assert("id"@.len() == 2 && "enabled"@.len() == 7 && "when"@.len() == 4 && "then"@.len() == 4);
        assert("when"@[0] == 'w' && "then"@[0] == 't');
        let m = r->Ok_0@->Object_0;
        assert(m.len() == 4);
        assert(m[0].0 == "id"@ && m[1] == ("enabled"@, JsonView::Bool(true)) && m[2] == ("when"@, when@)
            && m[3] == ("then"@, then_do@));
        assert(m[0] == ("id"@, JsonView::Text(m[0].1->Text_0)));
        assert(holds_at(r->Ok_0@, "id"@, JsonView::Text(m[0].1->Text_0)));
    }
}

/// Switching a rule switches all of its name, and nothing else of them or of other rules changes.
pub proof fn rules_are_switched_by_name(
    rules: &mut Vec<Json>,
    id: &str,
    enabled: bool,
    r: Result<Json, String>,
    i: int,
    key: Seq<char>,
    v: JsonView,
)
    requires
        call_ensures(set_rule_enabled, (rules, id, enabled), r),
        0 <= i < items_view(old(rules)@).len(),
    ensures
        items_view(final(rules)@).len() == items_view(old(rules)@).len(),
        ({
            let a = items_view(old(rules)@)[i];
            let b = items_view(final(rules)@)[i];
            let named = holds_at(a, "id"@, JsonView::Text(id@));
            &&& !named ==> b == a
            &&& named ==> holds_at(b, "enabled"@, JsonView::Bool(enabled)) && r is Ok
            &&& named && key != "enabled"@ ==> holds_at(b, key, v) == holds_at(a, key, v)
        }),
        (forall|k: int|
            0 <= k < items_view(old(rules)@).len() ==> !holds_at(
                #[trigger] items_view(old(rules)@)[k],
                "id"@,
                JsonView::Text(id@),
            )) ==> r is Err,
{
    let all = items_view(old(rules)@);
    let a = all[i];
    let b = items_view(final(rules)@)[i];
    members_are_read_by_name(a, "id"@, JsonView::Text(id@));
    members_are_read_by_name(a, key, v);
    members_are_read_by_name(b, key, v);
    members_are_read_by_name(b, "enabled"@, JsonView::Bool(enabled));
    if let JsonView::Object(members) = a {
        set_then_read(members, "enabled"@, JsonView::Bool(enabled), key);
    }
    lemma_last_switched(all, id@, enabled);
    assert forall|k: int| 0 <= k < all.len() implies has_id(#[trigger] all[k], id@) == holds_at(
        all[k],
        "id"@,
        JsonView::Text(id@),
    ) by {
        members_are_read_by_name(all[k], "id"@, JsonView::Text(id@));
    }
}

proof fn lemma_last_switched(rules: Seq<JsonView>, id: Seq<char>, enabled: bool)
    ensures
        last_switched(rules, id, enabled) is Some == exists|k: int|
            0 <= k < rules.len() && has_id(#[trigger] rules[k], id),
    decreases rules.len(),
{
    if rules.len() > 0 {
        let front = rules.drop_last();
        lemma_last_switched(front, id, enabled);
        if has_id(rules.last(), id) {
            assert(has_id(rules[rules.len() - 1], id));
        } else {
            if exists|k: int| 0 <= k < front.len() && has_id(#[trigger] front[k], id) {
                let k = choose|k: int| 0 <= k < front.len() && has_id(#[trigger] front[k], id);
                assert(has_id(rules[k], id));
            }
            if exists|k: int| 0 <= k < rules.len() && has_id(#[trigger] rules[k], id) {
                let k = choose|k: int| 0 <= k < rules.len() && has_id(#[trigger] rules[k], id);
                assert(has_id(front[k], id));
            }
        }
    }
}

proof fn lemma_listings(rows: Seq<CapabilityRowView>, id: Seq<char>, plugin: Seq<char>)
    ensures
        forall|i: int, j: int|
            0 <= i < j < listings(rows).len() ==> (#[trigger] listings(rows)[i]).id != (
            #[trigger] listings(rows)[j]).id,
        (exists|i: int|
            0 <= i < listings(rows).len() && (#[trigger] listings(rows)[i]).id == id
                && listings(rows)[i].providers.contains(plugin)) == (exists|k: int|
            0 <= k < rows.len() && (#[trigger] rows[k]).id == id && rows[k].plugin_id == plugin),
        forall|i: int| 0 <= i < listings(rows).len() ==> (#[trigger] listings(rows)[i]).providers.len() > 0,
    decreases rows.len(),
{
    if rows.len() > 0 {
        let front = rows.drop_last();
        let n = rows.len() - 1;
        let row = rows[n];
        lemma_listings(front, id, plugin);
        let before = listings(front);
        let after = listings(rows);
        let of_id = |l: ListingView| l.id == row.id;
        lemma_first_index(before, of_id);
        assert forall|k: int| 0 <= k < front.len() implies #[trigger] front[k] == rows[k] by {}
        let had = exists|i: int|
            0 <= i < before.len() && (#[trigger] before[i]).id == id && before[i].providers.contains(plugin);
        let has = exists|i: int|
            0 <= i < after.len() && (#[trigger] after[i]).id == id && after[i].providers.contains(plugin);
        match first_index(before, of_id) {
            Some(p) => {
                assert(of_id(before[p]));
                assert(after[p].providers == before[p].providers.push(row.plugin_id));
                lemma_pushed(before[p].providers, row.plugin_id, plugin);
                assert forall|i: int| 0 <= i < before.len() implies (#[trigger] after[i]).id == before[i].id by {}
                if had {
                    let i = choose|i: int|
                        0 <= i < before.len() && (#[trigger] before[i]).id == id
                            && before[i].providers.contains(plugin);
                    assert(after[i].id == id && after[i].providers.contains(plugin));
                }
                if row.id == id && row.plugin_id == plugin {
                    assert(after[p].id == id && after[p].providers.contains(plugin));
                }
                if has {
                    let i = choose|i: int|
                        0 <= i < after.len() && (#[trigger] after[i]).id == id
                            && after[i].providers.contains(plugin);
                    if i != p {
                        assert(before[i].id == id && before[i].providers.contains(plugin));
                    } else if before[p].providers.contains(plugin) {
                        assert(before[p].id == id);
                    }
                }
                assert forall|i: int, j: int| 0 <= i < j < after.len() implies (#[trigger] after[i]).id != (
                #[trigger] after[j]).id by {
                    assert(before[i].id != before[j].id);
                }
            },
            None => {
                let fresh = after[before.len() as int];
                assert(fresh.providers == seq![row.plugin_id]);
                assert(fresh.providers[0] == row.plugin_id);
                assert forall|i: int| 0 <= i < before.len() implies #[trigger] after[i] == before[i] by {}
                assert forall|i: int, j: int| 0 <= i < j < after.len() implies (#[trigger] after[i]).id != (
                #[trigger] after[j]).id by {
                    if j < before.len() {
                        assert(before[i].id != before[j].id);
                    } else {
                        assert(!of_id(before[i]));
                    }
                }
                if had {
                    let i = choose|i: int|
                        0 <= i < before.len() && (#[trigger] before[i]).id == id
                            && before[i].providers.contains(plugin);
                    assert(after[i] == before[i]);
                }
                if row.id == id && row.plugin_id == plugin {
                    assert(fresh.providers.contains(plugin));
                }
                if has {
                    let i = choose|i: int|
                        0 <= i < after.len() && (#[trigger] after[i]).id == id
                            && after[i].providers.contains(plugin);
                    if i < before.len() {
                        assert(before[i] == after[i]);
                    } else {
                        let q = choose|q: int| 0 <= q < fresh.providers.len() && fresh.providers[q] == plugin;
                        assert(q == 0);
                    }
                }
            },
        }
        if exists|k: int| 0 <= k < rows.len() && (#[trigger] rows[k]).id == id && rows[k].plugin_id == plugin {
            let k = choose|k: int|
                0 <= k < rows.len() && (#[trigger] rows[k]).id == id && rows[k].plugin_id == plugin;
            if k < n {
                assert(front[k].id == id);
            }
        }
        if had {
            let k = choose|k: int|
                0 <= k < front.len() && (#[trigger] front[k]).id == id && front[k].plugin_id == plugin;
            assert(rows[k] == front[k]);
        }
    }
}

/// Each capability is listed once, with every plugin that provides it and is on, and no other.
pub proof fn capabilities_are_listed_with_their_providers(
    registry: &Registry,
    r: Vec<Listing>,
    id: Seq<char>,
    plugin: Seq<char>,
    a: int,
    b: int,
)
    requires
        call_ensures(registered_capabilities, (registry,), r),
    ensures
        (exists|i: int|
            0 <= i < r@.len() && (#[trigger] r@[i])@.id == id && r@[i]@.providers.contains(plugin)) == (
        exists|k: int|
            0 <= k < registry@.rows.len() && (#[trigger] registry@.rows[k]).id == id
                && registry@.rows[k].plugin_id == plugin && registry@.rows[k].enabled),
        0 <= a < b < r@.len() ==> r@[a]@.id != r@[b]@.id,
{
    let rows = registry@.rows;
    let on = |c: CapabilityRowView| c.enabled;
    let some = kept(rows, on);
    lemma_kept_members(rows, on);
    lemma_by_capability_id();
    sorting_keeps_every_value(some, by_capability_id());
    let all = sorted(some, by_capability_id());
    lemma_same_members(some, all);
    lemma_listings(all, id, plugin);
    let out = listings(all);
    assert(rows_view(r@) == out);
    assert forall|i: int| 0 <= i < r@.len() implies (#[trigger] r@[i])@ == out[i] by {
        assert(rows_view(r@)[i] == r@[i]@);
    }
    assert(out.len() == r@.len());
    if exists|i: int| 0 <= i < r@.len() && (#[trigger] r@[i])@.id == id && r@[i]@.providers.contains(plugin) {
        let i = choose|i: int|
            0 <= i < r@.len() && (#[trigger] r@[i])@.id == id && r@[i]@.providers.contains(plugin);
        assert(out[i].id == id);
        let k = choose|k: int| 0 <= k < all.len() && (#[trigger] all[k]).id == id && all[k].plugin_id == plugin;
        assert(all.contains(all[k]));
        assert(some.contains(all[k]));
        let j = choose|j: int| 0 <= j < rows.len() && rows[j] == all[k];
        assert(rows[j].enabled);
    }
    if exists|k: int|
        0 <= k < rows.len() && (#[trigger] rows[k]).id == id && rows[k].plugin_id == plugin && rows[k].enabled {
        let k = choose|k: int|
            0 <= k < rows.len() && (#[trigger] rows[k]).id == id && rows[k].plugin_id == plugin
                && rows[k].enabled;
        assert(rows.contains(rows[k]) && on(rows[k]));
        assert(some.contains(rows[k]));
        assert(all.contains(rows[k]));
        let p = choose|p: int| 0 <= p < all.len() && all[p] == rows[k];
        assert(all[p].id == id);
        let i = choose|i: int|
            0 <= i < out.len() && (#[trigger] out[i]).id == id && out[i].providers.contains(plugin);
        assert(r@[i]@ == out[i]);
    }
    if 0 <= a < b < r@.len() {
        assert(out[a].id != out[b].id);
        assert(r@[a]@ == out[a] && r@[b]@ == out[b]);
    }
}

proof fn lemma_by_capability_id()
    ensures
        strict_weak(by_capability_id()),
{
    lemma_text_orders();
}

/// What comes along ends in success or in failure as it was done.
pub proof fn builtins_end_as_they_went(
    capability: &str,
    agent: &str,
    error: Option<&str>,
    elapsed: u64,
    r: (Vec<crate::execution::Effect>, Result<(), String>),
)
    requires
        call_ensures(finish_builtin, (capability, agent, error, elapsed), r),
    ensures
        r.1 is Ok == error is None,
        r.1 is Err ==> r.1->Err_0@ == "capability_failed"@,
{
}

} // verus!
