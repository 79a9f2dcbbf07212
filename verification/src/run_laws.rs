//! How a capability is carried out and who may do it, said of the operations and in no terms of how
//! they come to their results.

use vstd::prelude::*;

use crate::alerting::rule_laws::lemma_kept_members;
use crate::alerting::store::{first_index, kept, lemma_first_index, rows_view};
use crate::capability::{call_timeout_for, has_builtin, known, providers};
use crate::declaration::{
    by_plugin, claim_domains_in_tx, claim_each, claim_index, core_permission, declared_for,
    delete_for_plugin, first_segment, parse_decision, resolve, timeout_for, ConfirmedView,
    CorePermissionView, Decision, DeclarationStore, DeclarationView, DomainClaimView, Resolved,
    Vocabulary,
};
use crate::execution::{
    begin, CoreStore, Effect, EffectView, Execution, Finding, Move, ProviderEvent,
    ProviderEventView, ScopeDenial, Start, StartView,
};
use crate::json::{json_text_of, texts_view, Json};
use crate::order::{lemma_text_orders, sorting_keeps_every_value, strict_weak, text_order};
use crate::text::{byte_count, find_from, find_from_is_first, occurs_at};

verus! {

/// Asking for a capability that nobody knows is refused; so is a path out of bounds, a capability that
/// neither a plugin nor the core provides, and an input of more than a mebibyte for plugins. The core
/// does itself what it provides and no plugin does. Else the plugins that provide it are asked, in
/// their order, from the first on.
pub proof fn capabilities_are_refused_done_or_asked_for(
    words: &Vocabulary,
    store: Option<&CoreStore>,
    capability: &str,
    agent: &str,
    denied: Option<&ScopeDenial>,
    input: &Json,
    is_known: bool,
    in_core: bool,
    asked: Vec<String>,
    resolved: Option<Resolved>,
    r: (Vec<Effect>, Start),
)
    requires
        call_ensures(begin, (words, store, capability, agent, denied, input), r),
        call_ensures(
            known,
            (
                match store {
                    Some(s) => Some(&s.declarations),
                    None => None,
                },
                capability,
            ),
            is_known,
        ),
        call_ensures(has_builtin, (capability,), in_core),
        store is Some ==> call_ensures(providers, (&store->0.registry, capability), asked),
        store is None ==> asked@.len() == 0,
        store is Some ==> call_ensures(resolve, (words, &store->0.declarations, capability), resolved),
        store is None ==> resolved is None,
    ensures
        ({
            let size = byte_count(json_text_of(input@));
            let bounded = store is Some && denied is Some;
            &&& !is_known ==> r.1@ == StartView::Refused("unknown capability: "@ + capability@)
            &&& is_known && bounded ==> r.1@ is Refused && r.1@->Refused_0 == "scope_denied:"@
                + denied->0.layer@ + ":"@ + (match resolved {
                Some(x) => x@.permission,
                None => Seq::empty(),
            })
            &&& is_known && !bounded && asked@.len() == 0 && in_core ==> r.1@ is Builtin
            &&& is_known && !bounded && asked@.len() == 0 && !in_core ==> r.1@ == StartView::Refused(
                "capability_unavailable"@,
            )
            &&& is_known && !bounded && asked@.len() > 0 && size > 1048576 ==> r.1@
                == StartView::Refused("payload_too_large"@)
            &&& is_known && !bounded && asked@.len() > 0 && size <= 1048576 ==> r.1@ is Plugins && {
                let x = r.1@->Plugins_0;
                &&& x.capability == capability@
                &&& x.agent == agent@
                &&& x.attempted.len() == 0
                &&& x.providers == texts_view(asked@)
                &&& x.permission == (match resolved {
                    Some(found) => Some(found@.permission),
                    None => None,
                })
            }
        }),
{
    assert(texts_view(asked@).len() == asked@.len());
}

/// The provider that is asked next is the first one that was not tried yet.
pub proof fn the_next_provider_is_asked(x: &Execution, r: Option<&str>)
    requires
        call_ensures(Execution::next_provider, (x,), r),
    ensures
        r is Some == (x@.attempted.len() < x@.providers.len()),
        r is Some ==> r->0@ == x@.providers[x@.attempted.len() as int],
{
}

/// A provider is called only once its permission is granted, its bounds refuse nothing and it runs.
/// What is found out in that order leads on; anything else leaves the provider, for that reason.
pub proof fn providers_are_called_behind_all_gates(x: &Execution, found: Finding, r: Move)
    requires
        call_ensures(Execution::next_move, (x, found), r),
    ensures
        r@ is Call == (found is Running && found->Running_0 is Ok),
        r@ is EnsureRunning == (found is Scope && found->Scope_0 is None),
        r@ is CheckScope == (found is Gate && found->Gate_0 == Some(Decision::Granted)
            && x@.permission is Some),
        r@ is Leave ==> {
            let why = r@->Leave_0;
            &&& why is Denied == (found is Gate)
            &&& why is ScopeDenied == (found is Scope)
            &&& why is NotRunning == (found is Running)
            &&& found is Scope ==> why->ScopeDenied_layer == found->Scope_0->0.layer@
            &&& found is Running ==> why->NotRunning_error == found->Running_0->Err_0@
        },
{
}

/// The error that stands for what became of asking a provider.
pub open spec fn error_for(ev: ProviderEventView, error: Seq<char>) -> bool {
    match ev {
        ProviderEventView::Denied => error == "permission_denied"@,
        ProviderEventView::ScopeDenied { .. } => error == "scope_denied"@,
        ProviderEventView::NotRunning { error: e } => error == e,
        ProviderEventView::Answered { .. } => false,
        ProviderEventView::Failed { error: e, .. } => error == e,
    }
}

/// A provider that did not answer is noted, with its error, behind those that were tried before, so
/// that the next one follows; one that answered changes nothing. What is asked for, by whom and of
/// whom stays.
pub proof fn providers_that_fail_give_way(x: &mut Execution, ev: &ProviderEvent, r: Vec<Effect>)
    requires
        call_ensures(Execution::step, (x, ev), r),
        old(x)@.attempted.len() < old(x)@.providers.len(),
    ensures
        final(x)@.providers == old(x)@.providers,
        final(x)@.capability == old(x)@.capability,
        final(x)@.agent == old(x)@.agent,
        final(x)@.permission == old(x)@.permission,
        ev@ is Answered ==> final(x)@ == old(x)@,
        !(ev@ is Answered) ==> {
            let before = old(x)@.attempted;
            &&& final(x)@.attempted.len() == before.len() + 1
            &&& final(x)@.attempted.drop_last() == before
            &&& final(x)@.attempted.last().plugin == old(x)@.providers[before.len() as int]
            &&& error_for(ev@, final(x)@.attempted.last().error)
        },
        ev@ is Answered ==> r@.len() == 2 && r@[0]@ == (EffectView::Answer {
            plugin: old(x)@.providers[old(x)@.attempted.len() as int],
            elapsed: ev@->Answered_elapsed,
        }),
        !(ev@ is Answered) ==> r@.len() > 0 && r@.last()@ is Failure && r@.last()@->Failure_plugin
            == old(x)@.providers[old(x)@.attempted.len() as int],
{
    assert(rows_view(r@).len() == r@.len());
    assert forall|i: int| 0 <= i < r@.len() implies rows_view(r@)[i] == (#[trigger] r@[i])@ by {}
    if !(ev@ is Answered) {
        assert(final(x)@.attempted.drop_last() =~= old(x)@.attempted);
        assert(rows_view(r@).last() == r@.last()@);
    } else {
        assert(rows_view(r@)[0] == r@[0]@);
    }
}

/// Where no provider has answered, the agent is told that the capability failed, unless each of those
/// that were tried was denied: then it is told the permission that is missing.
pub proof fn failures_name_the_missing_permission(x: &Execution, r: (Effect, String))
    requires
        call_ensures(Execution::conclude, (x,), r),
    ensures
        ({
            let denied = x@.attempted.len() > 0 && forall|i: int|
                0 <= i < x@.attempted.len() ==> (#[trigger] x@.attempted[i]).error
                    == "permission_denied"@;
            &&& denied ==> r.1@ == "plugin_permission_denied:"@ + (match x@.permission {
                Some(p) => p,
                None => Seq::empty(),
            })
            &&& !denied ==> r.1@ == "capability_failed"@
        }),
{
}

/// The time that a call may take is what its provider declares for it, and else a minute.
pub proof fn calls_take_as_long_as_declared(
    declarations: Option<&DeclarationStore>,
    provider: &str,
    capability: &str,
    declared: Option<u32>,
    r: u64,
)
    requires
        call_ensures(call_timeout_for, (declarations, provider, capability), r),
        declarations is Some ==> call_ensures(timeout_for, (declarations->0, provider, capability), declared),
        declarations is None ==> declared is None,
    ensures
        declared is Some ==> r == declared->0,
        declared is None ==> r == 60,
{
}

/// A plugin declares a time for a capability where one of its declarations of it gives one.
pub proof fn declared_times_are_their_plugins_own(
    store: &DeclarationStore,
    plugin_id: &str,
    capability: &str,
    d: DeclarationView,
    r: Option<u32>,
)
    requires
        call_ensures(timeout_for, (store, plugin_id, capability), r),
        store@.wf(),
        store@.declarations().contains(d),
        d.plugin_id == plugin_id@,
        d.capability == capability@,
    ensures
        r == d.timeout_secs,
{
    let rows = store@.declarations();
    let own = |e: DeclarationView| e.capability == capability@ && e.plugin_id == plugin_id@;
    lemma_first_index(rows, own);
    let i = choose|i: int| 0 <= i < rows.len() && rows[i] == d;
    assert(own(rows[i]));
    let k = first_index(rows, own)->0;
    if k != i {
        assert(k < i);
        assert(own(rows[k]));
        assert(store@.rows[k].row == rows[k] && store@.rows[i].row == rows[i]);
    }
}

/// Only the word for it grants a permission, and only the word for it has the user asked; any other
/// word denies it.
pub proof fn unknown_words_deny(word: &str, r: Decision)
    requires
        call_ensures(parse_decision, (word,), r),
    ensures
        r == Decision::Granted <==> word@ == "granted"@,
        r == Decision::Ask <==> word@ == "ask"@,
        r == Decision::Denied <==> word@ != "granted"@ && word@ != "ask"@,
{
    reveal_strlit("granted");
    reveal_strlit("ask");
    assert("granted"@.len() == 7 && "ask"@.len() == 3);
}

pub proof fn lemma_by_plugin()
    ensures
        strict_weak(by_plugin()),
{
    lemma_text_orders();
    let less = by_plugin();
    let by_name = text_order();
    assert forall|x: DeclarationView| !#[trigger] less(x, x) by {
        assert(!by_name(x.plugin_id, x.plugin_id));
    }
    assert forall|x: DeclarationView, y: DeclarationView, z: DeclarationView|
        #[trigger] less(x, y) && #[trigger] less(y, z) implies less(x, z) by {
        assert(by_name(x.plugin_id, y.plugin_id) && by_name(y.plugin_id, z.plugin_id));
    }
    assert forall|x: DeclarationView, y: DeclarationView, z: DeclarationView|
        !#[trigger] less(x, y) && !#[trigger] less(y, z) implies !less(x, z) by {
        if less(x, z) {
            assert(x.plugin_id == y.plugin_id || by_name(y.plugin_id, x.plugin_id));
            assert(y.plugin_id == z.plugin_id || by_name(z.plugin_id, y.plugin_id));
            assert(by_name(x.plugin_id, z.plugin_id));
            if by_name(y.plugin_id, x.plugin_id) {
                assert(by_name(y.plugin_id, z.plugin_id));
            }
        }
    }
}

pub proof fn lemma_declared_for(rows: Seq<DeclarationView>, capability: Seq<char>)
    ensures
        forall|d: DeclarationView| #[trigger]
            declared_for(rows, capability).contains(d) == (rows.contains(d) && d.capability == capability),
{
    broadcast use vstd::seq_lib::group_to_multiset_ensures;

    let own = |d: DeclarationView| d.capability == capability;
    let found = kept(rows, own);
    lemma_by_plugin();
    sorting_keeps_every_value(found, by_plugin());
    lemma_kept_members(rows, own);
    assert forall|d: DeclarationView| #[trigger] declared_for(rows, capability).contains(d) == (rows.contains(
        d,
    ) && d.capability == capability) by {
        assert(declared_for(rows, capability).to_multiset().count(d) == found.to_multiset().count(d));
        assert(found.contains(d) == (rows.contains(d) && own(d)));
    }
}

/// What the core says of a capability holds, whatever plugins declare. Where it says nothing, the
/// capability needs what its plugins declare, as long as they all declare the same; where they do not,
/// or none declares it, nothing is known of it.
pub proof fn the_core_comes_before_what_plugins_agree_on(
    words: &Vocabulary,
    store: &DeclarationStore,
    capability: &str,
    p: CorePermissionView,
    d: DeclarationView,
    r: Option<Resolved>,
)
    requires
        call_ensures(resolve, (words, store, capability), r),
    ensures
        words@.permissions.contains(p) && p.capability == capability@ && (forall|i: int|
            0 <= i < words@.permissions.len() && (#[trigger] words@.permissions[i]).capability == capability@
                ==> words@.permissions[i] == p) ==> r is Some && r->0@.permission == p.permission
            && r->0@.default == p.default && !r->0@.declared,
        (forall|i: int|
            0 <= i < words@.permissions.len() ==> (#[trigger] words@.permissions[i]).capability
                != capability@) ==> {
            let agree = forall|i: int, j: int|
                0 <= i < store@.rows.len() && 0 <= j < store@.rows.len() && (#[trigger] store@.rows[i]).row.capability
                    == capability@ && (#[trigger] store@.rows[j]).row.capability == capability@
                    ==> store@.rows[i].row.permission == store@.rows[j].row.permission
                    && store@.rows[i].row.default_decision == store@.rows[j].row.default_decision;
            &&& store@.declarations().contains(d) && d.capability == capability@ && agree ==> r is Some
                && r->0@.declared && r->0@.permission == d.permission && r->0@.default == (
            if d.default_decision == "granted"@ {
                Decision::Granted
            } else if d.default_decision == "ask"@ {
                Decision::Ask
            } else {
                Decision::Denied
            })
            &&& !agree ==> r is None
            &&& (forall|i: int|
                0 <= i < store@.rows.len() ==> (#[trigger] store@.rows[i]).row.capability != capability@)
                ==> r is None
        },
{
    let rows = store@.declarations();
    let named = |q: CorePermissionView| q.capability == capability@;
    lemma_first_index(words@.permissions, named);
    if words@.permissions.contains(p) && p.capability == capability@ {
        let i = choose|i: int| 0 <= i < words@.permissions.len() && words@.permissions[i] == p;
        assert(named(words@.permissions[i]));
    }
    let found = declared_for(rows, capability@);
    lemma_declared_for(rows, capability@);
    assert forall|i: int| 0 <= i < rows.len() implies rows[i] == (#[trigger] store@.rows[i]).row by {}
    let agree = forall|i: int, j: int|
        0 <= i < store@.rows.len() && 0 <= j < store@.rows.len() && (#[trigger] store@.rows[i]).row.capability
            == capability@ && (#[trigger] store@.rows[j]).row.capability == capability@
            ==> store@.rows[i].row.permission == store@.rows[j].row.permission
            && store@.rows[i].row.default_decision == store@.rows[j].row.default_decision;
    if core_permission(words@, capability@) is None {
        let differs = |e: DeclarationView|
            e.permission != found[0].permission || e.default_decision != found[0].default_decision;
        if found.len() > 0 {
            assert(found.contains(found[0]));
            let z = choose|z: int| 0 <= z < rows.len() && rows[z] == found[0];
            assert(store@.rows[z].row == found[0]);
            if agree {
                assert forall|k: int| 0 <= k < found.len() implies !differs(#[trigger] found[k]) by {
                    assert(found.contains(found[k]));
                    let q = choose|q: int| 0 <= q < rows.len() && rows[q] == found[k];
                    assert(store@.rows[q].row == found[k]);
                }
                if rows.contains(d) && d.capability == capability@ {
                    assert(found.contains(d));
                    let k = choose|k: int| 0 <= k < found.len() && found[k] == d;
                    assert(!differs(found[k]));
                }
            } else {
                let (i, j) = choose|i: int, j: int|
                    0 <= i < store@.rows.len() && 0 <= j < store@.rows.len()
                        && (#[trigger] store@.rows[i]).row.capability == capability@
                        && (#[trigger] store@.rows[j]).row.capability == capability@ && !(
                    store@.rows[i].row.permission == store@.rows[j].row.permission
                        && store@.rows[i].row.default_decision == store@.rows[j].row.default_decision);
                assert(rows[i] == store@.rows[i].row && rows[j] == store@.rows[j].row);
                assert(rows.contains(rows[i]) && rows.contains(rows[j]));
                assert(found.contains(rows[i]) && found.contains(rows[j]));
                let a = choose|a: int| 0 <= a < found.len() && found[a] == rows[i];
                let b = choose|b: int| 0 <= b < found.len() && found[b] == rows[j];
                assert(differs(found[a]) || differs(found[b]));
            }
        } else {
            if rows.contains(d) && d.capability == capability@ {
                assert(found.contains(d));
            }
            if !agree {
                let (i, j) = choose|i: int, j: int|
                    0 <= i < store@.rows.len() && 0 <= j < store@.rows.len()
                        && (#[trigger] store@.rows[i]).row.capability == capability@
                        && (#[trigger] store@.rows[j]).row.capability == capability@ && !(
                    store@.rows[i].row.permission == store@.rows[j].row.permission
                        && store@.rows[i].row.default_decision == store@.rows[j].row.default_decision);
            }
        }
        if forall|i: int|
            0 <= i < store@.rows.len() ==> (#[trigger] store@.rows[i]).row.capability != capability@ {
            if found.len() > 0 {
                assert(found.contains(found[0]));
                let z = choose|z: int| 0 <= z < rows.len() && rows[z] == found[0];
                assert(store@.rows[z].row == found[0]);
            }
        }
    }
}

/// A domain is what stands in front of the first dot of a name, or the name where it has none.
pub proof fn domains_end_at_the_first_dot(name: &str, r: String)
    requires
        call_ensures(first_segment, (name,), r),
    ensures
        !r@.contains('.'),
        r@ == name@ || exists|rest: Seq<char>| name@ == #[trigger] (r@ + seq!['.'] + rest),
{
    let s = name@;
    reveal_strlit(".");
    find_from_is_first(s, "."@, 0);
    if r@.contains('.') {
        let k = choose|k: int| 0 <= k < r@.len() && r@[k] == '.';
        assert(s.subrange(k, k + 1) =~= "."@);
        assert(occurs_at(s, "."@, k));
    }
    if let Some(i) = find_from(s, "."@, 0) {
        assert(s.subrange(i, i + 1)[0] == '.');
        assert(s =~= r@ + seq!['.'] + s.skip(i + 1));
    }
}

/// A domain goes to the plugin that claims it where nobody else holds it and it is not reserved. Where
/// one of the domains cannot be claimed, nothing changes.
pub proof fn domains_have_one_holder(
    words: &Vocabulary,
    store: &mut DeclarationStore,
    plugin_id: &str,
    domains: &[String],
    domain: Seq<char>,
    other: Seq<char>,
    r: Result<(), String>,
)
    requires
        call_ensures(claim_domains_in_tx, (words, store, plugin_id, domains), r),
        texts_view(domains@).contains(domain),
        old(store)@.wf(),
    ensures
        final(store)@.rows == old(store)@.rows,
        r is Err ==> final(store)@ == old(store)@,
        words@.reserved.contains(domain) ==> r is Err,
        (exists|i: int|
            0 <= i < old(store)@.claims.len() && (#[trigger] old(store)@.claims[i]).domain == domain
                && old(store)@.claims[i].plugin_id == Some(other)) && other != plugin_id@ ==> r is Err,
        r is Ok ==> exists|i: int|
            0 <= i < final(store)@.claims.len() && (#[trigger] final(store)@.claims[i]).domain == domain
                && final(store)@.claims[i].plugin_id == Some(plugin_id@),
{
    let claims = old(store)@.claims;
    lemma_claims(words@.reserved, claims, plugin_id@, texts_view(domains@), domain);
}

proof fn lemma_claims(
    reserved: Seq<Seq<char>>,
    claims: Seq<DomainClaimView>,
    plugin: Seq<char>,
    domains: Seq<Seq<char>>,
    domain: Seq<char>,
)
    requires
        forall|i: int, j: int|
            0 <= i < j < claims.len() ==> (#[trigger] claims[i]).domain != (#[trigger] claims[j]).domain,
    ensures
        claim_each(reserved, claims, plugin, domains) is Ok ==> {
            let after = claim_each(reserved, claims, plugin, domains)->Ok_0;
            &&& forall|i: int, j: int|
                0 <= i < j < after.len() ==> (#[trigger] after[i]).domain != (#[trigger] after[j]).domain
            &&& forall|i: int|
                0 <= i < claims.len() ==> i < after.len() && (#[trigger] after[i]).domain == claims[i].domain
                    && (claims[i].plugin_id is Some ==> after[i].plugin_id == claims[i].plugin_id)
            &&& domains.contains(domain) ==> !reserved.contains(domain) && exists|i: int|
                0 <= i < after.len() && (#[trigger] after[i]).domain == domain && after[i].plugin_id
                    == Some(plugin)
            &&& forall|i: int|
                0 <= i < claims.len() && (#[trigger] claims[i]).domain == domain && domains.contains(domain)
                    ==> claims[i].plugin_id is None || claims[i].plugin_id == Some(plugin)
        },
    decreases domains.len(),
{
    if domains.len() > 0 {
        let front = domains.drop_last();
        let last = domains[domains.len() - 1];
        lemma_claims(reserved, claims, plugin, front, domain);
        lemma_claims(reserved, claims, plugin, front, last);
        if claim_each(reserved, claims, plugin, domains) is Ok {
            let before = claim_each(reserved, claims, plugin, front)->Ok_0;
            let after = claim_each(reserved, claims, plugin, domains)->Ok_0;
            lemma_first_index(before, |c: DomainClaimView| c.domain == last);
            let at = claim_index(before, last);
            if domains.contains(domain) {
                let k = choose|k: int| 0 <= k < domains.len() && domains[k] == domain;
                if k < front.len() {
                    assert(front[k] == domain);
                    let i = choose|i: int|
                        0 <= i < before.len() && (#[trigger] before[i]).domain == domain && before[i].plugin_id
                            == Some(plugin);
                    assert(after[i].domain == domain && after[i].plugin_id == Some(plugin));
                } else {
                    match at {
                        None => {
                            assert(after[before.len() as int].domain == last);
                        },
                        Some(i) => {
                            assert(after[i].domain == last && after[i].plugin_id == Some(plugin));
                        },
                    }
                    assert forall|i: int|
                        0 <= i < claims.len() && (#[trigger] claims[i]).domain == domain implies claims[i].plugin_id is None
                        || claims[i].plugin_id == Some(plugin) by {
                        assert(before[i].domain == domain);
                        let p = at->0;
                        assert(p == i) by {
                            if p < i {
                                assert(before[p].domain != before[i].domain);
                            }
                        }
                    }
                }
            }
            assert forall|i: int| 0 <= i < claims.len() implies i < after.len() && (#[trigger] after[i]).domain
                == claims[i].domain && (claims[i].plugin_id is Some ==> after[i].plugin_id
                == claims[i].plugin_id) by {
                assert(before[i].domain == claims[i].domain);
            }
        }
    }
}

/// What a plugin declared and the domains that it holds are gone with it; all else stays.
pub proof fn plugins_take_their_declarations_with_them(
    store: &mut DeclarationStore,
    plugin_id: &str,
    c: ConfirmedView,
    d: DomainClaimView,
)
    requires
        call_ensures(delete_for_plugin, (store, plugin_id), ()),
    ensures
        final(store)@.rows.contains(c) == (old(store)@.rows.contains(c) && c.row.plugin_id != plugin_id@),
        final(store)@.claims.contains(d) == (old(store)@.claims.contains(d) && d.plugin_id != Some(
            plugin_id@,
        )),
{
    lemma_kept_members(old(store)@.rows, |x: ConfirmedView| x.row.plugin_id != plugin_id@);
    lemma_kept_members(old(store)@.claims, |x: DomainClaimView| x.plugin_id != Some(plugin_id@));
    assert(final(store)@.rows.contains(c) == kept(
        old(store)@.rows,
        |x: ConfirmedView| x.row.plugin_id != plugin_id@,
    ).contains(c));
    assert(final(store)@.claims.contains(d) == kept(
        old(store)@.claims,
        |x: DomainClaimView| x.plugin_id != Some(plugin_id@),
    ).contains(d));
}

} // verus!
