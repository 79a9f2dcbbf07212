//! What plugins declare: which permission each of their capabilities needs, and which domains of
//! names they hold.

use vstd::prelude::*;

use crate::alerting::store::{
    any_of, find_first, first_index, first_of, kept, lemma_first_index, rows_view,
};
use crate::json::texts_view;
use crate::order::{
    insert_ordered, lemma_text_orders, ordered, sort_list, sorted, sorting_keeps_every_value,
    strict_weak, text_before, text_order,
};
use crate::text::{
    chars_of, find_at, find_from, find_from_is_first, is_one_of, join, join3, occurs_at, same,
    slice_text,
};

verus! {

/// What is decided on a permission.
#[derive(Clone, Copy, Debug, PartialEq, Eq, Structural)]
pub enum Decision {
    Denied,
    Ask,
    Granted,
}

/// How much a decision lets through.
pub open spec fn leniency(d: Decision) -> int {
    match d {
        Decision::Denied => 0,
        Decision::Ask => 1,
        Decision::Granted => 2,
    }
}

/// How much a decision lets through.
pub fn stricter(d: Decision) -> (r: u8)
    ensures
        r == leniency(d),
{
    match d {
        Decision::Denied => 0,
        Decision::Ask => 1,
        Decision::Granted => 2,
    }
}

/// The decision that a word stands for: nothing is let through on a word that is not known.
pub open spec fn decision_of(word: Seq<char>) -> Decision {
    if word == "granted"@ {
        Decision::Granted
    } else if word == "ask"@ {
        Decision::Ask
    } else {
        Decision::Denied
    }
}

/// The decision that a word stands for: nothing is let through on a word that is not known.
pub fn parse_decision(word: &str) -> (r: Decision)
    ensures
        r == decision_of(word@),
{
    if same(word, "granted") {
        Decision::Granted
    } else if same(word, "ask") {
        Decision::Ask
    } else {
        Decision::Denied
    }
}

/// What stands before the first dot of a name.
pub open spec fn domain_of(name: Seq<char>) -> Seq<char> {
    match find_from(name, "."@, 0) {
        Some(i) => name.take(i),
        None => name,
    }
}

/// What stands before the first dot of a name.
pub fn first_segment(name: &str) -> (r: String)
    ensures
        r@ == domain_of(name@),
{
    let cs: Vec<char> = chars_of(name);
    let dot: Vec<char> = chars_of(".");
    proof {
        reveal_strlit(".");
        find_from_is_first(name@, "."@, 0);
    }
    match find_at(&cs, &dot, 0) {
        Some(i) => {
            assert(occurs_at(name@, "."@, i as int));
            assert(cs@.subrange(0, i as int) =~= name@.take(i as int));
            slice_text(&cs, 0, i)
        },
        None => name.to_string(),
    }
}

/// The permission that a capability of the core needs.
#[derive(Debug)]
pub struct CorePermission {
    pub capability: String,
    pub permission: String,
    pub default: Decision,
}

/// What a [`CorePermission`] holds.
pub struct CorePermissionView {
    pub capability: Seq<char>,
    pub permission: Seq<char>,
    pub default: Decision,
}

impl View for CorePermission {
    type V = CorePermissionView;

    open spec fn view(&self) -> CorePermissionView {
        CorePermissionView {
            capability: self.capability@,
            permission: self.permission@,
            default: self.default,
        }
    }
}

/// The words that the core keeps to itself: the permissions of its own capabilities, and the domains
/// that no plugin can hold.
#[derive(Debug)]
pub struct Vocabulary {
    pub permissions: Vec<CorePermission>,
    pub reserved: Vec<String>,
}

/// What a [`Vocabulary`] holds.
pub struct VocabularyView {
    pub permissions: Seq<CorePermissionView>,
    pub reserved: Seq<Seq<char>>,
}

impl View for Vocabulary {
    type V = VocabularyView;

    open spec fn view(&self) -> VocabularyView {
        VocabularyView {
            permissions: rows_view(self.permissions@),
            reserved: texts_view(self.reserved@),
        }
    }
}

/// What a capability resolves to.
#[derive(Debug)]
pub struct Resolved {
    pub permission: String,
    pub default: Decision,
    /// Whether a plugin declared it; else it belongs to the core.
    pub declared: bool,
}

/// What a [`Resolved`] holds.
pub struct ResolvedView {
    pub permission: Seq<char>,
    pub default: Decision,
    pub declared: bool,
}

impl View for Resolved {
    type V = ResolvedView;

    open spec fn view(&self) -> ResolvedView {
        ResolvedView {
            permission: self.permission@,
            default: self.default,
            declared: self.declared,
        }
    }
}

/// What a plugin declares of one of its capabilities.
#[derive(Debug)]
pub struct Declaration {
    pub capability: String,
    pub plugin_id: String,
    pub permission: String,
    pub default_decision: String,
    /// How many seconds a call may take.
    pub timeout_secs: Option<u32>,
}

/// What a [`Declaration`] holds.
pub struct DeclarationView {
    pub capability: Seq<char>,
    pub plugin_id: Seq<char>,
    pub permission: Seq<char>,
    pub default_decision: Seq<char>,
    pub timeout_secs: Option<u32>,
}

impl View for Declaration {
    type V = DeclarationView;

    open spec fn view(&self) -> DeclarationView {
        DeclarationView {
            capability: self.capability@,
            plugin_id: self.plugin_id@,
            permission: self.permission@,
            default_decision: self.default_decision@,
            timeout_secs: self.timeout_secs,
        }
    }
}

impl Clone for Declaration {
    fn clone(&self) -> (r: Self)
        ensures
            r@ == self@,
    {
        Declaration {
            capability: self.capability.clone(),
            plugin_id: self.plugin_id.clone(),
            permission: self.permission.clone(),
            default_decision: self.default_decision.clone(),
            timeout_secs: self.timeout_secs,
        }
    }
}

/// A declaration with the time at which the user confirmed it.
#[derive(Debug)]
pub struct Confirmed {
    pub row: Declaration,
    pub at: u64,
}

/// What a [`Confirmed`] holds.
pub struct ConfirmedView {
    pub row: DeclarationView,
    pub at: u64,
}

impl View for Confirmed {
    type V = ConfirmedView;

    open spec fn view(&self) -> ConfirmedView {
        ConfirmedView { row: self.row@, at: self.at }
    }
}

impl Clone for Confirmed {
    fn clone(&self) -> (r: Self)
        ensures
            r@ == self@,
    {
        Confirmed { row: self.row.clone(), at: self.at }
    }
}

/// Who holds a domain of names.
#[derive(Debug)]
pub struct DomainClaim {
    pub domain: String,
    pub plugin_id: Option<String>,
    pub source: String,
}

/// What a [`DomainClaim`] holds.
pub struct DomainClaimView {
    pub domain: Seq<char>,
    pub plugin_id: Option<Seq<char>>,
    pub source: Seq<char>,
}

impl View for DomainClaim {
    type V = DomainClaimView;

    open spec fn view(&self) -> DomainClaimView {
        DomainClaimView {
            domain: self.domain@,
            plugin_id: match self.plugin_id {
                Some(p) => Some(p@),
                None => None,
            },
            source: self.source@,
        }
    }
}

impl Clone for DomainClaim {
    fn clone(&self) -> (r: Self)
        ensures
            r@ == self@,
    {
        DomainClaim {
            domain: self.domain.clone(),
            plugin_id: match &self.plugin_id {
                Some(p) => Some(p.clone()),
                None => None,
            },
            source: self.source.clone(),
        }
    }
}

/// What plugins have declared.
#[derive(Debug)]
pub struct DeclarationStore {
    pub rows: Vec<Confirmed>,
    pub claims: Vec<DomainClaim>,
}

/// What a [`DeclarationStore`] holds.
pub struct DeclarationStoreView {
    pub rows: Seq<ConfirmedView>,
    pub claims: Seq<DomainClaimView>,
}

impl View for DeclarationStore {
    type V = DeclarationStoreView;

    open spec fn view(&self) -> DeclarationStoreView {
        DeclarationStoreView { rows: rows_view(self.rows@), claims: rows_view(self.claims@) }
    }
}

impl DeclarationStoreView {
    /// The declarations without the times.
    pub open spec fn declarations(self) -> Seq<DeclarationView> {
        Seq::new(self.rows.len(), |i: int| self.rows[i].row)
    }

    /// Each plugin declares a capability at most once, and a domain is held at most once.
    pub open spec fn wf(self) -> bool {
        &&& forall|i: int, j: int|
            0 <= i < j < self.rows.len() ==> !same_provider(
                (#[trigger] self.rows[i]).row,
                (#[trigger] self.rows[j]).row,
            )
        &&& forall|i: int, j: int|
            0 <= i < j < self.claims.len() ==> (#[trigger] self.claims[i]).domain != (
            #[trigger] self.claims[j]).domain
    }
}

/// Whether two declarations are of the same capability and plugin.
pub open spec fn same_provider(a: DeclarationView, b: DeclarationView) -> bool {
    a.capability == b.capability && a.plugin_id == b.plugin_id
}

/// The order of declarations of one capability.
pub open spec fn by_plugin() -> spec_fn(DeclarationView, DeclarationView) -> bool {
    |a: DeclarationView, b: DeclarationView| text_order()(a.plugin_id, b.plugin_id)
}

/// The order of all declarations.
pub open spec fn by_capability() -> spec_fn(DeclarationView, DeclarationView) -> bool {
    |a: DeclarationView, b: DeclarationView|
        text_order()(a.capability, b.capability) || (a.capability == b.capability && text_order()(
            a.plugin_id,
            b.plugin_id,
        ))
}

/// The declarations of a capability, by plugin.
pub open spec fn declared_for(rows: Seq<DeclarationView>, capability: Seq<char>) -> Seq<
    DeclarationView,
> {
    sorted(kept(rows, |d: DeclarationView| d.capability == capability), by_plugin())
}

/// The declarations of a permission, by plugin.
pub open spec fn declared_with(rows: Seq<DeclarationView>, permission: Seq<char>) -> Seq<
    DeclarationView,
> {
    sorted(kept(rows, |d: DeclarationView| d.permission == permission), by_plugin())
}

/// The permission that the core's own words give a capability.
pub open spec fn core_permission(v: VocabularyView, capability: Seq<char>) -> Option<
    CorePermissionView,
> {
    first_of(v.permissions, |p: CorePermissionView| p.capability == capability)
}

/// What a capability resolves to: what the core says of it, else what all plugins that provide it
/// agree on. Where they do not agree it resolves to nothing.
pub open spec fn resolution(
    v: VocabularyView,
    rows: Seq<DeclarationView>,
    capability: Seq<char>,
) -> Option<ResolvedView> {
    match core_permission(v, capability) {
        Some(p) => Some(
            ResolvedView { permission: p.permission, default: p.default, declared: false },
        ),
        None => {
            let found = declared_for(rows, capability);
            if found.len() == 0 || any_of(
                found,
                |d: DeclarationView|
                    d.permission != found[0].permission || d.default_decision
                        != found[0].default_decision,
            ) {
                None
            } else {
                Some(
                    ResolvedView {
                        permission: found[0].permission,
                        default: decision_of(found[0].default_decision),
                        declared: true,
                    },
                )
            }
        },
    }
}

fn plugin_before(a: &Declaration, b: &Declaration) -> (r: bool)
    ensures
        r == by_plugin()(a@, b@),
{
    text_before(a.plugin_id.as_str(), b.plugin_id.as_str())
}

fn capability_before(a: &Declaration, b: &Declaration) -> (r: bool)
    ensures
        r == by_capability()(a@, b@),
{
    text_before(a.capability.as_str(), b.capability.as_str()) || (same(
        a.capability.as_str(),
        b.capability.as_str(),
    ) && text_before(a.plugin_id.as_str(), b.plugin_id.as_str()))
}

/// The declarations that `f` picks, as they come.
fn pick<F: Fn(&Declaration) -> bool>(
    store: &DeclarationStore,
    f: F,
    Ghost(pred): Ghost<spec_fn(DeclarationView) -> bool>,
) -> (r: Vec<Declaration>)
    requires
        forall|x: &Declaration| f.requires((x,)),
        forall|x: &Declaration, b: bool| f.ensures((x,), b) ==> b == pred(x@),
    ensures
        rows_view(r@) == kept(store@.declarations(), pred),
{
    let ghost all = store@.declarations();
    let mut out: Vec<Declaration> = Vec::new();
    let mut i: usize = 0;
    assert(rows_view(out@) =~= kept(all.take(0), pred));
    while i < store.rows.len()
        invariant
            i <= store.rows@.len(),
            all == store@.declarations(),
            all.len() == store.rows@.len(),
            forall|x: &Declaration| f.requires((x,)),
            forall|x: &Declaration, b: bool| f.ensures((x,), b) ==> b == pred(x@),
            rows_view(out@) == kept(all.take(i as int), pred),
        decreases store.rows@.len() - i,
    {
        let row: &Declaration = &store.rows[i].row;
        assert(all.take(i + 1).drop_last() =~= all.take(i as int));
        assert(all.take(i + 1).last() == row@);
        if f(row) {
            let ghost before = out@;
            out.push(row.clone());
            assert(rows_view(out@) =~= rows_view(before).push(row@));
        }
        i += 1;
    }
    assert(all.take(all.len() as int) =~= all);
    out
}

/// The declarations of a capability, by plugin.
pub fn for_capability(store: &DeclarationStore, capability: &str) -> (r: Vec<Declaration>)
    ensures
        rows_view(r@) == declared_for(store@.declarations(), capability@),
{
    let wanted = |d: &Declaration| -> (b: bool)
        ensures
            b == (d@.capability == capability@),
        { same(d.capability.as_str(), capability) };
    let ghost pred = |d: DeclarationView| d.capability == capability@;
    let found: Vec<Declaration> = pick(store, wanted, Ghost(pred));
    let before = |a: &Declaration, b: &Declaration| -> (r: bool)
        ensures
            r == by_plugin()(a@, b@),
        { plugin_before(a, b) };
    sort_list(found, before, Ghost(by_plugin()))
}

fn for_permission(store: &DeclarationStore, permission: &str) -> (r: Vec<Declaration>)
    ensures
        rows_view(r@) == declared_with(store@.declarations(), permission@),
{
    let wanted = |d: &Declaration| -> (b: bool)
        ensures
            b == (d@.permission == permission@),
        { same(d.permission.as_str(), permission) };
    let ghost pred = |d: DeclarationView| d.permission == permission@;
    let found: Vec<Declaration> = pick(store, wanted, Ghost(pred));
    let before = |a: &Declaration, b: &Declaration| -> (r: bool)
        ensures
            r == by_plugin()(a@, b@),
        { plugin_before(a, b) };
    sort_list(found, before, Ghost(by_plugin()))
}

/// What a capability resolves to: what the core says of it, else what all plugins that provide it
/// agree on. Where they do not agree it resolves to nothing.
pub fn resolve(words: &Vocabulary, store: &DeclarationStore, capability: &str) -> (r: Option<Resolved>)
    ensures
        match r {
            Some(x) => resolution(words@, store@.declarations(), capability@) == Some(x@),
            None => resolution(words@, store@.declarations(), capability@) is None,
        },
{
    let named = |p: &CorePermission| -> (b: bool)
        ensures
            b == (p@.capability == capability@),
        { same(p.capability.as_str(), capability) };
    let ghost pred = |p: CorePermissionView| p.capability == capability@;
    if let Some(i) = find_first(&words.permissions, named, Ghost(pred)) {
        proof {
            lemma_first_index(words@.permissions, pred);
        }
        let p: &CorePermission = &words.permissions[i];
        assert(words@.permissions[i as int] == p@);
        return Some(
            Resolved { permission: p.permission.clone(), default: p.default, declared: false },
        );
    }
    let found: Vec<Declaration> = for_capability(store, capability);
    let ghost list = declared_for(store@.declarations(), capability@);
    let ghost differs = |d: DeclarationView|
        d.permission != list[0].permission || d.default_decision != list[0].default_decision;
    assert(rows_view(found@) == list);
    if found.len() == 0 {
        return None;
    }
    assert(list[0] == found@[0]@);
    let mut i: usize = 0;
    while i < found.len()
        invariant
            i <= found@.len(),
            found@.len() > 0,
            rows_view(found@) == list,
            list == declared_for(store@.declarations(), capability@),
            list[0] == found@[0]@,
            core_permission(words@, capability@) is None,
            differs == (|d: DeclarationView|
                d.permission != list[0].permission || d.default_decision
                    != list[0].default_decision),
            forall|k: int| 0 <= k < i ==> !differs(#[trigger] list[k]),
        decreases found@.len() - i,
    {
        let d: &Declaration = &found[i];
        assert(list[i as int] == d@);
        if !same(d.permission.as_str(), found[0].permission.as_str()) || !same(
            d.default_decision.as_str(),
            found[0].default_decision.as_str(),
        ) {
            assert(differs(list[i as int]));
            assert(any_of(list, differs));
            return None;
        }
        i += 1;
    }
    assert(!any_of(list, differs));
    Some(
        Resolved {
            permission: found[0].permission.clone(),
            default: parse_decision(found[0].default_decision.as_str()),
            declared: true,
        },
    )
}

/// Whether some plugin declares a permission.
pub open spec fn permission_declared(rows: Seq<DeclarationView>, permission: Seq<char>) -> bool {
    exists|i: int| 0 <= i < rows.len() && (#[trigger] rows[i]).permission == permission
}

/// Whether some plugin declares a permission.
pub fn is_declared_permission(store: &DeclarationStore, permission: &str) -> (r: bool)
    ensures
        r == permission_declared(store@.declarations(), permission@),
{
    let ghost all = store@.declarations();
    let mut i: usize = 0;
    while i < store.rows.len()
        invariant
            i <= store.rows@.len(),
            all == store@.declarations(),
            forall|k: int| 0 <= k < i ==> (#[trigger] all[k]).permission != permission@,
        decreases store.rows@.len() - i,
    {
        assert(all[i as int] == store.rows@[i as int].row@);
        if same(store.rows[i].row.permission.as_str(), permission) {
            return true;
        }
        i += 1;
    }
    false
}

/// The permissions of some declarations.
pub open spec fn permissions_of(rows: Seq<DeclarationView>) -> Seq<Seq<char>> {
    Seq::new(rows.len(), |i: int| rows[i].permission)
}

/// The capabilities of some declarations.
pub open spec fn capabilities_of(rows: Seq<DeclarationView>) -> Seq<Seq<char>> {
    Seq::new(rows.len(), |i: int| rows[i].capability)
}

/// The permissions that plugins declare, each once, in order.
pub fn declared_permission_set(store: &DeclarationStore) -> (r: Vec<String>)
    ensures
        texts_view(r@) == ordered(permissions_of(store@.declarations()), text_order()),
{
    let before = |a: &String, b: &String| -> (r: bool)
        ensures
            r == text_order()(a@, b@),
        { text_before(a.as_str(), b.as_str()) };
    let ghost all = permissions_of(store@.declarations());
    let mut out: Vec<String> = Vec::new();
    let mut i: usize = 0;
    assert(rows_view(out@) =~= ordered(all.take(0), text_order()));
    while i < store.rows.len()
        invariant
            i <= store.rows@.len(),
            all == permissions_of(store@.declarations()),
            all.len() == store.rows@.len(),
            forall|a: &String, b: &String| before.requires((a, b)),
            forall|a: &String, b: &String, r: bool|
                before.ensures((a, b), r) ==> r == text_order()(a@, b@),
            rows_view(out@) == ordered(all.take(i as int), text_order()),
        decreases store.rows@.len() - i,
    {
        assert(all.take(i + 1).drop_last() =~= all.take(i as int));
        assert(all.take(i + 1).last() == store.rows@[i as int].row.permission@);
        insert_ordered(
            &mut out,
            store.rows[i].row.permission.clone(),
            before,
            Ghost(text_order()),
        );
        i += 1;
    }
    assert(all.take(all.len() as int) =~= all);
    assert(texts_view(out@) =~= rows_view(out@));
    out
}

/// The capabilities that plugins declare, each once, in order.
pub fn declared_capability_ids(store: &DeclarationStore) -> (r: Vec<String>)
    ensures
        texts_view(r@) == ordered(capabilities_of(store@.declarations()), text_order()),
{
    let before = |a: &String, b: &String| -> (r: bool)
        ensures
            r == text_order()(a@, b@),
        { text_before(a.as_str(), b.as_str()) };
    let ghost all = capabilities_of(store@.declarations());
    let mut out: Vec<String> = Vec::new();
    let mut i: usize = 0;
    assert(rows_view(out@) =~= ordered(all.take(0), text_order()));
    while i < store.rows.len()
        invariant
            i <= store.rows@.len(),
            all == capabilities_of(store@.declarations()),
            all.len() == store.rows@.len(),
            forall|a: &String, b: &String| before.requires((a, b)),
            forall|a: &String, b: &String, r: bool|
                before.ensures((a, b), r) ==> r == text_order()(a@, b@),
            rows_view(out@) == ordered(all.take(i as int), text_order()),
        decreases store.rows@.len() - i,
    {
        assert(all.take(i + 1).drop_last() =~= all.take(i as int));
        assert(all.take(i + 1).last() == store.rows@[i as int].row.capability@);
        insert_ordered(
            &mut out,
            store.rows[i].row.capability.clone(),
            before,
            Ghost(text_order()),
        );
        i += 1;
    }
    assert(all.take(all.len() as int) =~= all);
    assert(texts_view(out@) =~= rows_view(out@));
    out
}

/// The decision that plugins declare for a permission, where they agree on one.
pub open spec fn default_declared(rows: Seq<DeclarationView>, permission: Seq<char>) -> Option<Decision> {
    let found = declared_with(rows, permission);
    if found.len() == 0 || any_of(
        found,
        |d: DeclarationView| d.default_decision != found[0].default_decision,
    ) {
        None
    } else {
        Some(decision_of(found[0].default_decision))
    }
}

/// The decision that plugins declare for a permission, where they agree on one.
pub fn declared_default(store: &DeclarationStore, permission: &str) -> (r: Option<Decision>)
    ensures
        r == default_declared(store@.declarations(), permission@),
{
    let found: Vec<Declaration> = for_permission(store, permission);
    let ghost list = declared_with(store@.declarations(), permission@);
    let ghost differs = |d: DeclarationView| d.default_decision != list[0].default_decision;
    assert(rows_view(found@) == list);
    if found.len() == 0 {
        return None;
    }
    assert(list[0] == found@[0]@);
    let mut i: usize = 0;
    while i < found.len()
        invariant
            i <= found@.len(),
            found@.len() > 0,
            rows_view(found@) == list,
            list == declared_with(store@.declarations(), permission@),
            list[0] == found@[0]@,
            differs == (|d: DeclarationView| d.default_decision != list[0].default_decision),
            forall|k: int| 0 <= k < i ==> !differs(#[trigger] list[k]),
        decreases found@.len() - i,
    {
        assert(list[i as int] == found@[i as int]@);
        if !same(found[i].default_decision.as_str(), found[0].default_decision.as_str()) {
            assert(differs(list[i as int]));
            assert(any_of(list, differs));
            return None;
        }
        i += 1;
    }
    assert(!any_of(list, differs));
    Some(parse_decision(found[0].default_decision.as_str()))
}

/// How many seconds a call of a plugin's capability may take, where the plugin declares it.
pub open spec fn timeout_declared(
    rows: Seq<DeclarationView>,
    plugin: Seq<char>,
    capability: Seq<char>,
) -> Option<u32> {
    match first_of(
        rows,
        |d: DeclarationView| d.capability == capability && d.plugin_id == plugin,
    ) {
        Some(d) => d.timeout_secs,
        None => None,
    }
}

/// How many seconds a call of a plugin's capability may take, where the plugin declares it.
pub fn timeout_for(store: &DeclarationStore, plugin_id: &str, capability: &str) -> (r: Option<u32>)
    ensures
        r == timeout_declared(store@.declarations(), plugin_id@, capability@),
{
    let ghost all = store@.declarations();
    let ghost pred = |d: DeclarationView| d.capability == capability@ && d.plugin_id == plugin_id@;
    let mut i: usize = 0;
    proof {
        lemma_first_index(all, pred);
    }
    while i < store.rows.len()
        invariant
            i <= store.rows@.len(),
            all == store@.declarations(),
            all.len() == store.rows@.len(),
            pred == (|d: DeclarationView|
                d.capability == capability@ && d.plugin_id == plugin_id@),
            forall|k: int| 0 <= k < i ==> !pred(#[trigger] all[k]),
        decreases store.rows@.len() - i,
    {
        let d: &Declaration = &store.rows[i].row;
        assert(all[i as int] == d@);
        if same(d.capability.as_str(), capability) && same(d.plugin_id.as_str(), plugin_id) {
            proof {
                lemma_first_index(all, pred);
                assert(pred(all[i as int]));
            }
            return d.timeout_secs;
        }
        i += 1;
    }
    proof {
        lemma_first_index(all, pred);
    }
    None
}

/// All declarations, by capability and plugin.
pub fn all(store: &DeclarationStore) -> (r: Vec<Declaration>)
    ensures
        rows_view(r@) == sorted(store@.declarations(), by_capability()),
{
    let any = |d: &Declaration| -> (b: bool)
        ensures
            b,
        { true };
    let ghost pred = |d: DeclarationView| true;
    let found: Vec<Declaration> = pick(store, any, Ghost(pred));
    proof {
        lemma_kept_all(store@.declarations(), pred);
    }
    let before = |a: &Declaration, b: &Declaration| -> (r: bool)
        ensures
            r == by_capability()(a@, b@),
        { capability_before(a, b) };
    sort_list(found, before, Ghost(by_capability()))
}

proof fn lemma_kept_all(s: Seq<DeclarationView>, f: spec_fn(DeclarationView) -> bool)
    requires
        forall|d: DeclarationView| #[trigger] f(d),
    ensures
        kept(s, f) == s,
    decreases s.len(),
{
    if s.len() > 0 {
        lemma_kept_all(s.drop_last(), f);
        assert(f(s.last()));
        assert(s.drop_last().push(s.last()) =~= s);
    } else {
        assert(kept(s, f) =~= s);
    }
}

/// The strictest decision that plugins declare for a permission.
pub open spec fn strictest(rows: Seq<DeclarationView>, permission: Seq<char>) -> Option<Decision>
    decreases rows.len(),
{
    if rows.len() == 0 {
        None
    } else {
        let before = strictest(rows.drop_last(), permission);
        let d = decision_of(rows.last().default_decision);
        if rows.last().permission != permission {
            before
        } else if before is Some && leniency(before->Some_0) <= leniency(d) {
            before
        } else {
            Some(d)
        }
    }
}

/// A permission with the decision that holds for it.
#[derive(Debug)]
pub struct PermissionDefault {
    pub permission: String,
    pub decision: Decision,
}

/// What a [`PermissionDefault`] holds.
pub struct PermissionDefaultView {
    pub permission: Seq<char>,
    pub decision: Decision,
}

impl View for PermissionDefault {
    type V = PermissionDefaultView;

    open spec fn view(&self) -> PermissionDefaultView {
        PermissionDefaultView { permission: self.permission@, decision: self.decision }
    }
}

/// The strictest decision for a permission, and denial where nothing declares it.
pub open spec fn strictest_or_denied(rows: Seq<DeclarationView>, permission: Seq<char>) -> Decision {
    match strictest(rows, permission) {
        Some(d) => d,
        None => Decision::Denied,
    }
}

/// The permissions that plugins declare, each with the strictest decision declared for it.
pub open spec fn permission_defaults(rows: Seq<DeclarationView>) -> Seq<PermissionDefaultView> {
    let names = ordered(permissions_of(rows), text_order());
    Seq::new(
        names.len(),
        |i: int|
            PermissionDefaultView {
                permission: names[i],
                decision: strictest_or_denied(rows, names[i]),
            },
    )
}

fn strictest_for(store: &DeclarationStore, permission: &str) -> (r: Decision)
    ensures
        r == strictest_or_denied(store@.declarations(), permission@),
{
    let ghost all = store@.declarations();
    let mut best: Option<Decision> = None;
    let mut i: usize = 0;
    assert(all.take(0) =~= Seq::empty());
    while i < store.rows.len()
        invariant
            i <= store.rows@.len(),
            all == store@.declarations(),
            all.len() == store.rows@.len(),
            best == strictest(all.take(i as int), permission@),
        decreases store.rows@.len() - i,
    {
        let row: &Declaration = &store.rows[i].row;
        assert(all.take(i + 1).drop_last() =~= all.take(i as int));
        assert(all.take(i + 1).last() == row@);
        if same(row.permission.as_str(), permission) {
            let d: Decision = parse_decision(row.default_decision.as_str());
            best = match best {
                Some(b) => if stricter(d) < stricter(b) {
                    Some(d)
                } else {
                    Some(b)
                },
                None => Some(d),
            };
        }
        i += 1;
    }
    assert(all.take(all.len() as int) =~= all);
    match best {
        Some(d) => d,
        None => Decision::Denied,
    }
}

/// The permissions that plugins declare, each with the strictest decision declared for it.
pub fn declared_permission_defaults(store: &DeclarationStore) -> (r: Vec<PermissionDefault>)
    ensures
        rows_view(r@) == permission_defaults(store@.declarations()),
{
    let names: Vec<String> = declared_permission_set(store);
    let ghost rows = store@.declarations();
    let ghost list = ordered(permissions_of(rows), text_order());
    let mut out: Vec<PermissionDefault> = Vec::new();
    let mut i: usize = 0;
    while i < names.len()
        invariant
            i <= names@.len(),
            rows == store@.declarations(),
            texts_view(names@) == list,
            out@.len() == i,
            forall|k: int|
                0 <= k < i ==> (#[trigger] out@[k])@ == (PermissionDefaultView {
                    permission: list[k],
                    decision: strictest_or_denied(rows, list[k]),
                }),
        decreases names@.len() - i,
    {
        assert(list[i as int] == names@[i as int]@);
        let decision: Decision = strictest_for(store, names[i].as_str());
        out.push(PermissionDefault { permission: names[i].clone(), decision });
        i += 1;
    }
    assert(rows_view(out@) =~= permission_defaults(rows));
    out
}

/// The decision that holds for a permission lets no more through than any declaration of it.
pub proof fn no_declaration_is_stricter(rows: Seq<DeclarationView>, i: int)
    requires
        0 <= i < rows.len(),
    ensures
        leniency(strictest_or_denied(rows, rows[i].permission)) <= leniency(
            decision_of(rows[i].default_decision),
        ),
        strictest(rows, rows[i].permission) is Some,
    decreases rows.len(),
{
    if i < rows.len() - 1 {
        assert(rows.drop_last()[i] == rows[i]);
        no_declaration_is_stricter(rows.drop_last(), i);
    }
}

/// Whether another plugin declares a capability otherwise.
pub open spec fn declares_otherwise(
    d: DeclarationView,
    permission: Seq<char>,
    default_decision: Seq<char>,
    exclude: Seq<char>,
) -> bool {
    d.plugin_id != exclude && (d.permission != permission || d.default_decision != default_decision)
}

/// The first plugin, if any, that declares a capability otherwise.
pub open spec fn conflict(
    rows: Seq<DeclarationView>,
    capability: Seq<char>,
    permission: Seq<char>,
    default_decision: Seq<char>,
    exclude: Seq<char>,
) -> Option<Seq<char>> {
    match first_of(
        declared_for(rows, capability),
        |d: DeclarationView| declares_otherwise(d, permission, default_decision, exclude),
    ) {
        Some(d) => Some(d.plugin_id),
        None => None,
    }
}

/// The first plugin other than `exclude`, if any, that declares a capability otherwise.
pub fn conflicting_provider(
    store: &DeclarationStore,
    capability: &str,
    permission: &str,
    default_decision: &str,
    exclude_plugin: &str,
) -> (r: Option<String>)
    ensures
        match r {
            Some(p) => conflict(
                store@.declarations(),
                capability@,
                permission@,
                default_decision@,
                exclude_plugin@,
            ) == Some(p@),
            None => conflict(
                store@.declarations(),
                capability@,
                permission@,
                default_decision@,
                exclude_plugin@,
            ) is None,
        },
{
    let found: Vec<Declaration> = for_capability(store, capability);
    let otherwise = |d: &Declaration| -> (b: bool)
        ensures
            b == declares_otherwise(d@, permission@, default_decision@, exclude_plugin@),
        {
            !same(d.plugin_id.as_str(), exclude_plugin) && (!same(
                d.permission.as_str(),
                permission,
            ) || !same(d.default_decision.as_str(), default_decision))
        };
    let ghost pred = |d: DeclarationView|
        declares_otherwise(d, permission@, default_decision@, exclude_plugin@);
    match find_first(&found, otherwise, Ghost(pred)) {
        Some(i) => {
            proof {
                lemma_first_index(rows_view(found@), pred);
            }
            assert(rows_view(found@)[i as int] == found@[i as int]@);
            Some(found[i].plugin_id.clone())
        },
        None => None,
    }
}

/// Where a domain stands among the claims.
pub open spec fn claim_index(claims: Seq<DomainClaimView>, domain: Seq<char>) -> Option<int> {
    first_index(claims, |c: DomainClaimView| c.domain == domain)
}

/// The claims after a plugin has claimed a domain, or why it cannot.
pub open spec fn claim_one(
    reserved: Seq<Seq<char>>,
    claims: Seq<DomainClaimView>,
    plugin: Seq<char>,
    domain: Seq<char>,
) -> Result<Seq<DomainClaimView>, Seq<char>> {
    if reserved.contains(domain) {
        Err("domain "@ + domain + " is reserved"@)
    } else {
        match claim_index(claims, domain) {
            None => Ok(
                claims.push(
                    DomainClaimView { domain, plugin_id: Some(plugin), source: "local"@ },
                ),
            ),
            Some(i) => match claims[i].plugin_id {
                Some(h) => if h != plugin {
                    Err("domain "@ + domain + " already claimed by "@ + h)
                } else {
                    Ok(claims)
                },
                None => Ok(
                    claims.update(
                        i,
                        DomainClaimView { plugin_id: Some(plugin), ..claims[i] },
                    ),
                ),
            },
        }
    }
}

/// The claims after a plugin has claimed some domains one after the other, or why it cannot.
pub open spec fn claim_each(
    reserved: Seq<Seq<char>>,
    claims: Seq<DomainClaimView>,
    plugin: Seq<char>,
    domains: Seq<Seq<char>>,
) -> Result<Seq<DomainClaimView>, Seq<char>>
    decreases domains.len(),
{
    if domains.len() == 0 {
        Ok(claims)
    } else {
        match claim_each(reserved, claims, plugin, domains.drop_last()) {
            Ok(before) => claim_one(reserved, before, plugin, domains.last()),
            Err(e) => Err(e),
        }
    }
}

proof fn lemma_claim_stops(
    reserved: Seq<Seq<char>>,
    claims: Seq<DomainClaimView>,
    plugin: Seq<char>,
    domains: Seq<Seq<char>>,
    i: int,
)
    requires
        0 <= i <= domains.len(),
        claim_each(reserved, claims, plugin, domains.take(i)) is Err,
    ensures
        claim_each(reserved, claims, plugin, domains) == claim_each(
            reserved,
            claims,
            plugin,
            domains.take(i),
        ),
    decreases domains.len() - i,
{
    if i < domains.len() {
        let next = domains.take(i + 1);
        assert(next.drop_last() =~= domains.take(i));
        lemma_claim_stops(reserved, claims, plugin, domains, i + 1);
    } else {
        assert(domains.take(i) =~= domains);
    }
}

fn claim_next(words: &Vocabulary, claims: &mut Vec<DomainClaim>, plugin_id: &str, domain: &str) -> (r:
    Result<(), String>)
    ensures
        match r {
            Ok(_) => claim_one(
                words@.reserved,
                rows_view(old(claims)@),
                plugin_id@,
                domain@,
            ) is Ok && claim_one(
                words@.reserved,
                rows_view(old(claims)@),
                plugin_id@,
                domain@,
            )->Ok_0 == rows_view(final(claims)@),
            Err(e) => claim_one(
                words@.reserved,
                rows_view(old(claims)@),
                plugin_id@,
                domain@,
            ) is Err && claim_one(
                words@.reserved,
                rows_view(old(claims)@),
                plugin_id@,
                domain@,
            )->Err_0 == e@,
        },
{
    let ghost start = rows_view(claims@);
    let reserved: bool = is_one_of(&words.reserved, domain);
    proof {
        let list = words@.reserved;
        if reserved {
            let k = choose|k: int|
                0 <= k < words.reserved@.len() && (#[trigger] words.reserved@[k])@ == domain@;
            assert(list[k] == domain@);
        }
        if list.contains(domain@) {
            let k = choose|k: int| 0 <= k < list.len() && list[k] == domain@;
            assert(words.reserved@[k]@ == domain@);
        }
    }
    if reserved {
        return Err(join3("domain ", domain, " is reserved"));
    }
    let held = |c: &DomainClaim| -> (b: bool)
        ensures
            b == (c@.domain == domain@),
        { same(c.domain.as_str(), domain) };
    let ghost pred = |c: DomainClaimView| c.domain == domain@;
    match find_first(claims, held, Ghost(pred)) {
        Some(i) => {
            proof {
                lemma_first_index(start, pred);
            }
            assert(start[i as int] == claims@[i as int]@);
            match &claims[i].plugin_id {
                Some(h) => {
                    if !same(h.as_str(), plugin_id) {
                        return Err(
                            join(
                                join3("domain ", domain, " already claimed by ").as_str(),
                                h.as_str(),
                            ),
                        );
                    }
                },
                None => {
                    let row: DomainClaim = DomainClaim {
                        domain: claims[i].domain.clone(),
                        plugin_id: Some(plugin_id.to_string()),
                        source: claims[i].source.clone(),
                    };
                    let ghost v = row@;
                    claims.set(i, row);
                    assert(rows_view(claims@) =~= start.update(i as int, v));
                },
            }
        },
        None => {
            let row: DomainClaim = DomainClaim {
                domain: domain.to_string(),
                plugin_id: Some(plugin_id.to_string()),
                source: "local".to_string(),
            };
            let ghost v = row@;
            claims.push(row);
            assert(rows_view(claims@) =~= start.push(v));
        },
    }
    Ok(())
}

fn copy_claims(claims: &Vec<DomainClaim>) -> (r: Vec<DomainClaim>)
    ensures
        rows_view(r@) == rows_view(claims@),
{
    let mut out: Vec<DomainClaim> = Vec::new();
    let mut i: usize = 0;
    while i < claims.len()
        invariant
            i <= claims@.len(),
            out@.len() == i,
            forall|k: int| 0 <= k < i ==> (#[trigger] out@[k])@ == claims@[k]@,
        decreases claims@.len() - i,
    {
        out.push(claims[i].clone());
        i += 1;
    }
    assert(rows_view(out@) =~= rows_view(claims@));
    out
}

/// Claims domains for a plugin: a domain that is reserved or that another plugin holds cannot be
/// claimed. Where one cannot, none is.
pub fn claim_domains_in_tx(
    words: &Vocabulary,
    store: &mut DeclarationStore,
    plugin_id: &str,
    domains: &[String],
) -> (r: Result<(), String>)
    ensures
        final(store)@.rows == old(store)@.rows,
        match (
            r,
            claim_each(words@.reserved, old(store)@.claims, plugin_id@, texts_view(domains@)),
        ) {
            (Ok(_), Ok(after)) => final(store)@.claims == after,
            (Err(e), Err(why)) => e@ == why && final(store)@ == old(store)@,
            _ => false,
        },
{
    let ghost start = store@.claims;
    let ghost list = texts_view(domains@);
    let mut claims: Vec<DomainClaim> = copy_claims(&store.claims);
    let mut i: usize = 0;
    assert(list.take(0) =~= Seq::empty());
    while i < domains.len()
        invariant
            i <= domains@.len(),
            *store == *old(store),
            start == old(store)@.claims,
            list == texts_view(domains@),
            claim_each(words@.reserved, start, plugin_id@, list.take(i as int)) is Ok,
            claim_each(words@.reserved, start, plugin_id@, list.take(i as int))->Ok_0 == rows_view(
                claims@,
            ),
        decreases domains@.len() - i,
    {
        assert(list.take(i + 1).drop_last() =~= list.take(i as int));
        assert(list.take(i + 1).last() == domains@[i as int]@);
        if let Err(e) = claim_next(words, &mut claims, plugin_id, domains[i].as_str()) {
            proof {
                lemma_claim_stops(words@.reserved, start, plugin_id@, list, i + 1);
            }
            return Err(e);
        }
        i += 1;
    }
    assert(list.take(list.len() as int) =~= list);
    store.claims = claims;
    Ok(())
}

/// The rows after a declaration is written: it replaces that of the same capability and plugin.
pub open spec fn with_declaration(rows: Seq<ConfirmedView>, row: ConfirmedView) -> Seq<ConfirmedView> {
    match first_index(rows, |c: ConfirmedView| same_provider(c.row, row.row)) {
        Some(i) => rows.update(i, row),
        None => rows.push(row),
    }
}

fn put_row(rows: &mut Vec<Confirmed>, row: Confirmed)
    ensures
        rows_view(final(rows)@) == with_declaration(rows_view(old(rows)@), row@),
{
    let ghost start = rows_view(rows@);
    let ghost v = row@;
    let alike = |c: &Confirmed| -> (b: bool)
        ensures
            b == same_provider(c@.row, row@.row),
        {
            same(c.row.capability.as_str(), row.row.capability.as_str()) && same(
                c.row.plugin_id.as_str(),
                row.row.plugin_id.as_str(),
            )
        };
    let ghost pred = |c: ConfirmedView| same_provider(c.row, v.row);
    let found: Option<usize> = find_first(rows, alike, Ghost(pred));
    match found {
        Some(i) => {
            proof {
                lemma_first_index(start, pred);
            }
            rows.set(i, row);
            assert(rows_view(rows@) =~= start.update(i as int, v));
        },
        None => {
            rows.push(row);
            assert(rows_view(rows@) =~= start.push(v));
        },
    }
}

impl DeclarationStore {
    /// A store in which nothing is declared.
    pub fn new() -> (r: Self)
        ensures
            r@.rows.len() == 0,
            r@.claims.len() == 0,
            r@.wf(),
    {
        DeclarationStore { rows: Vec::new(), claims: Vec::new() }
    }

    /// Writes a declaration: it replaces that of the same capability and plugin.
    pub fn put(&mut self, row: Declaration, now: u64)
        ensures
            final(self)@.rows == with_declaration(
                old(self)@.rows,
                ConfirmedView { row: row@, at: now },
            ),
            final(self)@.claims == old(self)@.claims,
    {
        put_row(&mut self.rows, Confirmed { row, at: now });
    }
}

/// What a plugin asks to have written of one of its capabilities.
#[derive(Debug)]
pub struct NewDeclaration {
    pub capability: String,
    pub permission: String,
    pub default_decision: String,
    pub timeout_secs: Option<u32>,
}

/// What a [`NewDeclaration`] holds.
pub struct NewDeclarationView {
    pub capability: Seq<char>,
    pub permission: Seq<char>,
    pub default_decision: Seq<char>,
    pub timeout_secs: Option<u32>,
}

impl View for NewDeclaration {
    type V = NewDeclarationView;

    open spec fn view(&self) -> NewDeclarationView {
        NewDeclarationView {
            capability: self.capability@,
            permission: self.permission@,
            default_decision: self.default_decision@,
            timeout_secs: self.timeout_secs,
        }
    }
}

/// What a plugin asks for, as a row.
pub open spec fn row_for(d: NewDeclarationView, plugin: Seq<char>, now: u64) -> ConfirmedView {
    ConfirmedView {
        row: DeclarationView {
            capability: d.capability,
            plugin_id: plugin,
            permission: d.permission,
            default_decision: d.default_decision,
            timeout_secs: d.timeout_secs,
        },
        at: now,
    }
}

/// The rows after some declarations of a plugin are written, one after the other.
pub open spec fn with_declarations(
    rows: Seq<ConfirmedView>,
    asked: Seq<NewDeclarationView>,
    plugin: Seq<char>,
    now: u64,
) -> Seq<ConfirmedView>
    decreases asked.len(),
{
    if asked.len() == 0 {
        rows
    } else {
        with_declaration(
            with_declarations(rows, asked.drop_last(), plugin, now),
            row_for(asked.last(), plugin, now),
        )
    }
}

/// The domains of some declarations, each once, as they first come.
pub open spec fn domains_asked(asked: Seq<NewDeclarationView>) -> Seq<Seq<char>>
    decreases asked.len(),
{
    if asked.len() == 0 {
        Seq::empty()
    } else {
        let before = domains_asked(asked.drop_last());
        let d = domain_of(asked.last().capability);
        if before.contains(d) {
            before
        } else {
            before.push(d)
        }
    }
}

fn copy_rows(rows: &Vec<Confirmed>) -> (r: Vec<Confirmed>)
    ensures
        rows_view(r@) == rows_view(rows@),
{
    let mut out: Vec<Confirmed> = Vec::new();
    let mut i: usize = 0;
    while i < rows.len()
        invariant
            i <= rows@.len(),
            out@.len() == i,
            forall|k: int| 0 <= k < i ==> (#[trigger] out@[k])@ == rows@[k]@,
        decreases rows@.len() - i,
    {
        out.push(rows[i].clone());
        i += 1;
    }
    assert(rows_view(out@) =~= rows_view(rows@));
    out
}

/// Writes what a plugin declares and claims the domains of its capabilities. Where a domain cannot
/// be claimed, nothing is written.
pub fn write_in_tx(
    words: &Vocabulary,
    store: &mut DeclarationStore,
    plugin_id: &str,
    declarations: &Vec<NewDeclaration>,
    now: u64,
) -> (r: Result<(), String>)
    ensures
        match (
            r,
            claim_each(
                words@.reserved,
                old(store)@.claims,
                plugin_id@,
                domains_asked(rows_view(declarations@)),
            ),
        ) {
            (Ok(_), Ok(after)) => {
                &&& final(store)@.claims == after
                &&& final(store)@.rows == with_declarations(
                    old(store)@.rows,
                    rows_view(declarations@),
                    plugin_id@,
                    now,
                )
            },
            (Err(e), Err(why)) => e@ == why && final(store)@ == old(store)@,
            _ => false,
        },
{
    let ghost asked = rows_view(declarations@);
    let ghost start = store@.rows;
    let mut rows: Vec<Confirmed> = copy_rows(&store.rows);
    let mut domains: Vec<String> = Vec::new();
    let mut i: usize = 0;
    assert(asked.take(0) =~= Seq::empty());
    assert(texts_view(domains@) =~= Seq::empty());
    while i < declarations.len()
        invariant
            i <= declarations@.len(),
            asked == rows_view(declarations@),
            start == old(store)@.rows,
            *store == *old(store),
            rows_view(rows@) == with_declarations(start, asked.take(i as int), plugin_id@, now),
            texts_view(domains@) == domains_asked(asked.take(i as int)),
        decreases declarations@.len() - i,
    {
        let d: &NewDeclaration = &declarations[i];
        let ghost next = asked.take(i + 1);
        assert(next.drop_last() =~= asked.take(i as int));
        assert(next.last() == d@);
        let row: Declaration = Declaration {
            capability: d.capability.clone(),
            plugin_id: plugin_id.to_string(),
            permission: d.permission.clone(),
            default_decision: d.default_decision.clone(),
            timeout_secs: d.timeout_secs,
        };
        put_row(&mut rows, Confirmed { row, at: now });
        let segment: String = first_segment(d.capability.as_str());
        let ghost before = domains@;
        let known: bool = is_one_of(&domains, segment.as_str());
        proof {
            let listed = texts_view(before);
            if known {
                let k = choose|k: int|
                    0 <= k < before.len() && (#[trigger] before[k])@ == segment@;
                assert(listed[k] == segment@);
            }
            if listed.contains(segment@) {
                let k = choose|k: int| 0 <= k < listed.len() && listed[k] == segment@;
                assert(before[k]@ == segment@);
            }
        }
        if !known {
            let ghost name = segment@;
            domains.push(segment);
            assert(texts_view(domains@) =~= texts_view(before).push(name));
        }
        i += 1;
    }
    assert(asked.take(asked.len() as int) =~= asked);
    match claim_domains_in_tx(words, store, plugin_id, &domains) {
        Ok(_) => {
            store.rows = rows;
            Ok(())
        },
        Err(e) => Err(e),
    }
}

/// What is left once a plugin is gone.
pub open spec fn without_plugin(s: DeclarationStoreView, plugin: Seq<char>) -> DeclarationStoreView {
    DeclarationStoreView {
        rows: kept(s.rows, |c: ConfirmedView| c.row.plugin_id != plugin),
        claims: kept(s.claims, |c: DomainClaimView| c.plugin_id != Some(plugin)),
    }
}

/// Takes out what a plugin declared and releases its domains.
pub fn delete_for_plugin(store: &mut DeclarationStore, plugin_id: &str)
    ensures
        final(store)@ == without_plugin(old(store)@, plugin_id@),
{
    let ghost rows_before = store@.rows;
    let ghost claims_before = store@.claims;
    let ghost stays = |c: ConfirmedView| c.row.plugin_id != plugin_id@;
    let ghost free = |c: DomainClaimView| c.plugin_id != Some(plugin_id@);
    let mut rows: Vec<Confirmed> = Vec::new();
    let mut i: usize = 0;
    assert(rows_view(rows@) =~= kept(rows_before.take(0), stays));
    while i < store.rows.len()
        invariant
            i <= store.rows@.len(),
            *store == *old(store),
            rows_before == old(store)@.rows,
            stays == (|c: ConfirmedView| c.row.plugin_id != plugin_id@),
            rows_view(rows@) == kept(rows_before.take(i as int), stays),
        decreases store.rows@.len() - i,
    {
        assert(rows_before.take(i + 1).drop_last() =~= rows_before.take(i as int));
        assert(rows_before.take(i + 1).last() == store.rows@[i as int]@);
        if !same(store.rows[i].row.plugin_id.as_str(), plugin_id) {
            let ghost before = rows@;
            rows.push(store.rows[i].clone());
            assert(rows_view(rows@) =~= rows_view(before).push(store.rows@[i as int]@));
        }
        i += 1;
    }
    assert(rows_before.take(rows_before.len() as int) =~= rows_before);
    let mut claims: Vec<DomainClaim> = Vec::new();
    let mut j: usize = 0;
    assert(rows_view(claims@) =~= kept(claims_before.take(0), free));
    while j < store.claims.len()
        invariant
            j <= store.claims@.len(),
            *store == *old(store),
            claims_before == old(store)@.claims,
            free == (|c: DomainClaimView| c.plugin_id != Some(plugin_id@)),
            rows_view(claims@) == kept(claims_before.take(j as int), free),
        decreases store.claims@.len() - j,
    {
        assert(claims_before.take(j + 1).drop_last() =~= claims_before.take(j as int));
        assert(claims_before.take(j + 1).last() == store.claims@[j as int]@);
        let mine: bool = match &store.claims[j].plugin_id {
            Some(h) => same(h.as_str(), plugin_id),
            None => false,
        };
        if !mine {
            let ghost before = claims@;
            claims.push(store.claims[j].clone());
            assert(rows_view(claims@) =~= rows_view(before).push(store.claims@[j as int]@));
        }
        j += 1;
    }
    assert(claims_before.take(claims_before.len() as int) =~= claims_before);
    store.rows = rows;
    store.claims = claims;
}

/// The order of claims.
pub open spec fn by_domain() -> spec_fn(DomainClaimView, DomainClaimView) -> bool {
    |a: DomainClaimView, b: DomainClaimView| text_order()(a.domain, b.domain)
}

/// The claims by domain.
pub fn domains(store: &DeclarationStore) -> (r: Vec<DomainClaim>)
    ensures
        rows_view(r@) == sorted(store@.claims, by_domain()),
{
    let list: Vec<DomainClaim> = copy_claims(&store.claims);
    let before = |a: &DomainClaim, b: &DomainClaim| -> (r: bool)
        ensures
            r == by_domain()(a@, b@),
        { text_before(a.domain.as_str(), b.domain.as_str()) };
    sort_list(list, before, Ghost(by_domain()))
}

/// Who holds a domain.
pub open spec fn holder(claims: Seq<DomainClaimView>, domain: Seq<char>) -> Option<Seq<char>> {
    match claim_index(claims, domain) {
        Some(i) => claims[i].plugin_id,
        None => None,
    }
}

/// Whether no domain stands among the claims twice.
pub open spec fn claims_distinct(claims: Seq<DomainClaimView>) -> bool {
    forall|i: int, j: int|
        0 <= i < j < claims.len() ==> (#[trigger] claims[i]).domain != (#[trigger] claims[j]).domain
}

/// Whether no plugin declares a capability twice.
pub open spec fn rows_distinct(rows: Seq<ConfirmedView>) -> bool {
    forall|i: int, j: int|
        0 <= i < j < rows.len() ==> !same_provider(
            (#[trigger] rows[i]).row,
            (#[trigger] rows[j]).row,
        )
}

proof fn lemma_index_at(claims: Seq<DomainClaimView>, i: int)
    requires
        claims_distinct(claims),
        0 <= i < claims.len(),
    ensures
        claim_index(claims, claims[i].domain) == Some(i),
{
    let pred = |c: DomainClaimView| c.domain == claims[i].domain;
    lemma_first_index(claims, pred);
    match first_index(claims, pred) {
        Some(k) => {
            assert(claims[k].domain == claims[i].domain);
        },
        None => {
            assert(!pred(claims[i]));
        },
    }
}

proof fn lemma_claim_one(
    reserved: Seq<Seq<char>>,
    claims: Seq<DomainClaimView>,
    plugin: Seq<char>,
    domain: Seq<char>,
    other: Seq<char>,
)
    requires
        claims_distinct(claims),
        claim_one(reserved, claims, plugin, domain) is Ok,
    ensures
        claims_distinct(claim_one(reserved, claims, plugin, domain)->Ok_0),
        holder(claim_one(reserved, claims, plugin, domain)->Ok_0, domain) == Some(plugin),
        other != domain ==> holder(claim_one(reserved, claims, plugin, domain)->Ok_0, other)
            == holder(claims, other),
{
    let after = claim_one(reserved, claims, plugin, domain)->Ok_0;
    let pred = |c: DomainClaimView| c.domain == domain;
    lemma_first_index(claims, pred);
    match claim_index(claims, domain) {
        None => {
            let at = claims.len() as int;
            assert forall|i: int| 0 <= i < claims.len() implies (#[trigger] claims[i]).domain
                != domain by {
                assert(!pred(claims[i]));
            }
            assert(after[at].domain == domain);
            lemma_index_at(after, at);
        },
        Some(i) => {
            assert(pred(claims[i]));
            assert(after[i].domain == domain);
            lemma_index_at(after, i);
        },
    }
    if other != domain {
        let pother = |c: DomainClaimView| c.domain == other;
        lemma_first_index(claims, pother);
        lemma_first_index(after, pother);
        match claim_index(claims, other) {
            Some(k) => {
                assert(pother(claims[k]));
                assert(after[k].domain == other);
                lemma_index_at(after, k);
            },
            None => {
                match claim_index(after, other) {
                    Some(k) => {
                        assert(pother(after[k]));
                        if k < claims.len() {
                            assert(claims[k].domain == other);
                            assert(pother(claims[k]));
                        }
                    },
                    None => {},
                }
            },
        }
    }
}

proof fn lemma_claim_each(
    reserved: Seq<Seq<char>>,
    claims: Seq<DomainClaimView>,
    plugin: Seq<char>,
    domains: Seq<Seq<char>>,
    d: Seq<char>,
)
    requires
        claims_distinct(claims),
        claim_each(reserved, claims, plugin, domains) is Ok,
    ensures
        claims_distinct(claim_each(reserved, claims, plugin, domains)->Ok_0),
        domains.contains(d) ==> holder(claim_each(reserved, claims, plugin, domains)->Ok_0, d)
            == Some(plugin),
        !domains.contains(d) ==> holder(claim_each(reserved, claims, plugin, domains)->Ok_0, d)
            == holder(claims, d),
    decreases domains.len(),
{
    if domains.len() > 0 {
        let front = domains.drop_last();
        lemma_claim_each(reserved, claims, plugin, front, d);
        let before = claim_each(reserved, claims, plugin, front)->Ok_0;
        lemma_claim_one(reserved, before, plugin, domains.last(), d);
        if domains.contains(d) && d != domains.last() {
            let k = choose|k: int| 0 <= k < domains.len() && domains[k] == d;
            assert(front[k] == d);
        }
        if front.contains(d) {
            let k = choose|k: int| 0 <= k < front.len() && front[k] == d;
            assert(domains[k] == d);
        }
        if d == domains.last() {
            assert(domains[domains.len() - 1] == d);
        }
    }
}

/// Domains go to the plugin that claims them first: once they are claimed, no other plugin can
/// claim any of them, alone or among others.
pub proof fn claimed_domains_keep_others_out(
    reserved: Seq<Seq<char>>,
    claims: Seq<DomainClaimView>,
    first: Seq<char>,
    domains: Seq<Seq<char>>,
    second: Seq<char>,
    wanted: Seq<Seq<char>>,
    d: Seq<char>,
)
    requires
        claims_distinct(claims),
        claim_each(reserved, claims, first, domains) is Ok,
        domains.contains(d),
        wanted.contains(d),
        first != second,
    ensures
        claim_each(
            reserved,
            claim_each(reserved, claims, first, domains)->Ok_0,
            second,
            wanted,
        ) is Err,
{
    let after = claim_each(reserved, claims, first, domains)->Ok_0;
    lemma_claim_each(reserved, claims, first, domains, d);
    lemma_held_stays_held(reserved, after, first, second, wanted, d);
}

proof fn lemma_held_stays_held(
    reserved: Seq<Seq<char>>,
    claims: Seq<DomainClaimView>,
    first: Seq<char>,
    second: Seq<char>,
    wanted: Seq<Seq<char>>,
    d: Seq<char>,
)
    requires
        claims_distinct(claims),
        holder(claims, d) == Some(first),
        wanted.contains(d),
        first != second,
    ensures
        claim_each(reserved, claims, second, wanted) is Err,
    decreases wanted.len(),
{
    let front = wanted.drop_last();
    if claim_each(reserved, claims, second, front) is Ok {
        let before = claim_each(reserved, claims, second, front)->Ok_0;
        if front.contains(d) {
            lemma_held_stays_held(reserved, claims, first, second, front, d);
        } else {
            lemma_claim_each(reserved, claims, second, front, d);
            let k = choose|k: int| 0 <= k < wanted.len() && wanted[k] == d;
            if k < front.len() {
                assert(front[k] == d);
            }
            assert(wanted.last() == d);
        }
    }
}

/// No plugin can claim a reserved domain.
pub proof fn reserved_domains_are_not_claimed(
    reserved: Seq<Seq<char>>,
    claims: Seq<DomainClaimView>,
    plugin: Seq<char>,
    wanted: Seq<Seq<char>>,
    d: Seq<char>,
)
    requires
        reserved.contains(d),
        wanted.contains(d),
    ensures
        claim_each(reserved, claims, plugin, wanted) is Err,
    decreases wanted.len(),
{
    let front = wanted.drop_last();
    if claim_each(reserved, claims, plugin, front) is Ok {
        let k = choose|k: int| 0 <= k < wanted.len() && wanted[k] == d;
        if k < front.len() {
            assert(front[k] == d);
            reserved_domains_are_not_claimed(reserved, claims, plugin, front, d);
        }
    }
}

proof fn lemma_kept_members<V>(s: Seq<V>, f: spec_fn(V) -> bool)
    ensures
        forall|i: int|
            0 <= i < kept(s, f).len() ==> f(#[trigger] kept(s, f)[i]) && s.contains(kept(s, f)[i]),
        forall|v: V| s.contains(v) && f(v) ==> #[trigger] kept(s, f).contains(v),
    decreases s.len(),
{
    if s.len() > 0 {
        let front = s.drop_last();
        lemma_kept_members(front, f);
        let k0 = kept(front, f);
        let k1 = kept(s, f);
        assert forall|i: int| 0 <= i < k1.len() implies f(#[trigger] k1[i]) && s.contains(
            k1[i],
        ) by {
            if i < k0.len() {
                assert(k1[i] == k0[i]);
                let m = choose|m: int| 0 <= m < front.len() && front[m] == k0[i];
                assert(s[m] == k1[i]);
            } else {
                assert(s[s.len() - 1] == k1[i]);
            }
        }
        assert forall|v: V| s.contains(v) && f(v) implies #[trigger] k1.contains(v) by {
            let m = choose|m: int| 0 <= m < s.len() && s[m] == v;
            if m < front.len() {
                assert(front[m] == v);
                assert(k0.contains(v));
                let n = choose|n: int| 0 <= n < k0.len() && k0[n] == v;
                assert(k1[n] == v);
            } else {
                assert(k1[k1.len() - 1] == v);
            }
        }
    }
}

proof fn lemma_kept_claims_distinct(
    claims: Seq<DomainClaimView>,
    f: spec_fn(DomainClaimView) -> bool,
)
    requires
        claims_distinct(claims),
    ensures
        claims_distinct(kept(claims, f)),
    decreases claims.len(),
{
    if claims.len() > 0 {
        let front = claims.drop_last();
        lemma_kept_claims_distinct(front, f);
        lemma_kept_members(front, f);
        let k0 = kept(front, f);
        let k1 = kept(claims, f);
        assert forall|i: int, j: int| 0 <= i < j < k1.len() implies (#[trigger] k1[i]).domain != (
        #[trigger] k1[j]).domain by {
            assert(k1[i] == k0[i]);
            if j < k0.len() {
                assert(k1[j] == k0[j]);
            } else {
                let m = choose|m: int| 0 <= m < front.len() && front[m] == k0[i];
                assert(claims[m] == k0[i]);
                assert(claims[claims.len() - 1] == k1[j]);
            }
        }
    }
}

proof fn lemma_kept_rows_distinct(rows: Seq<ConfirmedView>, f: spec_fn(ConfirmedView) -> bool)
    requires
        rows_distinct(rows),
    ensures
        rows_distinct(kept(rows, f)),
    decreases rows.len(),
{
    if rows.len() > 0 {
        let front = rows.drop_last();
        lemma_kept_rows_distinct(front, f);
        lemma_kept_members(front, f);
        let k0 = kept(front, f);
        let k1 = kept(rows, f);
        assert forall|i: int, j: int| 0 <= i < j < k1.len() implies !same_provider(
            (#[trigger] k1[i]).row,
            (#[trigger] k1[j]).row,
        ) by {
            assert(k1[i] == k0[i]);
            if j < k0.len() {
                assert(k1[j] == k0[j]);
            } else {
                let m = choose|m: int| 0 <= m < front.len() && front[m] == k0[i];
                assert(rows[m] == k0[i]);
                assert(rows[rows.len() - 1] == k1[j]);
            }
        }
    }
}

/// A plugin that is gone has left no declaration and holds no domain; what other plugins hold stays
/// theirs.
pub proof fn plugins_that_are_gone_hold_nothing(
    s: DeclarationStoreView,
    plugin: Seq<char>,
    d: Seq<char>,
)
    requires
        s.wf(),
    ensures
        without_plugin(s, plugin).wf(),
        forall|i: int|
            0 <= i < without_plugin(s, plugin).rows.len() ==> (#[trigger] without_plugin(
                s,
                plugin,
            ).rows[i]).row.plugin_id != plugin,
        holder(without_plugin(s, plugin).claims, d) == if holder(s.claims, d) == Some(plugin) {
            None
        } else {
            holder(s.claims, d)
        },
{
    let stays = |c: ConfirmedView| c.row.plugin_id != plugin;
    let free = |c: DomainClaimView| c.plugin_id != Some(plugin);
    let left = kept(s.claims, free);
    assert(claims_distinct(s.claims));
    assert(rows_distinct(s.rows));
    lemma_kept_members(s.rows, stays);
    lemma_kept_members(s.claims, free);
    lemma_kept_claims_distinct(s.claims, free);
    lemma_kept_rows_distinct(s.rows, stays);
    assert forall|i: int| 0 <= i < kept(s.rows, stays).len() implies (#[trigger] kept(
        s.rows,
        stays,
    )[i]).row.plugin_id != plugin by {
        assert(stays(kept(s.rows, stays)[i]));
    }
    let pred = |c: DomainClaimView| c.domain == d;
    lemma_first_index(s.claims, pred);
    lemma_first_index(left, pred);
    match claim_index(left, d) {
        Some(k) => {
            assert(pred(left[k]));
            assert(free(left[k]));
            let m = choose|m: int| 0 <= m < s.claims.len() && s.claims[m] == left[k];
            assert(s.claims[m].domain == d);
            lemma_index_at(s.claims, m);
        },
        None => {
            match claim_index(s.claims, d) {
                Some(m) => {
                    assert(pred(s.claims[m]));
                    if free(s.claims[m]) {
                        assert(s.claims.contains(s.claims[m]));
                        assert(left.contains(s.claims[m]));
                        let k = choose|k: int| 0 <= k < left.len() && left[k] == s.claims[m];
                        assert(pred(left[k]));
                    }
                },
                None => {},
            }
        },
    }
}

proof fn lemma_with_declaration_distinct(rows: Seq<ConfirmedView>, row: ConfirmedView)
    requires
        rows_distinct(rows),
    ensures
        rows_distinct(with_declaration(rows, row)),
{
    let pred = |c: ConfirmedView| same_provider(c.row, row.row);
    lemma_first_index(rows, pred);
    let after = with_declaration(rows, row);
    match first_index(rows, pred) {
        Some(at) => {
            assert(pred(rows[at]));
            assert forall|i: int, j: int| 0 <= i < j < after.len() implies !same_provider(
                (#[trigger] after[i]).row,
                (#[trigger] after[j]).row,
            ) by {
                assert(!same_provider(rows[i].row, rows[j].row));
            }
        },
        None => {
            assert forall|i: int, j: int| 0 <= i < j < after.len() implies !same_provider(
                (#[trigger] after[i]).row,
                (#[trigger] after[j]).row,
            ) by {
                if j == rows.len() {
                    assert(!pred(rows[i]));
                } else {
                    assert(!same_provider(rows[i].row, rows[j].row));
                }
            }
        },
    }
}

proof fn lemma_with_declarations_distinct(
    rows: Seq<ConfirmedView>,
    asked: Seq<NewDeclarationView>,
    plugin: Seq<char>,
    now: u64,
)
    requires
        rows_distinct(rows),
    ensures
        rows_distinct(with_declarations(rows, asked, plugin, now)),
    decreases asked.len(),
{
    if asked.len() > 0 {
        lemma_with_declarations_distinct(rows, asked.drop_last(), plugin, now);
        lemma_with_declaration_distinct(
            with_declarations(rows, asked.drop_last(), plugin, now),
            row_for(asked.last(), plugin, now),
        );
    }
}

/// Whatever a plugin has written, each plugin still declares a capability at most once and a domain
/// is still held at most once.
pub proof fn writing_keeps_declarations_distinct(
    reserved: Seq<Seq<char>>,
    s: DeclarationStoreView,
    plugin: Seq<char>,
    asked: Seq<NewDeclarationView>,
    now: u64,
)
    requires
        s.wf(),
        claim_each(reserved, s.claims, plugin, domains_asked(asked)) is Ok,
    ensures
        (DeclarationStoreView {
            rows: with_declarations(s.rows, asked, plugin, now),
            claims: claim_each(reserved, s.claims, plugin, domains_asked(asked))->Ok_0,
        }).wf(),
{
    assert(rows_distinct(s.rows));
    assert(claims_distinct(s.claims));
    lemma_with_declarations_distinct(s.rows, asked, plugin, now);
    lemma_claim_each(reserved, s.claims, plugin, domains_asked(asked), Seq::empty());
}

proof fn lemma_plugin_order()
    ensures
        strict_weak(by_plugin()),
{
    lemma_text_orders();
    let less = by_plugin();
    let t = text_order();
    assert forall|x: DeclarationView, y: DeclarationView, z: DeclarationView|
        !#[trigger] less(x, y) && !#[trigger] less(y, z) implies !less(x, z) by {
        if t(x.plugin_id, z.plugin_id) {
            if x.plugin_id == y.plugin_id {
            } else {
                assert(t(y.plugin_id, x.plugin_id));
                assert(t(y.plugin_id, z.plugin_id));
            }
        }
    }
    assert forall|x: DeclarationView| !#[trigger] less(x, x) by {
        assert(!t(x.plugin_id, x.plugin_id));
    }
    assert forall|x: DeclarationView, y: DeclarationView, z: DeclarationView|
        #[trigger] less(x, y) && #[trigger] less(y, z) implies less(x, z) by {
        assert(t(x.plugin_id, y.plugin_id));
        assert(t(y.plugin_id, z.plugin_id));
    }
}

/// A capability that two plugins declare differently resolves to nothing, unless it is one of the
/// core's own.
pub proof fn disagreement_resolves_to_nothing(
    v: VocabularyView,
    rows: Seq<DeclarationView>,
    i: int,
    j: int,
)
    requires
        0 <= i < rows.len(),
        0 <= j < rows.len(),
        rows[i].capability == rows[j].capability,
        rows[i].permission != rows[j].permission || rows[i].default_decision
            != rows[j].default_decision,
        core_permission(v, rows[i].capability) is None,
    ensures
        resolution(v, rows, rows[i].capability) is None,
{
    let capability = rows[i].capability;
    let pred = |d: DeclarationView| d.capability == capability;
    let mine = kept(rows, pred);
    let found = declared_for(rows, capability);
    lemma_kept_members(rows, pred);
    assert(rows.contains(rows[i]) && rows.contains(rows[j]));
    assert(mine.contains(rows[i]) && mine.contains(rows[j]));
    lemma_plugin_order();
    sorting_keeps_every_value(mine, by_plugin());
    mine.to_multiset_ensures();
    found.to_multiset_ensures();
    assert(found.to_multiset().count(rows[i]) > 0);
    assert(found.to_multiset().count(rows[j]) > 0);
    assert(found.contains(rows[i]) && found.contains(rows[j]));
    let differs = |d: DeclarationView|
        d.permission != found[0].permission || d.default_decision != found[0].default_decision;
    if !any_of(found, differs) {
        let a = choose|a: int| 0 <= a < found.len() && found[a] == rows[i];
        let b = choose|b: int| 0 <= b < found.len() && found[b] == rows[j];
        assert(!differs(found[a]));
        assert(!differs(found[b]));
    }
}

} // verus!
