//! Carrying out a capability: who may be asked, in which order, and what is made known of it.

use vstd::prelude::*;

use crate::alerting::store::rows_view;
use crate::capability::{
    capability_known, has_builtin, known, provided_ids, providers, providers_of, Registry,
};
use crate::declaration::{resolution, resolve, Decision, DeclarationStore, Vocabulary};
use crate::json::{
    items_view, json_text, json_text_of, json_view, lemma_items_view, texts_view, Json, JsonView,
};
use crate::text::{byte_count, byte_len, decimal_seq, join, join3, same, starts_with, starts_with_seq};
use crate::values::{
    and_member, empty_object, no_members, number_value, text_array, text_value, texts_value,
};

verus! {

/// How many bytes the input for a plugin takes at most.
pub const MAX_INPUT_BYTES: usize = 1048576;

/// Something that is done beside a call.
#[derive(Debug)]
pub enum Effect {
    /// An event is published.
    Publish { kind: String, payload: Json },
    /// A call that failed is noted.
    Failure { plugin: String, elapsed: u64, result: String, error_kind: String },
    /// A call that was answered is noted.
    Answer { plugin: String, elapsed: u64 },
    /// A step is traced.
    Trace { name: String, payload: Json },
}

/// What an [`Effect`] holds.
pub enum EffectView {
    Publish { kind: Seq<char>, payload: JsonView },
    Failure { plugin: Seq<char>, elapsed: u64, result: Seq<char>, error_kind: Seq<char> },
    Answer { plugin: Seq<char>, elapsed: u64 },
    Trace { name: Seq<char>, payload: JsonView },
}

impl View for Effect {
    type V = EffectView;

    open spec fn view(&self) -> EffectView {
        match self {
            Effect::Publish { kind, payload } => EffectView::Publish {
                kind: kind@,
                payload: payload@,
            },
            Effect::Failure { plugin, elapsed, result, error_kind } => EffectView::Failure {
                plugin: plugin@,
                elapsed: *elapsed,
                result: result@,
                error_kind: error_kind@,
            },
            Effect::Answer { plugin, elapsed } => EffectView::Answer {
                plugin: plugin@,
                elapsed: *elapsed,
            },
            Effect::Trace { name, payload } => EffectView::Trace {
                name: name@,
                payload: payload@,
            },
        }
    }
}

/// A refusal because of a path that is out of bounds.
#[derive(Debug)]
pub struct ScopeDenial {
    /// Whose bounds were crossed.
    pub layer: String,
    pub path: String,
}

/// A provider that was tried, and why it did not answer.
#[derive(Debug)]
pub struct Attempt {
    pub plugin: String,
    pub error: String,
}

/// What an [`Attempt`] holds.
pub struct AttemptView {
    pub plugin: Seq<char>,
    pub error: Seq<char>,
}

impl View for Attempt {
    type V = AttemptView;

    open spec fn view(&self) -> AttemptView {
        AttemptView { plugin: self.plugin@, error: self.error@ }
    }
}

/// The providers of a capability being tried, one after the other.
#[derive(Debug)]
pub struct Execution {
    pub capability: String,
    pub agent: String,
    pub permission: Option<String>,
    pub providers: Vec<String>,
    pub attempted: Vec<Attempt>,
}

/// What an [`Execution`] holds.
pub struct ExecutionView {
    pub capability: Seq<char>,
    pub agent: Seq<char>,
    pub permission: Option<Seq<char>>,
    pub providers: Seq<Seq<char>>,
    pub attempted: Seq<AttemptView>,
}

impl View for Execution {
    type V = ExecutionView;

    open spec fn view(&self) -> ExecutionView {
        ExecutionView {
            capability: self.capability@,
            agent: self.agent@,
            permission: match self.permission {
                Some(p) => Some(p@),
                None => None,
            },
            providers: texts_view(self.providers@),
            attempted: rows_view(self.attempted@),
        }
    }
}

impl ExecutionView {
    /// The providers that were tried are the first ones, in order.
    pub open spec fn wf(self) -> bool {
        &&& self.attempted.len() <= self.providers.len()
        &&& forall|i: int|
            0 <= i < self.attempted.len() ==> (#[trigger] self.attempted[i]).plugin
                == self.providers[i]
    }

    /// The provider that is tried next.
    pub open spec fn next(self) -> Option<Seq<char>> {
        if self.attempted.len() < self.providers.len() {
            Some(self.providers[self.attempted.len() as int])
        } else {
            None
        }
    }
}

/// What follows once it is clear whether a capability is carried out.
#[derive(Debug)]
pub enum Start {
    /// It is not, for this reason.
    Refused(String),
    /// The core does it.
    Builtin,
    /// Plugins are asked.
    Plugins(Execution),
}

/// What a [`Start`] holds.
pub enum StartView {
    Refused(Seq<char>),
    Builtin,
    Plugins(ExecutionView),
}

impl View for Start {
    type V = StartView;

    open spec fn view(&self) -> StartView {
        match self {
            Start::Refused(e) => StartView::Refused(e@),
            Start::Builtin => StartView::Builtin,
            Start::Plugins(x) => StartView::Plugins(x@),
        }
    }
}

/// What the core has stored: who provides what, and what plugins declare.
#[derive(Debug)]
pub struct CoreStore {
    pub registry: Registry,
    pub declarations: DeclarationStore,
}

/// A permission as a value.
pub open spec fn permission_value(permission: Option<Seq<char>>) -> JsonView {
    match permission {
        Some(p) => JsonView::Text(p),
        None => JsonView::Null,
    }
}

/// A permission as text.
pub open spec fn permission_text(permission: Option<Seq<char>>) -> Seq<char> {
    match permission {
        Some(p) => p,
        None => Seq::empty(),
    }
}

/// A value for a capability and an agent.
pub open spec fn about(capability: Seq<char>, agent: Seq<char>) -> JsonView {
    and_member(
        and_member(no_members(), "capability"@, JsonView::Text(capability)),
        "agent"@,
        JsonView::Text(agent),
    )
}

/// What is done when a path is out of bounds before any provider is asked.
pub open spec fn scope_effects(
    capability: Seq<char>,
    agent: Seq<char>,
    permission: Option<Seq<char>>,
    layer: Seq<char>,
    path: Seq<char>,
) -> Seq<EffectView> {
    seq![
        EffectView::Trace {
            name: "gate.scope_denied"@,
            payload: and_member(
                and_member(
                    and_member(
                        and_member(no_members(), "layer"@, JsonView::Text(layer)),
                        "agent"@,
                        JsonView::Text(agent),
                    ),
                    "permission"@,
                    permission_value(permission),
                ),
                "path"@,
                JsonView::Text(path),
            ),
        },
        EffectView::Publish {
            kind: "capability.failed"@,
            payload: and_member(
                and_member(
                    about(capability, agent),
                    "error"@,
                    JsonView::Text("scope_denied"@),
                ),
                "scopeLayer"@,
                JsonView::Text(layer),
            ),
        },
        EffectView::Failure {
            plugin: "core"@,
            elapsed: 0,
            result: "denied"@,
            error_kind: "scope_denied"@,
        },
    ]
}

/// What is done when the input is too large for a plugin.
pub open spec fn too_large_effects(capability: Seq<char>, agent: Seq<char>) -> Seq<EffectView> {
    seq![
        EffectView::Failure {
            plugin: "core"@,
            elapsed: 0,
            result: "err"@,
            error_kind: "payload_too_large"@,
        },
        EffectView::Publish {
            kind: "capability.failed"@,
            payload: and_member(
                and_member(
                    about(capability, agent),
                    "error"@,
                    JsonView::Text("payload_too_large"@),
                ),
                "attemptedProviders"@,
                JsonView::Array(Seq::empty()),
            ),
        },
    ]
}

/// The event that tells that providers are being asked.
pub open spec fn started(
    capability: Seq<char>,
    agent: Seq<char>,
    asked: Seq<Seq<char>>,
) -> EffectView {
    EffectView::Publish {
        kind: "capability.started"@,
        payload: and_member(
            and_member(
                and_member(no_members(), "capability"@, JsonView::Text(capability)),
                "providers"@,
                text_array(asked),
            ),
            "agent"@,
            JsonView::Text(agent),
        ),
    }
}

/// The providers that the core has stored for a capability.
pub open spec fn stored_providers(store: Option<CoreStore>, capability: Seq<char>) -> Seq<Seq<char>> {
    match store {
        Some(s) => providers_of(s.registry@.rows, capability),
        None => Seq::empty(),
    }
}

/// The permission that a capability needs.
pub open spec fn needed_permission(
    words: Vocabulary,
    store: Option<CoreStore>,
    capability: Seq<char>,
) -> Option<Seq<char>> {
    match store {
        Some(s) => match resolution(words@, s.declarations@.declarations(), capability) {
            Some(r) => Some(r.permission),
            None => None,
        },
        None => None,
    }
}

/// What plugins declare, as far as anything is stored.
pub open spec fn stored_declarations(store: Option<CoreStore>) -> Option<DeclarationStore> {
    match store {
        Some(s) => Some(s.declarations),
        None => None,
    }
}

/// What is done, and what follows, when an agent asks for a capability with an input of this size.
pub open spec fn beginning(
    words: Vocabulary,
    store: Option<CoreStore>,
    capability: Seq<char>,
    agent: Seq<char>,
    denied: Option<ScopeDenial>,
    size: nat,
) -> (Seq<EffectView>, StartView) {
    let permission = needed_permission(words, store, capability);
    let asked = stored_providers(store, capability);
    if !capability_known(stored_declarations(store), capability) {
        (Seq::empty(), StartView::Refused("unknown capability: "@ + capability))
    } else if store is Some && denied is Some {
        let d = denied->Some_0;
        (
            scope_effects(capability, agent, permission, d.layer@, d.path@),
            StartView::Refused(
                "scope_denied:"@ + d.layer@ + ":"@ + permission_text(permission),
            ),
        )
    } else if asked.len() == 0 {
        if provided_ids().contains(capability) {
            (Seq::empty(), StartView::Builtin)
        } else {
            (Seq::empty(), StartView::Refused("capability_unavailable"@))
        }
    } else if size > MAX_INPUT_BYTES {
        (too_large_effects(capability, agent), StartView::Refused("payload_too_large"@))
    } else {
        (
            seq![started(capability, agent, asked)],
            StartView::Plugins(
                ExecutionView {
                    capability,
                    agent,
                    permission,
                    providers: asked,
                    attempted: Seq::empty(),
                },
            ),
        )
    }
}

fn about_value(capability: &str, agent: &str) -> (r: Json)
    ensures
        r@ == about(capability@, agent@),
{
    empty_object().with("capability", text_value(capability)).with("agent", text_value(agent))
}

fn show_permission(permission: &Option<String>) -> (r: Json)
    ensures
        r@ == permission_value(
            match permission {
                Some(p) => Some(p@),
                None => None,
            },
        ),
{
    match permission {
        Some(p) => text_value(p.as_str()),
        None => Json::Null,
    }
}

fn permission_name(permission: &Option<String>) -> (r: String)
    ensures
        r@ == permission_text(
            match permission {
                Some(p) => Some(p@),
                None => None,
            },
        ),
{
    match permission {
        Some(p) => p.clone(),
        None => {
            let none: String = String::new();
            assert(none@ =~= Seq::<char>::empty());
            none
        },
    }
}

fn failure(plugin: &str, elapsed: u64, result: &str, error_kind: &str) -> (r: Effect)
    ensures
        r@ == (EffectView::Failure {
            plugin: plugin@,
            elapsed,
            result: result@,
            error_kind: error_kind@,
        }),
{
    Effect::Failure {
        plugin: plugin.to_string(),
        elapsed,
        result: result.to_string(),
        error_kind: error_kind.to_string(),
    }
}

fn publish(kind: &str, payload: Json) -> (r: Effect)
    ensures
        r@ == (EffectView::Publish { kind: kind@, payload: payload@ }),
{
    Effect::Publish { kind: kind.to_string(), payload }
}

/// What is done, and what follows, when an agent asks for a capability with an input of this size.
/// `denied` says whether the agent's bounds refuse the input's path.
pub fn begin_sized(
    words: &Vocabulary,
    store: Option<&CoreStore>,
    capability: &str,
    agent: &str,
    denied: Option<&ScopeDenial>,
    size: usize,
) -> (r: (Vec<Effect>, Start))
    ensures
        (rows_view(r.0@), r.1@) == beginning(
            *words,
            match store {
                Some(s) => Some(*s),
                None => None,
            },
            capability@,
            agent@,
            match denied {
                Some(d) => Some(*d),
                None => None,
            },
            size as nat,
        ),
{
    let declarations: Option<&DeclarationStore> = match store {
        Some(s) => Some(&s.declarations),
        None => None,
    };
    if !known(declarations, capability) {
        let none: Vec<Effect> = Vec::new();
        assert(rows_view(none@) =~= Seq::empty());
        return (none, Start::Refused(join("unknown capability: ", capability)));
    }
    let permission: Option<String> = match store {
        Some(s) => match resolve(words, &s.declarations, capability) {
            Some(found) => Some(found.permission),
            None => None,
        },
        None => None,
    };
    if let (Some(_), Some(d)) = (store, denied) {
        let trace: Effect = Effect::Trace {
            name: "gate.scope_denied".to_string(),
            payload: empty_object().with("layer", text_value(d.layer.as_str())).with(
                "agent",
                text_value(agent),
            ).with("permission", show_permission(&permission)).with(
                "path",
                text_value(d.path.as_str()),
            ),
        };
        let event: Effect = publish(
            "capability.failed",
            about_value(capability, agent).with("error", text_value("scope_denied")).with(
                "scopeLayer",
                text_value(d.layer.as_str()),
            ),
        );
        let note: Effect = failure("core", 0, "denied", "scope_denied");
        let effects: Vec<Effect> = vec![trace, event, note];
        let name: String = permission_name(&permission);
        proof {
            assert(rows_view(effects@) =~= scope_effects(
                capability@,
                agent@,
                needed_permission(
                    *words,
                    match store {
                        Some(s) => Some(*s),
                        None => None,
                    },
                    capability@,
                ),
                d.layer@,
                d.path@,
            ));
        }
        return (
            effects,
            Start::Refused(
                join(join3("scope_denied:", d.layer.as_str(), ":").as_str(), name.as_str()),
            ),
        );
    }
    let asked: Vec<String> = match store {
        Some(s) => providers(&s.registry, capability),
        None => Vec::new(),
    };
    let ghost listed = stored_providers(
        match store {
            Some(s) => Some(*s),
            None => None,
        },
        capability@,
    );
    assert(texts_view(asked@) =~= listed);
    if asked.len() == 0 {
        let none: Vec<Effect> = Vec::new();
        assert(rows_view(none@) =~= Seq::empty());
        if has_builtin(capability) {
            return (none, Start::Builtin);
        }
        return (none, Start::Refused("capability_unavailable".to_string()));
    }
    if size > MAX_INPUT_BYTES {
        let note: Effect = failure("core", 0, "err", "payload_too_large");
        let none: Json = Json::Array(Vec::new());
        assert(none@ == JsonView::Array(items_view(Seq::empty())));
        assert(items_view(Seq::empty()) =~= Seq::empty());
        let event: Effect = publish(
            "capability.failed",
            about_value(capability, agent).with("error", text_value("payload_too_large")).with(
                "attemptedProviders",
                none,
            ),
        );
        let effects: Vec<Effect> = vec![note, event];
        assert(rows_view(effects@) =~= too_large_effects(capability@, agent@));
        return (effects, Start::Refused("payload_too_large".to_string()));
    }
    let event: Effect = publish(
        "capability.started",
        empty_object().with("capability", text_value(capability)).with(
            "providers",
            texts_value(&asked),
        ).with("agent", text_value(agent)),
    );
    let effects: Vec<Effect> = vec![event];
    assert(rows_view(effects@) =~= seq![started(capability@, agent@, listed)]);
    let run: Execution = Execution {
        capability: capability.to_string(),
        agent: agent.to_string(),
        permission,
        providers: asked,
        attempted: Vec::new(),
    };
    assert(run@.attempted =~= Seq::empty());
    (effects, Start::Plugins(run))
}

/// What is done, and what follows, when an agent asks for a capability. The size of the input is
/// that of its text.
pub fn begin(
    words: &Vocabulary,
    store: Option<&CoreStore>,
    capability: &str,
    agent: &str,
    denied: Option<&ScopeDenial>,
    input: &Json,
) -> (r: (Vec<Effect>, Start))
    ensures
        (rows_view(r.0@), r.1@) == beginning(
            *words,
            match store {
                Some(s) => Some(*s),
                None => None,
            },
            capability@,
            agent@,
            match denied {
                Some(d) => Some(*d),
                None => None,
            },
            byte_count(json_text_of(input@)),
        ),
{
    let text: String = json_text(input);
    begin_sized(words, store, capability, agent, denied, byte_len(text.as_str()))
}

/// The event that tells that a provider has answered.
pub open spec fn completed(
    capability: Seq<char>,
    plugin: Seq<char>,
    elapsed: u64,
    agent: Seq<char>,
) -> EffectView {
    EffectView::Publish {
        kind: "capability.completed"@,
        payload: and_member(
            and_member(
                and_member(
                    and_member(no_members(), "capability"@, JsonView::Text(capability)),
                    "pluginId"@,
                    JsonView::Text(plugin),
                ),
                "elapsedMs"@,
                JsonView::Number(decimal_seq(elapsed as nat)),
            ),
            "agent"@,
            JsonView::Text(agent),
        ),
    }
}

/// The providers that were tried, as a value.
pub open spec fn attempts_value(attempts: Seq<AttemptView>) -> JsonView {
    JsonView::Array(
        Seq::new(
            attempts.len(),
            |i: int|
                and_member(
                    and_member(no_members(), "pluginId"@, JsonView::Text(attempts[i].plugin)),
                    "error"@,
                    JsonView::Text(attempts[i].error),
                ),
        ),
    )
}

/// The event that tells that nobody has answered.
pub open spec fn failed(
    capability: Seq<char>,
    agent: Seq<char>,
    attempts: Seq<AttemptView>,
) -> EffectView {
    EffectView::Publish {
        kind: "capability.failed"@,
        payload: and_member(
            about(capability, agent),
            "attemptedProviders"@,
            attempts_value(attempts),
        ),
    }
}

fn show_attempts(attempts: &Vec<Attempt>) -> (r: Json)
    ensures
        r@ == attempts_value(rows_view(attempts@)),
{
    let ghost all = rows_view(attempts@);
    let mut out: Vec<Json> = Vec::new();
    let mut i: usize = 0;
    while i < attempts.len()
        invariant
            i <= attempts@.len(),
            all == rows_view(attempts@),
            out@.len() == i,
            forall|k: int|
                0 <= k < i ==> json_view(#[trigger] out@[k]) == and_member(
                    and_member(no_members(), "pluginId"@, JsonView::Text(all[k].plugin)),
                    "error"@,
                    JsonView::Text(all[k].error),
                ),
        decreases attempts@.len() - i,
    {
        let shown: Json = empty_object().with(
            "pluginId",
            text_value(attempts[i].plugin.as_str()),
        ).with("error", text_value(attempts[i].error.as_str()));
        assert(json_view(shown) == shown@);
        out.push(shown);
        i += 1;
    }
    proof {
        lemma_items_view(out@);
        assert forall|k: int| 0 <= k < out@.len() implies items_view(out@)[k]
            == attempts_value(all)->Array_0[k] by {
            assert(items_view(out@)[k] == json_view(out@[k]));
        }
        assert(items_view(out@) =~= attempts_value(all)->Array_0);
    }
    let r: Json = Json::Array(out);
    assert(r@ == JsonView::Array(items_view(out@)));
    r
}

/// What is done once the core has carried out a capability itself, and what the agent gets where it
/// failed.
pub open spec fn builtin_ending(
    capability: Seq<char>,
    agent: Seq<char>,
    error: Option<Seq<char>>,
    elapsed: u64,
) -> Seq<EffectView> {
    let begun = started(capability, agent, seq!["core"@]);
    match error {
        None => seq![
            begun,
            EffectView::Answer { plugin: "core"@, elapsed },
            completed(capability, "core"@, elapsed, agent),
        ],
        Some(e) => seq![
            begun,
            EffectView::Failure {
                plugin: "core"@,
                elapsed,
                result: "err"@,
                error_kind: "builtin"@,
            },
            failed(capability, agent, seq![AttemptView { plugin: "core"@, error: e }]),
        ],
    }
}

fn completed_event(capability: &str, plugin: &str, elapsed: u64, agent: &str) -> (r: Effect)
    ensures
        r@ == completed(capability@, plugin@, elapsed, agent@),
{
    publish(
        "capability.completed",
        empty_object().with("capability", text_value(capability)).with(
            "pluginId",
            text_value(plugin),
        ).with("elapsedMs", number_value(elapsed)).with("agent", text_value(agent)),
    )
}

/// What is done once the core has carried out a capability itself: `error` is why it failed, if it
/// did. The agent is told only that it failed.
pub fn finish_builtin(capability: &str, agent: &str, error: Option<&str>, elapsed: u64) -> (r: (
    Vec<Effect>,
    Result<(), String>,
))
    ensures
        rows_view(r.0@) == builtin_ending(
            capability@,
            agent@,
            match error {
                Some(e) => Some(e@),
                None => None,
            },
            elapsed,
        ),
        match r.1 {
            Ok(_) => error is None,
            Err(e) => error is Some && e@ == "capability_failed"@,
        },
{
    let core: Vec<String> = vec!["core".to_string()];
    assert(texts_view(core@) =~= seq!["core"@]);
    let begun: Effect = publish(
        "capability.started",
        empty_object().with("capability", text_value(capability)).with(
            "providers",
            texts_value(&core),
        ).with("agent", text_value(agent)),
    );
    match error {
        None => {
            let effects: Vec<Effect> = vec![
                begun,
                Effect::Answer { plugin: "core".to_string(), elapsed },
                completed_event(capability, "core", elapsed, agent),
            ];
            assert(rows_view(effects@) =~= builtin_ending(capability@, agent@, None, elapsed));
            (effects, Ok(()))
        },
        Some(e) => {
            let tried: Vec<Attempt> = vec![
                Attempt { plugin: "core".to_string(), error: e.to_string() },
            ];
            assert(rows_view(tried@) =~= seq![AttemptView { plugin: "core"@, error: e@ }]);
            let event: Effect = publish(
                "capability.failed",
                about_value(capability, agent).with("attemptedProviders", show_attempts(&tried)),
            );
            let effects: Vec<Effect> = vec![
                begun,
                failure("core", elapsed, "err", "builtin"),
                event,
            ];
            assert(rows_view(effects@) =~= builtin_ending(capability@, agent@, Some(e@), elapsed));
            (effects, Err("capability_failed".to_string()))
        },
    }
}

/// What became of asking the next provider.
#[derive(Debug)]
pub enum ProviderEvent {
    /// It is not permitted.
    Denied,
    /// Its bounds refuse the path.
    ScopeDenied { layer: String },
    /// It does not run.
    NotRunning { error: String },
    /// It answered.
    Answered { elapsed: u64 },
    /// It failed.
    Failed { error: String, elapsed: u64 },
}

/// What a [`ProviderEvent`] holds.
pub enum ProviderEventView {
    Denied,
    ScopeDenied { layer: Seq<char> },
    NotRunning { error: Seq<char> },
    Answered { elapsed: u64 },
    Failed { error: Seq<char>, elapsed: u64 },
}

impl View for ProviderEvent {
    type V = ProviderEventView;

    open spec fn view(&self) -> ProviderEventView {
        match self {
            ProviderEvent::Denied => ProviderEventView::Denied,
            ProviderEvent::ScopeDenied { layer } => ProviderEventView::ScopeDenied {
                layer: layer@,
            },
            ProviderEvent::NotRunning { error } => ProviderEventView::NotRunning {
                error: error@,
            },
            ProviderEvent::Answered { elapsed } => ProviderEventView::Answered {
                elapsed: *elapsed,
            },
            ProviderEvent::Failed { error, elapsed } => ProviderEventView::Failed {
                error: error@,
                elapsed: *elapsed,
            },
        }
    }
}

/// What was found out about the next provider before it is called.
#[derive(Debug)]
pub enum Finding {
    /// What is decided on the permission that the capability needs, for this provider.
    Gate(Option<Decision>),
    /// What its bounds refuse, if anything.
    Scope(Option<ScopeDenial>),
    /// Whether it runs, or why it does not.
    Running(Result<(), String>),
}

/// What to do about the next provider.
#[derive(Debug)]
pub enum Move {
    /// See whether its bounds refuse the input.
    CheckScope,
    /// Make sure that it runs.
    EnsureRunning,
    /// Call it.
    Call,
    /// Leave it, with this outcome.
    Leave(ProviderEvent),
}

/// What a [`Move`] holds.
pub enum MoveView {
    CheckScope,
    EnsureRunning,
    Call,
    Leave(ProviderEventView),
}

impl View for Move {
    type V = MoveView;

    open spec fn view(&self) -> MoveView {
        match self {
            Move::CheckScope => MoveView::CheckScope,
            Move::EnsureRunning => MoveView::EnsureRunning,
            Move::Call => MoveView::Call,
            Move::Leave(ev) => MoveView::Leave(ev@),
        }
    }
}

/// What to do next about a provider: its permission comes first, then its bounds, then that it runs,
/// and only then is it called.
pub open spec fn move_after(x: ExecutionView, found: Finding) -> MoveView {
    match found {
        Finding::Gate(gate) => if x.permission is Some && gate == Some(Decision::Granted) {
            MoveView::CheckScope
        } else {
            MoveView::Leave(ProviderEventView::Denied)
        },
        Finding::Scope(Some(denial)) => MoveView::Leave(
            ProviderEventView::ScopeDenied { layer: denial.layer@ },
        ),
        Finding::Scope(None) => MoveView::EnsureRunning,
        Finding::Running(Err(error)) => MoveView::Leave(
            ProviderEventView::NotRunning { error: error@ },
        ),
        Finding::Running(Ok(_)) => MoveView::Call,
    }
}

/// Why a provider did not answer, where it did not.
pub open spec fn event_error(ev: ProviderEventView) -> Option<Seq<char>> {
    match ev {
        ProviderEventView::Denied => Some("permission_denied"@),
        ProviderEventView::ScopeDenied { layer: _ } => Some("scope_denied"@),
        ProviderEventView::NotRunning { error } => Some(error),
        ProviderEventView::Answered { elapsed: _ } => None,
        ProviderEventView::Failed { error, elapsed: _ } => Some(error),
    }
}

/// What is done because of what became of asking a provider.
pub open spec fn event_effects(x: ExecutionView, plugin: Seq<char>, ev: ProviderEventView) -> Seq<
    EffectView,
> {
    match ev {
        ProviderEventView::Denied => seq![
            EffectView::Trace {
                name: "gate.denied"@,
                payload: and_member(
                    and_member(no_members(), "pluginId"@, JsonView::Text(plugin)),
                    "permission"@,
                    permission_value(x.permission),
                ),
            },
            EffectView::Failure {
                plugin,
                elapsed: 0,
                result: "denied"@,
                error_kind: "permission_denied"@,
            },
        ],
        ProviderEventView::ScopeDenied { layer } => seq![
            EffectView::Trace {
                name: "gate.scope_denied"@,
                payload: and_member(
                    and_member(
                        and_member(no_members(), "layer"@, JsonView::Text(layer)),
                        "pluginId"@,
                        JsonView::Text(plugin),
                    ),
                    "permission"@,
                    permission_value(x.permission),
                ),
            },
            EffectView::Failure {
                plugin,
                elapsed: 0,
                result: "denied"@,
                error_kind: "scope_denied"@,
            },
        ],
        ProviderEventView::NotRunning { error: _ } => seq![
            EffectView::Failure {
                plugin,
                elapsed: 0,
                result: "err"@,
                error_kind: "ensure_running"@,
            },
        ],
        ProviderEventView::Answered { elapsed } => seq![
            EffectView::Answer { plugin, elapsed },
            completed(x.capability, plugin, elapsed, x.agent),
        ],
        ProviderEventView::Failed { error, elapsed } => if starts_with_seq(error, "timeout "@) {
            seq![
                EffectView::Failure {
                    plugin,
                    elapsed,
                    result: "timeout"@,
                    error_kind: "timeout"@,
                },
            ]
        } else {
            seq![
                EffectView::Failure {
                    plugin,
                    elapsed,
                    result: "err"@,
                    error_kind: "rpc_error"@,
                },
            ]
        },
    }
}

/// The run after the next provider was asked.
pub open spec fn after_event(x: ExecutionView, plugin: Seq<char>, ev: ProviderEventView) -> ExecutionView {
    match event_error(ev) {
        Some(error) => ExecutionView {
            attempted: x.attempted.push(AttemptView { plugin, error }),
            ..x
        },
        None => x,
    }
}

/// Whether every provider that was tried was not permitted, and there was one.
pub open spec fn all_denied(attempts: Seq<AttemptView>) -> bool {
    &&& attempts.len() > 0
    &&& forall|i: int|
        0 <= i < attempts.len() ==> (#[trigger] attempts[i]).error == "permission_denied"@
}

/// What the agent gets once no provider has answered.
pub open spec fn final_error(x: ExecutionView) -> Seq<char> {
    if all_denied(x.attempted) {
        "plugin_permission_denied:"@ + permission_text(x.permission)
    } else {
        "capability_failed"@
    }
}

impl Execution {
    /// The provider that is asked next.
    pub fn next_provider(&self) -> (r: Option<&str>)
        ensures
            match r {
                Some(p) => self@.next() == Some(p@),
                None => self@.next() is None,
            },
    {
        if self.attempted.len() < self.providers.len() {
            Some(self.providers[self.attempted.len()].as_str())
        } else {
            None
        }
    }

    /// Whether a provider may be asked, from what is decided on the permission that the capability
    /// needs. Where that permission is not known, none may.
    pub fn permitted(&self, gate: Option<Decision>) -> (r: bool)
        ensures
            r == (self@.permission is Some && gate == Some(Decision::Granted)),
    {
        match (&self.permission, gate) {
            (Some(_), Some(Decision::Granted)) => true,
            _ => false,
        }
    }

    /// What to do next about a provider, after something was found out about it.
    pub fn next_move(&self, found: Finding) -> (r: Move)
        ensures
            r@ == move_after(self@, found),
    {
        match found {
            Finding::Gate(gate) => if self.permitted(gate) {
                Move::CheckScope
            } else {
                Move::Leave(ProviderEvent::Denied)
            },
            Finding::Scope(Some(denial)) => Move::Leave(
                ProviderEvent::ScopeDenied { layer: denial.layer },
            ),
            Finding::Scope(None) => Move::EnsureRunning,
            Finding::Running(Err(error)) => Move::Leave(ProviderEvent::NotRunning { error }),
            Finding::Running(Ok(_)) => Move::Call,
        }
    }

    /// Takes in what became of asking the next provider.
    pub fn step(&mut self, ev: &ProviderEvent) -> (r: Vec<Effect>)
        requires
            old(self)@.next() is Some,
        ensures
            final(self)@ == after_event(old(self)@, old(self)@.next()->Some_0, ev@),
            rows_view(r@) == event_effects(old(self)@, old(self)@.next()->Some_0, ev@),
            old(self)@.wf() ==> final(self)@.wf(),
    {
        let ghost start = self@;
        let plugin: String = self.providers[self.attempted.len()].clone();
        let ghost who = plugin@;
        let effects: Vec<Effect> = match ev {
            ProviderEvent::Denied => {
                let trace: Effect = Effect::Trace {
                    name: "gate.denied".to_string(),
                    payload: empty_object().with("pluginId", text_value(plugin.as_str())).with(
                        "permission",
                        show_permission(&self.permission),
                    ),
                };
                vec![trace, failure(plugin.as_str(), 0, "denied", "permission_denied")]
            },
            ProviderEvent::ScopeDenied { layer } => {
                let trace: Effect = Effect::Trace {
                    name: "gate.scope_denied".to_string(),
                    payload: empty_object().with("layer", text_value(layer.as_str())).with(
                        "pluginId",
                        text_value(plugin.as_str()),
                    ).with("permission", show_permission(&self.permission)),
                };
                vec![trace, failure(plugin.as_str(), 0, "denied", "scope_denied")]
            },
            ProviderEvent::NotRunning { error: _ } => {
                vec![failure(plugin.as_str(), 0, "err", "ensure_running")]
            },
            ProviderEvent::Answered { elapsed } => {
                vec![
                    Effect::Answer { plugin: plugin.clone(), elapsed: *elapsed },
                    completed_event(
                        self.capability.as_str(),
                        plugin.as_str(),
                        *elapsed,
                        self.agent.as_str(),
                    ),
                ]
            },
            ProviderEvent::Failed { error, elapsed } => {
                if starts_with(error.as_str(), "timeout ") {
                    vec![failure(plugin.as_str(), *elapsed, "timeout", "timeout")]
                } else {
                    vec![failure(plugin.as_str(), *elapsed, "err", "rpc_error")]
                }
            },
        };
        assert(rows_view(effects@) =~= event_effects(start, who, ev@));
        let error: Option<String> = match ev {
            ProviderEvent::Denied => Some("permission_denied".to_string()),
            ProviderEvent::ScopeDenied { layer: _ } => Some("scope_denied".to_string()),
            ProviderEvent::NotRunning { error } => Some(error.clone()),
            ProviderEvent::Answered { elapsed: _ } => None,
            ProviderEvent::Failed { error, elapsed: _ } => Some(error.clone()),
        };
        if let Some(error) = error {
            let ghost before = self.attempted@;
            let tried: Attempt = Attempt { plugin, error };
            let ghost v = tried@;
            self.attempted.push(tried);
            assert(rows_view(self.attempted@) =~= rows_view(before).push(v));
        }
        effects
    }

    /// What is done, and what the agent gets, once no provider has answered. Where none was
    /// permitted, the agent learns which permission is missing.
    pub fn conclude(&self) -> (r: (Effect, String))
        ensures
            r.0@ == failed(self@.capability, self@.agent, self@.attempted),
            r.1@ == final_error(self@),
    {
        let event: Effect = publish(
            "capability.failed",
            about_value(self.capability.as_str(), self.agent.as_str()).with(
                "attemptedProviders",
                show_attempts(&self.attempted),
            ),
        );
        let ghost all = rows_view(self.attempted@);
        let mut denied: bool = self.attempted.len() > 0;
        let mut i: usize = 0;
        while i < self.attempted.len()
            invariant
                i <= self.attempted@.len(),
                all == rows_view(self.attempted@),
                denied == (all.len() > 0 && forall|k: int|
                    0 <= k < i ==> (#[trigger] all[k]).error == "permission_denied"@),
            decreases self.attempted@.len() - i,
        {
            assert(all[i as int] == self.attempted@[i as int]@);
            if !same(self.attempted[i].error.as_str(), "permission_denied") {
                denied = false;
            }
            i += 1;
        }
        if denied {
            let name: String = permission_name(&self.permission);
            (event, join("plugin_permission_denied:", name.as_str()))
        } else {
            (event, "capability_failed".to_string())
        }
    }
}

/// The run after some providers were asked, one after the other.
pub open spec fn after_events(x: ExecutionView, events: Seq<ProviderEventView>) -> ExecutionView
    decreases events.len(),
{
    if events.len() == 0 {
        x
    } else {
        let before = after_events(x, events.drop_last());
        match before.next() {
            Some(plugin) => after_event(before, plugin, events.last()),
            None => before,
        }
    }
}

/// As long as nobody answers, the providers are asked in their order and each of them once.
pub proof fn providers_are_asked_in_order(x: ExecutionView, events: Seq<ProviderEventView>)
    requires
        x.attempted.len() == 0,
        events.len() <= x.providers.len(),
        forall|i: int| 0 <= i < events.len() ==> event_error(#[trigger] events[i]) is Some,
    ensures
        after_events(x, events).wf(),
        after_events(x, events).attempted.len() == events.len(),
        after_events(x, events).providers == x.providers,
        after_events(x, events).permission == x.permission,
        forall|i: int|
            0 <= i < events.len() ==> (#[trigger] after_events(x, events).attempted[i]).plugin
                == x.providers[i] && Some(after_events(x, events).attempted[i].error)
                == event_error(events[i]),
    decreases events.len(),
{
    if events.len() > 0 {
        let front = events.drop_last();
        assert forall|i: int| 0 <= i < front.len() implies event_error(#[trigger] front[i]) is Some by {
            assert(event_error(events[i]) is Some);
        }
        providers_are_asked_in_order(x, front);
        let before = after_events(x, front);
        let after = after_events(x, events);
        assert(event_error(events.last()) is Some);
        assert forall|i: int| 0 <= i < events.len() implies (
        #[trigger] after.attempted[i]).plugin == x.providers[i] && Some(after.attempted[i].error)
            == event_error(events[i]) by {
            if i < front.len() {
                assert(after.attempted[i] == before.attempted[i]);
                assert(front[i] == events[i]);
            }
        }
    }
}

/// Where no provider is permitted, the agent learns which permission is missing; the answer does not
/// depend on anything else.
pub proof fn missing_permissions_are_named(x: ExecutionView)
    requires
        x.attempted.len() == 0,
        x.providers.len() > 0,
    ensures
        final_error(
            after_events(
                x,
                Seq::new(x.providers.len(), |i: int| ProviderEventView::Denied),
            ),
        ) == "plugin_permission_denied:"@ + permission_text(x.permission),
{
    let events = Seq::new(x.providers.len(), |i: int| ProviderEventView::Denied);
    providers_are_asked_in_order(x, events);
    let after = after_events(x, events);
    assert forall|i: int| 0 <= i < after.attempted.len() implies (
    #[trigger] after.attempted[i]).error == "permission_denied"@ by {
        assert(event_error(events[i]) == Some("permission_denied"@));
    }
}

} // verus!
