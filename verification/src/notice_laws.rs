//! What is announced of runs of capabilities, what agents are told of capabilities, and what dispatching
//! remembers, said of the operations and in no terms of how they come to their results.

use vstd::prelude::*;

use crate::alerting::correlations::{evaluate_correlations, CorrelationDecision, CorrelationState};
use crate::alerting::dispatch::{dedup_key, let_through, plan_deliveries, Delivery, DispatchState};
use crate::alerting::ids::uuid_shape;
use crate::alerting::routes::{match_route, Comparison};
use crate::alerting::rule_laws::{lemma_stamp, stamped_at};
use crate::alerting::severity::endpoints_on;
use crate::alerting::stamps::{Stamp, StampView};
use crate::alerting::storage::Storage;
use crate::alerting::store::{keys_distinct, put_then_get, rows_view};
use crate::alerting::types::{RouteRuleRow, Severity, WebhookConfig};
use crate::appctl::run_outcome;
use crate::audio::{check_windows, VolumeFact};
use crate::capability::{digest_from, digest_line, digest_run, digests_stay_short, left_out};
use crate::declaration::Vocabulary;
use crate::execution::{
    begin, finish_builtin, CoreStore, Effect, EffectView, Execution, ProviderEvent, ScopeDenial,
    Start,
};
use crate::json::{Json, JsonView};
use crate::laws::{holds_at, members_are_read_by_name};
use crate::record_laws::lemma_at;
use crate::text::{byte_count, decimal_seq, ends_with_seq, lower_ascii_seq, starts_with_seq, trim_seq};
use crate::tool_laws::has_extension;

verus! {

/// Whether it is announced under this kind that an agent used a capability.
pub open spec fn announces(e: EffectView, kind: Seq<char>, capability: Seq<char>, agent: Seq<char>) -> bool {
    &&& e is Publish
    &&& e->Publish_kind == kind
    &&& holds_at(e->Publish_payload, "capability"@, JsonView::Text(capability))
    &&& holds_at(e->Publish_payload, "agent"@, JsonView::Text(agent))
}

proof fn lemma_keys()
    ensures
        "capability"@.len() == 10 && "agent"@.len() == 5 && "providers"@.len() == 9 && "pluginId"@.len() == 8
            && "elapsedMs"@.len() == 9 && "error"@.len() == 5 && "attemptedProviders"@.len() == 18
            && "scopeLayer"@.len() == 10,
        "providers"@[0] == 'p' && "elapsedMs"@[0] == 'e' && "agent"@[0] == 'a' && "error"@[0] == 'e'
            && "capability"@[0] == 'c' && "scopeLayer"@[0] == 's',
{
    reveal_strlit("capability");
    reveal_strlit("agent");
    reveal_strlit("providers");
    reveal_strlit("pluginId");
    reveal_strlit("elapsedMs");
    reveal_strlit("error");
    reveal_strlit("attemptedProviders");
    reveal_strlit("scopeLayer");
}

/// That plugins are asked is announced with their names, in the order in which they are; that a run is
/// refused for its bounds or its size is announced with the reason and counted as a failure of the core.
/// Nothing else is announced at the beginning.
pub proof fn beginnings_are_announced(
    words: &Vocabulary,
    store: Option<&CoreStore>,
    capability: &str,
    agent: &str,
    denied: Option<&ScopeDenial>,
    input: &Json,
    r: (Vec<Effect>, Start),
)
    requires
        call_ensures(begin, (words, store, capability, agent, denied, input), r),
    ensures
        r.1@ is Builtin ==> r.0@.len() == 0,
        r.1@ is Plugins ==> r.0@.len() == 1 && announces(
            r.0@[0]@,
            "capability.started"@,
            capability@,
            agent@,
        ) && exists|names: Seq<JsonView>| #[trigger]
            holds_at(r.0@[0]@->Publish_payload, "providers"@, JsonView::Array(names)) && names.len()
                == r.1@->Plugins_0.providers.len() && forall|i: int|
                0 <= i < names.len() ==> #[trigger] names[i] == JsonView::Text(
                    r.1@->Plugins_0.providers[i],
                ),
        r.1@ is Refused && r.1@->Refused_0 == "payload_too_large"@ && r.0@.len() > 0 ==> {
            &&& exists|i: int|
                0 <= i < r.0@.len() && announces(
                    #[trigger] r.0@[i]@,
                    "capability.failed"@,
                    capability@,
                    agent@,
                )
            &&& exists|i: int|
                0 <= i < r.0@.len() && #[trigger] r.0@[i]@ is Failure && r.0@[i]@->Failure_plugin == "core"@
        },
{
    lemma_keys();
    let out = rows_view(r.0@);
    assert(out.len() == r.0@.len());
    assert forall|i: int| 0 <= i < r.0@.len() implies out[i] == (#[trigger] r.0@[i])@ by {}
    if r.1@ is Plugins {
        assert(out[0] == r.0@[0]@);
        let m = out[0]->Publish_payload->Object_0;
        assert(m.len() == 3 && m[0].0 == "capability"@ && m[1].0 == "providers"@ && m[2].0 == "agent"@);
        lemma_at(m, 0);
        lemma_at(m, 1);
        lemma_at(m, 2);
        let names = m[1].1->Array_0;
        assert(holds_at(out[0]->Publish_payload, "providers"@, JsonView::Array(names)));
    }
    if r.1@ is Refused && r.1@->Refused_0 == "payload_too_large"@ && r.0@.len() > 0 {
        lemma_failed_about(out, capability@, agent@);
        let i = choose|i: int|
            0 <= i < out.len() && announces(#[trigger] out[i], "capability.failed"@, capability@, agent@);
        assert(r.0@[i]@ == out[i]);
        let k = choose|k: int| 0 <= k < out.len() && #[trigger] out[k] is Failure && out[k]->Failure_plugin == "core"@;
        assert(r.0@[k]@ == out[k]);
    }
}

proof fn lemma_failed_about(out: Seq<EffectView>, capability: Seq<char>, agent: Seq<char>)
    requires
        out == crate::execution::too_large_effects(capability, agent) || exists|
            permission: Option<Seq<char>>,
            layer: Seq<char>,
            path: Seq<char>,
        |
            out == #[trigger] crate::execution::scope_effects(capability, agent, permission, layer, path),
    ensures
        exists|i: int|
            0 <= i < out.len() && announces(#[trigger] out[i], "capability.failed"@, capability, agent),
        exists|k: int|
            0 <= k < out.len() && #[trigger] out[k] is Failure && out[k]->Failure_plugin == "core"@,
{
    lemma_keys();
    let m = out[1]->Publish_payload->Object_0;
    assert(m[0].0 == "capability"@ && m[1].0 == "agent"@);
    lemma_at(m, 0);
    lemma_at(m, 1);
    assert(announces(out[1], "capability.failed"@, capability, agent));
    if out == crate::execution::too_large_effects(capability, agent) {
        assert(out[0] is Failure && out[0]->Failure_plugin == "core"@);
    } else {
        assert(out[2] is Failure && out[2]->Failure_plugin == "core"@);
    }
}

/// What became of asking a provider is counted against it: an answer, a denial, that it does not run, that
/// it took too long, or another failure. An answer is announced with the provider and how long it took.
pub proof fn outcomes_are_counted_and_answers_announced(x: &mut Execution, ev: &ProviderEvent, r: Vec<Effect>)
    requires
        call_ensures(Execution::step, (x, ev), r),
        old(x)@.attempted.len() < old(x)@.providers.len(),
    ensures
        ({
            let plugin = old(x)@.providers[old(x)@.attempted.len() as int];
            &&& ev@ is Denied ==> r@.last()@ == (EffectView::Failure {
                plugin,
                elapsed: 0,
                result: "denied"@,
                error_kind: "permission_denied"@,
            })
            &&& ev@ is ScopeDenied ==> r@.last()@ == (EffectView::Failure {
                plugin,
                elapsed: 0,
                result: "denied"@,
                error_kind: "scope_denied"@,
            })
            &&& ev@ is NotRunning ==> r@.len() == 1 && r@[0]@ == (EffectView::Failure {
                plugin,
                elapsed: 0,
                result: "err"@,
                error_kind: "ensure_running"@,
            })
            &&& ev@ is Failed && starts_with_seq(ev@->Failed_error, "timeout "@) ==> r@.len() == 1 && r@[0]@
                == (EffectView::Failure {
                plugin,
                elapsed: ev@->Failed_elapsed,
                result: "timeout"@,
                error_kind: "timeout"@,
            })
            &&& ev@ is Failed && !starts_with_seq(ev@->Failed_error, "timeout "@) ==> r@.len() == 1
                && r@[0]@ == (EffectView::Failure {
                plugin,
                elapsed: ev@->Failed_elapsed,
                result: "err"@,
                error_kind: "rpc_error"@,
            })
            &&& ev@ is Answered ==> r@.len() == 2 && r@[0]@ == (EffectView::Answer {
                plugin,
                elapsed: ev@->Answered_elapsed,
            }) && announces(r@[1]@, "capability.completed"@, old(x)@.capability, old(x)@.agent) && holds_at(
                r@[1]@->Publish_payload,
                "pluginId"@,
                JsonView::Text(plugin),
            ) && holds_at(
                r@[1]@->Publish_payload,
                "elapsedMs"@,
                JsonView::Number(decimal_seq(ev@->Answered_elapsed as nat)),
            )
        }),
{
    lemma_keys();
    let out = rows_view(r@);
    assert(out.len() == r@.len());
    assert forall|i: int| 0 <= i < r@.len() implies out[i] == (#[trigger] r@[i])@ by {}
    assert(r@.len() > 0 ==> out.last() == r@.last()@);
    if ev@ is Answered {
        assert(out[0] == r@[0]@ && out[1] == r@[1]@);
        lemma_completed(out[1]->Publish_payload->Object_0);
    } else if r@.len() == 1 {
        assert(out[0] == r@[0]@);
    }
}

proof fn lemma_completed(m: Seq<(Seq<char>, JsonView)>)
    requires
        m.len() == 4,
        m[0].0 == "capability"@ && m[1].0 == "pluginId"@ && m[2].0 == "elapsedMs"@ && m[3].0 == "agent"@,
    ensures
        holds_at(JsonView::Object(m), m[0].0, m[0].1),
        holds_at(JsonView::Object(m), m[1].0, m[1].1),
        holds_at(JsonView::Object(m), m[2].0, m[2].1),
        holds_at(JsonView::Object(m), m[3].0, m[3].1),
{
    lemma_keys();
    lemma_at(m, 0);
    lemma_at(m, 1);
    lemma_at(m, 2);
    lemma_at(m, 3);
}

/// That a capability failed is announced with each provider that was tried and its error, in turn.
pub proof fn failures_are_announced_with_what_was_tried(
    x: &Execution,
    r: (Effect, String),
    tried: Seq<JsonView>,
    i: int,
)
    requires
        call_ensures(Execution::conclude, (x,), r),
        0 <= i < x@.attempted.len(),
        holds_at(r.0@->Publish_payload, "attemptedProviders"@, JsonView::Array(tried)),
    ensures
        announces(r.0@, "capability.failed"@, x@.capability, x@.agent),
        tried.len() == x@.attempted.len(),
        holds_at(tried[i], "pluginId"@, JsonView::Text(x@.attempted[i].plugin)),
        holds_at(tried[i], "error"@, JsonView::Text(x@.attempted[i].error)),
{
    lemma_keys();
    let m = r.0@->Publish_payload->Object_0;
    assert(m.len() == 3 && m[0].0 == "capability"@ && m[1].0 == "agent"@ && m[2].0
        == "attemptedProviders"@);
    lemma_at(m, 0);
    lemma_at(m, 1);
    lemma_at(m, 2);
    members_are_read_by_name(r.0@->Publish_payload, "attemptedProviders"@, JsonView::Array(tried));
    members_are_read_by_name(r.0@->Publish_payload, "attemptedProviders"@, m[2].1);
    let t = tried[i]->Object_0;
    assert(t.len() == 2 && t[0] == ("pluginId"@, JsonView::Text(x@.attempted[i].plugin)) && t[1] == (
        "error"@,
        JsonView::Text(x@.attempted[i].error),
    ));
    lemma_at(t, 0);
    lemma_at(t, 1);
}

/// A run of what comes along is announced with the core as its provider, and then its end: completed where
/// nothing went wrong, failed otherwise.
pub proof fn builtins_are_announced(
    capability: &str,
    agent: &str,
    error: Option<&str>,
    elapsed: u64,
    r: (Vec<Effect>, Result<(), String>),
)
    requires
        call_ensures(finish_builtin, (capability, agent, error, elapsed), r),
    ensures
        r.0@.len() == 3,
        announces(r.0@[0]@, "capability.started"@, capability@, agent@),
        error is None ==> r.0@[1]@ == (EffectView::Answer { plugin: "core"@, elapsed }) && announces(
            r.0@[2]@,
            "capability.completed"@,
            capability@,
            agent@,
        ),
        error is Some ==> r.0@[1]@ is Failure && r.0@[1]@->Failure_plugin == "core"@ && announces(
            r.0@[2]@,
            "capability.failed"@,
            capability@,
            agent@,
        ),
{
    lemma_keys();
    let out = rows_view(r.0@);
    assert(out.len() == r.0@.len());
    assert(out[0] == r.0@[0]@ && out[1] == r.0@[1]@ && out[2] == r.0@[2]@);
    let m = out[0]->Publish_payload->Object_0;
    assert(m.len() == 3 && m[0].0 == "capability"@ && m[1].0 == "providers"@ && m[2].0 == "agent"@);
    lemma_at(m, 0);
    lemma_at(m, 2);
    let e = out[2]->Publish_payload->Object_0;
    if error is None {
        lemma_completed(e);
    } else {
        assert(e.len() == 3 && e[0].0 == "capability"@ && e[1].0 == "agent"@);
        lemma_at(e, 0);
        lemma_at(e, 1);
    }
}

/// What agents are told of capabilities has at most 4096 bytes; there is nothing to tell where none is
/// listed.
pub proof fn agents_are_told_briefly(listed: &Json, caps: Seq<JsonView>, r: Option<String>)
    requires
        call_ensures(digest_from, (listed,), r),
        holds_at(listed@, "capabilities"@, JsonView::Array(caps)),
        caps.len() <= usize::MAX,
    ensures
        r is Some == (caps.len() > 0),
        r is Some ==> byte_count(r->0@) <= 4096,
{
    members_are_read_by_name(listed@, "capabilities"@, JsonView::Array(caps));
    digests_stay_short(listed@);
}

/// A capability has a line of its own: its id, whether it is executed or subscribed to, and its provider.
pub proof fn agents_are_told_line_by_line(
    listed: &Json,
    cap: JsonView,
    id: Seq<char>,
    provider: Seq<char>,
    line: Seq<char>,
    r: Option<String>,
)
    requires
        call_ensures(digest_from, (listed,), r),
        holds_at(listed@, "capabilities"@, JsonView::Array(seq![cap])),
        holds_at(cap, "id"@, JsonView::Text(id)),
        id.len() > 0,
        holds_at(cap, "providers"@, JsonView::Array(seq![JsonView::Text(provider)])),
        line == "\n- "@ + id + " — "@ + (if holds_at(cap, "type"@, JsonView::Text("subscribe"@)) {
            "subscribe"@
        } else {
            "execute"@
        }) + " — providers: "@ + provider,
        byte_count(crate::capability::digest_head()) + byte_count(line) <= 4096,
    ensures
        r is Some,
        r->0@ == crate::capability::digest_head() + line,
{
    let caps = seq![cap];
    let head = crate::capability::digest_head();
    members_are_read_by_name(listed@, "capabilities"@, JsonView::Array(caps));
    members_are_read_by_name(cap, "id"@, JsonView::Text(id));
    members_are_read_by_name(cap, "type"@, JsonView::Text("subscribe"@));
    let names = seq![JsonView::Text(provider)];
    members_are_read_by_name(cap, "providers"@, JsonView::Array(names));
    reveal_with_fuel(crate::capability::texts_among, 2);
    assert(names.drop_last().len() == 0);
    assert(crate::capability::texts_among(names) =~= seq![provider]);
    assert(digest_line(cap) == line);
    assert(left_out(0) == Seq::<char>::empty());
    assert(byte_count(Seq::<char>::empty()) == 0);
    reveal_with_fuel(digest_run, 2);
    assert(digest_run(caps, 0, head, 0) == (head + line, 1nat));
    assert(head + line + Seq::<char>::empty() =~= head + line);
}

/// On Windows only waves are played, and none at a volume of its own.
pub proof fn windows_plays_waves(path: &str, volume: VolumeFact, r: Result<(), String>)
    requires
        call_ensures(check_windows, (path, volume), r),
    ensures
        !(volume is Absent) ==> r is Err,
        volume is Absent ==> r is Ok == has_extension(path@, "wav"@),
{
    reveal_strlit("wav");
    reveal_strlit(".wav");
    let low = lower_ascii_seq(path@);
    let n = path@.len() as int;
    if ends_with_seq(low, ".wav"@) {
        assert(low.subrange(n - 4, n)[0] == low[n - 4]);
        assert(low.subrange(n - 4, n)[1] == low[n - 3]);
        assert(low.subrange(n - 4, n)[2] == low[n - 2]);
        assert(low.subrange(n - 4, n)[3] == low[n - 1]);
        assert forall|i: int| 0 <= i < 3 implies "wav"@[i] != '.' && crate::tool_laws::lowers_to(
            #[trigger] path@[n - 3 + i],
            "wav"@[i],
        ) by {}
        assert(has_extension(path@, "wav"@));
    }
    if has_extension(path@, "wav"@) {
        assert forall|i: int| 0 <= i < 3 implies #[trigger] low[n - 3 + i] == "wav"@[i] by {
            assert(crate::tool_laws::lowers_to(path@[path@.len() - 3 + i], "wav"@[i]));
        }
        assert(low[n - 3 + 0] == 'w' && low[n - 3 + 1] == 'a' && low[n - 3 + 2] == 'v');
        assert(low.subrange(n - 4, n) =~= ".wav"@);
    }
}

/// What an app printed is its answer, cut at four thousand characters; where it printed nothing, that it
/// went well is.
pub proof fn apps_answer_what_they_print(
    success: bool,
    code: Option<i32>,
    stdout: &str,
    stderr: &str,
    r: Result<Json, String>,
)
    requires
        call_ensures(run_outcome, (success, code, stdout, stderr), r),
    ensures
        r is Ok == success,
        success ==> holds_at(r->Ok_0@, "ok"@, JsonView::Bool(true)),
        success && 0 < trim_seq(stdout@).len() <= 4000 ==> holds_at(
            r->Ok_0@,
            "output"@,
            JsonView::Text(trim_seq(stdout@)),
        ),
        success && trim_seq(stdout@).len() > 4000 ==> holds_at(
            r->Ok_0@,
            "output"@,
            JsonView::Text(trim_seq(stdout@).take(4000)),
        ),
{
    reveal_strlit("ok");
    reveal_strlit("output");
    assert("ok"@.len() == 2 && "output"@.len() == 6);
    if success {
        let m = r->Ok_0@->Object_0;
        assert(m[0] == ("ok"@, JsonView::Bool(true)));
        lemma_at(m, 0);
        if trim_seq(stdout@).len() > 0 {
            assert(m.len() == 2 && m[1].0 == "output"@);
            lemma_at(m, 1);
        }
    }
}

/// An event that goes to anyone is remembered: as the last of its source, and, where endpoints are there,
/// among the recent ones, with its source, its time and the route that took it.
pub proof fn dispatched_events_are_remembered(
    store: &Storage,
    cfg: &WebhookConfig,
    state: &mut DispatchState,
    source: &str,
    payload: &Json,
    severity: Severity,
    numbers: &Vec<Option<Comparison>>,
    now: u64,
    route: Option<RouteRuleRow>,
    r: Vec<Delivery>,
    other: Seq<char>,
    t: u64,
)
    requires
        call_ensures(
            plan_deliveries,
            (store, cfg, state, source, payload, severity, numbers, now),
            r,
        ),
        call_ensures(match_route, (store, source, payload, numbers, &old(state).recent, now), route),
        keys_distinct::<Stamp>(old(state)@.last_by_source),
    ensures
        r@.len() == 0 ==> final(state)@ == old(state)@,
        r@.len() > 0 ==> {
            &&& stamped_at(final(state)@.last_by_source, source@, t) == (t == now)
            &&& other != source@ ==> stamped_at(final(state)@.last_by_source, other, t) == stamped_at(
                old(state)@.last_by_source,
                other,
                t,
            )
            &&& final(state)@.last_sent == old(state)@.last_sent && final(state)@.buckets == old(
                state,
            )@.buckets && final(state)@.last_a == old(state)@.last_a
        },
        r@.len() > 0 && endpoints_on(*store).len() > 0 ==> {
            let e = final(state)@.recent.last();
            &&& final(state)@.recent.len() > 0
            &&& e.source == source@ && e.ts_secs == now && uuid_shape(e.id)
            &&& route is Some ==> e.routes_fired == seq![route->0@.name]
            &&& route is None ==> e.routes_fired.len() == 0
        },
{
    if r@.len() > 0 {
        let before = old(state)@.last_by_source;
        let row = StampView { name: source@, at: now };
        put_then_get::<Stamp>(before, row, source@);
        put_then_get::<Stamp>(before, row, other);
        lemma_stamp(final(state)@.last_by_source, source@, t);
        lemma_stamp(final(state)@.last_by_source, other, t);
        lemma_stamp(before, other, t);
    }
}

/// An event that is not stopped at the gates is remembered by the suppression rules as they do by
/// themselves; which other events went out when stays as it was.
pub proof fn events_let_through_are_remembered(
    store: &Storage,
    cfg: &WebhookConfig,
    state: &mut DispatchState,
    pairs: &mut CorrelationState,
    source: &str,
    payload: &Json,
    now: u64,
    clock: u64,
    key: String,
    decision: CorrelationDecision,
    r: Option<(Json, Severity)>,
    other: Seq<char>,
    t: u64,
)
    requires
        call_ensures(let_through, (store, cfg, state, source, payload, now, clock), r),
        call_ensures(evaluate_correlations, (store, pairs, source, now), decision),
        call_ensures(dedup_key, (source, payload), key),
        old(pairs).last_a@ == old(state)@.last_a,
        keys_distinct::<Stamp>(old(state)@.last_sent),
    ensures
        r is Some ==> final(state)@.last_a == final(pairs).last_a@ && !(decision is Suppress),
        final(state)@ != old(state)@ ==> final(state)@.last_a == final(pairs).last_a@ && stamped_at(
            final(state)@.last_sent,
            key@,
            clock,
        ),
        other != key@ ==> stamped_at(final(state)@.last_sent, other, t) == stamped_at(
            old(state)@.last_sent,
            other,
            t,
        ),
        final(state)@.last_by_source == old(state)@.last_by_source && final(state)@.recent == old(
            state,
        )@.recent,
{
    let before = old(state)@.last_sent;
    let row = StampView { name: key@, at: clock };
    put_then_get::<Stamp>(before, row, other);
    put_then_get::<Stamp>(before, row, key@);
    lemma_stamp(before, other, t);
    lemma_stamp(final(state)@.last_sent, other, t);
    if final(state)@ != old(state)@ {
        lemma_stamp(final(state)@.last_sent, key@, clock);
    }
}

} // verus!
