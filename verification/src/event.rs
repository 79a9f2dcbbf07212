//! Events: their shape, their types, and what is made of a report that comes in.

use vstd::prelude::*;

use crate::alerting::ids::{gen_time_id, time_id};
use crate::json::{get_member, json_read, parse_json, Json, JsonView};
use crate::text::{decimal_seq, digit, join, lemma_decimal_differs, same};
use crate::values::{
    and_member, empty_object, no_members, text_member, text_or, text_value,
};

verus! {

/// Something that happened.
#[derive(Debug)]
pub struct OpencapxEvent {
    pub id: String,
    pub kind: String,
    pub source: String,
    pub timestamp: u64,
    pub payload: Json,
}

/// What an [`OpencapxEvent`] holds.
pub struct OpencapxEventView {
    pub id: Seq<char>,
    pub kind: Seq<char>,
    pub source: Seq<char>,
    pub timestamp: u64,
    pub payload: JsonView,
}

impl View for OpencapxEvent {
    type V = OpencapxEventView;

    open spec fn view(&self) -> OpencapxEventView {
        OpencapxEventView {
            id: self.id@,
            kind: self.kind@,
            source: self.source@,
            timestamp: self.timestamp,
            payload: self.payload@,
        }
    }
}

impl OpencapxEvent {
    /// An event at `now`. Its id is made of the nanosecond and of how many events this process has
    /// made before.
    pub fn new(kind: &str, source: &str, payload: Json, nanos: u64, seq: u64, now: u64) -> (r: Self)
        ensures
            r@ == (OpencapxEventView {
                id: time_id("evt-"@, nanos, seq),
                kind: kind@,
                source: source@,
                timestamp: now,
                payload: payload@,
            }),
    {
        OpencapxEvent {
            id: gen_time_id("evt-", nanos, seq),
            kind: kind.to_string(),
            source: source.to_string(),
            timestamp: now,
            payload,
        }
    }
}

impl Clone for OpencapxEvent {
    fn clone(&self) -> (r: Self)
        ensures
            r@ == self@,
    {
        OpencapxEvent {
            id: self.id.clone(),
            kind: self.kind.clone(),
            source: self.source.clone(),
            timestamp: self.timestamp,
            payload: self.payload.clone(),
        }
    }
}

proof fn lemma_decimal_has_no_dash(n: nat)
    ensures
        forall|i: int| 0 <= i < decimal_seq(n).len() ==> #[trigger] decimal_seq(n)[i] != '-',
    decreases n,
{
    let last = digit(n % 10);
    assert(last as nat == 48 + n % 10);
    assert(last != '-');
    if n >= 10 {
        lemma_decimal_has_no_dash(n / 10);
        assert(decimal_seq(n) == decimal_seq(n / 10).push(last));
    } else {
        assert(decimal_seq(n) == seq![last]);
    }
}

/// Two events of one process never have the same id, even in the same nanosecond: their counts
/// differ.
pub proof fn events_never_share_an_id(nanos_a: u64, seq_a: u64, nanos_b: u64, seq_b: u64)
    requires
        seq_a != seq_b,
    ensures
        time_id("evt-"@, nanos_a, seq_a) != time_id("evt-"@, nanos_b, seq_b),
{
    reveal_strlit("-");
    let a = time_id("evt-"@, nanos_a, seq_a);
    let b = time_id("evt-"@, nanos_b, seq_b);
    let da = decimal_seq(seq_a as nat);
    let db = decimal_seq(seq_b as nat);
    let front_a = "evt-"@ + decimal_seq(nanos_a as nat) + "-"@;
    let front_b = "evt-"@ + decimal_seq(nanos_b as nat) + "-"@;
    lemma_decimal_has_no_dash(seq_a as nat);
    lemma_decimal_has_no_dash(seq_b as nat);
    lemma_decimal_differs(seq_a as nat, seq_b as nat);
    assert(a =~= front_a + da);
    assert(b =~= front_b + db);
    if a == b {
        assert(a.len() == b.len());
        assert(front_a[front_a.len() - 1] == '-');
        assert(front_b[front_b.len() - 1] == '-');
        if da.len() == db.len() {
            assert(da =~= a.skip(front_a.len() as int));
            assert(db =~= b.skip(front_b.len() as int));
        } else if da.len() < db.len() {
            let at = front_a.len() - 1;
            assert(a[at] == '-');
            assert(b[at] == db[at - front_b.len()]);
        } else {
            let at = front_b.len() - 1;
            assert(b[at] == '-');
            assert(a[at] == da[at - front_a.len()]);
        }
    }
}

/// The type of the event that a session in this state makes.
pub open spec fn event_type_of(state: Seq<char>) -> Seq<char> {
    if state == "working"@ {
        "agent.working"@
    } else if state == "waiting"@ {
        "agent.waiting"@
    } else if state == "done"@ {
        "agent.completed"@
    } else {
        "agent.started"@
    }
}

/// The type of the event that a session in this state makes. A session that is idle has started.
pub fn agent_event_type(state: &str) -> (r: &'static str)
    ensures
        r@ == event_type_of(state@),
{
    if same(state, "working") {
        "agent.working"
    } else if same(state, "waiting") {
        "agent.waiting"
    } else if same(state, "done") {
        "agent.completed"
    } else {
        "agent.started"
    }
}

/// What is noted of a rule that changed a command.
pub open spec fn audit_of(v: JsonView, default_agent: Seq<char>) -> Option<JsonView> {
    match text_member(v, "__rule"@) {
        None => None,
        Some(rule) => {
            let command = match get_member(v, "tool_input"@) {
                Some(t) => text_or(t, "command"@, Seq::empty()),
                None => Seq::empty(),
            };
            let plain = and_member(
                and_member(
                    and_member(no_members(), "ruleId"@, JsonView::Text(rule)),
                    "agent"@,
                    JsonView::Text(text_or(v, "agent"@, default_agent)),
                ),
                "command"@,
                JsonView::Text(command),
            );
            match text_member(v, "reason"@) {
                Some(reason) => Some(and_member(plain, "reason"@, JsonView::Text(reason))),
                None => Some(plain),
            }
        },
    }
}

/// What is noted of a rule that changed a command, from a report that names the rule under
/// `__rule`. Nothing is noted where it names none.
pub fn rule_audit_of(v: &Json, default_agent: &str) -> (r: Option<Json>)
    ensures
        match r {
            Some(j) => audit_of(v@, default_agent@) == Some(j@),
            None => audit_of(v@, default_agent@) is None,
        },
{
    proof {
        reveal_strlit("");
        assert(""@ =~= Seq::<char>::empty());
    }
    let rule: &str = match v.text_at("__rule") {
        Some(id) => id,
        None => {
            return None;
        },
    };
    let command: &str = match v.member("tool_input") {
        Some(t) => t.text_at_or("command", ""),
        None => "",
    };
    let agent: &str = v.text_at_or("agent", default_agent);
    let plain: Json = empty_object().with("ruleId", text_value(rule)).with(
        "agent",
        text_value(agent),
    ).with("command", text_value(command));
    match v.text_at("reason") {
        Some(reason) => Some(plain.with("reason", text_value(reason))),
        None => Some(plain),
    }
}

/// What is noted of a rule that changed a command, from the text of a report. Nothing is noted of
/// a text that is no JSON.
pub fn rule_audit(body: &str, default_agent: &str) -> (r: Option<Json>)
    ensures
        match json_read(body@) {
            Ok(v) => match r {
                Some(j) => audit_of(v, default_agent@) == Some(j@),
                None => audit_of(v, default_agent@) is None,
            },
            Err(_) => r is None,
        },
{
    match parse_json(body) {
        Ok(v) => rule_audit_of(&v, default_agent),
        Err(_) => None,
    }
}

/// What is known of a session of an agent.
#[derive(Debug)]
pub struct SessionNote {
    pub id: String,
    pub agent: String,
    pub state: String,
    pub message: String,
    pub model: String,
    pub speech: String,
    pub cwd: String,
}

/// What a [`SessionNote`] holds.
pub struct SessionNoteView {
    pub id: Seq<char>,
    pub agent: Seq<char>,
    pub state: Seq<char>,
    pub message: Seq<char>,
    pub model: Seq<char>,
    pub speech: Seq<char>,
    pub cwd: Seq<char>,
}

impl View for SessionNote {
    type V = SessionNoteView;

    open spec fn view(&self) -> SessionNoteView {
        SessionNoteView {
            id: self.id@,
            agent: self.agent@,
            state: self.state@,
            message: self.message@,
            model: self.model@,
            speech: self.speech@,
            cwd: self.cwd@,
        }
    }
}

/// A text that stays what it was where nothing new is said.
pub open spec fn sticky(new: Seq<char>, before: Option<Seq<char>>) -> Seq<char> {
    if new.len() == 0 && before is Some {
        before->Some_0
    } else {
        new
    }
}

/// A session after a report on it: the model, the speech and the directory stay what they were
/// where the report says nothing of them.
pub open spec fn session_after(new: SessionNoteView, before: Option<SessionNoteView>) -> SessionNoteView {
    match before {
        None => new,
        Some(b) => SessionNoteView {
            model: sticky(new.model, Some(b.model)),
            speech: sticky(new.speech, Some(b.speech)),
            cwd: sticky(new.cwd, Some(b.cwd)),
            ..new
        },
    }
}

/// Whether the user is told of a report: the session has just begun to wait or is just done.
pub open spec fn worth_telling(new: SessionNoteView, before: Option<SessionNoteView>) -> bool {
    &&& before is Some ==> before->Some_0.state != new.state
    &&& new.state == "waiting"@ || new.state == "done"@
}

/// What a report on a session leads to.
#[derive(Debug)]
pub struct Ingested {
    pub session: SessionNote,
    /// The type of the event that is published.
    pub kind: String,
    /// The source of that event.
    pub source: String,
    /// Under whose name the report is filed.
    pub filed_under: String,
    /// Whether the user is told.
    pub notify: bool,
}

fn keep(new: String, before: &str) -> (r: String)
    ensures
        r@ == sticky(new@, Some(before@)),
{
    if new.as_str().is_empty() {
        before.to_string()
    } else {
        new
    }
}

/// Takes in a report on a session. `caller` is the agent that the sender has proved to be, if any.
pub fn ingest(new: SessionNote, before: Option<&SessionNote>, caller: Option<&str>) -> (r: Ingested)
    ensures
        ({
            let was = match before {
                Some(b) => Some(b@),
                None => None,
            };
            &&& r.session@ == session_after(new@, was)
            &&& r.kind@ == event_type_of(new@.state)
            &&& r.source@ == "hooks:"@ + new@.agent
            &&& r.filed_under@ == (match caller {
                Some(c) => c@,
                None => new@.agent,
            })
            &&& r.notify == worth_telling(new@, was)
        }),
{
    let kind: String = agent_event_type(new.state.as_str()).to_string();
    let source: String = join("hooks:", new.agent.as_str());
    let filed_under: String = match caller {
        Some(c) => c.to_string(),
        None => new.agent.clone(),
    };
    let settled: bool = same(new.state.as_str(), "waiting") || same(new.state.as_str(), "done");
    match before {
        None => Ingested { session: new, kind, source, filed_under, notify: settled },
        Some(b) => {
            let moved: bool = !same(b.state.as_str(), new.state.as_str());
            let session: SessionNote = SessionNote {
                id: new.id,
                agent: new.agent,
                state: new.state,
                message: new.message,
                model: keep(new.model, b.model.as_str()),
                speech: keep(new.speech, b.speech.as_str()),
                cwd: keep(new.cwd, b.cwd.as_str()),
            };
            Ingested { session, kind, source, filed_under, notify: moved && settled }
        },
    }
}

/// What is said, as the payload of an event.
pub open spec fn spoken(text: Seq<char>) -> JsonView {
    and_member(no_members(), "text"@, JsonView::Text(text))
}

/// What is said, as the payload of an event.
pub fn say_payload(text: &str) -> (r: Json)
    ensures
        r@ == spoken(text@),
{
    empty_object().with("text", text_value(text))
}

/// However many reports come in, what was once said of a session's model, speech and directory is
/// not lost.
pub proof fn what_was_said_stays(new: SessionNoteView, before: SessionNoteView)
    ensures
        before.model.len() > 0 ==> session_after(new, Some(before)).model.len() > 0,
        before.speech.len() > 0 ==> session_after(new, Some(before)).speech.len() > 0,
        before.cwd.len() > 0 ==> session_after(new, Some(before)).cwd.len() > 0,
{
}

} // verus!
