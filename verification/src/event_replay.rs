//! Recorded events: sessions of them, what is read back, and what is replayed.

use vstd::prelude::*;

use crate::alerting::store::{kept, rows_view};
use crate::crypt::{fixed_hex, hex_padded};
use crate::event::{OpencapxEvent, OpencapxEventView};
use crate::order::{sort_list, sorted, sorting_keeps_every_value, strict_weak, in_order};
use crate::text::{decimal, decimal_seq, join3, starts_with, starts_with_seq};

verus! {

/// How many events are read back at most.
pub const READ_LIMIT: usize = 5000;

/// A recording of events.
#[derive(Debug)]
pub struct ReplaySession {
    pub session_id: String,
    pub started_at: u64,
    pub ended_at: Option<u64>,
    pub size_bytes: u64,
    pub line_count: u64,
}

/// What a [`ReplaySession`] holds.
pub struct ReplaySessionView {
    pub session_id: Seq<char>,
    pub started_at: u64,
    pub ended_at: Option<u64>,
    pub size_bytes: u64,
    pub line_count: u64,
}

impl View for ReplaySession {
    type V = ReplaySessionView;

    open spec fn view(&self) -> ReplaySessionView {
        ReplaySessionView {
            session_id: self.session_id@,
            started_at: self.started_at,
            ended_at: self.ended_at,
            size_bytes: self.size_bytes,
            line_count: self.line_count,
        }
    }
}

/// The id of the recording that a process makes: the second at which it began, and the last four
/// hexadecimal digits of its number.
pub fn session_id_at(secs: u64, process: u32) -> (r: String)
    ensures
        r@ == decimal_seq(secs as nat) + "-"@ + fixed_hex((process % 65536) as nat, 4),
{
    let suffix: String = hex_padded((process % 65536) as u64, 4);
    join3(decimal(secs).as_str(), "-", suffix.as_str())
}

/// A recording in which events with these times stand.
pub open spec fn session_of(id: Seq<char>, size: u64, times: Seq<u64>) -> ReplaySessionView {
    ReplaySessionView {
        session_id: id,
        started_at: if times.len() == 0 {
            0
        } else {
            times[0]
        },
        ended_at: if times.len() == 0 {
            None
        } else {
            Some(times.last())
        },
        size_bytes: size,
        line_count: times.len() as u64,
    }
}

/// A recording in which events with these times stand: it begins with the first and ends with the
/// last.
pub fn summarize_session(id: &str, size: u64, times: &Vec<u64>) -> (r: ReplaySession)
    ensures
        r@ == session_of(id@, size, times@),
{
    let n: usize = times.len();
    if n == 0 {
        ReplaySession {
            session_id: id.to_string(),
            started_at: 0,
            ended_at: None,
            size_bytes: size,
            line_count: 0,
        }
    } else {
        ReplaySession {
            session_id: id.to_string(),
            started_at: times[0],
            ended_at: Some(times[n - 1]),
            size_bytes: size,
            line_count: n as u64,
        }
    }
}

/// The order of recordings: those that began later come first.
pub open spec fn later_first() -> spec_fn(ReplaySessionView, ReplaySessionView) -> bool {
    |a: ReplaySessionView, b: ReplaySessionView| a.started_at > b.started_at
}

/// Recordings, those that began later first.
pub fn list_sessions(sessions: Vec<ReplaySession>) -> (r: Vec<ReplaySession>)
    ensures
        rows_view(r@) == sorted(rows_view(sessions@), later_first()),
{
    let before = |a: &ReplaySession, b: &ReplaySession| -> (r: bool)
        ensures
            r == later_first()(a@, b@),
        { a.started_at > b.started_at };
    sort_list(sessions, before, Ghost(later_first()))
}

/// No recording is listed behind one that began earlier, and none is lost.
pub proof fn later_recordings_come_first(sessions: Seq<ReplaySessionView>)
    ensures
        in_order(sorted(sessions, later_first()), later_first()),
        sorted(sessions, later_first()).to_multiset() == sessions.to_multiset(),
{
    assert(strict_weak(later_first()));
    sorting_keeps_every_value(sessions, later_first());
}

/// The last events of a recording, as many as asked for and at most [`READ_LIMIT`].
pub open spec fn latest(events: Seq<OpencapxEventView>, limit: nat) -> Seq<OpencapxEventView> {
    let most = if limit <= READ_LIMIT {
        limit
    } else {
        READ_LIMIT as nat
    };
    if events.len() <= most {
        events
    } else {
        events.skip(events.len() - most)
    }
}

/// The last events of a recording in the order in which they came, as many as asked for and at most
/// [`READ_LIMIT`].
pub fn read_session(events: &Vec<OpencapxEvent>, limit: usize) -> (r: Vec<OpencapxEvent>)
    ensures
        rows_view(r@) == latest(rows_view(events@), limit as nat),
{
    let ghost all = rows_view(events@);
    let most: usize = if limit <= READ_LIMIT {
        limit
    } else {
        READ_LIMIT
    };
    let from: usize = if events.len() <= most {
        0
    } else {
        events.len() - most
    };
    let mut out: Vec<OpencapxEvent> = Vec::new();
    let mut i: usize = from;
    while i < events.len()
        invariant
            from <= i <= events@.len(),
            all == rows_view(events@),
            out@.len() == i - from,
            forall|k: int| 0 <= k < out@.len() ==> (#[trigger] out@[k])@ == all[from + k],
        decreases events@.len() - i,
    {
        assert(all[i as int] == events@[i as int]@);
        out.push(events[i].clone());
        i += 1;
    }
    assert(rows_view(out@) =~= latest(all, limit as nat));
    out
}

/// Whether an event is replayed: without a filter all are, else those whose kind begins with it.
pub open spec fn replayed(filter: Option<Seq<char>>, e: OpencapxEventView) -> bool {
    match filter {
        Some(f) => f.len() == 0 || starts_with_seq(e.kind, f),
        None => true,
    }
}

/// The events of a recording that are replayed.
pub open spec fn replay_of(events: Seq<OpencapxEventView>, filter: Option<Seq<char>>) -> Seq<
    OpencapxEventView,
> {
    kept(events, |e: OpencapxEventView| replayed(filter, e))
}

/// The events of a recording that are replayed, in the order in which they came.
pub fn events_to_replay(events: &Vec<OpencapxEvent>, filter: Option<&str>) -> (r: Vec<OpencapxEvent>)
    ensures
        rows_view(r@) == replay_of(
            rows_view(events@),
            match filter {
                Some(f) => Some(f@),
                None => None,
            },
        ),
{
    let ghost all = rows_view(events@);
    let ghost wanted = match filter {
        Some(f) => Some(f@),
        None => None,
    };
    let ghost pred = |e: OpencapxEventView| replayed(wanted, e);
    let mut out: Vec<OpencapxEvent> = Vec::new();
    let mut i: usize = 0;
    assert(rows_view(out@) =~= kept(all.take(0), pred));
    while i < events.len()
        invariant
            i <= events@.len(),
            all == rows_view(events@),
            wanted == (match filter {
                Some(f) => Some(f@),
                None => None,
            }),
            pred == (|e: OpencapxEventView| replayed(wanted, e)),
            rows_view(out@) == kept(all.take(i as int), pred),
        decreases events@.len() - i,
    {
        assert(all.take(i + 1).drop_last() =~= all.take(i as int));
        assert(all.take(i + 1).last() == events@[i as int]@);
        let fits: bool = match filter {
            Some(f) => f.is_empty() || starts_with(events[i].kind.as_str(), f),
            None => true,
        };
        if fits {
            let ghost before = out@;
            let copy: OpencapxEvent = events[i].clone();
            let ghost v = copy@;
            out.push(copy);
            assert(rows_view(out@) =~= rows_view(before).push(v));
            assert(pred(v));
        }
        i += 1;
    }
    assert(all.take(all.len() as int) =~= all);
    out
}

} // verus!
