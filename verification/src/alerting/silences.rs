//! Silences and acknowledgements: when a kind of event is not reported.

use vstd::prelude::*;

use super::ids::{gen_time_id, time_id};
use super::storage::Storage;
use super::store::{
    any_of, by_rank, copy_kept, find_first, first_of, kept, lemma_first_index, lemma_kept, row_with,
    rows_view, with_row, without_row,
};
use super::types::{
    AckRule, AckRuleRow, AckRuleRowView, AckRuleView, SilenceRule, SilenceRuleRow,
    SilenceRuleRowView, SilenceRuleView,
};
use super::util::{hour_from_unix, hour_of, kind_fits, kind_matches, weekday_from_unix, weekday_of};
use crate::text::{
    byte_count, byte_len, complaint, contains, contains_seq, is_blank, is_blank_seq, same,
};

verus! {

/// What is wrong with a silence.
pub open spec fn silence_complaint(s: SilenceRuleView) -> Option<Seq<char>> {
    if is_blank_seq(s.name) {
        Some("silence name is required"@)
    } else if byte_count(s.name) > 128 {
        Some("silence name too long (max 128 chars)"@)
    } else if s.ends_at <= s.starts_at {
        Some("ends_at must be > starts_at"@)
    } else if s.ends_at - s.starts_at > 7 * 86400 {
        Some("silence window too long (max 7 days)"@)
    } else if s.weekdays == 0 {
        Some("at least one weekday must be selected"@)
    } else if s.start_hour > 24 || s.end_hour > 24 {
        Some("hour must be 0..=24"@)
    } else if s.start_hour >= s.end_hour {
        Some("end_hour must be > start_hour"@)
    } else if s.kind_pattern.len() == 0 || s.kind_pattern == "*"@ {
        None
    } else if contains_seq(s.kind_pattern, ".."@) || contains_seq(s.kind_pattern, "//"@) {
        Some("invalid kind_pattern"@)
    } else if byte_count(s.kind_pattern) > 256 {
        Some("kind_pattern too long"@)
    } else {
        None
    }
}

/// Checks a silence.
pub fn validate_silence(s: &SilenceRule) -> (r: Result<(), String>)
    ensures
        complaint(r) == silence_complaint(s@),
{
    if is_blank(s.name.as_str()) {
        return Err("silence name is required".to_owned());
    }
    if byte_len(s.name.as_str()) > 128 {
        return Err("silence name too long (max 128 chars)".to_owned());
    }
    if s.ends_at <= s.starts_at {
        return Err("ends_at must be > starts_at".to_owned());
    }
    if s.ends_at > s.starts_at.saturating_add(7 * 86400) {
        return Err("silence window too long (max 7 days)".to_owned());
    }
    if s.weekdays == 0 {
        return Err("at least one weekday must be selected".to_owned());
    }
    if s.start_hour > 24 || s.end_hour > 24 {
        return Err("hour must be 0..=24".to_owned());
    }
    if s.start_hour >= s.end_hour {
        return Err("end_hour must be > start_hour".to_owned());
    }
    let pattern: &str = s.kind_pattern.as_str();
    if pattern.is_empty() || same(pattern, "*") {
        return Ok(());
    }
    if contains(pattern, "..") || contains(pattern, "//") {
        return Err("invalid kind_pattern".to_owned());
    }
    if byte_len(pattern) > 256 {
        return Err("kind_pattern too long".to_owned());
    }
    Ok(())
}

/// The id of a silence made of the time in nanoseconds and a counter.
pub fn gen_silence_id(nanos: u64, n: u64) -> (r: String)
    ensures
        r@ == time_id("sil-"@, nanos, n),
{
    gen_time_id("sil-", nanos, n)
}

/// The id of an acknowledgement made of the time in nanoseconds and a counter.
pub fn gen_ack_id(nanos: u64, n: u64) -> (r: String)
    ensures
        r@ == time_id("ack-"@, nanos, n),
{
    gen_time_id("ack-", nanos, n)
}

/// The row that is stored for a silence: under its own id, or `fresh_id` where it has none. The
/// time of its making stays that of the row with this id, where there is one.
pub open spec fn silence_row(
    rows: Seq<SilenceRuleRowView>,
    s: SilenceRuleView,
    fresh_id: Seq<char>,
    now: u64,
) -> SilenceRuleRowView {
    let id = if s.id.len() == 0 {
        fresh_id
    } else {
        s.id
    };
    SilenceRuleRowView {
        id,
        name: s.name,
        kind_pattern: s.kind_pattern,
        starts_at: s.starts_at,
        ends_at: s.ends_at,
        weekdays: s.weekdays,
        start_hour: s.start_hour,
        end_hour: s.end_hour,
        created_at: match row_with::<SilenceRuleRow>(rows, id) {
            Some(old_row) => old_row.created_at,
            None => now,
        },
    }
}

/// All silences, by the time of their making.
pub fn list_silences(store: &Storage) -> (r: Vec<SilenceRuleRow>)
    ensures
        rows_view(r@) == by_rank::<SilenceRuleRow>(store.silences@),
{
    store.silences.list()
}

/// Stores a silence, in the place of the one with its id. One without an id gets `fresh_id`.
pub fn save_silence(store: &mut Storage, s: SilenceRule, fresh_id: &str, now: u64) -> (r: Result<
    SilenceRuleRow,
    String,
>)
    ensures
        complaint(r) == silence_complaint(s@),
        *final(store) == (Storage { silences: final(store).silences, ..*old(store) }),
        match r {
            Ok(row) => {
                &&& row@ == silence_row(old(store).silences@, s@, fresh_id@, now)
                &&& final(store).silences@ == with_row::<SilenceRuleRow>(old(store).silences@, row@)
            },
            Err(_) => final(store).silences@ == old(store).silences@,
        },
{
    validate_silence(&s)?;
    let id: String = if s.id.as_str().is_empty() {
        fresh_id.to_owned()
    } else {
        s.id.clone()
    };
    let created_at: u64 = match store.silences.get(id.as_str()) {
        Some(row) => row.created_at,
        None => now,
    };
    let row: SilenceRuleRow = SilenceRuleRow {
        id,
        name: s.name,
        kind_pattern: s.kind_pattern,
        starts_at: s.starts_at,
        ends_at: s.ends_at,
        weekdays: s.weekdays,
        start_hour: s.start_hour,
        end_hour: s.end_hour,
        created_at,
    };
    store.silences.put(row.clone());
    Ok(row)
}

/// Deletes a silence; says whether there was one with this id.
pub fn delete_silence(store: &mut Storage, id: &str) -> (r: bool)
    ensures
        *final(store) == (Storage { silences: final(store).silences, ..*old(store) }),
        final(store).silences@ == without_row::<SilenceRuleRow>(old(store).silences@, id@),
        r == (row_with::<SilenceRuleRow>(old(store).silences@, id@) is Some),
{
    store.silences.remove(id)
}

/// The value of the bit for a weekday, Sunday being 0: Monday has the lowest bit, Sunday the highest.
pub open spec fn weekday_bit(weekday: nat) -> nat {
    if weekday == 1 {
        1
    } else if weekday == 2 {
        2
    } else if weekday == 3 {
        4
    } else if weekday == 4 {
        8
    } else if weekday == 5 {
        16
    } else if weekday == 6 {
        32
    } else {
        64
    }
}

/// Whether the set of weekdays `mask` holds `weekday`.
pub open spec fn weekday_in(mask: u8, weekday: nat) -> bool {
    (mask as nat / weekday_bit(weekday)) % 2 == 1
}

/// Whether the silence `r` covers `kind` at time `now`.
pub open spec fn covers(r: SilenceRuleRowView, kind: Seq<char>, now: u64) -> bool {
    &&& r.starts_at <= now < r.ends_at
    &&& weekday_in(r.weekdays, weekday_of(now as nat))
    &&& r.start_hour <= hour_of(now as nat) < r.end_hour
    &&& kind_fits(r.kind_pattern, kind)
}

/// Whether the silence `r` covers `kind` at time `now`.
pub fn silence_covers(r: &SilenceRuleRow, kind: &str, now: u64) -> (b: bool)
    ensures
        b == covers(r@, kind@, now),
{
    if now < r.starts_at || now >= r.ends_at {
        return false;
    }
    let bit: u8 = match weekday_from_unix(now) {
        1 => 1,
        2 => 2,
        3 => 4,
        4 => 8,
        5 => 16,
        6 => 32,
        _ => 64,
    };
    if (r.weekdays / bit) % 2 != 1 {
        return false;
    }
    let hour: u8 = hour_from_unix(now);
    if hour < r.start_hour || hour >= r.end_hour {
        return false;
    }
    kind_matches(r.kind_pattern.as_str(), kind)
}

/// The first silence, by the time of its making, that covers `kind` at time `now`.
pub fn first_silence(store: &Storage, kind: &str, now: u64) -> (r: Option<SilenceRuleRow>)
    ensures
        match r {
            Some(row) => silencing(*store, kind@, now) == Some(row@),
            None => silencing(*store, kind@, now) is None,
        },
{
    let rows: Vec<SilenceRuleRow> = store.silences.list();
    let ghost hit = |v: SilenceRuleRowView| covers(v, kind@, now);
    let test = |row: &SilenceRuleRow| -> (b: bool)
        ensures
            b == covers(row@, kind@, now),
    { silence_covers(row, kind, now) };
    match find_first(&rows, test, Ghost(hit)) {
        Some(i) => Some(rows[i].clone()),
        None => None,
    }
}

/// The first silence, by the time of its making, that covers `kind` at time `now`.
pub open spec fn silencing(store: Storage, kind: Seq<char>, now: u64) -> Option<SilenceRuleRowView> {
    first_of(
        by_rank::<SilenceRuleRow>(store.silences@),
        |v: SilenceRuleRowView| covers(v, kind, now),
    )
}

/// Whether any silence covers `kind` at time `now`.
pub open spec fn silenced(store: Storage, kind: Seq<char>, now: u64) -> bool {
    any_of(
        by_rank::<SilenceRuleRow>(store.silences@),
        |v: SilenceRuleRowView| covers(v, kind, now),
    )
}

/// Whether any silence covers `kind` at time `now`.
pub fn is_silenced(store: &Storage, kind: &str, now: u64) -> (r: bool)
    ensures
        r == silenced(*store, kind@, now),
{
    proof {
        lemma_first_index(
            by_rank::<SilenceRuleRow>(store.silences@),
            |v: SilenceRuleRowView| covers(v, kind@, now),
        );
    }
    first_silence(store, kind, now).is_some()
}

/// All acknowledgements, by the time of their making, those that have run out among them.
pub fn list_acks(store: &Storage) -> (r: Vec<AckRuleRow>)
    ensures
        rows_view(r@) == by_rank::<AckRuleRow>(store.acks@),
{
    store.acks.list()
}

/// What is wrong with a request to acknowledge.
pub open spec fn ack_complaint(kind_pattern: Seq<char>, window_secs: u64) -> Option<Seq<char>> {
    if kind_pattern.len() == 0 {
        Some("kind_pattern is required"@)
    } else if window_secs == 0 || window_secs > 7 * 86400 {
        Some("window_secs must be 1..=604800"@)
    } else {
        None
    }
}

/// The sum of two times, or the last time there is.
pub open spec fn later(now: u64, secs: u64) -> u64 {
    if now + secs > u64::MAX {
        u64::MAX
    } else {
        (now + secs) as u64
    }
}

/// The acknowledgement of a pattern from `now` on.
pub open spec fn ack_row(
    kind_pattern: Seq<char>,
    window_secs: u64,
    fresh_id: Seq<char>,
    now: u64,
) -> AckRuleRowView {
    AckRuleRowView {
        id: fresh_id,
        kind_pattern,
        ack_until: later(now, window_secs),
        created_at: now,
    }
}

/// Acknowledges a pattern for `window_secs` seconds from `now` on, under the id `fresh_id`.
pub fn ack_kind(store: &mut Storage, kind_pattern: String, window_secs: u64, fresh_id: &str, now: u64) -> (r:
    Result<AckRuleRow, String>)
    ensures
        complaint(r) == ack_complaint(kind_pattern@, window_secs),
        *final(store) == (Storage { acks: final(store).acks, ..*old(store) }),
        match r {
            Ok(row) => {
                &&& row@ == ack_row(kind_pattern@, window_secs, fresh_id@, now)
                &&& final(store).acks@ == with_row::<AckRuleRow>(old(store).acks@, row@)
            },
            Err(_) => final(store).acks@ == old(store).acks@,
        },
{
    if kind_pattern.as_str().is_empty() {
        return Err("kind_pattern is required".to_owned());
    }
    if window_secs == 0 || window_secs > 7 * 86400 {
        return Err("window_secs must be 1..=604800".to_owned());
    }
    let row: AckRuleRow = AckRuleRow {
        id: fresh_id.to_owned(),
        kind_pattern,
        ack_until: now.saturating_add(window_secs),
        created_at: now,
    };
    store.acks.put(row.clone());
    Ok(row)
}

/// What is wrong with an acknowledgement that is taken in from elsewhere.
pub open spec fn save_ack_complaint(rule: AckRuleView) -> Option<Seq<char>> {
    if rule.window_secs == 0 || rule.window_secs > 7 * 86400 {
        Some("ack window_secs must be 1..=604800"@)
    } else {
        ack_complaint(rule.kind_pattern, rule.window_secs)
    }
}

/// Takes in an acknowledgement from elsewhere, under the id `fresh_id`.
pub fn save_ack(store: &mut Storage, rule: AckRule, fresh_id: &str, now: u64) -> (r: Result<(), String>)
    ensures
        complaint(r) == save_ack_complaint(rule@),
        *final(store) == (Storage { acks: final(store).acks, ..*old(store) }),
        final(store).acks@ == (match r {
            Ok(_) => with_row::<AckRuleRow>(
                old(store).acks@,
                ack_row(rule@.kind_pattern, rule@.window_secs, fresh_id@, now),
            ),
            Err(_) => old(store).acks@,
        }),
{
    if rule.window_secs == 0 || rule.window_secs > 7 * 86400 {
        return Err("ack window_secs must be 1..=604800".to_owned());
    }
    match ack_kind(store, rule.kind_pattern, rule.window_secs, fresh_id, now) {
        Ok(_) => Ok(()),
        Err(e) => Err(e),
    }
}

/// Deletes an acknowledgement; says whether there was one with this id.
pub fn delete_ack(store: &mut Storage, id: &str) -> (r: bool)
    ensures
        *final(store) == (Storage { acks: final(store).acks, ..*old(store) }),
        final(store).acks@ == without_row::<AckRuleRow>(old(store).acks@, id@),
        r == (row_with::<AckRuleRow>(old(store).acks@, id@) is Some),
{
    store.acks.remove(id)
}

/// Deletes the acknowledgements that have run out at time `now`; says how many those were.
pub fn clear_expired_acks(store: &mut Storage, now: u64) -> (r: usize)
    ensures
        *final(store) == (Storage { acks: final(store).acks, ..*old(store) }),
        final(store).acks@ == kept(old(store).acks@, |v: AckRuleRowView| v.ack_until > now),
        r == old(store).acks@.len() - final(store).acks@.len(),
{
    let ghost runs = |v: AckRuleRowView| v.ack_until > now;
    let still_runs = |row: &AckRuleRow| -> (b: bool)
        ensures
            b == (row@.ack_until > now),
    { row.ack_until > now };
    let rows: &Vec<AckRuleRow> = store.acks.rows();
    let left: Vec<AckRuleRow> = copy_kept(rows, still_runs, Ghost(runs));
    proof {
        lemma_kept::<AckRuleRow>(store.acks@, runs);
    }
    let n: usize = rows.len() - left.len();
    store.acks.replace_rows(left);
    n
}

/// Whether the acknowledgement `r` holds for `kind` at time `now`.
pub open spec fn acknowledges(r: AckRuleRowView, kind: Seq<char>, now: u64) -> bool {
    r.ack_until > now && kind_fits(r.kind_pattern, kind)
}

/// The first acknowledgement, by the time of its making, that holds for `kind` at time `now`.
pub open spec fn acknowledging(store: Storage, kind: Seq<char>, now: u64) -> Option<AckRuleRowView> {
    first_of(by_rank::<AckRuleRow>(store.acks@), |v: AckRuleRowView| acknowledges(v, kind, now))
}

/// Whether any acknowledgement holds for `kind` at time `now`.
pub open spec fn acked(store: Storage, kind: Seq<char>, now: u64) -> bool {
    any_of(by_rank::<AckRuleRow>(store.acks@), |v: AckRuleRowView| acknowledges(v, kind, now))
}

/// The first acknowledgement, by the time of its making, that holds for `kind` at time `now`.
pub fn first_ack(store: &Storage, kind: &str, now: u64) -> (r: Option<AckRuleRow>)
    ensures
        match r {
            Some(row) => acknowledging(*store, kind@, now) == Some(row@),
            None => acknowledging(*store, kind@, now) is None,
        },
{
    let rows: Vec<AckRuleRow> = store.acks.list();
    let ghost hit = |v: AckRuleRowView| acknowledges(v, kind@, now);
    let test = |row: &AckRuleRow| -> (b: bool)
        ensures
            b == acknowledges(row@, kind@, now),
    { row.ack_until > now && kind_matches(row.kind_pattern.as_str(), kind) };
    match find_first(&rows, test, Ghost(hit)) {
        Some(i) => Some(rows[i].clone()),
        None => None,
    }
}

/// Whether any acknowledgement holds for `kind` at time `now`.
pub fn is_acked(store: &Storage, kind: &str, now: u64) -> (r: bool)
    ensures
        r == acked(*store, kind@, now),
{
    proof {
        lemma_first_index(
            by_rank::<AckRuleRow>(store.acks@),
            |v: AckRuleRowView| acknowledges(v, kind@, now),
        );
    }
    first_ack(store, kind, now).is_some()
}

/// An acknowledgement holds from the moment it is made until its time is over, and no longer.
pub proof fn ack_holds_for_its_window(
    kind_pattern: Seq<char>,
    window_secs: u64,
    id: Seq<char>,
    made: u64,
    kind: Seq<char>,
    now: u64,
)
    requires
        made + window_secs <= u64::MAX,
        kind_fits(kind_pattern, kind),
    ensures
        acknowledges(ack_row(kind_pattern, window_secs, id, made), kind, now) == (now < made
            + window_secs),
{
}

} // verus!
