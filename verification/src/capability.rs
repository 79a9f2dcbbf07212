//! Capabilities: which there are, who provides them, and how they are shown to an agent.

use vstd::prelude::*;
use vstd::utf8::encode_utf8;

use crate::alerting::store::{any_of, find_first, first_index, kept, lemma_first_index, rows_view};
use crate::declaration::{
    capabilities_of, declared_capability_ids, timeout_declared, timeout_for, DeclarationStore,
};
use crate::json::{
    get_member, items_view, json_view, lemma_items_view, texts_view, Json, JsonView,
};
use crate::order::{
    lemma_text_orders, ordering_keeps_each_value_once, sort_list, sorted, text_before, text_order,
};
use crate::text::{
    byte_count, byte_len, decimal, decimal_seq, is_one_of, join, join3, lemma_byte_count_step,
    lemma_encode_concat, same,
};
use crate::values::{
    and_member, empty_object, no_members, number_value, signed_value, text_array, text_member,
    text_or, text_value, texts_value,
};
use crate::words::{join_texts, joined, signed_seq};

verus! {

/// How many seconds a call of a plugin may take where it declares nothing else.
pub const CALL_TIMEOUT: u64 = 60;

/// How many capabilities are shown to an agent at most.
pub const MAX_ENTRIES: usize = 60;

/// How many bytes the capabilities that are shown to an agent take at most.
pub const MAX_BYTES: usize = 4096;

/// The capabilities that the core knows by itself. No plugin can declare one of them anew.
pub open spec fn reserved_ids() -> Seq<Seq<char>> {
    seq![
        "image.analyze"@,
        "image.ocr"@,
        "audio.transcribe"@,
        "speech.synthesize"@,
        "screen.capture"@,
        "clipboard.read"@,
        "browser.open"@,
        "browser.read"@,
        "file.read"@,
        "clipboard.write"@,
        "file.write"@,
        "file.search"@,
        "file.watch"@,
        "context.get_current"@,
        "system.permission_status"@,
        "automation.run"@,
        "input.send"@,
        "photos.read"@,
        "contacts.search"@,
        "calendar.events"@,
        "location.get"@,
        "audio.play"@,
        "url.scheme.open"@,
        "screen.watch"@,
        "media.playback"@,
        "system.sleep"@,
        "system.lock"@,
        "system.settings"@,
        "printer.print"@,
        "messages.recent"@,
        "window.list"@,
        "window.focus"@,
        "notes.read"@,
        "reminders.read"@,
        "reminders.write"@,
        "mail.recent"@,
        "things.add"@,
        "things.update"@,
        "things.list"@,
        "things.show"@,
        "things.search"@,
        "things.delete"@,
    ]
}

/// The capabilities that the core knows by itself.
pub fn capability_ids() -> (r: Vec<String>)
    ensures
        texts_view(r@) == reserved_ids(),
{
    let r: Vec<String> = vec![
        "image.analyze".to_string(),
        "image.ocr".to_string(),
        "audio.transcribe".to_string(),
        "speech.synthesize".to_string(),
        "screen.capture".to_string(),
        "clipboard.read".to_string(),
        "browser.open".to_string(),
        "browser.read".to_string(),
        "file.read".to_string(),
        "clipboard.write".to_string(),
        "file.write".to_string(),
        "file.search".to_string(),
        "file.watch".to_string(),
        "context.get_current".to_string(),
        "system.permission_status".to_string(),
        "automation.run".to_string(),
        "input.send".to_string(),
        "photos.read".to_string(),
        "contacts.search".to_string(),
        "calendar.events".to_string(),
        "location.get".to_string(),
        "audio.play".to_string(),
        "url.scheme.open".to_string(),
        "screen.watch".to_string(),
        "media.playback".to_string(),
        "system.sleep".to_string(),
        "system.lock".to_string(),
        "system.settings".to_string(),
        "printer.print".to_string(),
        "messages.recent".to_string(),
        "window.list".to_string(),
        "window.focus".to_string(),
        "notes.read".to_string(),
        "reminders.read".to_string(),
        "reminders.write".to_string(),
        "mail.recent".to_string(),
        "things.add".to_string(),
        "things.update".to_string(),
        "things.list".to_string(),
        "things.show".to_string(),
        "things.search".to_string(),
        "things.delete".to_string(),
    ];
    assert(texts_view(r@) =~= reserved_ids());
    r
}

/// The capabilities that the core provides where no plugin does.
pub open spec fn provided_ids() -> Seq<Seq<char>> {
    seq![
        "clipboard.read"@,
        "clipboard.write"@,
        "file.read"@,
        "file.write"@,
        "file.search"@,
        "image.analyze"@,
        "image.ocr"@,
        "screen.capture"@,
        "speech.synthesize"@,
        "browser.open"@,
        "browser.read"@,
        "context.get_current"@,
        "system.permission_status"@,
        "automation.run"@,
        "input.send"@,
        "photos.read"@,
        "contacts.search"@,
        "calendar.events"@,
        "location.get"@,
        "audio.play"@,
        "url.scheme.open"@,
        "media.playback"@,
        "system.sleep"@,
        "system.lock"@,
        "system.settings"@,
        "printer.print"@,
        "messages.recent"@,
        "window.list"@,
        "window.focus"@,
        "notes.read"@,
        "reminders.read"@,
        "reminders.write"@,
        "mail.recent"@,
    ]
}

/// The capabilities that the core provides where no plugin does.
pub fn builtin_ids() -> (r: Vec<String>)
    ensures
        texts_view(r@) == provided_ids(),
{
    let r: Vec<String> = vec![
        "clipboard.read".to_string(),
        "clipboard.write".to_string(),
        "file.read".to_string(),
        "file.write".to_string(),
        "file.search".to_string(),
        "image.analyze".to_string(),
        "image.ocr".to_string(),
        "screen.capture".to_string(),
        "speech.synthesize".to_string(),
        "browser.open".to_string(),
        "browser.read".to_string(),
        "context.get_current".to_string(),
        "system.permission_status".to_string(),
        "automation.run".to_string(),
        "input.send".to_string(),
        "photos.read".to_string(),
        "contacts.search".to_string(),
        "calendar.events".to_string(),
        "location.get".to_string(),
        "audio.play".to_string(),
        "url.scheme.open".to_string(),
        "media.playback".to_string(),
        "system.sleep".to_string(),
        "system.lock".to_string(),
        "system.settings".to_string(),
        "printer.print".to_string(),
        "messages.recent".to_string(),
        "window.list".to_string(),
        "window.focus".to_string(),
        "notes.read".to_string(),
        "reminders.read".to_string(),
        "reminders.write".to_string(),
        "mail.recent".to_string(),
    ];
    assert(texts_view(r@) =~= provided_ids());
    r
}

/// The capabilities that one subscribes to.
pub open spec fn watched_ids() -> Seq<Seq<char>> {
    seq![
        "file.watch"@,
        "screen.watch"@,
    ]
}

/// The capabilities that one subscribes to.
pub fn subscribe_ids() -> (r: Vec<String>)
    ensures
        texts_view(r@) == watched_ids(),
{
    let r: Vec<String> = vec![
        "file.watch".to_string(),
        "screen.watch".to_string(),
    ];
    assert(texts_view(r@) =~= watched_ids());
    r
}

fn listed_in(list: &Vec<String>, name: &str) -> (r: bool)
    ensures
        r == texts_view(list@).contains(name@),
{
    let r: bool = is_one_of(list, name);
    proof {
        let all = texts_view(list@);
        if r {
            let k = choose|k: int| 0 <= k < list@.len() && (#[trigger] list@[k])@ == name@;
            assert(all[k] == name@);
        }
        if all.contains(name@) {
            let k = choose|k: int| 0 <= k < all.len() && all[k] == name@;
            assert(list@[k]@ == name@);
        }
    }
    r
}

/// Whether the core knows a capability by itself.
pub fn is_builtin(capability: &str) -> (r: bool)
    ensures
        r == reserved_ids().contains(capability@),
{
    listed_in(&capability_ids(), capability)
}

/// Whether the core provides a capability where no plugin does.
pub fn has_builtin(capability: &str) -> (r: bool)
    ensures
        r == provided_ids().contains(capability@),
{
    listed_in(&builtin_ids(), capability)
}

/// Whether there is a capability: the core knows it, or some plugin declares it.
pub open spec fn capability_known(
    declarations: Option<DeclarationStore>,
    capability: Seq<char>,
) -> bool {
    ||| reserved_ids().contains(capability)
    ||| declarations is Some && capabilities_of(
        declarations->Some_0@.declarations(),
    ).contains(capability)
}

/// Whether there is a capability: the core knows it, or some plugin declares it. Without the
/// declarations only the core's own count.
pub fn known(declarations: Option<&DeclarationStore>, capability: &str) -> (r: bool)
    ensures
        r == capability_known(
            match declarations {
                Some(d) => Some(*d),
                None => None,
            },
            capability@,
        ),
{
    if is_builtin(capability) {
        return true;
    }
    match declarations {
        Some(d) => {
            let ids: Vec<String> = declared_capability_ids(d);
            proof {
                lemma_text_orders();
                ordering_keeps_each_value_once(
                    capabilities_of(d@.declarations()),
                    text_order(),
                );
            }
            listed_in(&ids, capability)
        },
        None => false,
    }
}

/// How many seconds a call of a provider may take.
pub open spec fn timeout_of(
    declarations: Option<DeclarationStore>,
    provider: Seq<char>,
    capability: Seq<char>,
) -> u64 {
    match declarations {
        Some(d) => match timeout_declared(d@.declarations(), provider, capability) {
            Some(secs) => secs as u64,
            None => CALL_TIMEOUT,
        },
        None => CALL_TIMEOUT,
    }
}

/// How many seconds a call of a provider may take: what it declares, else [`CALL_TIMEOUT`].
pub fn call_timeout_for(
    declarations: Option<&DeclarationStore>,
    provider: &str,
    capability: &str,
) -> (r: u64)
    ensures
        r == timeout_of(
            match declarations {
                Some(d) => Some(*d),
                None => None,
            },
            provider@,
            capability@,
        ),
{
    match declarations {
        Some(d) => match timeout_for(d, provider, capability) {
            Some(secs) => secs as u64,
            None => CALL_TIMEOUT,
        },
        None => CALL_TIMEOUT,
    }
}

/// A plugin that provides a capability.
#[derive(Debug)]
pub struct CapabilityRow {
    pub id: String,
    pub version: String,
    pub plugin_id: String,
    pub priority: i64,
    pub enabled: bool,
    pub avg_latency_ms: Option<i64>,
    pub last_used_at: Option<i64>,
}

/// What a [`CapabilityRow`] holds.
pub struct CapabilityRowView {
    pub id: Seq<char>,
    pub version: Seq<char>,
    pub plugin_id: Seq<char>,
    pub priority: i64,
    pub enabled: bool,
    pub avg_latency_ms: Option<i64>,
    pub last_used_at: Option<i64>,
}

impl View for CapabilityRow {
    type V = CapabilityRowView;

    open spec fn view(&self) -> CapabilityRowView {
        CapabilityRowView {
            id: self.id@,
            version: self.version@,
            plugin_id: self.plugin_id@,
            priority: self.priority,
            enabled: self.enabled,
            avg_latency_ms: self.avg_latency_ms,
            last_used_at: self.last_used_at,
        }
    }
}

impl Clone for CapabilityRow {
    fn clone(&self) -> (r: Self)
        ensures
            r@ == self@,
    {
        CapabilityRow {
            id: self.id.clone(),
            version: self.version.clone(),
            plugin_id: self.plugin_id.clone(),
            priority: self.priority,
            enabled: self.enabled,
            avg_latency_ms: self.avg_latency_ms,
            last_used_at: self.last_used_at,
        }
    }
}

/// A call of a capability that was made.
#[derive(Debug)]
pub struct CallRecord {
    pub capability: String,
    pub plugin_id: String,
    pub elapsed_ms: i64,
    pub at: i64,
    pub result: String,
    pub error_kind: Option<String>,
}

/// What a [`CallRecord`] holds.
pub struct CallRecordView {
    pub capability: Seq<char>,
    pub plugin_id: Seq<char>,
    pub elapsed_ms: i64,
    pub at: i64,
    pub result: Seq<char>,
    pub error_kind: Option<Seq<char>>,
}

impl View for CallRecord {
    type V = CallRecordView;

    open spec fn view(&self) -> CallRecordView {
        CallRecordView {
            capability: self.capability@,
            plugin_id: self.plugin_id@,
            elapsed_ms: self.elapsed_ms,
            at: self.at,
            result: self.result@,
            error_kind: match self.error_kind {
                Some(k) => Some(k@),
                None => None,
            },
        }
    }
}

/// Who provides which capability, and the calls that were made.
#[derive(Debug)]
pub struct Registry {
    pub rows: Vec<CapabilityRow>,
    pub calls: Vec<CallRecord>,
}

/// What a [`Registry`] holds.
pub struct RegistryView {
    pub rows: Seq<CapabilityRowView>,
    pub calls: Seq<CallRecordView>,
}

impl View for Registry {
    type V = RegistryView;

    open spec fn view(&self) -> RegistryView {
        RegistryView { rows: rows_view(self.rows@), calls: rows_view(self.calls@) }
    }
}

/// The order in which the providers of a capability are tried.
pub open spec fn by_priority() -> spec_fn(CapabilityRowView, CapabilityRowView) -> bool {
    |a: CapabilityRowView, b: CapabilityRowView|
        a.priority < b.priority || (a.priority == b.priority && text_order()(
            a.plugin_id,
            b.plugin_id,
        ))
}

/// The order in which capabilities are listed.
pub open spec fn by_capability_id() -> spec_fn(CapabilityRowView, CapabilityRowView) -> bool {
    |a: CapabilityRowView, b: CapabilityRowView|
        text_order()(a.id, b.id) || (a.id == b.id && a.priority < b.priority)
}

/// The plugins in some rows.
pub open spec fn plugins_in(rows: Seq<CapabilityRowView>) -> Seq<Seq<char>> {
    Seq::new(rows.len(), |i: int| rows[i].plugin_id)
}

/// The providers of a capability that are switched on, in the order in which they are tried.
pub open spec fn providers_of(rows: Seq<CapabilityRowView>, capability: Seq<char>) -> Seq<Seq<char>> {
    plugins_in(
        sorted(
            kept(rows, |c: CapabilityRowView| c.id == capability && c.enabled),
            by_priority(),
        ),
    )
}

fn pick_rows<F: Fn(&CapabilityRow) -> bool>(
    registry: &Registry,
    f: F,
    Ghost(pred): Ghost<spec_fn(CapabilityRowView) -> bool>,
) -> (r: Vec<CapabilityRow>)
    requires
        forall|x: &CapabilityRow| f.requires((x,)),
        forall|x: &CapabilityRow, b: bool| f.ensures((x,), b) ==> b == pred(x@),
    ensures
        rows_view(r@) == kept(registry@.rows, pred),
{
    let ghost all = registry@.rows;
    let mut out: Vec<CapabilityRow> = Vec::new();
    let mut i: usize = 0;
    assert(rows_view(out@) =~= kept(all.take(0), pred));
    while i < registry.rows.len()
        invariant
            i <= registry.rows@.len(),
            all == registry@.rows,
            forall|x: &CapabilityRow| f.requires((x,)),
            forall|x: &CapabilityRow, b: bool| f.ensures((x,), b) ==> b == pred(x@),
            rows_view(out@) == kept(all.take(i as int), pred),
        decreases registry.rows@.len() - i,
    {
        let row: &CapabilityRow = &registry.rows[i];
        assert(all.take(i + 1).drop_last() =~= all.take(i as int));
        assert(all.take(i + 1).last() == row@);
        if f(row) {
            let ghost before = out@;
            out.push(row.clone());
            assert(rows_view(out@) =~= rows_view(before).push(row@));
        }
        i += 1;
    }
    assert(all.take(all.len() as int) =~= all);
    out
}

/// The providers of a capability that are switched on, in the order in which they are tried.
pub fn providers(registry: &Registry, capability: &str) -> (r: Vec<String>)
    ensures
        texts_view(r@) == providers_of(registry@.rows, capability@),
{
    let wanted = |c: &CapabilityRow| -> (b: bool)
        ensures
            b == (c@.id == capability@ && c@.enabled),
        { same(c.id.as_str(), capability) && c.enabled };
    let ghost pred = |c: CapabilityRowView| c.id == capability@ && c.enabled;
    let found: Vec<CapabilityRow> = pick_rows(registry, wanted, Ghost(pred));
    let before = |a: &CapabilityRow, b: &CapabilityRow| -> (r: bool)
        ensures
            r == by_priority()(a@, b@),
        {
            a.priority < b.priority || (a.priority == b.priority && text_before(
                a.plugin_id.as_str(),
                b.plugin_id.as_str(),
            ))
        };
    let rows: Vec<CapabilityRow> = sort_list(found, before, Ghost(by_priority()));
    let ghost list = sorted(kept(registry@.rows, pred), by_priority());
    let mut out: Vec<String> = Vec::new();
    let mut i: usize = 0;
    while i < rows.len()
        invariant
            i <= rows@.len(),
            rows_view(rows@) == list,
            out@.len() == i,
            forall|k: int| 0 <= k < i ==> (#[trigger] out@[k])@ == list[k].plugin_id,
        decreases rows@.len() - i,
    {
        assert(list[i as int] == rows@[i as int]@);
        out.push(rows[i].plugin_id.clone());
        i += 1;
    }
    assert(texts_view(out@) =~= plugins_in(list));
    out
}

/// The quotient of a number by eight, without what is left over.
pub open spec fn eighth(n: int) -> int {
    if n >= 0 {
        n / 8
    } else {
        -((-n) / 8)
    }
}

/// The running average after one more sample: seven parts of the old to one of the new.
pub open spec fn next_average(old: Option<i64>, sample: i64) -> i64 {
    match old {
        Some(avg) => eighth(avg * 7 + sample) as i64,
        None => sample,
    }
}

/// The running average after one more sample: seven parts of the old to one of the new.
pub fn ema_step(old: i64, sample: i64) -> (r: i64)
    ensures
        r == eighth(old * 7 + sample),
        r == next_average(Some(old), sample),
{
    let sum: i128 = (old as i128) * 7 + (sample as i128);
    let part: i128 = if sum >= 0 {
        sum / 8
    } else {
        -((-sum) / 8)
    };
    part as i64
}

/// Between the old average and the sample lies the new average.
pub proof fn averages_stay_between(old: i64, sample: i64)
    requires
        old >= 0,
        sample >= 0,
    ensures
        old <= sample ==> old <= next_average(Some(old), sample) <= sample,
        sample <= old ==> sample <= next_average(Some(old), sample) <= old,
{
}

/// A row once its plugin has answered a call.
pub open spec fn touched(
    row: CapabilityRowView,
    capability: Seq<char>,
    plugin: Seq<char>,
    elapsed: i64,
    now: i64,
) -> CapabilityRowView {
    if row.id == capability && row.plugin_id == plugin {
        CapabilityRowView {
            last_used_at: Some(now),
            avg_latency_ms: Some(next_average(row.avg_latency_ms, elapsed)),
            ..row
        }
    } else {
        row
    }
}

/// The rows once a plugin has answered a call.
pub open spec fn rows_touched(
    rows: Seq<CapabilityRowView>,
    capability: Seq<char>,
    plugin: Seq<char>,
    elapsed: i64,
    now: i64,
) -> Seq<CapabilityRowView> {
    Seq::new(rows.len(), |i: int| touched(rows[i], capability, plugin, elapsed, now))
}

impl Registry {
    /// A registry without providers.
    pub fn new() -> (r: Self)
        ensures
            r@.rows.len() == 0,
            r@.calls.len() == 0,
    {
        Registry { rows: Vec::new(), calls: Vec::new() }
    }

    /// Notes a call that was made.
    pub fn record(
        &mut self,
        capability: &str,
        plugin_id: &str,
        elapsed: i64,
        now: i64,
        result: &str,
        error_kind: Option<&str>,
    )
        ensures
            final(self)@.rows == old(self)@.rows,
            final(self)@.calls == old(self)@.calls.push(
                CallRecordView {
                    capability: capability@,
                    plugin_id: plugin_id@,
                    elapsed_ms: elapsed,
                    at: now,
                    result: result@,
                    error_kind: match error_kind {
                        Some(k) => Some(k@),
                        None => None,
                    },
                },
            ),
    {
        let ghost before = self.calls@;
        let row: CallRecord = CallRecord {
            capability: capability.to_string(),
            plugin_id: plugin_id.to_string(),
            elapsed_ms: elapsed,
            at: now,
            result: result.to_string(),
            error_kind: match error_kind {
                Some(k) => Some(k.to_string()),
                None => None,
            },
        };
        let ghost v = row@;
        self.calls.push(row);
        assert(rows_view(self.calls@) =~= rows_view(before).push(v));
    }

    /// Notes that a plugin has answered a call: when, how long it took, and on average.
    pub fn touch(&mut self, capability: &str, plugin_id: &str, elapsed: i64, now: i64)
        ensures
            final(self)@.rows == rows_touched(
                old(self)@.rows,
                capability@,
                plugin_id@,
                elapsed,
                now,
            ),
            final(self)@.calls == old(self)@.calls.push(
                CallRecordView {
                    capability: capability@,
                    plugin_id: plugin_id@,
                    elapsed_ms: elapsed,
                    at: now,
                    result: "ok"@,
                    error_kind: None,
                },
            ),
    {
        let ghost start = self.rows@;
        let ghost calls = self.calls@;
        let mut i: usize = 0;
        while i < self.rows.len()
            invariant
                i <= self.rows@.len(),
                self.rows@.len() == start.len(),
                self.calls@ == calls,
                forall|k: int| i <= k < start.len() ==> #[trigger] self.rows@[k] == start[k],
                forall|k: int|
                    0 <= k < i ==> (#[trigger] self.rows@[k])@ == touched(
                        start[k]@,
                        capability@,
                        plugin_id@,
                        elapsed,
                        now,
                    ),
            decreases self.rows@.len() - i,
        {
            assert(self.rows@[i as int] == start[i as int]);
            if same(self.rows[i].id.as_str(), capability) && same(
                self.rows[i].plugin_id.as_str(),
                plugin_id,
            ) {
                let mut row: CapabilityRow = self.rows[i].clone();
                row.avg_latency_ms = Some(
                    match row.avg_latency_ms {
                        Some(avg) => ema_step(avg, elapsed),
                        None => elapsed,
                    },
                );
                row.last_used_at = Some(now);
                self.rows.set(i, row);
            }
            i += 1;
        }
        assert(rows_view(self.rows@) =~= rows_touched(
            rows_view(start),
            capability@,
            plugin_id@,
            elapsed,
            now,
        ));
        self.record(capability, plugin_id, elapsed, now, "ok", None);
    }
}

/// A capability as it is listed.
#[derive(Debug)]
pub struct Listing {
    pub id: String,
    pub version: String,
    pub providers: Vec<String>,
    pub avg_latency_ms: i64,
    pub last_used_at: i64,
}

/// What a [`Listing`] holds.
pub struct ListingView {
    pub id: Seq<char>,
    pub version: Seq<char>,
    pub providers: Seq<Seq<char>>,
    pub avg_latency_ms: i64,
    pub last_used_at: i64,
}

impl View for Listing {
    type V = ListingView;

    open spec fn view(&self) -> ListingView {
        ListingView {
            id: self.id@,
            version: self.version@,
            providers: texts_view(self.providers@),
            avg_latency_ms: self.avg_latency_ms,
            last_used_at: self.last_used_at,
        }
    }
}

/// A number, or nothing counted as zero.
pub open spec fn or_zero(n: Option<i64>) -> i64 {
    match n {
        Some(n) => n,
        None => 0,
    }
}

/// The listings with one more row taken in: its plugin goes to the providers of its capability, and
/// the first row of a capability gives the rest.
pub open spec fn take_in_row(list: Seq<ListingView>, row: CapabilityRowView) -> Seq<ListingView> {
    match first_index(list, |l: ListingView| l.id == row.id) {
        Some(i) => list.update(
            i,
            ListingView { providers: list[i].providers.push(row.plugin_id), ..list[i] },
        ),
        None => list.push(
            ListingView {
                id: row.id,
                version: row.version,
                providers: seq![row.plugin_id],
                avg_latency_ms: or_zero(row.avg_latency_ms),
                last_used_at: or_zero(row.last_used_at),
            },
        ),
    }
}

/// The capabilities in some rows, each with its providers.
pub open spec fn listings(rows: Seq<CapabilityRowView>) -> Seq<ListingView>
    decreases rows.len(),
{
    if rows.len() == 0 {
        Seq::empty()
    } else {
        take_in_row(listings(rows.drop_last()), rows.last())
    }
}

/// The capabilities that plugins provide, by name.
pub open spec fn registered(rows: Seq<CapabilityRowView>) -> Seq<ListingView> {
    listings(sorted(kept(rows, |c: CapabilityRowView| c.enabled), by_capability_id()))
}

fn take_in(list: &mut Vec<Listing>, row: &CapabilityRow)
    ensures
        rows_view(final(list)@) == take_in_row(rows_view(old(list)@), row@),
{
    let ghost start = rows_view(list@);
    let of_row = |l: &Listing| -> (b: bool)
        ensures
            b == (l@.id == row@.id),
        { same(l.id.as_str(), row.id.as_str()) };
    let ghost pred = |l: ListingView| l.id == row@.id;
    match find_first(list, of_row, Ghost(pred)) {
        Some(i) => {
            proof {
                lemma_first_index(start, pred);
            }
            assert(start[i as int] == list@[i as int]@);
            let old_entry: &Listing = &list[i];
            let mut names: Vec<String> = Vec::new();
            let mut k: usize = 0;
            while k < old_entry.providers.len()
                invariant
                    k <= old_entry.providers@.len(),
                    names@.len() == k,
                    forall|m: int| 0 <= m < k ==> (#[trigger] names@[m])@ == old_entry.providers@[m]@,
                decreases old_entry.providers@.len() - k,
            {
                names.push(old_entry.providers[k].clone());
                k += 1;
            }
            assert(texts_view(names@) =~= texts_view(old_entry.providers@));
            let ghost before = names@;
            names.push(row.plugin_id.clone());
            assert(texts_view(names@) =~= texts_view(before).push(row@.plugin_id));
            let entry: Listing = Listing {
                id: old_entry.id.clone(),
                version: old_entry.version.clone(),
                providers: names,
                avg_latency_ms: old_entry.avg_latency_ms,
                last_used_at: old_entry.last_used_at,
            };
            let ghost v = entry@;
            list.set(i, entry);
            assert(rows_view(list@) =~= start.update(i as int, v));
        },
        None => {
            let names: Vec<String> = vec![row.plugin_id.clone()];
            assert(texts_view(names@) =~= seq![row@.plugin_id]);
            let entry: Listing = Listing {
                id: row.id.clone(),
                version: row.version.clone(),
                providers: names,
                avg_latency_ms: match row.avg_latency_ms {
                    Some(n) => n,
                    None => 0,
                },
                last_used_at: match row.last_used_at {
                    Some(n) => n,
                    None => 0,
                },
            };
            let ghost v = entry@;
            list.push(entry);
            assert(rows_view(list@) =~= start.push(v));
        },
    }
}

/// The capabilities that plugins provide, by name.
pub fn registered_capabilities(registry: &Registry) -> (r: Vec<Listing>)
    ensures
        rows_view(r@) == registered(registry@.rows),
{
    let on = |c: &CapabilityRow| -> (b: bool)
        ensures
            b == c@.enabled,
        { c.enabled };
    let ghost pred = |c: CapabilityRowView| c.enabled;
    let found: Vec<CapabilityRow> = pick_rows(registry, on, Ghost(pred));
    let before = |a: &CapabilityRow, b: &CapabilityRow| -> (r: bool)
        ensures
            r == by_capability_id()(a@, b@),
        {
            text_before(a.id.as_str(), b.id.as_str()) || (same(a.id.as_str(), b.id.as_str())
                && a.priority < b.priority)
        };
    let rows: Vec<CapabilityRow> = sort_list(found, before, Ghost(by_capability_id()));
    let ghost all = sorted(kept(registry@.rows, pred), by_capability_id());
    let mut out: Vec<Listing> = Vec::new();
    let mut i: usize = 0;
    assert(rows_view(out@) =~= listings(all.take(0)));
    while i < rows.len()
        invariant
            i <= rows@.len(),
            rows_view(rows@) == all,
            rows_view(out@) == listings(all.take(i as int)),
        decreases rows@.len() - i,
    {
        assert(all.take(i + 1).drop_last() =~= all.take(i as int));
        assert(all.take(i + 1).last() == rows@[i as int]@);
        take_in(&mut out, &rows[i]);
        i += 1;
    }
    assert(all.take(all.len() as int) =~= all);
    out
}

/// A capability that plugins provide, as a value.
pub open spec fn listing_value(l: ListingView) -> JsonView {
    and_member(
        and_member(
            and_member(
                and_member(
                    and_member(no_members(), "id"@, JsonView::Text(l.id)),
                    "version"@,
                    JsonView::Text(l.version),
                ),
                "providers"@,
                text_array(l.providers),
            ),
            "avgLatencyMs"@,
            JsonView::Number(signed_seq(l.avg_latency_ms as int)),
        ),
        "lastUsedAt"@,
        JsonView::Number(signed_seq(l.last_used_at as int)),
    )
}

/// A capability that the core provides, as a value.
pub open spec fn core_value(id: Seq<char>) -> JsonView {
    and_member(
        and_member(
            and_member(
                and_member(
                    and_member(no_members(), "id"@, JsonView::Text(id)),
                    "version"@,
                    JsonView::Text("1"@),
                ),
                "providers"@,
                text_array(seq!["core"@]),
            ),
            "avgLatencyMs"@,
            JsonView::Number(decimal_seq(0)),
        ),
        "lastUsedAt"@,
        JsonView::Number(decimal_seq(0)),
    )
}

/// A capability that one subscribes to, as a value.
pub open spec fn watched_value(id: Seq<char>) -> JsonView {
    and_member(
        and_member(
            and_member(
                and_member(
                    and_member(
                        and_member(no_members(), "id"@, JsonView::Text(id)),
                        "version"@,
                        JsonView::Text("1"@),
                    ),
                    "type"@,
                    JsonView::Text("subscribe"@),
                ),
                "providers"@,
                text_array(seq!["core"@]),
            ),
            "avgLatencyMs"@,
            JsonView::Number(decimal_seq(0)),
        ),
        "lastUsedAt"@,
        JsonView::Number(decimal_seq(0)),
    )
}

/// Whether some plugin provides a capability.
pub open spec fn is_registered(list: Seq<ListingView>, id: Seq<char>) -> bool {
    any_of(list, |l: ListingView| l.id == id)
}

/// The values of the names that no plugin provides.
pub open spec fn unprovided(
    list: Seq<ListingView>,
    ids: Seq<Seq<char>>,
    value: spec_fn(Seq<char>) -> JsonView,
) -> Seq<JsonView>
    decreases ids.len(),
{
    if ids.len() == 0 {
        Seq::empty()
    } else if is_registered(list, ids.last()) {
        unprovided(list, ids.drop_last(), value)
    } else {
        unprovided(list, ids.drop_last(), value).push(value(ids.last()))
    }
}

/// The values of listings.
pub open spec fn listing_values(list: Seq<ListingView>) -> Seq<JsonView> {
    Seq::new(list.len(), |i: int| listing_value(list[i]))
}

/// All capabilities: those that plugins provide, then those of the core that no plugin provides,
/// then those that one subscribes to.
pub open spec fn all_listed(rows: Seq<CapabilityRowView>) -> Seq<JsonView> {
    let list = registered(rows);
    listing_values(list) + unprovided(list, provided_ids(), |id: Seq<char>| core_value(id))
        + unprovided(list, watched_ids(), |id: Seq<char>| watched_value(id))
}

fn show_listing(l: &Listing) -> (r: Json)
    ensures
        r@ == listing_value(l@),
{
    empty_object().with("id", text_value(l.id.as_str())).with(
        "version",
        text_value(l.version.as_str()),
    ).with("providers", texts_value(&l.providers)).with(
        "avgLatencyMs",
        signed_value(l.avg_latency_ms),
    ).with("lastUsedAt", signed_value(l.last_used_at))
}

fn core_alone() -> (r: Json)
    ensures
        r@ == text_array(seq!["core"@]),
{
    let names: Vec<String> = vec!["core".to_string()];
    assert(texts_view(names@) =~= seq!["core"@]);
    texts_value(&names)
}

fn show_core(id: &str) -> (r: Json)
    ensures
        r@ == core_value(id@),
{
    empty_object().with("id", text_value(id)).with("version", text_value("1")).with(
        "providers",
        core_alone(),
    ).with("avgLatencyMs", number_value(0)).with("lastUsedAt", number_value(0))
}

fn show_watched(id: &str) -> (r: Json)
    ensures
        r@ == watched_value(id@),
{
    empty_object().with("id", text_value(id)).with("version", text_value("1")).with(
        "type",
        text_value("subscribe"),
    ).with("providers", core_alone()).with("avgLatencyMs", number_value(0)).with(
        "lastUsedAt",
        number_value(0),
    )
}

fn has_listing(list: &Vec<Listing>, id: &str) -> (r: bool)
    ensures
        r == is_registered(rows_view(list@), id@),
{
    let of_id = |l: &Listing| -> (b: bool)
        ensures
            b == (l@.id == id@),
        { same(l.id.as_str(), id) };
    let ghost pred = |l: ListingView| l.id == id@;
    proof {
        lemma_first_index(rows_view(list@), pred);
    }
    match find_first(list, of_id, Ghost(pred)) {
        Some(i) => {
            assert(pred(rows_view(list@)[i as int]));
            true
        },
        None => {
            assert(!any_of(rows_view(list@), pred));
            false
        },
    }
}

/// The views of values.
spec fn views(s: Seq<Json>) -> Seq<JsonView> {
    Seq::new(s.len(), |i: int| s[i]@)
}

fn push_unprovided(out: &mut Vec<Json>, list: &Vec<Listing>, ids: &Vec<String>, watched: bool)
    ensures
        views(final(out)@) == views(old(out)@) + unprovided(
            rows_view(list@),
            texts_view(ids@),
            if watched {
                |id: Seq<char>| watched_value(id)
            } else {
                |id: Seq<char>| core_value(id)
            },
        ),
{
    let ghost all = texts_view(ids@);
    let ghost start = views(out@);
    let ghost value = if watched {
        |id: Seq<char>| watched_value(id)
    } else {
        |id: Seq<char>| core_value(id)
    };
    let mut i: usize = 0;
    assert(views(out@) =~= start + unprovided(rows_view(list@), all.take(0), value));
    while i < ids.len()
        invariant
            i <= ids@.len(),
            all == texts_view(ids@),
            value == if watched {
                |id: Seq<char>| watched_value(id)
            } else {
                |id: Seq<char>| core_value(id)
            },
            views(out@) == start + unprovided(rows_view(list@), all.take(i as int), value),
        decreases ids@.len() - i,
    {
        let id: &str = ids[i].as_str();
        let ghost next = all.take(i + 1);
        assert(next.drop_last() =~= all.take(i as int));
        assert(next.last() == id@);
        if !has_listing(list, id) {
            let ghost before = out@;
            let shown: Json = if watched {
                show_watched(id)
            } else {
                show_core(id)
            };
            let ghost v = shown@;
            assert(v == value(id@));
            out.push(shown);
            assert(views(out@) =~= views(before).push(v));
            assert(views(out@) =~= start + unprovided(rows_view(list@), next, value));
        }
        i += 1;
    }
    assert(all.take(all.len() as int) =~= all);
}

/// The value that lists all capabilities: those that plugins provide, then those of the core that no
/// plugin provides, then those that one subscribes to. Where there is no registry, it lists none.
pub open spec fn listing_of(registry: Option<Registry>) -> JsonView {
    and_member(
        no_members(),
        "capabilities"@,
        JsonView::Array(
            match registry {
                Some(reg) => all_listed(reg@.rows),
                None => Seq::empty(),
            },
        ),
    )
}

/// All capabilities as a value; none where there is no registry.
pub fn list(registry: Option<&Registry>) -> (r: Json)
    ensures
        r@ == listing_of(
            match registry {
                Some(reg) => Some(*reg),
                None => None,
            },
        ),
{
    let registry: &Registry = match registry {
        Some(registry) => registry,
        None => {
            let none: Vec<Json> = Vec::new();
            proof {
                lemma_items_view(none@);
                assert(items_view(none@) =~= Seq::<JsonView>::empty());
            }
            let caps: Json = Json::Array(none);
            assert(caps@ == JsonView::Array(items_view(none@)));
            return empty_object().with("capabilities", caps);
        },
    };
    let found: Vec<Listing> = registered_capabilities(registry);
    let ghost known = registered(registry@.rows);
    let mut out: Vec<Json> = Vec::new();
    let mut i: usize = 0;
    assert(views(out@) =~= Seq::empty());
    while i < found.len()
        invariant
            i <= found@.len(),
            rows_view(found@) == known,
            out@.len() == i,
            forall|k: int| 0 <= k < i ==> (#[trigger] out@[k])@ == listing_value(known[k]),
        decreases found@.len() - i,
    {
        assert(known[i as int] == found@[i as int]@);
        out.push(show_listing(&found[i]));
        i += 1;
    }
    assert(views(out@) =~= listing_values(known));
    push_unprovided(&mut out, &found, &builtin_ids(), false);
    push_unprovided(&mut out, &found, &subscribe_ids(), true);
    assert(views(out@) =~= all_listed(registry@.rows));
    proof {
        lemma_items_view(out@);
        assert(items_view(out@) =~= views(out@)) by {
            assert forall|k: int| 0 <= k < out@.len() implies items_view(out@)[k] == views(out@)[k] by {
                assert(json_view(out@[k]) == out@[k]@);
            }
        }
    }
    let caps: Json = Json::Array(out);
    assert(caps@ == JsonView::Array(items_view(out@)));
    empty_object().with("capabilities", caps)
}

/// The texts among some values.
pub open spec fn texts_among(items: Seq<JsonView>) -> Seq<Seq<char>>
    decreases items.len(),
{
    if items.len() == 0 {
        Seq::empty()
    } else {
        match items.last() {
            JsonView::Text(t) => texts_among(items.drop_last()).push(t),
            _ => texts_among(items.drop_last()),
        }
    }
}

/// The providers that a listed capability names.
pub open spec fn providers_named(cap: JsonView) -> Seq<Seq<char>> {
    match get_member(cap, "providers"@) {
        Some(JsonView::Array(items)) => texts_among(items),
        _ => Seq::empty(),
    }
}

/// The line that shows a capability to an agent.
pub open spec fn digest_line(cap: JsonView) -> Seq<char> {
    "\n- "@ + text_or(cap, "id"@, Seq::empty()) + " — "@ + (if text_member(cap, "type"@) == Some(
        "subscribe"@,
    ) {
        "subscribe"@
    } else {
        "execute"@
    }) + " — providers: "@ + joined(providers_named(cap), ", "@)
}

/// What is said to an agent before the capabilities.
pub open spec fn digest_head() -> Seq<char> {
    "OpenCapX (desktop layer for agents) is connected. Its MCP tools: opencapx.say, opencapx.notify, opencapx.set_state, opencapx.ask, opencapx.list_capabilities, opencapx.execute, opencapx.subscribe. Capabilities registered right now:"@
}

/// What is said of the capabilities that are left out.
pub open spec fn left_out(n: nat) -> Seq<char> {
    if n == 0 {
        Seq::empty()
    } else {
        "\n(+"@ + decimal_seq(n) + " more — call opencapx.list_capabilities)"@
    }
}

/// The lines from the `i`th capability on, behind what is there already, and how many are shown. A
/// capability without a name is passed over; the first line that would make the text too long,
/// together with what is then said of those left out, ends it.
pub open spec fn digest_run(
    caps: Seq<JsonView>,
    i: int,
    out: Seq<char>,
    shown: nat,
) -> (Seq<char>, nat)
    decreases caps.len() - i,
{
    if i < 0 || i >= caps.len() || i >= MAX_ENTRIES {
        (out, shown)
    } else if text_or(caps[i], "id"@, Seq::empty()).len() == 0 {
        digest_run(caps, i + 1, out, shown)
    } else if byte_count(out) + byte_count(digest_line(caps[i])) + byte_count(
        left_out((caps.len() - shown - 1) as nat),
    ) > MAX_BYTES {
        (out, shown)
    } else {
        digest_run(caps, i + 1, out + digest_line(caps[i]), shown + 1)
    }
}

/// What an agent is told of the capabilities when its session begins, if there are any.
pub open spec fn digest_of(listed: JsonView) -> Option<Seq<char>> {
    match get_member(listed, "capabilities"@) {
        Some(JsonView::Array(caps)) => if caps.len() == 0 {
            None
        } else {
            let (text, shown) = digest_run(caps, 0, digest_head(), 0);
            Some(text + left_out((caps.len() - shown) as nat))
        },
        _ => None,
    }
}

fn named_providers(cap: &Json) -> (r: Vec<String>)
    ensures
        texts_view(r@) == providers_named(cap@),
{
    let mut out: Vec<String> = Vec::new();
    assert(texts_view(out@) =~= Seq::empty());
    if let Some(found) = cap.member("providers") {
        if let Json::Array(items) = found {
            let ghost all = items_view(items@);
            proof {
                lemma_items_view(items@);
                assert(found@ == JsonView::Array(all));
            }
            let mut i: usize = 0;
            assert(texts_view(out@) =~= texts_among(all.take(0)));
            while i < items.len()
                invariant
                    i <= items@.len(),
                    all == items_view(items@),
                    all.len() == items@.len(),
                    forall|k: int| 0 <= k < items@.len() ==> all[k] == #[trigger] json_view(items@[k]),
                    texts_view(out@) == texts_among(all.take(i as int)),
                decreases items@.len() - i,
            {
                let ghost next = all.take(i + 1);
                assert(next.drop_last() =~= all.take(i as int));
                assert(next.last() == json_view(items@[i as int]));
                if let Json::Text(t) = &items[i] {
                    let ghost before = out@;
                    out.push(t.clone());
                    assert(texts_view(out@) =~= texts_view(before).push(t@));
                }
                i += 1;
            }
            assert(all.take(all.len() as int) =~= all);
        }
    }
    out
}

fn line_for(cap: &Json) -> (r: String)
    ensures
        r@ == digest_line(cap@),
{
    proof {
        reveal_strlit("");
        assert(""@ =~= Seq::<char>::empty());
    }
    let id: &str = cap.text_at_or("id", "");
    let watched: bool = match cap.text_at("type") {
        Some(t) => same(t, "subscribe"),
        None => false,
    };
    let kind: &str = if watched {
        "subscribe"
    } else {
        "execute"
    };
    let names: Vec<String> = named_providers(cap);
    let front: String = join3(join3("\n- ", id, " — ").as_str(), kind, " — providers: ");
    join(front.as_str(), join_texts(&names, ", ").as_str())
}

/// What is said of the capabilities that are left out.
fn say_left_out(n: usize) -> (r: String)
    ensures
        r@ == left_out(n as nat),
{
    proof {
        reveal_strlit("");
        assert(""@ =~= Seq::<char>::empty());
    }
    if n == 0 {
        return "".to_string();
    }
    join3("\n(+", decimal(n as u64).as_str(), " more — call opencapx.list_capabilities)")
}

/// What an agent is told of the listed capabilities when its session begins: at most
/// [`MAX_ENTRIES`] of them and not more than [`MAX_BYTES`] bytes, and how many were left out.
/// Nothing where there are none.
pub fn digest_from(listed: &Json) -> (r: Option<String>)
    ensures
        match r {
            Some(t) => digest_of(listed@) == Some(t@),
            None => digest_of(listed@) is None,
        },
{
    proof {
        reveal_strlit("");
        assert(""@ =~= Seq::<char>::empty());
    }
    let found: &Json = match listed.member("capabilities") {
        Some(found) => found,
        None => {
            return None;
        },
    };
    let items: &Vec<Json> = match found {
        Json::Array(items) => items,
        _ => {
            return None;
        },
    };
    let ghost all = items_view(items@);
    proof {
        lemma_items_view(items@);
        assert(found@ == JsonView::Array(all));
    }
    if items.len() == 0 {
        return None;
    }
    let mut out: String = "OpenCapX (desktop layer for agents) is connected. Its MCP tools: opencapx.say, opencapx.notify, opencapx.set_state, opencapx.ask, opencapx.list_capabilities, opencapx.execute, opencapx.subscribe. Capabilities registered right now:".to_string();
    let mut shown: usize = 0;
    let mut i: usize = 0;
    let mut full: bool = false;
    let limit: usize = if items.len() < MAX_ENTRIES {
        items.len()
    } else {
        MAX_ENTRIES
    };
    while i < limit && !full
        invariant
            i <= limit,
            limit <= items@.len(),
            limit == items@.len() || limit == MAX_ENTRIES,
            limit <= MAX_ENTRIES,
            shown <= i,
            all == items_view(items@),
            all.len() == items@.len(),
            ""@ == Seq::<char>::empty(),
            forall|k: int| 0 <= k < items@.len() ==> all[k] == #[trigger] json_view(items@[k]),
            !full ==> digest_run(all, i as int, out@, shown as nat) == digest_run(
                all,
                0,
                digest_head(),
                0,
            ),
            full ==> (out@, shown as nat) == digest_run(all, 0, digest_head(), 0),
        decreases limit - i,
            (if full {
                0int
            } else {
                1int
            }),
    {
        assert(all[i as int] == json_view(items@[i as int]));
        assert(json_view(items@[i as int]) == items@[i as int]@);
        let cap: &Json = &items[i];
        let id: &str = cap.text_at_or("id", "");
        if !id.is_empty() {
            let line: String = line_for(cap);
            let room: usize = MAX_BYTES;
            let used: usize = byte_len(out.as_str());
            let needed: usize = byte_len(line.as_str());
            let rest: usize = byte_len(say_left_out(items.len() - shown - 1).as_str());
            if used > room || needed > room - used || rest > room - used - needed {
                full = true;
            } else {
                out = join(out.as_str(), line.as_str());
                shown += 1;
                i += 1;
            }
        } else {
            i += 1;
        }
    }
    assert((out@, shown as nat) == digest_run(all, 0, digest_head(), 0));
    Some(join(out.as_str(), say_left_out(items.len() - shown).as_str()))
}

/// What an agent is told of the capabilities when its session begins. Nothing where there is no
/// registry.
pub fn digest_text(registry: Option<&Registry>) -> (r: Option<String>)
    ensures
        ({
            let listed = listing_of(
                match registry {
                    Some(reg) => Some(*reg),
                    None => None,
                },
            );
            match r {
                Some(t) => digest_of(listed) == Some(t@),
                None => digest_of(listed) is None,
            }
        }),
        registry is None ==> r is None,
{
    proof {
        assert(get_member(listing_of(None), "capabilities"@) == Some(JsonView::Array(Seq::empty())));
    }
    digest_from(&list(registry))
}

proof fn lemma_bytes_per_char(s: Seq<char>)
    ensures
        byte_count(s) <= 4 * s.len(),
    decreases s.len(),
{
    if s.len() == 0 {
        assert(s =~= Seq::<char>::empty());
        assert(encode_utf8(s) =~= Seq::<u8>::empty());
    } else {
        lemma_byte_count_step(s, s.len() - 1);
        assert(s.take(s.len() as int) =~= s);
        lemma_bytes_per_char(s.take(s.len() - 1));
    }
}

spec fn ten_to(k: nat) -> nat
    decreases k,
{
    if k == 0 {
        1
    } else {
        10 * ten_to((k - 1) as nat)
    }
}

proof fn lemma_digits(n: nat, k: nat)
    requires
        k > 0,
        n < ten_to(k),
    ensures
        decimal_seq(n).len() <= k,
    decreases k,
{
    if n >= 10 {
        if k == 1 {
            assert(ten_to(1) == 10) by {
                reveal_with_fuel(ten_to, 2);
            }
        }
        lemma_digits(n / 10, (k - 1) as nat);
    }
}

proof fn lemma_left_out(n: nat)
    requires
        n <= u64::MAX,
    ensures
        byte_count(left_out(n)) <= 400,
{
    if n > 0 {
        assert(n < ten_to(20)) by {
            reveal_with_fuel(ten_to, 21);
        }
        lemma_digits(n, 20);
        reveal_strlit("\n(+");
        reveal_strlit(" more — call opencapx.list_capabilities)");
    }
    lemma_bytes_per_char(left_out(n));
}

proof fn lemma_digest_run(caps: Seq<JsonView>, i: int, out: Seq<char>, shown: nat)
    requires
        0 <= i,
        shown <= i <= MAX_ENTRIES,
        byte_count(out) + byte_count(left_out((caps.len() - shown) as nat)) <= MAX_BYTES,
    ensures
        ({
            let (text, n) = digest_run(caps, i, out, shown);
            &&& n <= MAX_ENTRIES
            &&& byte_count(text) + byte_count(left_out((caps.len() - n) as nat)) <= MAX_BYTES
        }),
    decreases caps.len() - i,
{
    if i < caps.len() && i < MAX_ENTRIES {
        if text_or(caps[i], "id"@, Seq::empty()).len() == 0 {
            lemma_digest_run(caps, i + 1, out, shown);
        } else if byte_count(out) + byte_count(digest_line(caps[i])) + byte_count(
            left_out((caps.len() - shown - 1) as nat),
        ) <= MAX_BYTES {
            lemma_encode_concat(out, digest_line(caps[i]));
            assert((caps.len() - shown - 1) as nat == (caps.len() - (shown + 1)) as nat);
            lemma_digest_run(caps, i + 1, out + digest_line(caps[i]), shown + 1);
        }
    }
}

/// However many capabilities there are, an agent is shown at most [`MAX_ENTRIES`] of them.
pub proof fn digests_show_few(caps: Seq<JsonView>, i: int, out: Seq<char>, shown: nat)
    requires
        shown <= i <= MAX_ENTRIES,
    ensures
        digest_run(caps, i, out, shown).1 <= MAX_ENTRIES,
    decreases caps.len() - i,
{
    if i < caps.len() && i < MAX_ENTRIES {
        digests_show_few(caps, i + 1, out, shown);
        digests_show_few(caps, i + 1, out + digest_line(caps[i]), shown + 1);
    }
}

/// However many capabilities there are and whatever they are called, all that an agent is told of
/// them has at most [`MAX_BYTES`] bytes, what is said of those left out among them.
pub proof fn digests_stay_short(listed: JsonView)
    requires
        match get_member(listed, "capabilities"@) {
            Some(JsonView::Array(caps)) => caps.len() <= usize::MAX,
            _ => true,
        },
    ensures
        digest_of(listed) is Some ==> byte_count(digest_of(listed)->0) <= MAX_BYTES,
{
    if let Some(JsonView::Array(caps)) = get_member(listed, "capabilities"@) {
        if caps.len() > 0 {
            reveal_strlit(
                "OpenCapX (desktop layer for agents) is connected. Its MCP tools: opencapx.say, opencapx.notify, opencapx.set_state, opencapx.ask, opencapx.list_capabilities, opencapx.execute, opencapx.subscribe. Capabilities registered right now:",
            );
            lemma_bytes_per_char(digest_head());
            lemma_left_out(caps.len());
            lemma_digest_run(caps, 0, digest_head(), 0);
            let (text, shown) = digest_run(caps, 0, digest_head(), 0);
            lemma_encode_concat(text, left_out((caps.len() - shown) as nat));
        }
    }
}

} // verus!
