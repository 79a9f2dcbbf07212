//! Templates that are ready to use: those that come along, and those of users.

use vstd::prelude::*;

use super::ids::{all_uuids, gen_event_id, gen_event_ids, uuid_shape};
use super::storage::{Storage, TemplatePreset, TemplatePresetView};
use super::store::{
    by_rank, find_first, first_of, kept, keys_distinct, lemma_position_of,
    listing_is_sorted_and_complete, position_of, put_then_get, row_with, rows_view, with_row,
    without_row,
};
use crate::json::texts_view;
use crate::text::{
    byte_count, byte_len, complaint, decimal, decimal_seq, is_blank, is_blank_seq, join, join3,
    same, starts_with, starts_with_seq, trim, trim_seq,
};

verus! {

/// The version of the documents that presets are handed out in.
pub const CURRENT_DOC_VERSION: u32 = 1;

/// A document of presets.
pub struct PresetYamlDoc {
    pub version: u32,
    pub presets: Vec<TemplatePreset>,
}

/// A step from one version of documents to another.
#[derive(Debug, Clone, Copy, PartialEq, Eq)]
pub struct PresetMigration {
    pub from: u32,
    pub to: u32,
    pub name: &'static str,
}

/// A preset that comes along.
pub open spec fn builtin_preset_of(
    id: Seq<char>,
    name: Seq<char>,
    description: Seq<char>,
    kind: Seq<char>,
    template: Seq<char>,
    sample: Seq<char>,
) -> TemplatePresetView {
    TemplatePresetView {
        id,
        name,
        description,
        kind,
        template,
        sample,
        builtin: true,
        created_at: 0,
        version: 1,
        changelog: Seq::empty(),
    }
}

/// The presets that come along.
pub open spec fn builtins() -> Seq<TemplatePresetView> {
    seq![
        builtin_preset_of(
            "builtin-slack"@,
            "Slack incoming webhook"@,
            "Slack-compatible JSON: {\"text\":\"<msg>\"}. Mentions @oncall if tags.oncall set."@,
            "builtin:slack"@,
            "{\n  \"text\": \"[{{severity}}] {{source}}: {{payload.message}}{{#if payload.tags.oncall}} @{{payload.tags.oncall}}{{/if}}\",\n  \"username\": \"OpenCapX\",\n  \"icon_emoji\": \":warning:\"\n}"@,
            "{\"message\":\"p99 latency exceeded 500ms\",\"tags\":{\"oncall\":\"alice\"}}"@,
        ),
        builtin_preset_of(
            "builtin-discord"@,
            "Discord webhook"@,
            "Discord-compatible JSON: {\"content\":\"<msg>\"}."@,
            "builtin:discord"@,
            "{\n  \"content\": \"[{{severity}}] {{source}}: {{payload.message}}\",\n  \"username\": \"OpenCapX\"\n}"@,
            "{\"message\":\"CPU 95% on host web-1\"}"@,
        ),
        builtin_preset_of(
            "builtin-msteams"@,
            "Microsoft Teams webhook"@,
            "Teams MessageCard with themeColor switching by severity."@,
            "builtin:msteams"@,
            "{\n  \"@type\": \"MessageCard\",\n  \"@context\": \"https://schema.org/extensions\",\n  \"themeColor\": \"{{#if payload.severity_eq_critical}}FF0000{{else}}{{#if payload.severity_eq_error}}FFA500{{else}}{{#if payload.severity_eq_warn}}FFCC00{{else}}00CC00{{/if}}{{/if}}{{/if}}\",\n  \"title\": \"[{{severity}}] {{source}}\",\n  \"text\": \"{{payload.message}}\"\n}"@,
            "{\"message\":\"DB connection pool exhausted\"}"@,
        ),
        builtin_preset_of(
            "builtin-generic-json"@,
            "Generic JSON envelope"@,
            "Pass the canonical envelope's payload through verbatim."@,
            "builtin:generic_json"@,
            "{{payload}}"@,
            "{\"any\":\"json\",\"nested\":{\"k\":\"v\"}}"@,
        ),
        builtin_preset_of(
            "builtin-plain-text"@,
            "Plain text"@,
            "Single-line plain text format. Content-Type: text/plain."@,
            "builtin:plain_text"@,
            "[{{severity}}] {{source}} at {{timestamp}}: {{payload.message}}"@,
            "{\"message\":\"hello world\"}"@,
        ),
    ]
}

fn builtin_preset(
    id: &str,
    name: &str,
    description: &str,
    kind: &str,
    template: &str,
    sample: &str,
) -> (r: TemplatePreset)
    ensures
        r@ == builtin_preset_of(id@, name@, description@, kind@, template@, sample@),
{
    let changelog: String = String::new();
    assert(changelog@ =~= Seq::<char>::empty());
    TemplatePreset {
        id: id.to_owned(),
        name: name.to_owned(),
        description: description.to_owned(),
        kind: kind.to_owned(),
        template: template.to_owned(),
        sample: sample.to_owned(),
        builtin: true,
        created_at: 0,
        version: 1,
        changelog,
    }
}

/// The presets that come along: the most common receivers of webhooks.
pub fn builtin_presets() -> (r: Vec<TemplatePreset>)
    ensures
        rows_view(r@) == builtins(),
{
    let all: Vec<TemplatePreset> = vec![
        builtin_preset(
            "builtin-slack",
            "Slack incoming webhook",
            "Slack-compatible JSON: {\"text\":\"<msg>\"}. Mentions @oncall if tags.oncall set.",
            "builtin:slack",
            "{\n  \"text\": \"[{{severity}}] {{source}}: {{payload.message}}{{#if payload.tags.oncall}} @{{payload.tags.oncall}}{{/if}}\",\n  \"username\": \"OpenCapX\",\n  \"icon_emoji\": \":warning:\"\n}",
            "{\"message\":\"p99 latency exceeded 500ms\",\"tags\":{\"oncall\":\"alice\"}}",
        ),
        builtin_preset(
            "builtin-discord",
            "Discord webhook",
            "Discord-compatible JSON: {\"content\":\"<msg>\"}.",
            "builtin:discord",
            "{\n  \"content\": \"[{{severity}}] {{source}}: {{payload.message}}\",\n  \"username\": \"OpenCapX\"\n}",
            "{\"message\":\"CPU 95% on host web-1\"}",
        ),
        builtin_preset(
            "builtin-msteams",
            "Microsoft Teams webhook",
            "Teams MessageCard with themeColor switching by severity.",
            "builtin:msteams",
            "{\n  \"@type\": \"MessageCard\",\n  \"@context\": \"https://schema.org/extensions\",\n  \"themeColor\": \"{{#if payload.severity_eq_critical}}FF0000{{else}}{{#if payload.severity_eq_error}}FFA500{{else}}{{#if payload.severity_eq_warn}}FFCC00{{else}}00CC00{{/if}}{{/if}}{{/if}}\",\n  \"title\": \"[{{severity}}] {{source}}\",\n  \"text\": \"{{payload.message}}\"\n}",
            "{\"message\":\"DB connection pool exhausted\"}",
        ),
        builtin_preset(
            "builtin-generic-json",
            "Generic JSON envelope",
            "Pass the canonical envelope's payload through verbatim.",
            "builtin:generic_json",
            "{{payload}}",
            "{\"any\":\"json\",\"nested\":{\"k\":\"v\"}}",
        ),
        builtin_preset(
            "builtin-plain-text",
            "Plain text",
            "Single-line plain text format. Content-Type: text/plain.",
            "builtin:plain_text",
            "[{{severity}}] {{source}} at {{timestamp}}: {{payload.message}}",
            "{\"message\":\"hello world\"}",
        ),
    ];
    assert(rows_view(all@) =~= builtins());
    all
}

/// All presets: those that come along, then those of users by the time of their making.
pub open spec fn all_presets(store: Storage) -> Seq<TemplatePresetView> {
    builtins() + by_rank::<TemplatePreset>(store.presets@)
}

/// All presets: those that come along, then those of users by the time of their making.
pub fn list_template_presets(store: &Storage) -> (r: Vec<TemplatePreset>)
    ensures
        rows_view(r@) == all_presets(*store),
{
    let mut out: Vec<TemplatePreset> = builtin_presets();
    let users: Vec<TemplatePreset> = store.presets.list();
    let ghost first = rows_view(out@);
    let ghost second = rows_view(users@);
    let mut i: usize = 0;
    assert(first + second.take(0) =~= first);
    while i < users.len()
        invariant
            i <= users@.len(),
            second == rows_view(users@),
            rows_view(out@) == first + second.take(i as int),
        decreases users@.len() - i,
    {
        let ghost before = rows_view(out@);
        out.push(users[i].clone());
        assert(rows_view(out@) =~= before.push(second[i as int]));
        assert(second.take(i + 1) =~= second.take(i as int).push(second[i as int]));
        i += 1;
    }
    assert(second.take(i as int) =~= second);
    out
}

/// The first preset of a kind.
pub open spec fn preset_of_kind(presets: Seq<TemplatePresetView>, kind: Seq<char>) -> Option<TemplatePresetView> {
    first_of(presets, |p: TemplatePresetView| p.kind == kind)
}

fn find_kind(presets: &Vec<TemplatePreset>, kind: &str) -> (r: Option<TemplatePreset>)
    ensures
        match r {
            Some(p) => preset_of_kind(rows_view(presets@), kind@) == Some(p@),
            None => preset_of_kind(rows_view(presets@), kind@) is None,
        },
{
    let ghost wanted = |p: TemplatePresetView| p.kind == kind@;
    let test = |row: &TemplatePreset| -> (b: bool)
        ensures
            b == (row@.kind == kind@),
    { same(row.kind.as_str(), kind) };
    match find_first(presets, test, Ghost(wanted)) {
        Some(i) => Some(presets[i].clone()),
        None => None,
    }
}

/// The preset of a kind: one that comes along, or else one of a user.
pub fn get_template_preset(store: &Storage, kind: &str) -> (r: Option<TemplatePreset>)
    ensures
        match (preset_of_kind(builtins(), kind@), preset_of_kind(
            by_rank::<TemplatePreset>(store.presets@),
            kind@,
        )) {
            (Some(p), _) => r is Some && r->0@ == p,
            (None, Some(p)) => r is Some && r->0@ == p,
            (None, None) => r is None,
        },
{
    match find_kind(&builtin_presets(), kind) {
        Some(p) => Some(p),
        None => find_kind(&store.presets.list(), kind),
    }
}

/// What is wrong with a preset of a user.
pub open spec fn preset_complaint(p: TemplatePresetView) -> Option<Seq<char>> {
    if is_blank_seq(p.name) {
        Some("name required"@)
    } else if byte_count(p.name) > 64 {
        Some("name too long (max 64)"@)
    } else if byte_count(p.template) > 16384 {
        Some("template too large (max 16KB)"@)
    } else if byte_count(p.sample) > 16384 {
        Some("sample too large (max 16KB)"@)
    } else if byte_count(p.changelog) > 512 {
        Some("changelog too long (max 512 chars)"@)
    } else if p.builtin {
        Some("cannot save builtin preset as user"@)
    } else {
        None
    }
}

/// The higher of two numbers.
pub open spec fn higher(a: u32, b: u32) -> u32 {
    if a >= b {
        a
    } else {
        b
    }
}

/// The number behind `n`, up to the highest.
pub open spec fn next_version(n: u32) -> u32 {
    if n == u32::MAX {
        n
    } else {
        (n + 1) as u32
    }
}

/// A preset of a user as it is stored: with `fresh` for an id where it has none, never under a kind
/// that comes along, and with a version above that of the preset with its id. The time of its
/// making stays that of the preset with its id, unless it brings one of its own.
pub open spec fn preset_row(
    rows: Seq<TemplatePresetView>,
    p: TemplatePresetView,
    fresh: Seq<char>,
    now: u64,
) -> TemplatePresetView {
    let id = if p.id.len() == 0 {
        fresh
    } else {
        p.id
    };
    let made = if p.created_at == 0 {
        now
    } else {
        p.created_at
    };
    let (version, created_at) = match row_with::<TemplatePreset>(rows, id) {
        Some(old_row) => (
            higher(next_version(old_row.version), higher(p.version, 1)),
            if made == now || made == 0 {
                old_row.created_at
            } else {
                made
            },
        ),
        None => (higher(p.version, 1), made),
    };
    TemplatePresetView {
        id,
        kind: if p.kind.len() == 0 || starts_with_seq(p.kind, "builtin:"@) {
            "user:"@ + id
        } else {
            p.kind
        },
        builtin: false,
        created_at,
        version,
        ..p
    }
}

/// What storing a preset of a user does, given the id for one without an id.
pub open spec fn preset_saved(
    before: Storage,
    p: TemplatePresetView,
    fresh: Seq<char>,
    now: u64,
    after: Storage,
    r: Result<TemplatePreset, String>,
) -> bool {
    &&& complaint(r) == preset_complaint(p)
    &&& after == (Storage { presets: after.presets, ..before })
    &&& match r {
        Ok(row) => row@ == preset_row(before.presets@, p, fresh, now) && after.presets@ == with_row::<
            TemplatePreset,
        >(before.presets@, row@),
        Err(_) => after.presets@ == before.presets@,
    }
}

/// Stores a preset of a user. One without an id gets `fresh`.
pub fn store_user_preset(store: &mut Storage, p: &TemplatePreset, fresh: &str, now: u64) -> (r: Result<
    TemplatePreset,
    String,
>)
    ensures
        preset_saved(*old(store), p@, fresh@, now, *final(store), r),
{
    if is_blank(p.name.as_str()) {
        return Err("name required".to_owned());
    }
    if byte_len(p.name.as_str()) > 64 {
        return Err("name too long (max 64)".to_owned());
    }
    if byte_len(p.template.as_str()) > 16384 {
        return Err("template too large (max 16KB)".to_owned());
    }
    if byte_len(p.sample.as_str()) > 16384 {
        return Err("sample too large (max 16KB)".to_owned());
    }
    if byte_len(p.changelog.as_str()) > 512 {
        return Err("changelog too long (max 512 chars)".to_owned());
    }
    if p.builtin {
        return Err("cannot save builtin preset as user".to_owned());
    }
    let mut out: TemplatePreset = p.clone();
    if out.id.as_str().is_empty() {
        out.id = fresh.to_owned();
    }
    if out.kind.as_str().is_empty() || starts_with(out.kind.as_str(), "builtin:") {
        out.kind = join("user:", out.id.as_str());
    }
    if out.created_at == 0 {
        out.created_at = now;
    }
    let asked: u32 = if out.version >= 1 {
        out.version
    } else {
        1
    };
    match store.presets.get(out.id.as_str()) {
        Some(old_row) => {
            let next: u32 = old_row.version.saturating_add(1);
            out.version = if next >= asked {
                next
            } else {
                asked
            };
            if out.created_at == now || out.created_at == 0 {
                out.created_at = old_row.created_at;
            }
        },
        None => {
            out.version = asked;
        },
    }
    store.presets.put(out.clone());
    Ok(out)
}

/// Stores a preset of a user. One without an id gets a random one.
pub fn save_user_template_preset(store: &mut Storage, p: &TemplatePreset, now: u64) -> (r: Result<
    TemplatePreset,
    String,
>)
    ensures
        exists|fresh: Seq<char>| #[trigger]
            uuid_shape(fresh) && preset_saved(*old(store), p@, fresh, now, *final(store), r),
{
    let fresh: String = gen_event_id();
    assert(uuid_shape(fresh@));
    store_user_preset(store, p, fresh.as_str(), now)
}

/// What is wrong with copying a preset that comes along.
pub open spec fn fork_complaint(kind: Seq<char>, name: Seq<char>) -> Option<Seq<char>> {
    if is_blank_seq(name) {
        Some("name required"@)
    } else if byte_count(trim_seq(name)) > 64 {
        Some("name too long (max 64)"@)
    } else if preset_of_kind(builtins(), kind) is None {
        Some("unknown builtin kind: "@ + kind)
    } else {
        None
    }
}

/// The copy of a preset that comes along, under the id `fresh` and a name of the user's own.
pub open spec fn forked(src: TemplatePresetView, name: Seq<char>, fresh: Seq<char>, now: u64) -> TemplatePresetView {
    TemplatePresetView {
        id: fresh,
        name: trim_seq(name),
        description: src.description,
        kind: "user:"@ + fresh,
        template: src.template,
        sample: src.sample,
        builtin: false,
        created_at: now,
        version: 1,
        changelog: "Forked from builtin '"@ + src.name + "' (v"@ + decimal_seq(src.version as nat) + ")"@,
    }
}

/// What copying a preset that comes along does, given the id of the copy.
pub open spec fn preset_forked(
    before: Storage,
    kind: Seq<char>,
    name: Seq<char>,
    fresh: Seq<char>,
    now: u64,
    after: Storage,
    r: Result<TemplatePreset, String>,
) -> bool {
    &&& complaint(r) == fork_complaint(kind, name)
    &&& after == (Storage { presets: after.presets, ..before })
    &&& match r {
        Ok(row) => row@ == forked(preset_of_kind(builtins(), kind)->0, name, fresh, now)
            && after.presets@ == with_row::<TemplatePreset>(before.presets@, row@),
        Err(_) => after.presets@ == before.presets@,
    }
}

/// Copies a preset that comes along, under the id `fresh`.
pub fn fork_preset_as(store: &mut Storage, kind: &str, name: &str, fresh: &str, now: u64) -> (r: Result<
    TemplatePreset,
    String,
>)
    ensures
        preset_forked(*old(store), kind@, name@, fresh@, now, *final(store), r),
{
    let name: &str = trim(name);
    if name.is_empty() {
        return Err("name required".to_owned());
    }
    if byte_len(name) > 64 {
        return Err("name too long (max 64)".to_owned());
    }
    let src: TemplatePreset = match find_kind(&builtin_presets(), kind) {
        Some(p) => p,
        None => {
            return Err(join("unknown builtin kind: ", kind));
        },
    };
    let from: String = join3("Forked from builtin '", src.name.as_str(), "' (v");
    let row: TemplatePreset = TemplatePreset {
        id: fresh.to_owned(),
        name: name.to_owned(),
        description: src.description,
        kind: join("user:", fresh),
        template: src.template,
        sample: src.sample,
        builtin: false,
        created_at: now,
        version: 1,
        changelog: join3(from.as_str(), decimal(src.version as u64).as_str(), ")"),
    };
    store.presets.put(row.clone());
    Ok(row)
}

/// Copies a preset that comes along into one of the user's own, under a random id.
pub fn fork_builtin_preset(store: &mut Storage, kind: &str, name: &str, now: u64) -> (r: Result<
    TemplatePreset,
    String,
>)
    ensures
        exists|fresh: Seq<char>| #[trigger]
            uuid_shape(fresh) && preset_forked(*old(store), kind@, name@, fresh, now, *final(store), r),
{
    let fresh: String = gen_event_id();
    assert(uuid_shape(fresh@));
    fork_preset_as(store, kind, name, fresh.as_str(), now)
}

/// Deletes a preset of a user; says whether there was one with this id. What comes along stays.
pub fn delete_user_template_preset(store: &mut Storage, id: &str) -> (r: bool)
    ensures
        *final(store) == (Storage { presets: final(store).presets, ..*old(store) }),
        final(store).presets@ == without_row::<TemplatePreset>(old(store).presets@, id@),
        r == (row_with::<TemplatePreset>(old(store).presets@, id@) is Some),
{
    store.presets.remove(id)
}

/// Some presets as a document to hand out.
pub fn export_presets_to_yaml(presets: &Vec<TemplatePreset>) -> (r: PresetYamlDoc)
    ensures
        r.version == 1,
        rows_view(r.presets@) == rows_view(presets@),
{
    let mut out: Vec<TemplatePreset> = Vec::new();
    let mut i: usize = 0;
    while i < presets.len()
        invariant
            i <= presets@.len(),
            out@.len() == i,
            forall|k: int| 0 <= k < i ==> (#[trigger] out@[k])@ == presets@[k]@,
        decreases presets@.len() - i,
    {
        out.push(presets[i].clone());
        i += 1;
    }
    assert(rows_view(out@) =~= rows_view(presets@));
    PresetYamlDoc { version: 1, presets: out }
}

/// The steps from older versions of documents to the present one.
pub fn migrators() -> (r: Vec<PresetMigration>)
    ensures
        r@.len() == 1,
        r@[0].from == 0,
        r@[0].to == 1,
        r@[0].name@ == "v0_to_v1"@,
{
    vec![PresetMigration { from: 0, to: 1, name: "v0_to_v1" }]
}

/// A preset of a document without a version as one of version 1: its own version is at least 1, and
/// without a kind it counts as one of a user, under the id `fresh` where it has none.
pub open spec fn lifted(p: TemplatePresetView, fresh: Seq<char>) -> TemplatePresetView {
    let id = if p.kind.len() == 0 && p.id.len() == 0 {
        fresh
    } else {
        p.id
    };
    TemplatePresetView {
        id,
        version: if p.version == 0 {
            1
        } else {
            p.version
        },
        kind: if p.kind.len() == 0 {
            "user:"@ + id
        } else {
            p.kind
        },
        ..p
    }
}

/// Some presets as presets of version 1, each given an id of `fresh` where it needs one.
pub open spec fn all_lifted(presets: Seq<TemplatePresetView>, fresh: Seq<Seq<char>>) -> Seq<TemplatePresetView> {
    Seq::new(presets.len(), |i: int| lifted(presets[i], fresh[i]))
}

/// A document without a version as one of version 1, its presets given ids of `fresh` where they
/// need one.
pub fn migrate_v0_to_v1(doc: PresetYamlDoc, fresh: &Vec<String>) -> (r: PresetYamlDoc)
    requires
        fresh@.len() == doc.presets@.len(),
    ensures
        r.version == 1,
        rows_view(r.presets@) == all_lifted(rows_view(doc.presets@), texts_view(fresh@)),
{
    let ghost all = rows_view(doc.presets@);
    let mut out: Vec<TemplatePreset> = Vec::new();
    let mut i: usize = 0;
    while i < doc.presets.len()
        invariant
            i <= doc.presets@.len(),
            all == rows_view(doc.presets@),
            fresh@.len() == doc.presets@.len(),
            out@.len() == i,
            forall|k: int| 0 <= k < i ==> (#[trigger] out@[k])@ == lifted(all[k], fresh@[k]@),
        decreases doc.presets@.len() - i,
    {
        let mut p: TemplatePreset = doc.presets[i].clone();
        assert(p@ == all[i as int]);
        if p.version == 0 {
            p.version = 1;
        }
        if p.kind.as_str().is_empty() {
            if p.id.as_str().is_empty() {
                p.id = fresh[i].clone();
            }
            p.kind = join("user:", p.id.as_str());
        }
        out.push(p);
        i += 1;
    }
    assert(rows_view(out@) =~= all_lifted(all, texts_view(fresh@)));
    PresetYamlDoc { version: 1, presets: out }
}

/// What is wrong with the version of a document.
pub open spec fn doc_complaint(version: u32) -> Option<Seq<char>> {
    if version > CURRENT_DOC_VERSION {
        Some(
            "doc version "@ + decimal_seq(version as nat) + " is newer than current "@ + decimal_seq(
                CURRENT_DOC_VERSION as nat,
            ) + "; refusing to import future schema"@,
        )
    } else {
        None
    }
}

/// Brings a document up to the present version, and says by which steps. One of a later version is
/// refused.
pub fn migrate_preset_yaml(doc: PresetYamlDoc) -> (r: Result<(PresetYamlDoc, Vec<&'static str>), String>)
    ensures
        complaint(r) == doc_complaint(doc.version),
        r is Ok ==> {
            let (out, steps) = r->Ok_0;
            &&& out.version == CURRENT_DOC_VERSION
            &&& doc.version == 0 ==> {
                &&& steps@.len() == 1
                &&& steps@[0]@ == "v0_to_v1"@
                &&& exists|fresh: Seq<Seq<char>>| #[trigger]
                    all_uuids(fresh) && fresh.len() == doc.presets@.len() && rows_view(out.presets@)
                        == all_lifted(rows_view(doc.presets@), fresh)
            }
            &&& doc.version != 0 ==> steps@.len() == 0 && rows_view(out.presets@) == rows_view(
                doc.presets@,
            )
        },
{
    let mut steps: Vec<&'static str> = Vec::new();
    if doc.version > CURRENT_DOC_VERSION {
        let head: String = join3(
            "doc version ",
            decimal(doc.version as u64).as_str(),
            " is newer than current ",
        );
        return Err(
            join3(
                head.as_str(),
                decimal(CURRENT_DOC_VERSION as u64).as_str(),
                "; refusing to import future schema",
            ),
        );
    }
    if doc.version == 0 {
        let fresh: Vec<String> = gen_event_ids(doc.presets.len());
        assert(texts_view(fresh@).len() == doc.presets@.len());
        let table: Vec<PresetMigration> = migrators();
        steps.push(table[0].name);
        let out: PresetYamlDoc = migrate_v0_to_v1(doc, &fresh);
        assert(all_uuids(texts_view(fresh@)));
        return Ok((out, steps));
    }
    Ok((doc, steps))
}

/// A preset as it is taken over from a document, under the id `fresh` where it has none.
pub open spec fn taken_over(p: TemplatePresetView, fresh: Seq<char>) -> TemplatePresetView {
    let id = if p.id.len() == 0 {
        fresh
    } else {
        p.id
    };
    TemplatePresetView {
        id,
        kind: if p.kind.len() == 0 {
            "user:"@ + id
        } else {
            p.kind
        },
        builtin: false,
        version: higher(p.version, 1),
        ..p
    }
}

/// The presets of users, and how many were taken over, after those of a document that have a name.
pub open spec fn all_taken_over(
    rows: Seq<TemplatePresetView>,
    presets: Seq<TemplatePresetView>,
    fresh: Seq<Seq<char>>,
) -> (Seq<TemplatePresetView>, nat)
    decreases presets.len(),
{
    if presets.len() == 0 {
        (rows, 0)
    } else {
        let (before, n) = all_taken_over(rows, presets.drop_last(), fresh);
        let p = presets.last();
        if is_blank_seq(p.name) {
            (before, n)
        } else {
            (
                with_row::<TemplatePreset>(before, taken_over(p, fresh[presets.len() - 1])),
                n + 1,
            )
        }
    }
}

/// Takes over the presets that have a name, given ids of `fresh` where they have none; says how many
/// there were.
pub fn take_over_presets(store: &mut Storage, presets: &Vec<TemplatePreset>, fresh: &Vec<String>) -> (r:
    usize)
    requires
        fresh@.len() == presets@.len(),
    ensures
        *final(store) == (Storage { presets: final(store).presets, ..*old(store) }),
        (final(store).presets@, r as nat) == all_taken_over(
            old(store).presets@,
            rows_view(presets@),
            texts_view(fresh@),
        ),
{
    let ghost all = rows_view(presets@);
    let ghost ids = texts_view(fresh@);
    let ghost start = store.presets@;
    let mut count: usize = 0;
    let mut i: usize = 0;
    assert(all.take(0) =~= Seq::<TemplatePresetView>::empty());
    while i < presets.len()
        invariant
            i <= presets@.len(),
            count <= i,
            fresh@.len() == presets@.len(),
            all == rows_view(presets@),
            ids == texts_view(fresh@),
            *store == (Storage { presets: store.presets, ..*old(store) }),
            (store.presets@, count as nat) == all_taken_over(start, all.take(i as int), ids),
        decreases presets@.len() - i,
    {
        assert(all.take(i + 1).drop_last() =~= all.take(i as int));
        assert(all.take(i + 1).last() == presets@[i as int]@);
        assert(ids[i as int] == fresh@[i as int]@);
        let mut p: TemplatePreset = presets[i].clone();
        if !is_blank(p.name.as_str()) {
            p.builtin = false;
            if p.id.as_str().is_empty() {
                p.id = fresh[i].clone();
            }
            if p.kind.as_str().is_empty() {
                p.kind = join("user:", p.id.as_str());
            }
            if p.version < 1 {
                p.version = 1;
            }
            store.presets.put(p);
            count += 1;
        }
        i += 1;
    }
    assert(all.take(i as int) =~= all);
    count
}

/// Whether `presets` are those of a document brought up to the present version.
pub open spec fn brought_up(doc: PresetYamlDoc, presets: Seq<TemplatePresetView>) -> bool {
    if doc.version == 0 {
        exists|fresh: Seq<Seq<char>>| #[trigger]
            all_uuids(fresh) && fresh.len() == doc.presets@.len() && presets == all_lifted(
                rows_view(doc.presets@),
                fresh,
            )
    } else {
        presets == rows_view(doc.presets@)
    }
}

/// Takes over the presets of a document, brought up to the present version; says how many there
/// were. A document of a later version is refused, and nothing changes.
pub fn import_presets_from_yaml(store: &mut Storage, doc: PresetYamlDoc) -> (r: Result<usize, String>)
    ensures
        complaint(r) == doc_complaint(doc.version),
        *final(store) == (Storage { presets: final(store).presets, ..*old(store) }),
        match r {
            Ok(n) => exists|presets: Seq<TemplatePresetView>, fresh: Seq<Seq<char>>| #[trigger]
                brought_up(doc, presets) && #[trigger] all_uuids(fresh) && fresh.len() == presets.len() && (
                    final(store).presets@,
                    n as nat,
                ) == all_taken_over(old(store).presets@, presets, fresh),
            Err(_) => final(store).presets@ == old(store).presets@,
        },
{
    let (out, _) = migrate_preset_yaml(doc)?;
    let fresh: Vec<String> = gen_event_ids(out.presets.len());
    assert(brought_up(doc, rows_view(out.presets@)));
    assert(all_uuids(texts_view(fresh@)));
    Ok(take_over_presets(store, &out.presets, &fresh))
}

/// Whether stored presets are those of users: none is marked as one that comes along, and each has
/// an id.
pub open spec fn presets_of_users(rows: Seq<TemplatePresetView>) -> bool {
    forall|i: int| 0 <= i < rows.len() ==> !(#[trigger] rows[i]).builtin && rows[i].id.len() > 0
}

pub proof fn lemma_preset_put(rows: Seq<TemplatePresetView>, v: TemplatePresetView)
    requires
        presets_of_users(rows),
        !v.builtin,
        v.id.len() > 0,
    ensures
        presets_of_users(with_row::<TemplatePreset>(rows, v)),
{
    lemma_position_of::<TemplatePreset>(rows, v.id);
}

/// Saving leaves only presets of users in the store.
pub proof fn saving_keeps_presets_of_users(
    before: Storage,
    p: TemplatePresetView,
    fresh: Seq<char>,
    now: u64,
    after: Storage,
    r: Result<TemplatePreset, String>,
)
    requires
        presets_of_users(before.presets@),
        fresh.len() > 0,
        preset_saved(before, p, fresh, now, after, r),
    ensures
        presets_of_users(after.presets@),
{
    if let Ok(row) = r {
        lemma_preset_put(before.presets@, row@);
    }
}

/// Copying a preset that comes along leaves only presets of users in the store.
pub proof fn forking_keeps_presets_of_users(
    before: Storage,
    kind: Seq<char>,
    name: Seq<char>,
    fresh: Seq<char>,
    now: u64,
    after: Storage,
    r: Result<TemplatePreset, String>,
)
    requires
        presets_of_users(before.presets@),
        fresh.len() > 0,
        preset_forked(before, kind, name, fresh, now, after, r),
    ensures
        presets_of_users(after.presets@),
{
    if let Ok(row) = r {
        lemma_preset_put(before.presets@, row@);
    }
}

/// Deleting leaves only presets of users in the store.
pub proof fn deleting_keeps_presets_of_users(rows: Seq<TemplatePresetView>, id: Seq<char>)
    requires
        presets_of_users(rows),
    ensures
        presets_of_users(without_row::<TemplatePreset>(rows, id)),
{
    lemma_position_of::<TemplatePreset>(rows, id);
    let rest = without_row::<TemplatePreset>(rows, id);
    if let Some(at) = position_of::<TemplatePreset>(rows, id) {
        assert forall|i: int| 0 <= i < rest.len() implies !(#[trigger] rest[i]).builtin
            && rest[i].id.len() > 0 by {
            assert(rest[i] == rows[if i < at {
                i
            } else {
                i + 1
            }]);
        }
    }
}

/// Taking over a document of presets leaves only presets of users in the store, whatever the
/// document says of them.
pub proof fn importing_keeps_presets_of_users(
    rows: Seq<TemplatePresetView>,
    presets: Seq<TemplatePresetView>,
    fresh: Seq<Seq<char>>,
)
    requires
        presets_of_users(rows),
        all_uuids(fresh),
        fresh.len() >= presets.len(),
    ensures
        presets_of_users(all_taken_over(rows, presets, fresh).0),
    decreases presets.len(),
{
    if presets.len() > 0 {
        importing_keeps_presets_of_users(rows, presets.drop_last(), fresh);
        let p = presets.last();
        let id = fresh[presets.len() - 1];
        assert(uuid_shape(id));
        if !is_blank_seq(p.name) {
            lemma_preset_put(all_taken_over(rows, presets.drop_last(), fresh).0, taken_over(p, id));
        }
    }
}

proof fn lemma_kept_head(
    first: Seq<TemplatePresetView>,
    second: Seq<TemplatePresetView>,
    f: spec_fn(TemplatePresetView) -> bool,
)
    requires
        forall|i: int| 0 <= i < first.len() ==> f(#[trigger] first[i]),
        forall|i: int| 0 <= i < second.len() ==> !f(#[trigger] second[i]),
    ensures
        kept(first + second, f) == first,
    decreases first.len() + second.len(),
{
    let all = first + second;
    if second.len() > 0 {
        assert(all.drop_last() =~= first + second.drop_last());
        assert(all.last() == second.last());
        assert(!f(second[second.len() - 1]));
        lemma_kept_head(first, second.drop_last(), f);
    } else if first.len() > 0 {
        assert(all =~= first);
        assert(first.drop_last() + second =~= all.drop_last());
        assert(f(first[first.len() - 1]));
        lemma_kept_head(first.drop_last(), second, f);
        assert(first.drop_last().push(first.last()) =~= first);
    } else {
        assert(kept(all, f) =~= first);
    }
}

/// The listing begins with the presets that come along, in their order, whatever users have stored;
/// then comes every stored preset, each as often as it is stored, none of them marked as one that
/// comes along. So those that come along are always the same.
pub proof fn listing_begins_with_what_comes_along(store: Storage)
    requires
        presets_of_users(store.presets@),
    ensures
        ({
            let all = all_presets(store);
            let n = builtins().len() as int;
            &&& all.len() == n + store.presets@.len()
            &&& all.take(n) == builtins()
            &&& all.skip(n).to_multiset() == store.presets@.to_multiset()
            &&& forall|i: int| 0 <= i < all.len() ==> (#[trigger] all[i]).builtin == (i < n)
            &&& kept(all, |p: TemplatePresetView| p.builtin) == builtins()
        }),
{
    broadcast use vstd::seq_lib::group_to_multiset_ensures;

    let all = all_presets(store);
    let n = builtins().len() as int;
    let users = by_rank::<TemplatePreset>(store.presets@);
    listing_is_sorted_and_complete::<TemplatePreset>(store.presets@);
    assert(all.take(n) =~= builtins());
    assert(all.skip(n) =~= users);
    assert forall|i: int| 0 <= i < users.len() implies !(#[trigger] users[i]).builtin by {
        assert(users.contains(users[i]));
        assert(users.to_multiset().count(users[i]) > 0);
        assert(store.presets@.contains(users[i]));
    }
    assert forall|i: int| 0 <= i < all.len() implies (#[trigger] all[i]).builtin == (i < n) by {
        if i < n {
            assert(all[i] == builtins()[i]);
        } else {
            assert(all[i] == users[i - n]);
        }
    }
    lemma_kept_head(builtins(), users, |p: TemplatePresetView| p.builtin);
}

/// A preset that is saved under the id of a stored one comes out with that id, with the version
/// behind the stored one's or its own, whichever is higher, and with the time of the stored one's
/// making, unless it brings another of its own; all else is as it was handed in, but for a kind that
/// it has not or that is reserved. It is then what the store holds under the id.
pub proof fn saving_again_counts_on(
    before: Storage,
    p: TemplatePresetView,
    fresh: Seq<char>,
    now: u64,
    after: Storage,
    r: Result<TemplatePreset, String>,
)
    requires
        presets_of_users(before.presets@),
        keys_distinct::<TemplatePreset>(before.presets@),
        row_with::<TemplatePreset>(before.presets@, p.id) is Some,
        row_with::<TemplatePreset>(before.presets@, p.id)->0.version < u32::MAX,
        preset_complaint(p) is None,
        preset_saved(before, p, fresh, now, after, r),
    ensures
        ({
            let known = row_with::<TemplatePreset>(before.presets@, p.id)->0;
            &&& r is Ok
            &&& r->Ok_0@ == (TemplatePresetView {
                kind: if p.kind.len() == 0 || starts_with_seq(p.kind, "builtin:"@) {
                    "user:"@ + p.id
                } else {
                    p.kind
                },
                version: if known.version + 1 >= p.version {
                    (known.version + 1) as u32
                } else {
                    p.version
                },
                created_at: if p.created_at == 0 || p.created_at == now {
                    known.created_at
                } else {
                    p.created_at
                },
                ..p
            })
            &&& row_with::<TemplatePreset>(after.presets@, p.id) == Some(r->Ok_0@)
        }),
{
    lemma_position_of::<TemplatePreset>(before.presets@, p.id);
    put_then_get::<TemplatePreset>(before.presets@, preset_row(before.presets@, p, fresh, now), p.id);
}

} // verus!
