//! The settings of plugins: where they are kept, how they are read and changed, and which of them
//! are secrets.

use vstd::prelude::*;

use crate::alerting::store::rows_view;
use crate::json::{
    get_member, json_read, member_of, members_view, parse_json, texts_view, Json, JsonView,
};
use crate::order::{sort_list, sort_texts, sorted, text_before, text_order};
use crate::text::{
    byte_count, byte_len, chars_of, complaint, ends_with, ends_with_seq, join, join3, occurs_at,
    same, slice_text, starts_with, starts_with_seq, text_of,
};
use crate::values::{
    drop_member, drop_then_read, set_member, set_then_read, text_member, text_value, with_member,
    without_member,
};

verus! {

/// The text with every pair of dots, from the left, turned into two underscores.
pub open spec fn dots_gone(s: Seq<char>) -> Seq<char>
    decreases s.len(),
{
    if s.len() == 0 {
        s
    } else if s.len() >= 2 && s[0] == '.' && s[1] == '.' {
        seq!['_', '_'] + dots_gone(s.skip(2))
    } else {
        seq![s[0]] + dots_gone(s.skip(1))
    }
}

/// Whether a character can stand in the name of a file.
pub open spec fn file_char(c: char) -> bool {
    'a' <= c <= 'z' || 'A' <= c <= 'Z' || '0' <= c <= '9' || c == '.' || c == '_' || c == '-'
}

/// A character, or an underscore where it cannot stand in the name of a file.
pub open spec fn safe_char(c: char) -> char {
    if file_char(c) {
        c
    } else {
        '_'
    }
}

/// The characters of a text, each turned into one that can stand in the name of a file.
pub open spec fn safe_chars(s: Seq<char>) -> Seq<char> {
    Seq::new(s.len(), |i: int| safe_char(s[i]))
}

/// The id of a plugin as it stands in the name of a file.
pub open spec fn sanitized(id: Seq<char>) -> Seq<char> {
    safe_chars(dots_gone(id))
}

/// The characters of a text, each turned into one that can stand in the name of a file.
pub fn keep_file_chars(s: &str) -> (r: String)
    ensures
        r@ == safe_chars(s@),
{
    let cs: Vec<char> = chars_of(s);
    let mut out: Vec<char> = Vec::new();
    let mut i: usize = 0;
    while i < cs.len()
        invariant
            i <= cs@.len(),
            cs@ == s@,
            out@.len() == i,
            forall|k: int| 0 <= k < i ==> #[trigger] out@[k] == safe_char(s@[k]),
        decreases cs@.len() - i,
    {
        let c: char = cs[i];
        let fine: bool = 'a' <= c && c <= 'z' || 'A' <= c && c <= 'Z' || '0' <= c && c <= '9' || c
            == '.' || c == '_' || c == '-';
        if fine {
            out.push(c);
        } else {
            out.push('_');
        }
        i += 1;
    }
    assert(out@ =~= safe_chars(s@));
    text_of(&out)
}

/// The id of a plugin as it stands in the name of a file.
pub fn sanitize(plugin_id: &str) -> (r: String)
    ensures
        r@ == sanitized(plugin_id@),
{
    let cs: Vec<char> = chars_of(plugin_id);
    let total: usize = cs.len();
    let mut out: Vec<char> = Vec::new();
    let mut i: usize = 0;
    assert(cs@.skip(0) =~= plugin_id@);
    assert(out@ + dots_gone(cs@.skip(0)) =~= dots_gone(plugin_id@));
    while i < total
        invariant
            i <= total,
            total == cs@.len(),
            cs@ == plugin_id@,
            out@ + dots_gone(cs@.skip(i as int)) == dots_gone(plugin_id@),
        decreases total - i,
    {
        let ghost rest = cs@.skip(i as int);
        let ghost before = out@;
        if cs[i] == '.' && i + 1 < total && cs[i + 1] == '.' {
            assert(rest.skip(2) =~= cs@.skip(i + 2));
            out.push('_');
            out.push('_');
            i += 2;
            assert(before + (seq!['_', '_'] + dots_gone(cs@.skip(i as int))) =~= out@ + dots_gone(
                cs@.skip(i as int),
            ));
        } else {
            assert(rest.skip(1) =~= cs@.skip(i + 1));
            out.push(cs[i]);
            i += 1;
            assert(before + (seq![rest[0]] + dots_gone(cs@.skip(i as int))) =~= out@ + dots_gone(
                cs@.skip(i as int),
            ));
        }
    }
    assert(out@ =~= dots_gone(plugin_id@));
    let joined: String = text_of(&out);
    keep_file_chars(joined.as_str())
}

proof fn lemma_no_dot_pair(s: Seq<char>)
    ensures
        forall|i: int|
            0 <= i < dots_gone(s).len() - 1 ==> !(#[trigger] dots_gone(s)[i] == '.' && dots_gone(
                s,
            )[i + 1] == '.'),
        dots_gone(s).len() > 0 && dots_gone(s)[0] == '.' ==> s.len() > 0 && s[0] == '.',
    decreases s.len(),
{
    if s.len() == 0 {
    } else if s.len() >= 2 && s[0] == '.' && s[1] == '.' {
        lemma_no_dot_pair(s.skip(2));
        let rest = dots_gone(s.skip(2));
        let all = dots_gone(s);
        assert forall|i: int| 0 <= i < all.len() - 1 implies !(#[trigger] all[i] == '.' && all[i
            + 1] == '.') by {
            if i >= 2 {
                assert(all[i] == rest[i - 2]);
                assert(all[i + 1] == rest[i - 1]);
            }
        }
    } else {
        lemma_no_dot_pair(s.skip(1));
        let rest = dots_gone(s.skip(1));
        let all = dots_gone(s);
        assert forall|i: int| 0 <= i < all.len() - 1 implies !(#[trigger] all[i] == '.' && all[i
            + 1] == '.') by {
            if i >= 1 {
                assert(all[i] == rest[i - 1]);
                assert(all[i + 1] == rest[i]);
            } else {
                assert(all[0] == s[0]);
                assert(all[1] == rest[0]);
                if rest[0] == '.' {
                    assert(s.skip(1)[0] == s[1]);
                }
            }
        }
    }
}

/// However the id of a plugin is written, its settings stay in their directory: what stands for the
/// id in the name of a file has neither two dots in a row nor anything that parts directories.
pub proof fn settings_stay_in_their_directory(id: Seq<char>)
    ensures
        !exists|i: int| #[trigger] occurs_at(sanitized(id), ".."@, i),
        forall|i: int| 0 <= i < sanitized(id).len() ==> file_char(#[trigger] sanitized(id)[i]),
        !sanitized(id).contains('/'),
        !sanitized(id).contains('\\'),
{
    reveal_strlit("..");
    lemma_no_dot_pair(id);
    let name = sanitized(id);
    let bare = dots_gone(id);
    assert forall|i: int| !#[trigger] occurs_at(name, ".."@, i) by {
        if occurs_at(name, ".."@, i) {
            let part = name.subrange(i, i + 2);
            assert(part[0] == '.' && part[1] == '.');
            assert(name[i] == '.' && name[i + 1] == '.');
            assert(bare[i] == '.' && bare[i + 1] == '.');
        }
    }
}

/// The name of the file in which the settings of a plugin are kept.
pub fn config_file_name(plugin_id: &str) -> (r: String)
    ensures
        r@ == sanitized(plugin_id@) + ".json"@,
{
    join(sanitize(plugin_id).as_str(), ".json")
}

/// The settings that the text of a file holds: none where it is no JSON object.
pub open spec fn settings_in(text: Seq<char>) -> Seq<(Seq<char>, JsonView)> {
    match json_read(text) {
        Ok(JsonView::Object(members)) => members,
        _ => Seq::empty(),
    }
}

/// The settings of a plugin from the text of its file, if there is one.
pub fn read_settings(text: Option<&str>) -> (r: Vec<(String, Json)>)
    ensures
        members_view(r@) == match text {
            Some(t) => settings_in(t@),
            None => Seq::empty(),
        },
{
    if let Some(t) = text {
        if let Ok(Json::Object(members)) = parse_json(t) {
            return members;
        }
    }
    let none: Vec<(String, Json)> = Vec::new();
    assert(members_view(none@) =~= Seq::empty());
    none
}

/// A setting, or another value where there is none.
pub open spec fn setting_or(
    settings: Seq<(Seq<char>, JsonView)>,
    key: Seq<char>,
    default: JsonView,
) -> JsonView {
    match member_of(settings, key) {
        Some(v) => v,
        None => default,
    }
}

/// A setting, or another value where there is none.
pub fn get(settings: &Json, key: &str, default: &Json) -> (r: Json)
    ensures
        r@ == match get_member(settings@, key@) {
            Some(v) => v,
            None => default@,
        },
{
    match settings.member(key) {
        Some(v) => v.clone(),
        None => default.clone(),
    }
}

/// The settings that take the place of all others. They have to be an object.
pub fn replace(value: &Json) -> (r: Result<Json, String>)
    ensures
        match r {
            Ok(j) => value@ is Object && j@ == value@,
            Err(e) => !(value@ is Object) && e@ == "config root must be an object"@,
        },
{
    match value {
        Json::Object(_) => Ok(value.clone()),
        _ => Err("config root must be an object".to_string()),
    }
}

/// Whether a name can be that of a secret: letters, digits, underscores and dashes, at most 64.
pub open spec fn secret_name(key: Seq<char>) -> bool {
    &&& key.len() > 0
    &&& byte_count(key) <= 64
    &&& forall|i: int| 0 <= i < key.len() ==> secret_char(#[trigger] key[i])
}

/// Whether a character can stand in the name of a secret.
pub open spec fn secret_char(c: char) -> bool {
    'a' <= c <= 'z' || 'A' <= c <= 'Z' || '0' <= c <= '9' || c == '_' || c == '-'
}

/// Whether a name can be that of a secret.
pub fn valid_secret_key(key: &str) -> (r: bool)
    ensures
        r == secret_name(key@),
{
    if key.is_empty() || byte_len(key) > 64 {
        return false;
    }
    let cs: Vec<char> = chars_of(key);
    let mut i: usize = 0;
    while i < cs.len()
        invariant
            i <= cs@.len(),
            cs@ == key@,
            forall|k: int| 0 <= k < i ==> secret_char(#[trigger] key@[k]),
        decreases cs@.len() - i,
    {
        let c: char = cs[i];
        assert(c == key@[i as int]);
        if !('a' <= c && c <= 'z' || 'A' <= c && c <= 'Z' || '0' <= c && c <= '9' || c == '_' || c
            == '-') {
            return false;
        }
        i += 1;
    }
    true
}

/// Under which name the secret of a plugin is kept by the system.
pub fn secret_user(plugin_id: &str, key: &str) -> (r: String)
    ensures
        r@ == "plugin-secret:"@ + plugin_id@ + ":"@ + key@,
{
    join(join3("plugin-secret:", plugin_id, ":").as_str(), key)
}

/// The name of what `Debug` prints for a text.
pub uninterp spec fn debug_text_of(s: Seq<char>) -> Seq<char>;

/// What `Debug` of `str` prints: the text between quotes, with some of its characters escaped. It
/// depends on the text alone; which characters are escaped is left unsaid.
#[verifier::external_body]
fn debug_text(s: &str) -> (r: String)
    ensures
        r@ == debug_text_of(s@),
{
    format!("{:?}", s)
}

/// Checks the name of a secret that is to be kept or dropped.
pub fn check_secret_key(key: &str) -> (r: Result<(), String>)
    ensures
        complaint(r) == if secret_name(key@) {
            None
        } else {
            Some("invalid secret key "@ + debug_text_of(key@))
        },
{
    if valid_secret_key(key) {
        Ok(())
    } else {
        Err(join("invalid secret key ", debug_text(key).as_str()))
    }
}

/// What a plugin asks of its settings.
#[derive(Debug)]
pub enum ConfigRequest {
    /// This is the answer; nothing has to be looked up.
    Reply(Json),
    Read { key: String, default: Json },
    Write { key: String, value: Json },
    Delete { key: String },
    GetSecret { key: String, default: Json },
    SetSecret { key: String, value: String },
    DeleteSecret { key: String },
    All,
    List,
}

/// What a [`ConfigRequest`] holds.
pub enum ConfigRequestView {
    Reply(JsonView),
    Read { key: Seq<char>, default: JsonView },
    Write { key: Seq<char>, value: JsonView },
    Delete { key: Seq<char> },
    GetSecret { key: Seq<char>, default: JsonView },
    SetSecret { key: Seq<char>, value: Seq<char> },
    DeleteSecret { key: Seq<char> },
    All,
    List,
}

impl View for ConfigRequest {
    type V = ConfigRequestView;

    open spec fn view(&self) -> ConfigRequestView {
        match self {
            ConfigRequest::Reply(j) => ConfigRequestView::Reply(j@),
            ConfigRequest::Read { key, default } => ConfigRequestView::Read {
                key: key@,
                default: default@,
            },
            ConfigRequest::Write { key, value } => ConfigRequestView::Write { key: key@, value: value@ },
            ConfigRequest::Delete { key } => ConfigRequestView::Delete { key: key@ },
            ConfigRequest::GetSecret { key, default } => ConfigRequestView::GetSecret {
                key: key@,
                default: default@,
            },
            ConfigRequest::SetSecret { key, value } => ConfigRequestView::SetSecret {
                key: key@,
                value: value@,
            },
            ConfigRequest::DeleteSecret { key } => ConfigRequestView::DeleteSecret { key: key@ },
            ConfigRequest::All => ConfigRequestView::All,
            ConfigRequest::List => ConfigRequestView::List,
        }
    }
}

/// A member of what comes with a request, or nothing.
pub open spec fn member_or_null(params: JsonView, key: Seq<char>) -> JsonView {
    match get_member(params, key) {
        Some(v) => v,
        None => JsonView::Null,
    }
}

/// The name of a secret in the name of a setting.
pub open spec fn secret_in(key: Seq<char>) -> Option<Seq<char>> {
    if starts_with_seq(key, "secret:"@) {
        Some(key.skip(7))
    } else {
        None
    }
}

/// What a plugin asks of its settings, or what is wrong with it.
pub open spec fn request_of(op: Seq<char>, params: JsonView) -> Result<
    ConfigRequestView,
    Seq<char>,
> {
    let key = text_member(params, "key"@);
    if op == "get"@ {
        let default = member_or_null(params, "default"@);
        match key {
            None => Err("config.get requires params.key"@),
            Some(k) => match secret_in(k) {
                Some(name) => if secret_name(name) {
                    Ok(ConfigRequestView::GetSecret { key: name, default })
                } else {
                    Ok(ConfigRequestView::Reply(default))
                },
                None => Ok(ConfigRequestView::Read { key: k, default }),
            },
        }
    } else if op == "set"@ {
        let value = member_or_null(params, "value"@);
        match key {
            None => Err("config.set requires params.key"@),
            Some(k) => match secret_in(k) {
                Some(name) => match value {
                    JsonView::Text(t) => if secret_name(name) {
                        Ok(ConfigRequestView::SetSecret { key: name, value: t })
                    } else {
                        Err("invalid secret key "@ + debug_text_of(name))
                    },
                    _ => Err("secret value must be a string"@),
                },
                None => Ok(ConfigRequestView::Write { key: k, value }),
            },
        }
    } else if op == "delete"@ {
        match key {
            None => Err("config.delete requires params.key"@),
            Some(k) => match secret_in(k) {
                Some(name) => if secret_name(name) {
                    Ok(ConfigRequestView::DeleteSecret { key: name })
                } else {
                    Err("invalid secret key "@ + debug_text_of(name))
                },
                None => Ok(ConfigRequestView::Delete { key: k }),
            },
        }
    } else if op == "all"@ {
        Ok(ConfigRequestView::All)
    } else if op == "list"@ {
        Ok(ConfigRequestView::List)
    } else {
        Err("unknown config op "@ + op)
    }
}

fn secret_part(key: &str) -> (r: Option<String>)
    ensures
        match r {
            Some(s) => secret_in(key@) == Some(s@),
            None => secret_in(key@) is None,
        },
{
    if starts_with(key, "secret:") {
        proof {
            reveal_strlit("secret:");
        }
        let cs: Vec<char> = chars_of(key);
        let name: String = slice_text(&cs, 7, cs.len());
        assert(name@ =~= key@.skip(7));
        Some(name)
    } else {
        None
    }
}

fn part_or_null(params: &Json, key: &str) -> (r: Json)
    ensures
        r@ == member_or_null(params@, key@),
{
    match params.member(key) {
        Some(v) => v.clone(),
        None => Json::Null,
    }
}

/// Reads what a plugin asks of its settings. Names that begin with `secret:` are those of secrets,
/// which are texts.
pub fn dispatch(op: &str, params: &Json) -> (r: Result<ConfigRequest, String>)
    ensures
        match (r, request_of(op@, params@)) {
            (Ok(x), Ok(v)) => x@ == v,
            (Err(e), Err(m)) => e@ == m,
            _ => false,
        },
{
    if same(op, "get") {
        let key: &str = match params.text_at("key") {
            Some(k) => k,
            None => {
                return Err("config.get requires params.key".to_string());
            },
        };
        let default: Json = part_or_null(params, "default");
        match secret_part(key) {
            Some(name) => if valid_secret_key(name.as_str()) {
                Ok(ConfigRequest::GetSecret { key: name, default })
            } else {
                Ok(ConfigRequest::Reply(default))
            },
            None => Ok(ConfigRequest::Read { key: key.to_string(), default }),
        }
    } else if same(op, "set") {
        let key: &str = match params.text_at("key") {
            Some(k) => k,
            None => {
                return Err("config.set requires params.key".to_string());
            },
        };
        let value: Json = part_or_null(params, "value");
        match secret_part(key) {
            Some(name) => match value {
                Json::Text(t) => match check_secret_key(name.as_str()) {
                    Ok(_) => Ok(ConfigRequest::SetSecret { key: name, value: t }),
                    Err(e) => Err(e),
                },
                _ => Err("secret value must be a string".to_string()),
            },
            None => Ok(ConfigRequest::Write { key: key.to_string(), value }),
        }
    } else if same(op, "delete") {
        let key: &str = match params.text_at("key") {
            Some(k) => k,
            None => {
                return Err("config.delete requires params.key".to_string());
            },
        };
        match secret_part(key) {
            Some(name) => match check_secret_key(name.as_str()) {
                Ok(_) => Ok(ConfigRequest::DeleteSecret { key: name }),
                Err(e) => Err(e),
            },
            None => Ok(ConfigRequest::Delete { key: key.to_string() }),
        }
    } else if same(op, "all") {
        Ok(ConfigRequest::All)
    } else if same(op, "list") {
        Ok(ConfigRequest::List)
    } else {
        Err(join("unknown config op ", op))
    }
}

/// The settings after a request.
pub open spec fn settings_after(
    settings: Seq<(Seq<char>, JsonView)>,
    request: ConfigRequestView,
) -> Seq<(Seq<char>, JsonView)> {
    match request {
        ConfigRequestView::Write { key, value } => with_member(settings, key, value),
        ConfigRequestView::Delete { key } => without_member(settings, key),
        _ => settings,
    }
}

/// The answer to a request that concerns the settings alone.
pub open spec fn settings_reply(
    settings: Seq<(Seq<char>, JsonView)>,
    request: ConfigRequestView,
) -> Option<JsonView> {
    match request {
        ConfigRequestView::Reply(j) => Some(j),
        ConfigRequestView::Read { key, default } => Some(setting_or(settings, key, default)),
        ConfigRequestView::Write { key: _, value } => Some(value),
        ConfigRequestView::Delete { key: _ } => Some(JsonView::Null),
        ConfigRequestView::All => Some(JsonView::Object(settings)),
        _ => None,
    }
}

/// Whether a request changes what is kept: a setting is written, or one that was there is dropped.
pub open spec fn changes_settings(
    settings: Seq<(Seq<char>, JsonView)>,
    request: ConfigRequestView,
) -> bool {
    match request {
        ConfigRequestView::Write { .. } => true,
        ConfigRequestView::Delete { key } => member_of(settings, key) is Some,
        _ => false,
    }
}

/// What came of a request on settings.
#[derive(Debug)]
pub struct Served {
    /// The settings as they are now.
    pub settings: Vec<(String, Json)>,
    /// Whether they have to be written.
    pub changed: bool,
    /// The answer, where the settings give one.
    pub reply: Option<Json>,
}

/// Carries out a request on the settings of a plugin. Requests on secrets and on the list of plugins
/// get no answer here.
pub fn serve(settings: Vec<(String, Json)>, request: &ConfigRequest) -> (r: Served)
    ensures
        members_view(r.settings@) == settings_after(members_view(settings@), request@),
        r.changed == changes_settings(members_view(settings@), request@),
        match r.reply {
            Some(j) => settings_reply(members_view(settings@), request@) == Some(j@),
            None => settings_reply(members_view(settings@), request@) is None,
        },
{
    match request {
        ConfigRequest::Reply(j) => Served { settings, changed: false, reply: Some(j.clone()) },
        ConfigRequest::Read { key, default } => {
            let all: Json = Json::Object(settings);
            assert(all@ == JsonView::Object(members_view(settings@)));
            let found: Json = get(&all, key.as_str(), default);
            let back: Vec<(String, Json)> = match all {
                Json::Object(members) => members,
                _ => Vec::new(),
            };
            Served { settings: back, changed: false, reply: Some(found) }
        },
        ConfigRequest::Write { key, value } => {
            let mut settings: Vec<(String, Json)> = settings;
            set_member(&mut settings, key.as_str(), value.clone());
            Served { settings, changed: true, reply: Some(value.clone()) }
        },
        ConfigRequest::Delete { key } => {
            let (settings, gone) = drop_member(settings, key.as_str());
            Served { settings, changed: gone, reply: Some(Json::Null) }
        },
        ConfigRequest::All => {
            let all: Json = Json::Object(settings);
            assert(all@ == JsonView::Object(members_view(settings@)));
            let copy: Json = all.clone();
            let back: Vec<(String, Json)> = match all {
                Json::Object(members) => members,
                _ => Vec::new(),
            };
            Served { settings: back, changed: false, reply: Some(copy) }
        },
        _ => Served { settings, changed: false, reply: None },
    }
}

/// A secret, from what the keychain of the system holds, or from the file that stands in for it where
/// it fails. There is none under a name that cannot be that of a secret.
pub fn get_secret(key: &str, keychain: Result<Option<String>, String>, file: Option<String>) -> (r:
    Option<String>)
    ensures
        r == if !secret_name(key@) {
            None
        } else {
            match keychain {
                Ok(found) => found,
                Err(_) => file,
            }
        },
{
    if !valid_secret_key(key) {
        return None;
    }
    match keychain {
        Ok(found) => found,
        Err(_) => file,
    }
}

/// The answer to a request for a secret, from what was found.
pub fn secret_reply(found: Option<&str>, default: &Json) -> (r: Json)
    ensures
        r@ == match found {
            Some(s) => JsonView::Text(s@),
            None => default@,
        },
{
    match found {
        Some(s) => text_value(s),
        None => default.clone(),
    }
}

/// The answer once a secret is kept: never the secret itself.
pub fn secret_receipt() -> (r: Json)
    ensures
        r@ == JsonView::Text("********"@),
{
    text_value("********")
}

/// What was set is read back, whatever default is given with the question.
pub proof fn what_is_set_is_read_back(
    settings: Seq<(Seq<char>, JsonView)>,
    key: Seq<char>,
    value: JsonView,
    default: JsonView,
)
    ensures
        settings_reply(
            settings_after(settings, ConfigRequestView::Write { key, value }),
            ConfigRequestView::Read { key, default },
        ) == Some(value),
{
    set_then_read(settings, key, value, key);
}

/// What was deleted is answered by the default.
pub proof fn what_is_deleted_is_gone(
    settings: Seq<(Seq<char>, JsonView)>,
    key: Seq<char>,
    default: JsonView,
)
    ensures
        settings_reply(
            settings_after(settings, ConfigRequestView::Delete { key }),
            ConfigRequestView::Read { key, default },
        ) == Some(default),
{
    drop_then_read(settings, key, key);
}

/// Whatever a plugin asks, the settings come to hold no secret: no request adds a setting whose name
/// begins with `secret:`.
pub proof fn secrets_do_not_become_settings(
    settings: Seq<(Seq<char>, JsonView)>,
    op: Seq<char>,
    params: JsonView,
    name: Seq<char>,
)
    requires
        request_of(op, params) is Ok,
        starts_with_seq(name, "secret:"@),
        member_of(settings, name) is None,
    ensures
        member_of(settings_after(settings, request_of(op, params)->Ok_0), name) is None,
{
    match request_of(op, params)->Ok_0 {
        ConfigRequestView::Write { key, value } => {
            set_then_read(settings, key, value, name);
        },
        ConfigRequestView::Delete { key } => {
            drop_then_read(settings, key, name);
        },
        _ => {},
    }
}

/// The text without all that it ends in.
pub open spec fn without_endings(s: Seq<char>, end: Seq<char>) -> Seq<char>
    decreases s.len(),
{
    if end.len() > 0 && ends_with_seq(s, end) {
        without_endings(s.take(s.len() - end.len()), end)
    } else {
        s
    }
}

/// The plugin whose settings a file holds.
pub open spec fn plugin_of(file: Seq<char>) -> Option<Seq<char>> {
    if ends_with_seq(file, ".json"@) && !ends_with_seq(file, ".json.tmp"@) {
        Some(without_endings(file, ".json"@))
    } else {
        None
    }
}

/// The plugin whose settings a file holds, if it is such a file.
pub fn plugin_of_file(file: &str) -> (r: Option<String>)
    ensures
        match r {
            Some(p) => plugin_of(file@) == Some(p@),
            None => plugin_of(file@) is None,
        },
{
    if !ends_with(file, ".json") || ends_with(file, ".json.tmp") {
        return None;
    }
    let mut rest: String = file.to_string();
    proof {
        reveal_strlit(".json");
    }
    while ends_with(rest.as_str(), ".json")
        invariant
            without_endings(rest@, ".json"@) == without_endings(file@, ".json"@),
            ".json"@.len() == 5,
        decreases rest@.len(),
    {
        let cs: Vec<char> = chars_of(rest.as_str());
        let shorter: String = slice_text(&cs, 0, cs.len() - 5);
        assert(shorter@ =~= rest@.take(rest@.len() - 5));
        rest = shorter;
    }
    Some(rest)
}

/// The plugins whose settings are kept in files of these names.
pub open spec fn plugins_of(files: Seq<Seq<char>>) -> Seq<Seq<char>>
    decreases files.len(),
{
    if files.len() == 0 {
        Seq::empty()
    } else {
        match plugin_of(files.last()) {
            Some(p) => plugins_of(files.drop_last()).push(p),
            None => plugins_of(files.drop_last()),
        }
    }
}

/// The plugins whose settings are kept in files of these names, in order.
pub fn list_plugins(files: &[String]) -> (r: Vec<String>)
    ensures
        texts_view(r@) == sorted(plugins_of(texts_view(files@)), text_order()),
{
    let ghost all = texts_view(files@);
    let mut out: Vec<String> = Vec::new();
    let mut i: usize = 0;
    assert(rows_view(out@) =~= plugins_of(all.take(0)));
    while i < files.len()
        invariant
            i <= files@.len(),
            all == texts_view(files@),
            rows_view(out@) == plugins_of(all.take(i as int)),
        decreases files@.len() - i,
    {
        assert(all.take(i + 1).drop_last() =~= all.take(i as int));
        assert(all.take(i + 1).last() == files@[i as int]@);
        if let Some(p) = plugin_of_file(files[i].as_str()) {
            let ghost before = out@;
            let ghost name = p@;
            out.push(p);
            assert(rows_view(out@) =~= rows_view(before).push(name));
        }
        i += 1;
    }
    assert(all.take(all.len() as int) =~= all);
    let r: Vec<String> = sort_texts(out);
    assert(texts_view(r@) =~= rows_view(r@));
    r
}

/// A plugin with its settings.
#[derive(Debug)]
pub struct PluginConfigEntry {
    pub id: String,
    pub config: Json,
}

/// What a [`PluginConfigEntry`] holds.
pub struct PluginConfigEntryView {
    pub id: Seq<char>,
    pub config: JsonView,
}

impl View for PluginConfigEntry {
    type V = PluginConfigEntryView;

    open spec fn view(&self) -> PluginConfigEntryView {
        PluginConfigEntryView { id: self.id@, config: self.config@ }
    }
}

/// The order of plugins.
pub open spec fn by_id() -> spec_fn(PluginConfigEntryView, PluginConfigEntryView) -> bool {
    |a: PluginConfigEntryView, b: PluginConfigEntryView| text_order()(a.id, b.id)
}

/// The settings of all plugins, by plugin.
pub fn snapshot(entries: Vec<PluginConfigEntry>) -> (r: Vec<PluginConfigEntry>)
    ensures
        rows_view(r@) == sorted(rows_view(entries@), by_id()),
{
    let before = |a: &PluginConfigEntry, b: &PluginConfigEntry| -> (r: bool)
        ensures
            r == by_id()(a@, b@),
        { text_before(a.id.as_str(), b.id.as_str()) };
    sort_list(entries, before, Ghost(by_id()))
}

} // verus!
