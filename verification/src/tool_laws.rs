//! What the capabilities that come along accept and answer, said of the operations and in no terms of how
//! they come to their results.

use vstd::prelude::*;

use crate::alerting::store::rows_view;
use crate::appctl::{app_ref, applescript_for, watch, AppRequest, Watch};
use crate::audio::{FileFact, Playback, VolumeFact};
use crate::browser::{
    check_response, compose_page, is_control, next_block, scheme_of, strip_script_style,
    validate_http_url, validate_scheme_url, without_blocks, PageText,
};
use crate::capability::{ema_step, Registry};
use crate::context::{cap_clipboard, first_piece, parse_applescript, parse_lsappinfo_bundle};
use crate::crypt::{decode_hex, hex_reads_back, hex_text};
use crate::desk_laws::no_text_at;
use crate::files::{check_file, Entry, EntryView, FileSearch, FileSearchView};
use crate::json::{Json, JsonView};
use crate::laws::{holds_at, members_are_read_by_name};
use crate::text::{
    byte_count, contains_seq, find_from, find_from_is_first, is_space, lower_ascii_seq, occurs_at,
    rfind_from, starts_with_seq, trim_seq,
};
use crate::values::text_member;

verus! {

proof fn lemma_text_at(j: JsonView, key: Seq<char>)
    ensures
        forall|t: Seq<char>| #[trigger]
            holds_at(j, key, JsonView::Text(t)) == (text_member(j, key) == Some(t)),
        no_text_at(j, key) == (text_member(j, key) is None),
{
    assert forall|t: Seq<char>| #[trigger]
        holds_at(j, key, JsonView::Text(t)) == (text_member(j, key) == Some(t)) by {
        members_are_read_by_name(j, key, JsonView::Text(t));
    }
    if let Some(x) = text_member(j, key) {
        assert(holds_at(j, key, JsonView::Text(x)));
    }
}

/// Whether a name can be that of an app: it is not empty, has at most 256 bytes, and holds neither a quote
/// nor a control character.
pub open spec fn is_app_name(app: Seq<char>) -> bool {
    &&& 0 < app.len()
    &&& byte_count(app) <= 256
    &&& forall|i: int|
        0 <= i < app.len() ==> #[trigger] app[i] != '"' && !(app[i] < ' ') && !('\u{7f}' <= app[i]
            <= '\u{9f}')
}

/// An app is asked to come to the front where nothing else is said, to launch or to quit; a script of at
/// most ten thousand bytes may take the place of that.
pub proof fn apps_are_asked_for_by_name(
    input: &Json,
    app: Seq<char>,
    action: Seq<char>,
    script: Seq<char>,
    r: Result<AppRequest, String>,
)
    requires
        call_ensures(crate::appctl::validate, (input,), r),
        holds_at(input@, "app"@, JsonView::Text(app)),
        holds_at(input@, "action"@, JsonView::Text(action)) || (action == "activate"@ && no_text_at(
            input@,
            "action"@,
        )),
        holds_at(input@, "script"@, JsonView::Text(script)) || (script.len() == 0 && no_text_at(
            input@,
            "script"@,
        )),
    ensures
        r is Ok == (is_app_name(app) && (action == "activate"@ || action == "launch"@ || action == "quit"@)
            && byte_count(script) <= 10000),
        r is Ok ==> r->Ok_0@.app == app && r->Ok_0@.action == action && r->Ok_0@.script == (if script.len()
            == 0 {
            None
        } else {
            Some(script)
        }),
{
    lemma_text_at(input@, "app"@);
    lemma_text_at(input@, "action"@);
    lemma_text_at(input@, "script"@);
    assert(app.contains('"') ==> !is_app_name(app)) by {
        if app.contains('"') {
            let i = choose|i: int| 0 <= i < app.len() && app[i] == '"';
            assert(app[i] == '"');
        }
    }
    if !app.contains('"') && !crate::browser::has_control(app) {
        assert forall|i: int| 0 <= i < app.len() implies #[trigger] app[i] != '"' && !(app[i] < ' ') && !(
        '\u{7f}' <= app[i] <= '\u{9f}') by {
            assert(app.contains(app[i]));
            assert(!is_control(app[i]));
        }
    }
    if script.len() == 0 {
        assert(script =~= Seq::<char>::empty());
        assert(byte_count(Seq::<char>::empty()) == 0);
    }
}

/// Without a name, nothing is asked of any app.
pub proof fn apps_have_names(input: &Json, r: Result<AppRequest, String>)
    requires
        call_ensures(crate::appctl::validate, (input,), r),
        no_text_at(input@, "app"@),
    ensures
        r is Err,
{
    lemma_text_at(input@, "app"@);
}

/// An app goes by its id where its name holds a dot and no space, and else by its name. A script is told
/// to it whole; else it is told to do one thing.
pub proof fn apps_are_told_what_to_do(
    app: &str,
    action: &str,
    script: &Option<String>,
    name: String,
    r: String,
)
    requires
        call_ensures(app_ref, (app,), name),
        call_ensures(applescript_for, (app, action, script), r),
    ensures
        !app@.contains('\\') && app@.contains('.') && !app@.contains(' ') ==> name@ == "application id \""@
            + app@ + "\""@,
        !app@.contains('\\') && (!app@.contains('.') || app@.contains(' ')) ==> name@ == "application \""@
            + app@ + "\""@,
        script is None ==> r@ == "tell "@ + name@ + " to "@ + action@,
        script is Some ==> r@ == "tell "@ + name@ + "\n"@ + script->0@ + "\nend tell"@,
{
    if !app@.contains('\\') {
        lemma_escaped(app@);
    }
}

proof fn lemma_escaped(s: Seq<char>)
    requires
        !s.contains('\\'),
    ensures
        crate::appctl::escaped(s) == s,
    decreases s.len(),
{
    if s.len() > 0 {
        assert(s.contains(s[0]));
        let rest = s.drop_first();
        assert forall|i: int| 0 <= i < rest.len() implies rest[i] != '\\' by {
            assert(s.contains(s[i + 1]));
        }
        lemma_escaped(rest);
        assert(seq![s[0]] + rest =~= s);
    } else {
        assert(crate::appctl::escaped(s) =~= s);
    }
}

/// What runs is left until it ends; once its time is over it is stopped, and before that looked at again.
pub proof fn runs_end_in_time(ended: bool, waited: u64, limit: u64, r: Watch)
    requires
        call_ensures(watch, (ended, waited, limit), r),
    ensures
        ended ==> r@ is Done,
        !ended && waited >= limit * 1000 ==> r@ is Kill,
        !ended && waited < limit * 1000 ==> r@ is Sleep,
{
}

/// The lower-case form of a letter.
pub open spec fn lowers_to(a: char, b: char) -> bool {
    b == a || ('A' <= a <= 'Z' && b as int == a as int + 32)
}

/// Whether what stands behind the last dot of a path is this extension, in whatever case.
pub open spec fn has_extension(path: Seq<char>, ext: Seq<char>) -> bool {
    &&& path.len() > ext.len()
    &&& path[path.len() - ext.len() - 1] == '.'
    &&& forall|i: int|
        0 <= i < ext.len() ==> ext[i] != '.' && lowers_to(#[trigger] path[path.len() - ext.len() + i], ext[i])
}

proof fn lemma_extension(path: Seq<char>, ext: Seq<char>)
    requires
        has_extension(path, ext),
        forall|i: int| 0 <= i < ext.len() ==> 'a' <= #[trigger] ext[i] <= 'z' || '0' <= ext[i] <= '9',
    ensures
        crate::audio::extension_of(path) == ext,
{
    reveal_strlit(".");
    let at = path.len() - ext.len() - 1;
    assert forall|i: int| at < i <= path.len() - 1 implies #[trigger] path[i] != '.' by {
        let k = i - (path.len() - ext.len());
        assert(lowers_to(path[path.len() - ext.len() + k], ext[k]));
        assert('a' <= ext[k] <= 'z' || '0' <= ext[k] <= '9');
    }
    lemma_last_dot(path, path.len() - 1, at);
    let e = path.skip(at + 1);
    assert forall|i: int| 0 <= i < ext.len() implies crate::text::lower_ascii(#[trigger] e[i]) == ext[i] by {
        assert(e[i] == path[path.len() - ext.len() + i]);
        assert('a' <= ext[i] <= 'z' || '0' <= ext[i] <= '9');
    }
    assert(lower_ascii_seq(e) =~= ext);
}

proof fn lemma_last_dot(path: Seq<char>, from: int, at: int)
    requires
        0 <= at <= from < path.len(),
        path[at] == '.',
        forall|i: int| at < i <= from ==> #[trigger] path[i] != '.',
    ensures
        rfind_from(path, "."@, from) == Some(at),
    decreases from - at,
{
    reveal_strlit(".");
    if from == at {
        assert(path.subrange(at, at + 1) =~= "."@);
    } else {
        if occurs_at(path, "."@, from) {
            assert(path.subrange(from, from + 1)[0] == path[from]);
        }
        lemma_last_dot(path, from - 1, at);
    }
}

/// A file with one of eight extensions is played, where it is there and the volume is in its bounds.
pub proof fn sounds_go_by_their_extension(
    input: &Json,
    file: &FileFact,
    volume: VolumeFact,
    path: Seq<char>,
    ext: Seq<char>,
    r: Result<Playback, String>,
)
    requires
        call_ensures(crate::audio::validate, (input, file, volume), r),
        holds_at(input@, "path"@, JsonView::Text(path)),
        has_extension(path, ext),
        forall|i: int| 0 <= i < ext.len() ==> 'a' <= #[trigger] ext[i] <= 'z' || '0' <= ext[i] <= '9',
    ensures
        r is Ok == (*file is File && !(volume is Outside) && (ext == "wav"@ || ext == "mp3"@ || ext == "aiff"@
            || ext == "aif"@ || ext == "aac"@ || ext == "m4a"@ || ext == "ogg"@ || ext == "flac"@)),
        r is Ok ==> r->Ok_0.path@ == path,
        r is Ok ==> r->Ok_0.wait == holds_at(input@, "wait"@, JsonView::Bool(true)),
{
    lemma_text_at(input@, "path"@);
    lemma_extension(path, ext);
    members_are_read_by_name(input@, "wait"@, JsonView::Bool(true));
}

/// Whether a text begins with another, in whatever case.
pub open spec fn begins_in_any_case(s: Seq<char>, p: Seq<char>) -> bool {
    s.len() >= p.len() && forall|i: int| 0 <= i < p.len() ==> lowers_to(#[trigger] s[i], p[i])
}

proof fn lemma_begins(s: Seq<char>, p: Seq<char>)
    requires
        forall|i: int| 0 <= i < p.len() ==> !('A' <= #[trigger] p[i] <= 'Z'),
    ensures
        starts_with_seq(lower_ascii_seq(s), p) == begins_in_any_case(s, p),
{
    let low = lower_ascii_seq(s);
    if begins_in_any_case(s, p) {
        assert forall|i: int| 0 <= i < p.len() implies low[i] == p[i] by {
            assert(lowers_to(s[i], p[i]));
            assert(!('A' <= p[i] <= 'Z'));
        }
        assert(low.subrange(0, p.len() as int) =~= p);
    }
    if starts_with_seq(low, p) {
        assert forall|i: int| 0 <= i < p.len() implies lowers_to(#[trigger] s[i], p[i]) by {
            assert(low.subrange(0, p.len() as int)[i] == low[i]);
        }
    }
}

/// Whether a text holds neither white space nor control characters.
pub open spec fn is_unbroken(s: Seq<char>) -> bool {
    forall|i: int|
        0 <= i < s.len() ==> !is_space(#[trigger] s[i]) && !(s[i] < ' ') && !('\u{7f}' <= s[i] <= '\u{9f}')
}

proof fn lemma_unbroken(s: Seq<char>)
    ensures
        crate::browser::has_gap(s) == !is_unbroken(s),
{
    if is_unbroken(s) {
        assert forall|i: int| 0 <= i < s.len() implies !(is_control(#[trigger] s[i]) || is_space(s[i])) by {}
    }
    if !crate::browser::has_gap(s) {
        assert forall|i: int| 0 <= i < s.len() implies !is_space(#[trigger] s[i]) && !(s[i] < ' ') && !(
        '\u{7f}' <= s[i] <= '\u{9f}') by {
            assert(!(is_control(s[i]) || is_space(s[i])));
        }
    }
}

/// A page has an address of at most 2048 bytes that begins with `http://` or `https://` and is unbroken.
pub proof fn pages_have_web_addresses(url: &str, r: Result<(), String>)
    requires
        call_ensures(validate_http_url, (url,), r),
    ensures
        r is Ok == ((begins_in_any_case(url@, "http://"@) || begins_in_any_case(url@, "https://"@)) && byte_count(
            url@,
        ) <= 2048 && is_unbroken(url@)),
{
    reveal_strlit("http://");
    reveal_strlit("https://");
    lemma_begins(url@, "http://"@);
    lemma_begins(url@, "https://"@);
    lemma_unbroken(url@);
}

/// Another address is opened by its scheme, two to thirty letters, digits, pluses, dashes and dots, the
/// first of them a letter, in front of its first colon. The web has its own way, and schemes that lead
/// into files, scripts or the browser itself are refused.
pub proof fn schemes_are_opened_unless_barred(url: &str, scheme: Seq<char>, rest: Seq<char>, r: Result<String, String>)
    requires
        call_ensures(validate_scheme_url, (url,), r),
        url@ == scheme + seq![':'] + rest,
        2 <= scheme.len() <= 30,
        forall|i: int|
            0 <= i < scheme.len() ==> 'a' <= #[trigger] scheme[i] <= 'z' || (i > 0 && ('0' <= scheme[i] <= '9'
                || scheme[i] == '+' || scheme[i] == '-' || scheme[i] == '.')),
        byte_count(scheme) == scheme.len(),
        byte_count(url@) <= 2048,
        is_unbroken(url@),
    ensures
        r is Ok == (scheme != "http"@ && scheme != "https"@ && scheme != "file"@ && scheme != "javascript"@
            && scheme != "data"@ && scheme != "vbscript"@ && scheme != "about"@ && scheme != "blob"@ && scheme
            != "view-source"@ && scheme != "jar"@ && scheme != "ws"@ && scheme != "wss"@ && scheme
            != "chrome"@ && scheme != "chromium"@ && scheme != "chrome-extension"@ && scheme
            != "moz-extension"@ && scheme != "intent"@),
        r is Ok ==> r->Ok_0@ == scheme,
{
    reveal_strlit(":");
    lemma_unbroken(url@);
    let n = scheme.len() as int;
    find_from_is_first(url@, ":"@, 0);
    assert(url@.subrange(n, n + 1) =~= ":"@);
    assert(occurs_at(url@, ":"@, n));
    let i = find_from(url@, ":"@, 0)->0;
    if i < n {
        assert(url@.subrange(i, i + 1)[0] == url@[i]);
        assert(url@[i] == scheme[i]);
        assert('a' <= scheme[i] <= 'z' || (i > 0 && ('0' <= scheme[i] <= '9' || scheme[i] == '+' || scheme[i]
            == '-' || scheme[i] == '.')));
    }
    assert(i == n);
    assert(url@.take(n) =~= scheme);
    assert(lower_ascii_seq(scheme) =~= scheme) by {
        assert forall|k: int| 0 <= k < n implies crate::text::lower_ascii(#[trigger] scheme[k]) == scheme[k] by {}
    }
    assert(scheme_of(url@) == Some(scheme));
    assert('a' <= scheme[0] <= 'z');
}

/// Whether there is no opening angle bracket in a text.
pub open spec fn holds_no_tag(s: Seq<char>) -> bool {
    forall|i: int| 0 <= i < s.len() ==> #[trigger] s[i] != '<'
}

/// A script is cut out of a page with all that is in it, and nothing else is; a style likewise. What is
/// never closed is cut to the end.
pub proof fn scripts_and_styles_are_cut_out(
    html: &str,
    a: Seq<char>,
    b: Seq<char>,
    c: Seq<char>,
    r: String,
)
    requires
        call_ensures(strip_script_style, (html,), r),
        holds_no_tag(a),
        holds_no_tag(b),
        holds_no_tag(c),
    ensures
        html@ == a + "<script"@ + b + "</script>"@ + c ==> r@ == a + c,
        html@ == a + "<style"@ + b + "</style>"@ + c ==> r@ == a + c,
        html@ == a + "<script"@ + b ==> r@ == a,
        html@ == a ==> r@ == a,
{
    lemma_tag_texts();
    if html@ == a + "<script"@ + b + "</script>"@ + c {
        lemma_cut(a, "<script"@, b, "</script>"@, c);
    }
    if html@ == a + "<style"@ + b + "</style>"@ + c {
        lemma_cut(a, "<style"@, b, "</style>"@, c);
    }
    if html@ == a + "<script"@ + b {
        let t = html@;
        let low = lower_ascii_seq(t);
        let n = a.len() as int;
        assert forall|i: int| 0 <= i < t.len() && i != n implies #[trigger] low[i] != '<' by {
            if i < n {
                assert(t[i] == a[i]);
            } else if i >= n + 7 {
                assert(t[i] == b[i - n - 7]);
            } else {
                assert(t[i] == "<script"@[i - n]);
            }
        }
        lemma_found(low, "<script"@, 0, n);
        lemma_not_found(low, "<style"@, 0);
        lemma_not_found(low, "</script>"@, n);
        assert(t.subrange(0, n) =~= a);
    }
    if html@ == a {
        let low = lower_ascii_seq(a);
        assert forall|i: int| 0 <= i < a.len() implies #[trigger] low[i] != '<' by {
            assert(a[i] != '<');
        }
        lemma_not_found(low, "<script"@, 0);
        lemma_not_found(low, "<style"@, 0);
        assert(a.skip(0) =~= a);
    }
}

proof fn lemma_tag_texts()
    ensures
        "<script"@.len() == 7 && "<style"@.len() == 6 && "</script>"@.len() == 9 && "</style>"@.len() == 8,
        "<script"@[0] == '<' && "<style"@[0] == '<' && "</script>"@[0] == '<' && "</style>"@[0] == '<',
        "<script"@[1] == 's' && "<style"@[1] == 's' && "</script>"@[1] == '/' && "</style>"@[1] == '/',
        "<script"@[2] == 'c' && "<style"@[2] == 't',
        forall|i: int| 0 < i < 7 ==> #[trigger] "<script"@[i] != '<',
        forall|i: int| 0 < i < 6 ==> #[trigger] "<style"@[i] != '<',
        forall|i: int| 0 < i < 9 ==> #[trigger] "</script>"@[i] != '<',
        forall|i: int| 0 < i < 8 ==> #[trigger] "</style>"@[i] != '<',
        forall|i: int| 0 <= i < 7 ==> !('A' <= #[trigger] "<script"@[i] <= 'Z'),
        forall|i: int| 0 <= i < 6 ==> !('A' <= #[trigger] "<style"@[i] <= 'Z'),
        forall|i: int| 0 <= i < 9 ==> !('A' <= #[trigger] "</script>"@[i] <= 'Z'),
        forall|i: int| 0 <= i < 8 ==> !('A' <= #[trigger] "</style>"@[i] <= 'Z'),
{
    reveal_strlit("<script");
    reveal_strlit("<style");
    reveal_strlit("</script>");
    reveal_strlit("</style>");
}

proof fn lemma_not_found(low: Seq<char>, p: Seq<char>, from: int)
    requires
        p.len() > 2,
        p[0] == '<',
        forall|i: int|
            from <= i && i + p.len() <= low.len() ==> #[trigger] low[i] != '<' || low[i + 1] != p[1] || low[i + 2]
                != p[2],
    ensures
        find_from(low, p, from) is None,
{
    find_from_is_first(low, p, from);
    if let Some(i) = find_from(low, p, from) {
        assert(low.subrange(i, i + p.len())[0] == low[i]);
        assert(low.subrange(i, i + p.len())[1] == low[i + 1]);
        assert(low.subrange(i, i + p.len())[2] == low[i + 2]);
    }
}

proof fn lemma_found(low: Seq<char>, p: Seq<char>, from: int, at: int)
    requires
        p.len() > 2,
        p[0] == '<',
        0 <= from <= at,
        at + p.len() <= low.len(),
        forall|i: int| 0 <= i < p.len() ==> #[trigger] p[i] == low[at + i],
        forall|i: int|
            from <= i < at ==> #[trigger] low[i] != '<' || low[i + 1] != p[1] || low[i + 2] != p[2],
    ensures
        find_from(low, p, from) == Some(at),
{
    find_from_is_first(low, p, from);
    assert(low.subrange(at, at + p.len()) =~= p);
    assert(occurs_at(low, p, at));
    let i = find_from(low, p, from)->0;
    if i < at {
        assert(low.subrange(i, i + p.len())[0] == low[i]);
        assert(low.subrange(i, i + p.len())[1] == low[i + 1]);
        assert(low.subrange(i, i + p.len())[2] == low[i + 2]);
    }
}

proof fn lemma_cut(a: Seq<char>, open: Seq<char>, b: Seq<char>, close: Seq<char>, c: Seq<char>)
    requires
        holds_no_tag(a),
        holds_no_tag(b),
        holds_no_tag(c),
        (open == "<script"@ && close == "</script>"@) || (open == "<style"@ && close == "</style>"@),
    ensures
        crate::browser::stripped(a + open + b + close + c) == a + c,
{
    lemma_tag_texts();
    let t = a + open + b + close + c;
    let low = lower_ascii_seq(t);
    let n = a.len() as int;
    let m = n + open.len() + b.len();
    let e = m + close.len();
    assert(t.len() == e + c.len());
    assert forall|i: int| 0 <= i < t.len() && i != n && i != m implies #[trigger] low[i] != '<' by {
        if i < n {
            assert(t[i] == a[i]);
        } else if i < n + open.len() {
            assert(t[i] == open[i - n]);
        } else if i < m {
            assert(t[i] == b[i - n - open.len()]);
        } else if i < e {
            assert(t[i] == close[i - m]);
        } else {
            assert(t[i] == c[i - e]);
        }
    }
    assert forall|i: int| 0 <= i < open.len() implies #[trigger] open[i] == low[n + i] by {
        assert(t[n + i] == open[i]);
    }
    assert forall|i: int| 0 <= i < close.len() implies #[trigger] close[i] == low[m + i] by {
        assert(t[m + i] == close[i]);
    }
    assert(close[1] == low[m + 1] && open[1] == low[n + 1] && open[2] == low[n + 2]);
    lemma_found(low, open, 0, n);
    let other = if open == "<script"@ {
        "<style"@
    } else {
        "<script"@
    };
    lemma_not_found(low, other, 0);
    lemma_found(low, close, n, m);
    lemma_not_found(low, "<script"@, e);
    lemma_not_found(low, "<style"@, e);
    assert(next_block(low, 0) == Some((n, close)));
    assert(without_blocks(t, low, e) == t.skip(e));
    assert(t.skip(e) =~= c);
    assert(t.subrange(0, n) =~= a);
}

/// Only HTML of at most two mebibytes is read.
pub proof fn only_short_html_is_read(content_type: Option<&str>, length: Option<u64>, r: Result<(), String>)
    requires
        call_ensures(check_response, (content_type, length), r),
    ensures
        r is Ok == ((content_type is Some ==> begins_in_any_case(content_type->0@, "text/html"@)) && (length
            is Some ==> length->0 <= 2 * 1024 * 1024)),
{
    reveal_strlit("text/html");
    if let Some(t) = content_type {
        lemma_begins(t@, "text/html"@);
    }
}

/// A text of a page is cut where it has more than a hundred thousand characters, and then says so.
pub proof fn long_pages_are_cut(title: Option<Vec<String>>, body: Vec<String>, r: PageText)
    requires
        call_ensures(compose_page, (title, body), r),
    ensures
        r@.text.len() <= 100000,
        r@.truncated ==> r@.text.len() == 100000,
        title is None ==> r@.title.len() == 0,
{
}

/// What stands before the first line end names the app in front, what stands behind it the title of its
/// window, both without white space around them; there is no title where nothing is left of it.
pub proof fn the_first_line_names_the_app(
    out: &str,
    app: Seq<char>,
    title: Seq<char>,
    r: (String, Option<String>),
)
    requires
        call_ensures(parse_applescript, (out,), r),
        !app.contains('\n'),
        out@ == app + seq!['\n'] + title,
    ensures
        r.0@ == trim_seq(app),
        trim_seq(title).len() == 0 ==> r.1 is None,
        trim_seq(title).len() > 0 ==> r.1 is Some && r.1->0@ == trim_seq(title),
{
    reveal_strlit("\n");
    let n = app.len() as int;
    find_from_is_first(out@, "\n"@, 0);
    assert(out@.subrange(n, n + 1) =~= "\n"@);
    assert(occurs_at(out@, "\n"@, n));
    let i = find_from(out@, "\n"@, 0)->0;
    if i < n {
        assert(out@.subrange(i, i + 1)[0] == out@[i]);
        assert(out@[i] == app[i]);
        assert(app.contains(app[i]));
    }
    assert(out@.take(n) =~= app);
    assert(out@.skip(n + 1) =~= title);
}

/// The id of a bundle stands in quotes behind its label and the equals sign.
pub proof fn bundle_ids_stand_in_quotes(out: &str, id: Seq<char>, rest: Seq<char>, r: Option<String>)
    requires
        call_ensures(parse_lsappinfo_bundle, (out,), r),
        id.len() > 0,
        id != seq!['='],
        !id.contains('"'),
        out@ == "\"bundleID\"=\""@ + id + "\""@ + rest,
    ensures
        r is Some,
        r->0@ == id,
{
    reveal_strlit("\"bundleID\"=\"");
    reveal_strlit("bundleID");
    reveal_strlit("\"");
    reveal_strlit("=");
    let t = out@;
    find_from_is_first(t, "bundleID"@, 0);
    assert(t.subrange(1, 9) =~= "bundleID"@);
    assert(occurs_at(t, "bundleID"@, 1));
    if occurs_at(t, "bundleID"@, 0) {
        assert(t.subrange(0, 8)[0] == t[0]);
    }
    assert(find_from(t, "bundleID"@, 0) == Some(1int));
    assert(t.skip(9) =~= seq!['"', '=', '"'] + id + seq!['"'] + rest);
    lemma_pieces(id, rest);
}

proof fn lemma_quote(s: Seq<char>, from: int, at: int)
    requires
        0 <= from <= at < s.len(),
        s[at] == '"',
        forall|i: int| from <= i < at ==> #[trigger] s[i] != '"',
    ensures
        find_from(s, "\""@, from) == Some(at),
{
    reveal_strlit("\"");
    find_from_is_first(s, "\""@, from);
    assert(s.subrange(at, at + 1) =~= "\""@);
    assert(occurs_at(s, "\""@, at));
    let i = find_from(s, "\""@, from)->0;
    if i < at {
        assert(s.subrange(i, i + 1)[0] == s[i]);
    }
}

proof fn lemma_pieces(id: Seq<char>, rest: Seq<char>)
    requires
        id.len() > 0,
        id != seq!['='],
        !id.contains('"'),
    ensures
        first_piece(seq!['"', '=', '"'] + id + seq!['"'] + rest, 0) == Some(id),
{
    reveal_strlit("=");
    let s = seq!['"', '=', '"'] + id + seq!['"'] + rest;
    let n = id.len() as int;
    assert("="@ =~= seq!['=']);
    assert forall|i: int| 3 <= i < 3 + n implies #[trigger] s[i] != '"' by {
        assert(s[i] == id[i - 3]);
        assert(id.contains(id[i - 3]));
    }
    lemma_quote(s, 0, 0);
    lemma_quote(s, 1, 2);
    lemma_quote(s, 3, 3 + n);
    assert(s.subrange(3, 3 + n) =~= id);
    assert(first_piece(s, 3) == Some(id));
    assert(s.subrange(1, 2) =~= "="@);
    assert(first_piece(s, 1) == first_piece(s, 3));
    assert(s.subrange(0, 0).len() == 0);
    assert(first_piece(s, 0) == first_piece(s, 1));
}

/// A text on the clipboard is shown up to five hundred characters, and marked where it is longer.
pub proof fn long_clippings_are_cut(text: &str, r: Json, shown: Seq<char>)
    requires
        call_ensures(cap_clipboard, (text,), r),
        holds_at(r@, "text"@, JsonView::Text(shown)),
    ensures
        text@.len() <= 500 ==> shown == text@ && holds_at(r@, "truncated"@, JsonView::Bool(false)),
        text@.len() > 500 ==> shown == text@.take(500) && holds_at(r@, "truncated"@, JsonView::Bool(true)),
{
    reveal_strlit("text");
    reveal_strlit("truncated");
    assert("text"@.len() == 4 && "truncated"@.len() == 9);
    let members = r@->Object_0;
    assert(members.len() == 2);
    assert(members[0].0 == "text"@ && members[1].0 == "truncated"@);
    let i = choose|i: int|
        0 <= i < members.len() && #[trigger] members[i] == ("text"@, JsonView::Text(shown)) && (forall|k: int|
            0 <= k < i ==> (#[trigger] members[k]).0 != "text"@);
    assert(i == 0);
}

/// A file is read where it is one and has at most two mebibytes.
pub proof fn only_short_files_are_read(path: &str, is_file: bool, size: u64, r: Result<(), String>)
    requires
        call_ensures(check_file, (path, is_file, size), r),
    ensures
        r is Ok == (is_file && size <= 2 * 1024 * 1024),
{
}

proof fn lemma_entries(s: FileSearchView, entries: Seq<EntryView>, i: int, path: Seq<char>)
    requires
        0 <= i <= entries.len(),
        !s.truncated,
        s.found.len() <= 100,
    ensures
        crate::files::seen_entries(s, entries, i).pattern == s.pattern,
        !crate::files::seen_entries(s, entries, i).truncated ==> {
            &&& crate::files::seen_entries(s, entries, i).found.contains(path) == (s.found.contains(path)
                || exists|k: int|
                i <= k < entries.len() && (#[trigger] entries[k]).path == path && contains_seq(
                    entries[k].name,
                    s.pattern,
                ))
            &&& crate::files::seen_entries(s, entries, i).pending.contains(path) == (s.pending.contains(path)
                || exists|k: int|
                i <= k < entries.len() && (#[trigger] entries[k]).path == path && entries[k].is_dir)
        },
        crate::files::seen_entries(s, entries, i).truncated ==> crate::files::seen_entries(
            s,
            entries,
            i,
        ).found.len() == 100,
    decreases entries.len() - i,
{
    if i < entries.len() {
        let e = entries[i];
        let fits = contains_seq(e.name, s.pattern);
        if !(fits && s.found.len() >= 100) {
            let next = crate::files::seen_entry(s, e);
            lemma_entries(next, entries, i + 1, path);
            lemma_pushed(s.found, e.path, path);
            lemma_pushed(s.pending, e.path, path);
            let after = crate::files::seen_entries(s, entries, i);
            if exists|k: int|
                i <= k < entries.len() && (#[trigger] entries[k]).path == path && contains_seq(
                    entries[k].name,
                    s.pattern,
                ) {
                let k = choose|k: int|
                    i <= k < entries.len() && (#[trigger] entries[k]).path == path && contains_seq(
                        entries[k].name,
                        s.pattern,
                    );
                if k > i {
                    assert(entries[k].path == path);
                }
            }
            if exists|k: int| i <= k < entries.len() && (#[trigger] entries[k]).path == path && entries[k].is_dir {
                let k = choose|k: int|
                    i <= k < entries.len() && (#[trigger] entries[k]).path == path && entries[k].is_dir;
                if k > i {
                    assert(entries[k].path == path);
                }
            }
            assert(entries[i].path == e.path);
        }
    }
}

/// A list with one more item holds what it held, and that item.
pub proof fn lemma_pushed<T>(s: Seq<T>, x: T, y: T)
    ensures
        s.push(x).contains(y) == (s.contains(y) || x == y),
{
    if s.contains(y) {
        let i = choose|i: int| 0 <= i < s.len() && s[i] == y;
        assert(s.push(x)[i] == y);
    }
    if x == y {
        assert(s.push(x)[s.len() as int] == y);
    }
    if s.push(x).contains(y) {
        let i = choose|i: int| 0 <= i < s.push(x).len() && s.push(x)[i] == y;
        if i < s.len() {
            assert(s[i] == y);
        }
    }
}

/// A search finds the entries whose name holds its pattern and goes on into the directories among them all;
/// it stops at a hundred, and then says so.
pub proof fn searches_find_names_that_hold_the_pattern(search: &mut FileSearch, entries: &Vec<Entry>, path: Seq<char>)
    requires
        call_ensures(FileSearch::take_entries, (search, entries), ()),
        !old(search)@.truncated,
        old(search)@.found.len() <= 100,
    ensures
        final(search)@.found.len() <= 100,
        final(search)@.pattern == old(search)@.pattern,
        final(search)@.truncated ==> final(search)@.found.len() == 100,
        !final(search)@.truncated ==> {
            &&& final(search)@.found.contains(path) == (old(search)@.found.contains(path) || exists|k: int|
                0 <= k < entries@.len() && (#[trigger] entries@[k])@.path == path && contains_seq(
                    entries@[k]@.name,
                    old(search)@.pattern,
                ))
            &&& final(search)@.pending.contains(path) == (old(search)@.pending.contains(path)
                || exists|k: int|
                0 <= k < entries@.len() && (#[trigger] entries@[k])@.path == path && entries@[k]@.is_dir)
        },
{
    let all = rows_view(entries@);
    lemma_entries(old(search)@, all, 0, path);
    assert forall|k: int| 0 <= k < all.len() implies all[k] == (#[trigger] entries@[k])@ by {}
    if exists|k: int|
        0 <= k < all.len() && (#[trigger] all[k]).path == path && contains_seq(all[k].name, old(search)@.pattern) {
        let k = choose|k: int|
            0 <= k < all.len() && (#[trigger] all[k]).path == path && contains_seq(
                all[k].name,
                old(search)@.pattern,
            );
        assert(all[k] == entries@[k]@);
    }
    if exists|k: int| 0 <= k < all.len() && (#[trigger] all[k]).path == path && all[k].is_dir {
        let k = choose|k: int| 0 <= k < all.len() && (#[trigger] all[k]).path == path && all[k].is_dir;
        assert(all[k] == entries@[k]@);
    }
    if exists|k: int|
        0 <= k < entries@.len() && (#[trigger] entries@[k])@.path == path && contains_seq(
            entries@[k]@.name,
            old(search)@.pattern,
        ) {
        let k = choose|k: int|
            0 <= k < entries@.len() && (#[trigger] entries@[k])@.path == path && contains_seq(
                entries@[k]@.name,
                old(search)@.pattern,
            );
        assert(all[k].path == path);
    }
    if exists|k: int| 0 <= k < entries@.len() && (#[trigger] entries@[k])@.path == path && entries@[k]@.is_dir {
        let k = choose|k: int|
            0 <= k < entries@.len() && (#[trigger] entries@[k])@.path == path && entries@[k]@.is_dir;
        assert(all[k].path == path);
    }
}

/// Bytes written in hexadecimal digits read back.
pub proof fn hexadecimal_reads_back(bytes: &[u8], text: String, read: &str, r: Result<Vec<u8>, String>)
    requires
        call_ensures(hex_text, (bytes,), text),
        read@ == text@,
        call_ensures(decode_hex, (read,), r),
    ensures
        r is Ok,
        r->Ok_0@ == bytes@,
{
    hex_reads_back(bytes@);
}

/// The average after a call is seven parts of what it was and one of the new time, rounded down.
pub proof fn averages_move_by_an_eighth(before: i64, sample: i64, r: i64)
    requires
        call_ensures(ema_step, (before, sample), r),
        before >= 0,
        sample >= 0,
    ensures
        8 * r <= 7 * before + sample < 8 * (r + 1),
{
}

/// A call that is answered is remembered in the rows of its plugin for its capability and in no other: its
/// time, and the average with its length in it, or its length where there was none. It counts as done.
pub proof fn answered_calls_are_remembered(
    registry: &mut Registry,
    capability: &str,
    plugin_id: &str,
    elapsed: i64,
    now: i64,
    i: int,
    before: i64,
    average: i64,
)
    requires
        call_ensures(Registry::touch, (registry, capability, plugin_id, elapsed, now), ()),
        0 <= i < old(registry)@.rows.len(),
        call_ensures(ema_step, (before, elapsed), average),
    ensures
        final(registry)@.rows.len() == old(registry)@.rows.len(),
        ({
            let a = old(registry)@.rows[i];
            let b = final(registry)@.rows[i];
            let own = a.id == capability@ && a.plugin_id == plugin_id@;
            &&& !own ==> b == a
            &&& own ==> b.last_used_at == Some(now) && b.id == a.id && b.plugin_id == a.plugin_id && b.priority
                == a.priority && b.enabled == a.enabled && b.version == a.version
            &&& own && a.avg_latency_ms is None ==> b.avg_latency_ms == Some(elapsed)
            &&& own && a.avg_latency_ms == Some(before) ==> b.avg_latency_ms == Some(average)
        }),
        final(registry)@.calls.len() == old(registry)@.calls.len() + 1,
        final(registry)@.calls.last().capability == capability@ && final(registry)@.calls.last().plugin_id
            == plugin_id@ && final(registry)@.calls.last().result == "ok"@ && final(
            registry)@.calls.last().error_kind is None,
{
}

} // verus!
