//! Driving other applications by AppleScript: what is asked for, the script, and what came of it.

use vstd::prelude::*;

use crate::browser::{has_control, holds_control};
use crate::json::{Json, JsonView};
use crate::text::{
    byte_count, byte_len, chars_of, complaint, decimal, decimal_seq, has_char, join, join3, same, trim, trim_seq,
};
use crate::values::{and_member, empty_object, no_members, text_member, text_or};
use crate::words::{first_chars, signed_decimal, signed_seq, take_chars};

verus! {

/// How many bytes the name of an application has at most.
pub const APP_MAX: usize = 256;

/// How many bytes a script has at most.
pub const SCRIPT_MAX: usize = 10000;

/// How many seconds a script may run.
pub const RUN_TIMEOUT: u64 = 60;

/// How many characters of what a script prints are handed out.
pub const OUTPUT_CAP: usize = 4000;

/// A request to drive an application.
#[derive(Debug)]
pub struct AppRequest {
    pub app: String,
    pub action: String,
    pub script: Option<String>,
}

/// What an [`AppRequest`] holds.
pub struct AppRequestView {
    pub app: Seq<char>,
    pub action: Seq<char>,
    pub script: Option<Seq<char>>,
}

impl View for AppRequest {
    type V = AppRequestView;

    open spec fn view(&self) -> AppRequestView {
        AppRequestView {
            app: self.app@,
            action: self.action@,
            script: match self.script {
                Some(s) => Some(s@),
                None => None,
            },
        }
    }
}

/// The script that a request carries: none where it is empty.
pub open spec fn script_in(input: JsonView) -> Option<Seq<char>> {
    match text_member(input, "script"@) {
        Some(s) => if s.len() == 0 {
            None
        } else {
            Some(s)
        },
        None => None,
    }
}

/// What is wrong with a request to drive an application.
pub open spec fn request_complaint(input: JsonView) -> Option<Seq<char>> {
    let action = text_or(input, "action"@, "activate"@);
    match text_member(input, "app"@) {
        None => Some("invalid input: app (string) required"@),
        Some(app) => if app.len() == 0 {
            Some("invalid input: app must be non-empty"@)
        } else if byte_count(app) > APP_MAX {
            Some("invalid input: app must be ≤256 chars"@)
        } else if app.contains('"') || has_control(app) {
            Some("invalid input: app must not contain quotes or control chars"@)
        } else if action != "activate"@ && action != "launch"@ && action != "quit"@ {
            Some("invalid input: action must be activate|launch|quit, got "@ + action)
        } else {
            match script_in(input) {
                Some(s) => if byte_count(s) > SCRIPT_MAX {
                    Some("invalid input: script must be ≤10000 chars"@)
                } else {
                    None
                },
                None => None,
            }
        },
    }
}

/// What a request to drive an application asks for, once nothing is wrong with it.
pub open spec fn request_of(input: JsonView) -> AppRequestView {
    AppRequestView {
        app: text_or(input, "app"@, Seq::empty()),
        action: text_or(input, "action"@, "activate"@),
        script: script_in(input),
    }
}

/// Reads a request to drive an application. The name of the application goes into the text of a
/// script, so it may hold neither quotes nor control characters.
pub fn validate(input: &Json) -> (r: Result<AppRequest, String>)
    ensures
        complaint(r) == request_complaint(input@),
        r is Ok ==> r->Ok_0@ == request_of(input@),
{
    let app: &str = match input.text_at("app") {
        Some(a) => a,
        None => {
            return Err("invalid input: app (string) required".to_string());
        },
    };
    if app.is_empty() {
        return Err("invalid input: app must be non-empty".to_string());
    }
    if byte_len(app) > APP_MAX {
        return Err("invalid input: app must be ≤256 chars".to_string());
    }
    if has_char(app, '"') || holds_control(app) {
        return Err("invalid input: app must not contain quotes or control chars".to_string());
    }
    let action: &str = input.text_at_or("action", "activate");
    if !same(action, "activate") && !same(action, "launch") && !same(action, "quit") {
        return Err(join("invalid input: action must be activate|launch|quit, got ", action));
    }
    let script: Option<String> = match input.text_at("script") {
        Some(s) => if s.is_empty() {
            None
        } else {
            if byte_len(s) > SCRIPT_MAX {
                return Err("invalid input: script must be ≤10000 chars".to_string());
            }
            Some(s.to_string())
        },
        None => None,
    };
    Ok(AppRequest { app: app.to_string(), action: action.to_string(), script })
}

/// A name as it stands between quotes in a script: a backslash there is written twice, as a single
/// one would take what follows, the closing quote too, for a part of the name.
pub open spec fn escaped(name: Seq<char>) -> Seq<char>
    decreases name.len(),
{
    if name.len() == 0 {
        Seq::empty()
    } else if name[0] == '\\' {
        seq!['\\', '\\'] + escaped(name.drop_first())
    } else {
        seq![name[0]] + escaped(name.drop_first())
    }
}

/// A name as it stands between quotes in a script.
fn escape_name(name: &str) -> (r: String)
    ensures
        r@ == escaped(name@),
{
    let cs: Vec<char> = chars_of(name);
    let mut out: String = String::new();
    let mut i: usize = 0;
    assert(name@.skip(0) =~= name@);
    assert(Seq::<char>::empty() + escaped(name@) =~= escaped(name@));
    while i < cs.len()
        invariant
            i <= cs@.len(),
            cs@ == name@,
            escaped(name@) == out@ + escaped(name@.skip(i as int)),
        decreases cs@.len() - i,
    {
        let ghost so_far = out@;
        let ghost left = name@.skip(i as int);
        assert(left.drop_first() =~= name@.skip(i + 1));
        let c: char = cs[i];
        if c == '\\' {
            out.push('\\');
        }
        out.push(c);
        assert(so_far + escaped(left) =~= out@ + escaped(name@.skip(i + 1)));
        i += 1;
    }
    assert(out@ + escaped(name@.skip(i as int)) =~= out@);
    out
}

/// How a script names an application: by its bundle id where the name looks like one.
pub open spec fn app_named(app: Seq<char>) -> Seq<char> {
    if app.contains('.') && !app.contains(' ') {
        "application id \""@ + escaped(app) + "\""@
    } else {
        "application \""@ + escaped(app) + "\""@
    }
}

/// How a script names an application: by its bundle id where the name looks like one.
pub fn app_ref(app: &str) -> (r: String)
    ensures
        r@ == app_named(app@),
{
    if has_char(app, '.') && !has_char(app, ' ') {
        join3("application id \"", escape_name(app).as_str(), "\"")
    } else {
        join3("application \"", escape_name(app).as_str(), "\"")
    }
}

/// The script for a request: its own script told to the application, or one line with the action.
pub open spec fn script_text(
    app: Seq<char>,
    action: Seq<char>,
    script: Option<Seq<char>>,
) -> Seq<char> {
    match script {
        Some(s) => "tell "@ + app_named(app) + "\n"@ + s + "\nend tell"@,
        None => "tell "@ + app_named(app) + " to "@ + action,
    }
}

/// The script for a request: its own script told to the application, or one line with the action.
pub fn applescript_for(app: &str, action: &str, script: &Option<String>) -> (r: String)
    ensures
        r@ == script_text(
            app@,
            action@,
            match script {
                Some(s) => Some(s@),
                None => None,
            },
        ),
{
    let target: String = join("tell ", app_ref(app).as_str());
    match script {
        Some(s) => join(join3(target.as_str(), "\n", s.as_str()).as_str(), "\nend tell"),
        None => join3(target.as_str(), " to ", action),
    }
}

/// The script to run for a request. On other systems than macOS there is none.
pub fn plan_run(input: &Json, macos: bool) -> (r: Result<String, String>)
    ensures
        match r {
            Ok(s) => macos && request_complaint(input@) is None && s@ == script_text(
                request_of(input@).app,
                request_of(input@).action,
                request_of(input@).script,
            ),
            Err(e) => match request_complaint(input@) {
                Some(c) => e@ == c,
                None => !macos && e@
                    == "automation.run builtin is macOS-only (AppleScript); a plugin can override"@,
            },
        },
{
    let request: AppRequest = match validate(input) {
        Ok(request) => request,
        Err(e) => {
            return Err(e);
        },
    };
    if !macos {
        return Err(
            "automation.run builtin is macOS-only (AppleScript); a plugin can override".to_string(),
        );
    }
    Ok(applescript_for(request.app.as_str(), request.action.as_str(), &request.script))
}

/// How the exit code of a process is shown.
pub open spec fn code_shown(code: Option<i32>) -> Seq<char> {
    match code {
        Some(n) => "Some("@ + signed_seq(n as int) + ")"@,
        None => "None"@,
    }
}

/// How the exit code of a process is shown.
pub fn show_code(code: Option<i32>) -> (r: String)
    ensures
        r@ == code_shown(code),
{
    match code {
        Some(n) => join3("Some(", signed_decimal(n as i64).as_str(), ")"),
        None => "None".to_string(),
    }
}

/// What is said of a program that failed: its name, its exit code and how its messages begin.
pub open spec fn failure_text(
    who: Seq<char>,
    code: Option<i32>,
    stderr: Seq<char>,
    shown: int,
) -> Seq<char> {
    who + " exited "@ + code_shown(code) + ": "@ + first_chars(stderr, shown)
}

/// What is said of a program that failed: its name, its exit code and how its messages begin.
pub fn describe_failure(who: &str, code: Option<i32>, stderr: &str, shown: usize) -> (r: String)
    ensures
        r@ == failure_text(who@, code, stderr@, shown as int),
{
    join3(
        join3(who, " exited ", show_code(code).as_str()).as_str(),
        ": ",
        take_chars(stderr, shown).as_str(),
    )
}

/// How many milliseconds lie between two looks at a program that runs.
pub const LOOK_AGAIN: u64 = 50;

/// What to do about a program that was started.
#[derive(Debug)]
pub enum Watch {
    /// It has ended: take what it printed.
    Done,
    /// Look again after so many milliseconds.
    Sleep(u64),
    /// Its time is up: end it, and say this.
    Kill(String),
}

/// What a [`Watch`] holds.
pub enum WatchView {
    Done,
    Sleep(u64),
    Kill(Seq<char>),
}

impl View for Watch {
    type V = WatchView;

    open spec fn view(&self) -> WatchView {
        match self {
            Watch::Done => WatchView::Done,
            Watch::Sleep(millis) => WatchView::Sleep(*millis),
            Watch::Kill(error) => WatchView::Kill(error@),
        }
    }
}

/// What to do about a program that was started, from whether it has ended and how many milliseconds
/// it has had of the `limit` seconds that it may take.
pub fn watch(ended: bool, waited: u64, limit: u64) -> (r: Watch)
    ensures
        r@ == if ended {
            WatchView::Done
        } else if waited >= limit * 1000 {
            WatchView::Kill("command timed out after "@ + decimal_seq(limit as nat) + "s"@)
        } else {
            WatchView::Sleep(LOOK_AGAIN)
        },
{
    if ended {
        Watch::Done
    } else if waited / 1000 >= limit {
        Watch::Kill(join3("command timed out after ", decimal(limit).as_str(), "s"))
    } else {
        Watch::Sleep(LOOK_AGAIN)
    }
}

/// The answer once a script has run.
pub open spec fn run_answer(stdout: Seq<char>) -> JsonView {
    let ok = and_member(no_members(), "ok"@, JsonView::Bool(true));
    let printed = trim_seq(stdout);
    if printed.len() == 0 {
        ok
    } else {
        and_member(ok, "output"@, JsonView::Text(first_chars(printed, OUTPUT_CAP as int)))
    }
}

/// The answer once a script has run, from whether it ended well, its exit code and what it printed.
pub fn run_outcome(success: bool, code: Option<i32>, stdout: &str, stderr: &str) -> (r: Result<
    Json,
    String,
>)
    ensures
        match r {
            Ok(j) => success && j@ == run_answer(stdout@),
            Err(e) => !success && e@ == failure_text("automation"@, code, stderr@, 300)
                + " (macOS: grant Automation permission for this app in System Settings)"@,
        },
{
    if !success {
        return Err(
            join(
                describe_failure("automation", code, stderr, 300).as_str(),
                " (macOS: grant Automation permission for this app in System Settings)",
            ),
        );
    }
    let printed: &str = trim(stdout);
    let ok: Json = empty_object().with("ok", Json::Bool(true));
    if printed.is_empty() {
        Ok(ok)
    } else {
        Ok(ok.with("output", Json::Text(take_chars(printed, OUTPUT_CAP))))
    }
}

/// What a quoted text reads as, up to the quote that closes it, and what follows that quote. A
/// backslash gives the character behind it.
pub open spec fn quoted_read(s: Seq<char>) -> Option<(Seq<char>, Seq<char>)>
    decreases s.len(),
{
    if s.len() == 0 {
        None
    } else if s[0] == '"' {
        Some((Seq::empty(), s.drop_first()))
    } else if s[0] == '\\' && s.len() == 1 {
        None
    } else {
        let (c, rest) = if s[0] == '\\' {
            (s[1], s.skip(2))
        } else {
            (s[0], s.drop_first())
        };
        match quoted_read(rest) {
            Some((text, behind)) => Some((seq![c] + text, behind)),
            None => None,
        }
    }
}

proof fn lemma_quoted_read(name: Seq<char>, behind: Seq<char>)
    requires
        !name.contains('"'),
    ensures
        quoted_read(escaped(name) + seq!['"'] + behind) == Some((name, behind)),
    decreases name.len(),
{
    let all = escaped(name) + seq!['"'] + behind;
    if name.len() == 0 {
        assert(all.drop_first() =~= behind);
        assert(name =~= Seq::<char>::empty());
    } else {
        let rest = name.drop_first();
        assert(!rest.contains('"')) by {
            if rest.contains('"') {
                let k = choose|k: int| 0 <= k < rest.len() && rest[k] == '"';
                assert(name[k + 1] == '"');
            }
        }
        assert(name[0] != '"') by {
            assert(name.contains(name[0]));
        }
        lemma_quoted_read(rest, behind);
        let tail = escaped(rest) + seq!['"'] + behind;
        if name[0] == '\\' {
            assert(all.skip(2) =~= tail);
        } else {
            assert(all.drop_first() =~= tail);
        }
        assert(seq![name[0]] + rest =~= name);
    }
}

/// Whatever is asked for, the quoted text that stands for the application in the script reads as the
/// name that was asked for, and ends at the quote that the script closes it with, whatever follows.
pub proof fn names_stay_inside_their_quotes(input: JsonView, behind: Seq<char>)
    requires
        request_complaint(input) is None,
    ensures
        ({
            let app = request_of(input).app;
            let opening = if app.contains('.') && !app.contains(' ') {
                "application id \""@
            } else {
                "application \""@
            };
            &&& app_named(app) == opening + escaped(app) + "\""@
            &&& quoted_read((app_named(app) + behind).skip(opening.len() as int)) == Some((app, behind))
            &&& !has_control(app)
        }),
{
    let app = request_of(input).app;
    let opening = if app.contains('.') && !app.contains(' ') {
        "application id \""@
    } else {
        "application \""@
    };
    reveal_strlit("\"");
    assert("\""@ =~= seq!['"']);
    lemma_quoted_read(app, behind);
    assert((app_named(app) + behind).skip(opening.len() as int) =~= escaped(app) + seq!['"'] + behind);
}

} // verus!
