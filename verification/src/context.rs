//! What the user is looking at: the application in front, its window and the clipboard.

use vstd::prelude::*;

use crate::json::{Json, JsonView};
use crate::text::{
    chars_of, find_at, find_from, find_from_is_first, occurs_at, same, slice_text, trim, trim_seq,
};
use crate::values::{and_member, empty_object, no_members};
use crate::words::{first_chars, take_chars};

verus! {

/// How many characters of the clipboard are shown.
pub const CLIPBOARD_CAP: usize = 500;

/// The application and the title of its window in what a script printed: the first line, and what
/// comes behind it.
pub open spec fn front_of(out: Seq<char>) -> (Seq<char>, Option<Seq<char>>) {
    match find_from(out, "\n"@, 0) {
        None => (trim_seq(out), None),
        Some(i) => {
            let title = trim_seq(out.skip(i + 1));
            (
                trim_seq(out.take(i)),
                if title.len() == 0 {
                    None
                } else {
                    Some(title)
                },
            )
        },
    }
}

/// The application and the title of its window in what a script printed.
pub fn parse_applescript(out: &str) -> (r: (String, Option<String>))
    ensures
        (
            r.0@,
            match r.1 {
                Some(t) => Some(t@),
                None => None,
            },
        ) == front_of(out@),
{
    let cs: Vec<char> = chars_of(out);
    let total: usize = cs.len();
    let newline: Vec<char> = chars_of("\n");
    proof {
        reveal_strlit("\n");
        find_from_is_first(out@, "\n"@, 0);
    }
    match find_at(&cs, &newline, 0) {
        None => (trim(out).to_string(), None),
        Some(i) => {
            assert(occurs_at(out@, "\n"@, i as int));
            let first: String = slice_text(&cs, 0, i);
            let rest: String = slice_text(&cs, i + 1, total);
            assert(first@ =~= out@.take(i as int));
            assert(rest@ =~= out@.skip(i + 1));
            let app: String = trim(first.as_str()).to_string();
            let title: &str = trim(rest.as_str());
            if title.is_empty() {
                (app, None)
            } else {
                (app, Some(title.to_string()))
            }
        },
    }
}

/// The first piece between quotes, from a position on, that is neither empty nor an equals sign.
/// The pieces are what stands between two quotes, before the first and behind the last.
pub open spec fn first_piece(s: Seq<char>, from: int) -> Option<Seq<char>>
    decreases s.len() - from,
{
    if from < 0 || from > s.len() {
        None
    } else {
        let (piece, next) = match find_from(s, "\""@, from) {
            Some(i) => (s.subrange(from, i), Some(i + 1)),
            None => (s.skip(from), None),
        };
        if piece.len() > 0 && piece != "="@ {
            Some(piece)
        } else {
            match next {
                Some(n) => if from < n <= s.len() {
                    first_piece(s, n)
                } else {
                    None
                },
                None => None,
            }
        }
    }
}

/// The bundle id in what `lsappinfo` printed: the first piece between quotes behind `bundleID`.
pub open spec fn bundle_of(out: Seq<char>) -> Option<Seq<char>> {
    match find_from(out, "bundleID"@, 0) {
        Some(i) => first_piece(out.skip(i + 8), 0),
        None => None,
    }
}

/// The bundle id in what `lsappinfo` printed.
pub fn parse_lsappinfo_bundle(out: &str) -> (r: Option<String>)
    ensures
        match r {
            Some(b) => bundle_of(out@) == Some(b@),
            None => bundle_of(out@) is None,
        },
{
    let all: Vec<char> = chars_of(out);
    let name: Vec<char> = chars_of("bundleID");
    proof {
        reveal_strlit("bundleID");
        find_from_is_first(out@, "bundleID"@, 0);
    }
    let at: usize = match find_at(&all, &name, 0) {
        Some(i) => i,
        None => {
            return None;
        },
    };
    assert(occurs_at(out@, "bundleID"@, at as int));
    let total: usize = all.len();
    let behind: String = slice_text(&all, at + 8, total);
    assert(behind@ =~= out@.skip(at + 8));
    let cs: Vec<char> = chars_of(behind.as_str());
    let quote: Vec<char> = chars_of("\"");
    let size: usize = cs.len();
    let mut from: usize = 0;
    loop
        invariant
            cs@ == out@.skip(at + 8),
            quote@ == "\""@,
            size == cs@.len(),
            from <= size,
            first_piece(cs@, from as int) == bundle_of(out@),
        decreases size - from,
    {
        proof {
            reveal_strlit("\"");
            find_from_is_first(cs@, "\""@, from as int);
        }
        let end: Option<usize> = find_at(&cs, &quote, from);
        let to: usize = match end {
            Some(i) => i,
            None => size,
        };
        assert(end is Some ==> occurs_at(cs@, "\""@, to as int));
        let piece: String = slice_text(&cs, from, to);
        assert(end is None ==> piece@ =~= cs@.skip(from as int));
        if !piece.as_str().is_empty() && !same(piece.as_str(), "=") {
            return Some(piece);
        }
        match end {
            Some(i) => {
                from = i + 1;
            },
            None => {
                return None;
            },
        }
    }
}

/// The beginning of the clipboard's text, and whether more was cut off.
pub open spec fn clipping(text: Seq<char>) -> JsonView {
    and_member(
        and_member(
            no_members(),
            "text"@,
            JsonView::Text(first_chars(text, CLIPBOARD_CAP as int)),
        ),
        "truncated"@,
        JsonView::Bool(text.len() > CLIPBOARD_CAP),
    )
}

/// The beginning of the clipboard's text, and whether more was cut off.
pub fn cap_clipboard(text: &str) -> (r: Json)
    ensures
        r@ == clipping(text@),
{
    let cut: bool = text.unicode_len() > CLIPBOARD_CAP;
    empty_object().with("text", Json::Text(take_chars(text, CLIPBOARD_CAP))).with(
        "truncated",
        Json::Bool(cut),
    )
}

/// A text or nothing as a value.
pub open spec fn text_or_null(t: Option<Seq<char>>) -> JsonView {
    match t {
        Some(t) => JsonView::Text(t),
        None => JsonView::Null,
    }
}

/// What the user is looking at. `front` is what the script printed, `bundle` what `lsappinfo`
/// printed where the script gave nothing.
pub open spec fn context_value(
    front: Option<Seq<char>>,
    bundle: Option<Seq<char>>,
    clipboard: Option<Seq<char>>,
    screen: bool,
) -> JsonView {
    let scripted = front is Some && front_of(front->Some_0).0.len() > 0;
    let app = if scripted {
        front_of(front->Some_0).0
    } else {
        match bundle {
            Some(out) => match bundle_of(out) {
                Some(b) => b,
                None => Seq::empty(),
            },
            None => Seq::empty(),
        }
    };
    let title = if scripted {
        front_of(front->Some_0).1
    } else {
        None
    };
    let clip = match clipboard {
        Some(t) => clipping(t),
        None => JsonView::Null,
    };
    and_member(
        and_member(
            and_member(
                and_member(
                    and_member(no_members(), "active_app"@, JsonView::Text(app)),
                    "window_title"@,
                    text_or_null(title),
                ),
                "clipboard"@,
                clip,
            ),
            "screen_available"@,
            JsonView::Bool(screen),
        ),
        "degraded"@,
        JsonView::Bool(!scripted),
    )
}

/// What the user is looking at, from what a script and `lsappinfo` printed, as far as they did. It
/// says that it is degraded where the script named no application.
pub fn current(
    front: Option<&str>,
    bundle: Option<&str>,
    clipboard: Option<&str>,
    screen: bool,
) -> (r: Json)
    ensures
        r@ == context_value(
            match front {
                Some(t) => Some(t@),
                None => None,
            },
            match bundle {
                Some(t) => Some(t@),
                None => None,
            },
            match clipboard {
                Some(t) => Some(t@),
                None => None,
            },
            screen,
        ),
{
    let mut app: String = String::new();
    let mut title: Option<String> = None;
    let mut scripted: bool = false;
    if let Some(out) = front {
        let (name, window) = parse_applescript(out);
        if !name.as_str().is_empty() {
            app = name;
            title = window;
            scripted = true;
        }
    }
    if !scripted {
        app = String::new();
        assert(app@ =~= Seq::<char>::empty());
        if let Some(out) = bundle {
            if let Some(b) = parse_lsappinfo_bundle(out) {
                app = b;
            }
        }
    }
    let title_value: Json = match title {
        Some(t) => Json::Text(t),
        None => Json::Null,
    };
    let clip: Json = match clipboard {
        Some(t) => cap_clipboard(t),
        None => Json::Null,
    };
    empty_object().with("active_app", Json::Text(app)).with("window_title", title_value).with(
        "clipboard",
        clip,
    ).with("screen_available", Json::Bool(screen)).with("degraded", Json::Bool(!scripted))
}

} // verus!
