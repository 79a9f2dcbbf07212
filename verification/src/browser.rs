//! Web pages and addresses: which addresses are opened, and what is read from a page.

use vstd::prelude::*;

use crate::appctl::{code_shown, show_code};
use crate::json::{texts_view, Json, JsonView};
use crate::text::{
    byte_count, byte_len, chars_of, complaint, find_at, find_from, find_from_is_first, is_space,
    is_space_char, join, join3, lower_ascii_seq, occurs_at, same, slice_text, starts_with, starts_with_seq,
    to_lower_ascii,
};
use crate::values::{and_member, empty_object, no_members, text_member, text_value};
use crate::words::{first_chars, join_texts, joined, normalize_space, spaced, take_chars};

verus! {

/// How many bytes of a page are read at most.
pub const READ_BODY_CAP: u64 = 2097152;

/// How many characters of a page's text are handed out at most.
pub const TEXT_CAP: usize = 100000;

/// Whether a character is a control character.
pub open spec fn is_control(c: char) -> bool {
    c < ' ' || '\u{7f}' <= c <= '\u{9f}'
}

/// Whether a character is a control character.
fn is_control_char(c: char) -> (r: bool)
    ensures
        r == is_control(c),
{
    c < ' ' || ('\u{7f}' <= c && c <= '\u{9f}')
}

/// Whether a text holds a control character or white space.
pub open spec fn has_gap(s: Seq<char>) -> bool {
    exists|i: int| 0 <= i < s.len() && (is_control(#[trigger] s[i]) || is_space(s[i]))
}

/// Whether a text holds a control character.
pub open spec fn has_control(s: Seq<char>) -> bool {
    exists|i: int| 0 <= i < s.len() && is_control(#[trigger] s[i])
}

/// Whether a text holds a control character or white space.
fn holds_gap(s: &str) -> (r: bool)
    ensures
        r == has_gap(s@),
{
    let cs: Vec<char> = chars_of(s);
    let mut i: usize = 0;
    while i < cs.len()
        invariant
            i <= cs@.len(),
            cs@ == s@,
            forall|k: int| 0 <= k < i ==> !is_control(#[trigger] s@[k]) && !is_space(s@[k]),
        decreases cs@.len() - i,
    {
        let c: char = cs[i];
        assert(c == s@[i as int]);
        if is_control_char(c) || is_space_char(c) {
            return true;
        }
        i += 1;
    }
    false
}

/// Whether a text holds a control character.
pub fn holds_control(s: &str) -> (r: bool)
    ensures
        r == has_control(s@),
{
    let cs: Vec<char> = chars_of(s);
    let mut i: usize = 0;
    while i < cs.len()
        invariant
            i <= cs@.len(),
            cs@ == s@,
            forall|k: int| 0 <= k < i ==> !is_control(#[trigger] s@[k]),
        decreases cs@.len() - i,
    {
        let c: char = cs[i];
        assert(c == s@[i as int]);
        if is_control_char(c) {
            return true;
        }
        i += 1;
    }
    false
}

/// What is wrong with the address of a web page.
pub open spec fn http_url_complaint(url: Seq<char>) -> Option<Seq<char>> {
    let lower = lower_ascii_seq(url);
    if !starts_with_seq(lower, "http://"@) && !starts_with_seq(lower, "https://"@) {
        Some("invalid input: url must be an absolute http(s) URL"@)
    } else if byte_count(url) > 2048 {
        Some("invalid input: url must be 1..=2048 chars"@)
    } else if has_gap(url) {
        Some("invalid input: url must not contain control chars or spaces"@)
    } else {
        None
    }
}

/// Checks the address of a web page.
pub fn validate_http_url(url: &str) -> (r: Result<(), String>)
    ensures
        complaint(r) == http_url_complaint(url@),
{
    let lower: String = to_lower_ascii(url);
    if !starts_with(lower.as_str(), "http://") && !starts_with(lower.as_str(), "https://") {
        return Err("invalid input: url must be an absolute http(s) URL".to_string());
    }
    if byte_len(url) > 2048 {
        return Err("invalid input: url must be 1..=2048 chars".to_string());
    }
    if holds_gap(url) {
        return Err("invalid input: url must not contain control chars or spaces".to_string());
    }
    Ok(())
}

/// Whether addresses of a scheme are never opened: they read the disk, run scripts or belong to a
/// browser's own pages.
pub open spec fn scheme_blocked(scheme: Seq<char>) -> bool {
    ||| scheme == "file"@
    ||| scheme == "javascript"@
    ||| scheme == "data"@
    ||| scheme == "vbscript"@
    ||| scheme == "about"@
    ||| scheme == "blob"@
    ||| scheme == "view-source"@
    ||| scheme == "jar"@
    ||| scheme == "ws"@
    ||| scheme == "wss"@
    ||| scheme == "chrome"@
    ||| scheme == "chromium"@
    ||| scheme == "chrome-extension"@
    ||| scheme == "moz-extension"@
    ||| scheme == "intent"@
}

/// Whether addresses of a scheme are never opened.
fn is_scheme_blocked(scheme: &str) -> (r: bool)
    ensures
        r == scheme_blocked(scheme@),
{
    same(scheme, "file") || same(scheme, "javascript") || same(scheme, "data") || same(
        scheme,
        "vbscript",
    ) || same(scheme, "about") || same(scheme, "blob") || same(scheme, "view-source") || same(
        scheme,
        "jar",
    ) || same(scheme, "ws") || same(scheme, "wss") || same(scheme, "chrome") || same(
        scheme,
        "chromium",
    ) || same(scheme, "chrome-extension") || same(scheme, "moz-extension") || same(
        scheme,
        "intent",
    )
}

/// Whether a character may stand in a scheme behind its first letter.
pub open spec fn scheme_char(c: char) -> bool {
    'a' <= c <= 'z' || 'A' <= c <= 'Z' || '0' <= c <= '9' || c == '+' || c == '-' || c == '.'
}

/// Whether a scheme is a letter with letters, digits, `+`, `-` and `.` behind it.
pub open spec fn scheme_shape(s: Seq<char>) -> bool {
    &&& s.len() > 0
    &&& ('a' <= s[0] <= 'z' || 'A' <= s[0] <= 'Z')
    &&& forall|i: int| 0 < i < s.len() ==> scheme_char(#[trigger] s[i])
}

fn has_scheme_shape(s: &str) -> (r: bool)
    ensures
        r == scheme_shape(s@),
{
    let cs: Vec<char> = chars_of(s);
    if cs.len() == 0 {
        return false;
    }
    let first: char = cs[0];
    if !('a' <= first && first <= 'z' || 'A' <= first && first <= 'Z') {
        return false;
    }
    let mut i: usize = 1;
    while i < cs.len()
        invariant
            1 <= i <= cs@.len(),
            cs@ == s@,
            forall|k: int| 0 < k < i ==> scheme_char(#[trigger] s@[k]),
        decreases cs@.len() - i,
    {
        let c: char = cs[i];
        assert(c == s@[i as int]);
        if !('a' <= c && c <= 'z' || 'A' <= c && c <= 'Z' || '0' <= c && c <= '9' || c == '+' || c
            == '-' || c == '.') {
            return false;
        }
        i += 1;
    }
    true
}

/// What stands before the first colon of an address, in lower case.
pub open spec fn scheme_of(url: Seq<char>) -> Option<Seq<char>> {
    match find_from(url, ":"@, 0) {
        Some(i) => Some(lower_ascii_seq(url.take(i))),
        None => None,
    }
}

/// What is wrong with an address that another program is to open.
pub open spec fn scheme_url_complaint(url: Seq<char>) -> Option<Seq<char>> {
    if url.len() == 0 || byte_count(url) > 2048 {
        Some("invalid input: url must be 1..=2048 chars"@)
    } else if has_gap(url) {
        Some("invalid input: url must not contain control chars or spaces"@)
    } else {
        match scheme_of(url) {
            None => Some("invalid input: url must look like scheme:rest"@),
            Some(scheme) => if scheme == "http"@ || scheme == "https"@ {
                Some("invalid input: http(s) URLs belong to browser.open"@)
            } else if scheme_blocked(scheme) {
                Some("scheme not allowed: "@ + scheme)
            } else if !scheme_shape(scheme) || byte_count(scheme) < 2 || byte_count(scheme) > 30 {
                Some("invalid input: url scheme must be 2..=30 chars ([a-z][a-z0-9+.-])"@)
            } else {
                None
            },
        }
    }
}

/// Checks an address that another program is to open, and hands out its scheme in lower case.
pub fn validate_scheme_url(url: &str) -> (r: Result<String, String>)
    ensures
        complaint(r) == scheme_url_complaint(url@),
        r is Ok ==> scheme_of(url@) == Some(r->Ok_0@),
{
    if url.is_empty() || byte_len(url) > 2048 {
        return Err("invalid input: url must be 1..=2048 chars".to_string());
    }
    if holds_gap(url) {
        return Err("invalid input: url must not contain control chars or spaces".to_string());
    }
    let cs: Vec<char> = chars_of(url);
    let colon: Vec<char> = chars_of(":");
    let at: usize = match find_at(&cs, &colon, 0) {
        Some(i) => i,
        None => {
            return Err("invalid input: url must look like scheme:rest".to_string());
        },
    };
    proof {
        find_from_is_first(url@, ":"@, 0);
    }
    assert(cs@.subrange(0, at as int) =~= url@.take(at as int));
    let lower: String = to_lower_ascii(slice_text(&cs, 0, at).as_str());
    if same(lower.as_str(), "http") || same(lower.as_str(), "https") {
        return Err("invalid input: http(s) URLs belong to browser.open".to_string());
    }
    if is_scheme_blocked(lower.as_str()) {
        return Err(join("scheme not allowed: ", lower.as_str()));
    }
    let size: usize = byte_len(lower.as_str());
    if !has_scheme_shape(lower.as_str()) || size < 2 || size > 30 {
        return Err(
            "invalid input: url scheme must be 2..=30 chars ([a-z][a-z0-9+.-])".to_string(),
        );
    }
    Ok(lower)
}

/// What is wrong with a request to open or read a web page.
pub open spec fn page_request_complaint(input: JsonView) -> Option<Seq<char>> {
    match text_member(input, "url"@) {
        None => Some("invalid input: url (string) required"@),
        Some(url) => http_url_complaint(url),
    }
}

/// The address that a request to open or read a web page names.
pub fn page_url(input: &Json) -> (r: Result<String, String>)
    ensures
        complaint(r) == page_request_complaint(input@),
        r is Ok ==> text_member(input@, "url"@) == Some(r->Ok_0@),
{
    let url: &str = match input.text_at("url") {
        Some(u) => u,
        None => {
            return Err("invalid input: url (string) required".to_string());
        },
    };
    match validate_http_url(url) {
        Ok(_) => Ok(url.to_string()),
        Err(e) => Err(e),
    }
}

/// What is wrong with a request to have another program open an address.
pub open spec fn scheme_request_complaint(input: JsonView) -> Option<Seq<char>> {
    match text_member(input, "url"@) {
        None => Some("invalid input: url (string) required"@),
        Some(url) => scheme_url_complaint(url),
    }
}

/// The address that a request to have another program open it names.
pub fn scheme_url(input: &Json) -> (r: Result<String, String>)
    ensures
        complaint(r) == scheme_request_complaint(input@),
        r is Ok ==> text_member(input@, "url"@) == Some(r->Ok_0@),
{
    let url: &str = match input.text_at("url") {
        Some(u) => u,
        None => {
            return Err("invalid input: url (string) required".to_string());
        },
    };
    match validate_scheme_url(url) {
        Ok(_) => Ok(url.to_string()),
        Err(e) => Err(e),
    }
}

/// Where the next script or style block begins, and the tag that ends it.
pub open spec fn next_block(lower: Seq<char>, from: int) -> Option<(int, Seq<char>)> {
    match (find_from(lower, "<script"@, from), find_from(lower, "<style"@, from)) {
        (Some(s), None) => Some((s, "</script>"@)),
        (None, Some(t)) => Some((t, "</style>"@)),
        (Some(s), Some(t)) => if s <= t {
            Some((s, "</script>"@))
        } else {
            Some((t, "</style>"@))
        },
        (None, None) => None,
    }
}

/// A page from a position on without its script and style blocks; a block without an end reaches
/// to the end of the page. `lower` is the page in lower case.
pub open spec fn without_blocks(html: Seq<char>, lower: Seq<char>, from: int) -> Seq<char>
    decreases html.len() - from,
{
    match next_block(lower, from) {
        None => html.skip(from),
        Some((start, tag)) => match find_from(lower, tag, start) {
            None => html.subrange(from, start),
            Some(end) => if from <= start <= end && tag.len() > 0 && end + tag.len() <= html.len() {
                html.subrange(from, start) + without_blocks(html, lower, end + tag.len())
            } else {
                html.subrange(from, start)
            },
        },
    }
}

/// A page without its script and style blocks.
pub open spec fn stripped(html: Seq<char>) -> Seq<char> {
    without_blocks(html, lower_ascii_seq(html), 0)
}

/// A page in which no script or style block begins is left as it is.
pub proof fn plain_pages_stay_as_they_are(html: Seq<char>)
    requires
        forall|i: int| !occurs_at(lower_ascii_seq(html), "<script"@, i),
        forall|i: int| !occurs_at(lower_ascii_seq(html), "<style"@, i),
    ensures
        stripped(html) == html,
{
    find_from_is_first(lower_ascii_seq(html), "<script"@, 0);
    find_from_is_first(lower_ascii_seq(html), "<style"@, 0);
    assert(html.skip(0) =~= html);
}

/// Takes the script and style blocks out of a page. A block without an end reaches to the end of
/// the page.
pub fn strip_script_style(html: &str) -> (r: String)
    ensures
        r@ == stripped(html@),
{
    let cs: Vec<char> = chars_of(html);
    let lower_text: String = to_lower_ascii(html);
    let lower: Vec<char> = chars_of(lower_text.as_str());
    let script: Vec<char> = chars_of("<script");
    let style: Vec<char> = chars_of("<style");
    let total: usize = cs.len();
    let mut out: String = String::new();
    let mut rest: usize = 0;
    assert(out@ + without_blocks(html@, lower@, 0) =~= stripped(html@));
    loop
        invariant
            cs@ == html@,
            lower@ == lower_ascii_seq(html@),
            script@ == "<script"@,
            style@ == "<style"@,
            total == cs@.len(),
            rest <= total,
            out@ + without_blocks(html@, lower@, rest as int) == stripped(html@),
        decreases total - rest,
    {
        let s: Option<usize> = find_at(&lower, &script, rest);
        let t: Option<usize> = find_at(&lower, &style, rest);
        proof {
            reveal_strlit("<script");
            reveal_strlit("<style");
            reveal_strlit("</script>");
            reveal_strlit("</style>");
            find_from_is_first(lower@, "<script"@, rest as int);
            find_from_is_first(lower@, "<style"@, rest as int);
        }
        let (start, tag): (usize, &str) = match (s, t) {
            (Some(s), None) => (s, "</script>"),
            (None, Some(t)) => (t, "</style>"),
            (Some(s), Some(t)) => if s <= t {
                (s, "</script>")
            } else {
                (t, "</style>")
            },
            (None, None) => {
                let tail: String = slice_text(&cs, rest, total);
                assert(tail@ =~= html@.skip(rest as int));
                return join(out.as_str(), tail.as_str());
            },
        };
        let kept: String = slice_text(&cs, rest, start);
        let ghost before = out@;
        out = join(out.as_str(), kept.as_str());
        let tag_chars: Vec<char> = chars_of(tag);
        proof {
            find_from_is_first(lower@, tag@, start as int);
        }
        match find_at(&lower, &tag_chars, start) {
            Some(end) => {
                proof {
                    assert(occurs_at(lower@, tag@, end as int));
                    assert(lower@.len() == cs@.len());
                    assert(before + (html@.subrange(rest as int, start as int) + without_blocks(
                        html@,
                        lower@,
                        end + tag@.len(),
                    )) =~= out@ + without_blocks(html@, lower@, end + tag@.len()));
                }
                rest = end + tag_chars.len();
            },
            None => {
                return out;
            },
        }
    }
}

/// The name of the text nodes, in order, below the first element of a page that a selector
/// matches, as `scraper` reads the page.
pub uninterp spec fn element_texts_of(html: Seq<char>, selector: Seq<char>) -> Option<Seq<Seq<char>>>;

/// The name of the text nodes, in order, below the root element of a page, as `scraper` reads it.
pub uninterp spec fn root_texts_of(html: Seq<char>) -> Seq<Seq<char>>;

/// The text nodes below the first element that a selector matches: `scraper::Html::parse_document`,
/// `scraper::Selector::parse`, `Html::select` and `ElementRef::text`. `None` where the selector
/// cannot be read or matches nothing. The result depends on the page and the selector alone.
#[verifier::external_body]
fn element_texts(html: &str, selector: &str) -> (r: Option<Vec<String>>)
    ensures
        match r {
            Some(texts) => element_texts_of(html@, selector@) == Some(texts_view(texts@)),
            None => element_texts_of(html@, selector@) is None,
        },
{
    let doc = scraper::Html::parse_document(html);
    let sel = scraper::Selector::parse(selector).ok()?;
    let element = doc.select(&sel).next()?;
    Some(element.text().map(|t| t.to_string()).collect())
}

/// The text nodes below the root element: `scraper::Html::parse_document`, `Html::root_element` and
/// `ElementRef::text`. A parsed document always has a root element. The result depends on the page
/// alone.
#[verifier::external_body]
fn root_texts(html: &str) -> (r: Vec<String>)
    ensures
        texts_view(r@) == root_texts_of(html@),
{
    let doc = scraper::Html::parse_document(html);
    doc.root_element().text().map(|t| t.to_string()).collect()
}

/// What is handed out of a page.
#[derive(Debug)]
pub struct PageText {
    pub title: String,
    pub text: String,
    pub truncated: bool,
}

/// What a [`PageText`] holds.
pub struct PageTextView {
    pub title: Seq<char>,
    pub text: Seq<char>,
    pub truncated: bool,
}

impl View for PageText {
    type V = PageTextView;

    open spec fn view(&self) -> PageTextView {
        PageTextView { title: self.title@, text: self.text@, truncated: self.truncated }
    }
}

/// What is handed out of a page with these text nodes in its title and in its body.
pub open spec fn page_text(
    title: Option<Seq<Seq<char>>>,
    body: Seq<Seq<char>>,
) -> PageTextView {
    let text = spaced(joined(body, " "@));
    PageTextView {
        title: match title {
            Some(nodes) => spaced(joined(nodes, Seq::empty())),
            None => Seq::empty(),
        },
        text: first_chars(text, TEXT_CAP as int),
        truncated: text.len() > TEXT_CAP,
    }
}

/// What is handed out of a page with these text nodes in its title and in its body: the nodes of
/// the title as one text, those of the body with a blank between them, white space reduced to single
/// blanks, and at most [`TEXT_CAP`] characters of the body.
pub fn compose_page(title: Option<Vec<String>>, body: Vec<String>) -> (r: PageText)
    ensures
        r@ == page_text(
            match title {
                Some(t) => Some(texts_view(t@)),
                None => None,
            },
            texts_view(body@),
        ),
{
    let shown_title: String = match &title {
        Some(nodes) => {
            let whole: String = join_texts(nodes, "");
            proof {
                reveal_strlit("");
                assert(""@ =~= Seq::<char>::empty());
            }
            normalize_space(whole.as_str())
        },
        None => {
            let none: String = String::new();
            assert(none@ =~= Seq::<char>::empty());
            none
        },
    };
    let raw: String = join_texts(&body, " ");
    let text: String = normalize_space(raw.as_str());
    let truncated: bool = text.as_str().unicode_len() > TEXT_CAP;
    PageText { title: shown_title, text: take_chars(text.as_str(), TEXT_CAP), truncated }
}

/// The text nodes from which the text of a page is taken: those of its body, or of the whole page
/// where it has none.
pub open spec fn body_nodes(html: Seq<char>) -> Seq<Seq<char>> {
    match element_texts_of(html, "body"@) {
        Some(nodes) => nodes,
        None => root_texts_of(html),
    }
}

/// The title and the text of a page.
pub fn extract_text(html: &str) -> (r: PageText)
    ensures
        r@ == page_text(element_texts_of(html@, "title"@), body_nodes(html@)),
{
    let title: Option<Vec<String>> = element_texts(html, "title");
    let body: Vec<String> = match element_texts(html, "body") {
        Some(nodes) => nodes,
        None => root_texts(html),
    };
    compose_page(title, body)
}

/// Why a response is not read.
pub open spec fn response_complaint(
    content_type: Option<Seq<char>>,
    content_length: Option<u64>,
) -> Option<Seq<char>> {
    if content_type is Some && !starts_with_seq(
        lower_ascii_seq(content_type->Some_0),
        "text/html"@,
    ) {
        Some(
            "unsupported content type: "@ + content_type->Some_0
                + " (builtin reads HTML only; install a browser plugin to override)"@,
        )
    } else if content_length is Some && content_length->Some_0 > READ_BODY_CAP {
        Some("response too large (max 2097152 bytes)"@)
    } else {
        None
    }
}

/// Checks the headers of a response. A missing header is no reason to refuse it.
pub fn check_response(content_type: Option<&str>, content_length: Option<u64>) -> (r: Result<
    (),
    String,
>)
    ensures
        complaint(r) == response_complaint(
            match content_type {
                Some(t) => Some(t@),
                None => None,
            },
            content_length,
        ),
{
    if let Some(t) = content_type {
        if !starts_with(to_lower_ascii(t).as_str(), "text/html") {
            return Err(
                join3(
                    "unsupported content type: ",
                    t,
                    " (builtin reads HTML only; install a browser plugin to override)",
                ),
            );
        }
    }
    if let Some(n) = content_length {
        if n > READ_BODY_CAP {
            return Err("response too large (max 2097152 bytes)".to_string());
        }
    }
    Ok(())
}

/// A page's title and text as a value.
pub open spec fn page_value(p: PageTextView) -> JsonView {
    and_member(
        and_member(
            and_member(no_members(), "title"@, JsonView::Text(p.title)),
            "text"@,
            JsonView::Text(p.text),
        ),
        "truncated"@,
        JsonView::Bool(p.truncated),
    )
}

/// The answer to a request to read a page, from the page's text: its title and text without script
/// and style blocks. A page that is too large is refused.
pub fn read_page(body: &str) -> (r: Result<Json, String>)
    ensures
        match r {
            Ok(j) => byte_count(body@) <= READ_BODY_CAP && j@ == page_value(
                page_text(
                    element_texts_of(stripped(body@), "title"@),
                    body_nodes(stripped(body@)),
                ),
            ),
            Err(e) => byte_count(body@) > READ_BODY_CAP && e@
                == "response too large (max 2097152 bytes)"@,
        },
{
    if byte_len(body) as u64 > READ_BODY_CAP {
        return Err("response too large (max 2097152 bytes)".to_string());
    }
    let page: PageText = extract_text(strip_script_style(body).as_str());
    Ok(
        empty_object().with("title", text_value(page.title.as_str())).with(
            "text",
            text_value(page.text.as_str()),
        ).with("truncated", Json::Bool(page.truncated)),
    )
}

/// What is said where the system did not open an address.
pub open spec fn open_failure(code: Option<i32>, hint: Seq<char>) -> Seq<char> {
    "open failed: exit "@ + code_shown(code) + hint
}

/// The answer once the system was asked to open an address, from whether it did and the exit code.
pub fn open_outcome(success: bool, code: Option<i32>, hint: &str) -> (r: Result<Json, String>)
    ensures
        match r {
            Ok(j) => success && j@ == and_member(no_members(), "ok"@, JsonView::Bool(true)),
            Err(e) => !success && e@ == open_failure(code, hint@),
        },
{
    if success {
        Ok(empty_object().with("ok", Json::Bool(true)))
    } else {
        Err(join3("open failed: exit ", show_code(code).as_str(), hint))
    }
}

} // verus!
