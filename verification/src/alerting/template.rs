//! The template of an endpoint: rendering it against an envelope, checking its structure, and
//! trying it out on a sample.

use vstd::prelude::*;

use super::store::rows_view;
use super::types::{AlertEnvelope, AlertEnvelopeView, Severity, severity_name, ALERT_SCHEMA_VERSION};
use crate::json::{
    all_digits, digits_value, dot_parts, equals_scalar, is_digit, is_truthy, items_view, json_text,
    json_text_of, json_view, lemma_items_view, lookup_json_path, parse_bounded, parse_usize, truthy,
    unsigned_value, values_equal, walk_members, Json, JsonView,
};
use crate::order::{in_order, sort_list, sorted, sorting_keeps_every_value};
use crate::text::{
    byte_count, byte_len, byte_offset, char_len, chars_of, decimal, decimal_seq, find_at, find_from,
    find_from_is_first, join, join3, lemma_byte_count_step, lemma_encode_concat, lemma_trim_len,
    matches_at, occurs_at, rfind_at, rfind_seq, same, slice_text, starts_with, starts_with_seq,
    trim, trim_seq, trim_start, trim_start_seq, contains, contains_seq,
};

verus! {

/// What a rendered body is sent as.
#[derive(Debug, Clone, Copy, PartialEq, Eq, Structural)]
pub enum TemplateContentType {
    Json,
    Text,
}

/// The value of the `Content-Type` header.
pub open spec fn content_type_name(ct: TemplateContentType) -> Seq<char> {
    match ct {
        TemplateContentType::Json => "application/json"@,
        TemplateContentType::Text => "text/plain; charset=utf-8"@,
    }
}

impl TemplateContentType {
    /// The value of the `Content-Type` header.
    pub fn as_content_type(self) -> (r: &'static str)
        ensures
            r@ == content_type_name(self),
    {
        match self {
            TemplateContentType::Json => "application/json",
            TemplateContentType::Text => "text/plain; charset=utf-8",
        }
    }
}

/// `n` in decimal notation, with its sign where it is negative.
pub open spec fn signed_decimal(n: int) -> Seq<char> {
    if n < 0 {
        "-"@ + decimal_seq((-n) as nat)
    } else {
        decimal_seq(n as nat)
    }
}

/// `s` read as a signed number of 64 bits.
pub open spec fn signed_value(s: Seq<char>) -> Option<int> {
    if s.len() > 0 && s[0] == '-' {
        if all_digits(s.drop_first()) && digits_value(s.drop_first()) <= 0x8000_0000_0000_0000 {
            Some(-(digits_value(s.drop_first()) as int))
        } else {
            None
        }
    } else {
        match unsigned_value(s, i64::MAX as nat) {
            Some(n) => Some(n as int),
            None => None,
        }
    }
}

/// The name of the text of the number that a decimal literal stands for: what
/// `serde_json::Number::from_f64` prints for what the literal reads as, if both succeed.
pub uninterp spec fn float_text(s: Seq<char>) -> Option<Seq<char>>;

/// The value that stands behind a path on an envelope. What is unknown is null.
pub open spec fn env_value(env: AlertEnvelopeView, path: Seq<char>) -> JsonView {
    let p = trim_seq(path);
    if starts_with_seq(p, "payload."@) {
        match walk_members(env.payload, dot_parts(p.skip("payload."@.len() as int))) {
            Some(v) => v,
            None => JsonView::Null,
        }
    } else if p == "payload"@ {
        env.payload
    } else if p == "source"@ {
        JsonView::Text(env.source)
    } else if p == "severity"@ {
        JsonView::Text(severity_name(env.severity))
    } else if p == "timestamp"@ {
        JsonView::Number(decimal_seq(env.timestamp as nat))
    } else if p == "event_id"@ {
        JsonView::Text(env.event_id)
    } else if p == "schema_version"@ {
        JsonView::Number(decimal_seq(env.schema_version as nat))
    } else if p == "tags"@ {
        JsonView::Array(Seq::new(env.tags.len(), |i: int| JsonView::Text(env.tags[i])))
    } else {
        JsonView::Null
    }
}

/// A value as it stands in a rendered text: a text as it is, null as nothing, anything else in
/// JSON notation.
pub open spec fn value_text(v: JsonView) -> Seq<char> {
    match v {
        JsonView::Text(t) => t,
        JsonView::Null => Seq::empty(),
        JsonView::Bool(b) => if b {
            "true"@
        } else {
            "false"@
        },
        JsonView::Number(n) => n,
        _ => json_text_of(v),
    }
}

/// The value of a literal on the right of `==`.
pub open spec fn literal_value(s: Seq<char>) -> JsonView {
    if s.len() >= 2 && s[0] == '"' && s.last() == '"' {
        JsonView::Text(s.subrange(1, s.len() - 1))
    } else if signed_value(s) is Some {
        JsonView::Number(signed_decimal(signed_value(s)->0))
    } else if float_text(s) is Some {
        JsonView::Number(float_text(s)->0)
    } else if s == "true"@ {
        JsonView::Bool(true)
    } else if s == "false"@ {
        JsonView::Bool(false)
    } else if s == "null"@ {
        JsonView::Null
    } else {
        JsonView::Text(s)
    }
}

/// Whether a condition holds: `!c` turns `c` round, `path == literal` compares, a path alone asks
/// for a value that counts as true.
pub open spec fn condition_holds(expr: Seq<char>, env: AlertEnvelopeView) -> bool
    decreases trim_seq(expr).len(),
{
    let e = trim_seq(expr);
    if e.len() > 0 && e[0] == '!' {
        proof {
            lemma_trim_len(e.drop_first());
            lemma_trim_len(trim_seq(e.drop_first()));
        }
        !condition_holds(trim_seq(e.drop_first()), env)
    } else {
        match find_from(e, "=="@, 0) {
            Some(i) => equals_scalar(
                env_value(env, trim_seq(e.take(i))),
                literal_value(trim_seq(e.skip(i + 2))),
            ),
            None => truthy(env_value(env, e)),
        }
    }
}

/// The byte offset of character `i` of `t`, in decimal notation.
pub open spec fn offset_text(t: Seq<char>, i: int) -> Seq<char> {
    decimal_seq(byte_count(t.take(i)))
}

/// The body of an `each` block for one item, from character `i` on.
pub open spec fn render_item(
    body: Seq<char>,
    item: JsonView,
    env: AlertEnvelopeView,
    i: int,
) -> Result<Seq<char>, Seq<char>>
    decreases body.len() - i,
{
    if i < 0 || i >= body.len() {
        Ok(Seq::empty())
    } else if occurs_at(body, "{{"@, i) {
        proof {
            reveal_strlit("}}");
            find_from_is_first(body, "}}"@, i + 2);
        }
        match find_from(body, "}}"@, i + 2) {
            None => Err(
                if occurs_at(body, "{{this"@, i) {
                    "unclosed {this... at "@ + offset_text(body, i)
                } else {
                    "unclosed placeholder at "@ + offset_text(body, i)
                },
            ),
            Some(close) => {
                let expr = trim_seq(body.subrange(i + 2, close));
                if occurs_at(body, "{{this"@, i) {
                    let text = if expr == "this"@ {
                        value_text(item)
                    } else if starts_with_seq(expr, "this."@) {
                        match walk_members(item, dot_parts(expr.skip(5))) {
                            Some(v) => value_text(v),
                            None => Seq::empty(),
                        }
                    } else {
                        value_text(env_value(env, expr))
                    };
                    before_text(text, render_item(body, item, env, close + 2))
                } else if expr.len() > 0 && expr[0] == '#' {
                    Err("nested block not supported in each: "@ + expr)
                } else {
                    before_text(value_text(env_value(env, expr)), render_item(body, item, env, close + 2))
                }
            },
        }
    } else {
        before_text(seq![body[i]], render_item(body, item, env, i + 1))
    }
}

/// `text` in front of a rendered text.
pub open spec fn before_text(text: Seq<char>, r: Result<Seq<char>, Seq<char>>) -> Result<
    Seq<char>,
    Seq<char>,
> {
    match r {
        Ok(s) => Ok(text + s),
        Err(e) => Err(e),
    }
}

/// The body of an `each` block for the items from number `k` on, one after the other.
pub open spec fn render_items(
    body: Seq<char>,
    items: Seq<JsonView>,
    env: AlertEnvelopeView,
    k: int,
) -> Result<Seq<char>, Seq<char>>
    decreases items.len() - k,
{
    if k < 0 || k >= items.len() {
        Ok(Seq::empty())
    } else {
        match render_item(body, items[k], env, 0) {
            Ok(s) => before_text(s, render_items(body, items, env, k + 1)),
            Err(e) => Err(e),
        }
    }
}

/// The items that an `each` block goes through: those of an array, none for anything else.
pub open spec fn each_items(env: AlertEnvelopeView, path: Seq<char>) -> Seq<JsonView> {
    match env_value(env, path) {
        JsonView::Array(items) => items,
        _ => Seq::empty(),
    }
}

/// `text` in front of a rendered stretch.
pub open spec fn before(text: Seq<char>, r: Result<(Seq<char>, int), Seq<char>>) -> Result<
    (Seq<char>, int),
    Seq<char>,
> {
    match r {
        Ok((s, end)) => Ok((text + s, end)),
        Err(e) => Err(e),
    }
}

/// Which part of a template is rendered.
#[derive(Debug, Clone, Copy, PartialEq, Eq, Structural)]
pub enum Part {
    /// All of it.
    Whole,
    /// What stands in an `if` block, up to its next `else` or its end.
    Branch,
}

/// Where character `i` of `t` stands: its byte offset, and its line and column.
pub open spec fn place_text(t: Seq<char>, i: int) -> Seq<char> {
    let (line, column) = line_col_behind(t.take(i));
    offset_text(t, i) + ", line:col "@ + decimal_seq(line) + ":"@ + decimal_seq(column)
}

/// The rendering of `t` from character `i` on: the text and where it ends. A branch of an `if`
/// block, which was opened at `opened`, ends in front of the tag that closes it: an `else` of the
/// block or its closing tag. All else ends at the end of `t`.
pub open spec fn render_from(t: Seq<char>, env: AlertEnvelopeView, i: int, part: Part, opened: int) -> Result<
    (Seq<char>, int),
    Seq<char>,
>
    decreases t.len() - i, 0nat,
{
    if i < 0 || i >= t.len() {
        if part != Part::Whole {
            Err("template: unclosed block at offset "@ + place_text(t, opened) + " (expected {/if})"@)
        } else {
            Ok((Seq::empty(), i))
        }
    } else if occurs_at(t, "{{/if}}"@, i) {
        if part != Part::Whole {
            Ok((Seq::empty(), i))
        } else {
            Err(
                "template: unexpected {/if} at offset "@ + place_text(t, i)
                    + " (no matching {#if})"@,
            )
        }
    } else if occurs_at(t, "{{else}}"@, i) && part == Part::Branch {
        Ok((Seq::empty(), i))
    } else if occurs_at(t, "{{/each}}"@, i) {
        Err("template: unexpected {/each} at offset "@ + place_text(t, i) + " (no matching {#each})"@)
    } else if occurs_at(t, "{{"@, i) {
        proof {
            reveal_strlit("}}");
            reveal_strlit("{{/if}}");
            find_from_is_first(t, "}}"@, i + 2);
        }
        match find_from(t, "}}"@, i + 2) {
            None => Err("template: unclosed placeholder at offset "@ + offset_text(t, i)),
            Some(close) => {
                let expr = trim_seq(t.subrange(i + 2, close));
                if starts_with_seq(expr, "#if "@) {
                    let holds = condition_holds(trim_seq(expr.skip(4)), env);
                    match branches_from(t, env, close + 2, i) {
                        Err(e) => Err(e),
                        Ok((first, second, end)) => if end > i && occurs_at(t, "{{/if}}"@, end) {
                            before(
                                branch_shown(holds, first, second),
                                render_from(t, env, end + 7, part, opened),
                            )
                        } else {
                            Ok((first, end))
                        },
                    }
                } else if starts_with_seq(expr, "#each "@) {
                    proof {
                        reveal_strlit("{{/each}}");
                        find_from_is_first(t, "{{/each}}"@, close + 2);
                    }
                    match find_from(t, "{{/each}}"@, close + 2) {
                        None => Err("template: unclosed {{#each}} at offset "@ + place_text(t, i)),
                        Some(end) => match render_items(
                            t.subrange(close + 2, end),
                            each_items(env, trim_seq(expr.skip(6))),
                            env,
                            0,
                        ) {
                            Ok(text) => before(text, render_from(t, env, end + 9, part, opened)),
                            Err(e) => Err(e),
                        },
                    }
                } else {
                    before(value_text(env_value(env, expr)), render_from(t, env, close + 2, part, opened))
                }
            },
        }
    } else {
        before(seq![t[i]], render_from(t, env, i + 1, part, opened))
    }
}

/// What an `if` block shows: the text of its first branch where the condition holds, else that of its
/// second, if it has one.
pub open spec fn branch_shown(holds: bool, first: Seq<char>, second: Option<Seq<char>>) -> Seq<char> {
    if holds {
        first
    } else {
        match second {
            Some(s) => s,
            None => Seq::empty(),
        }
    }
}

/// The renderings of the two branches of an `if` block, which was opened at `opened` and whose body
/// begins at character `i`, and where its closing tag stands. The last `else` of the block parts the
/// branches; any other shows nothing.
pub open spec fn branches_from(t: Seq<char>, env: AlertEnvelopeView, i: int, opened: int) -> Result<
    (Seq<char>, Option<Seq<char>>, int),
    Seq<char>,
>
    decreases t.len() - i, 1nat,
{
    match render_from(t, env, i, Part::Branch, opened) {
        Err(e) => Err(e),
        Ok((text, end)) => if end >= i && occurs_at(t, "{{else}}"@, end) {
            proof {
                reveal_strlit("{{else}}");
            }
            match branches_from(t, env, end + 8, opened) {
                Err(e) => Err(e),
                Ok((next, None, stop)) => Ok((text, Some(next), stop)),
                Ok((next, Some(last), stop)) => Ok((text + next, Some(last), stop)),
            }
        } else {
            Ok((text, None, end))
        },
    }
}

/// What a rendered body is sent as: JSON where it begins with a brace or a bracket.
pub open spec fn content_type_of(body: Seq<char>) -> TemplateContentType {
    let b = trim_start_seq(body);
    if b.len() > 0 && (b[0] == '{' || b[0] == '[') {
        TemplateContentType::Json
    } else {
        TemplateContentType::Text
    }
}

/// The rendering of a template against an envelope, or what is wrong with the template.
pub open spec fn rendered(t: Seq<char>, env: AlertEnvelopeView) -> Result<Seq<char>, Seq<char>> {
    match render_from(t, env, 0, Part::Whole, 0) {
        Ok((s, _)) => Ok(s),
        Err(e) => Err(e),
    }
}

/// The text of the number that a decimal literal stands for: `serde_json::Number::from_f64` of
/// what std reads from the literal. Nothing is handed out where either refuses. It depends on the
/// literal alone.
#[verifier::external_body]
fn float_literal(s: &str) -> (r: Option<String>)
    ensures
        match r {
            Some(t) => float_text(s@) == Some(t@),
            None => float_text(s@) is None,
        },
{
    let number = s.parse().ok().and_then(serde_json::Number::from_f64);
    number.map(|n| n.to_string())
}

/// The text of the integer of 64 bits that `s` stands for.
fn integer_literal(s: &str) -> (r: Option<String>)
    ensures
        match r {
            Some(t) => signed_value(s@) is Some && t@ == signed_decimal(signed_value(s@)->0),
            None => signed_value(s@) is None,
        },
{
    if starts_with(s, "-") {
        proof {
            reveal_strlit("-");
            assert(s@.subrange(0, 1)[0] == s@[0]);
        }
        let rest: &str = s.substring_char(1, s.unicode_len());
        assert(rest@ =~= s@.drop_first());
        if starts_with(rest, "+") {
            proof {
                reveal_strlit("+");
                assert(rest@.subrange(0, 1)[0] == rest@[0]);
                assert(!is_digit(rest@[0]));
            }
            return None;
        }
        proof {
            reveal_strlit("+");
            if rest@.len() > 0 && rest@[0] == '+' {
                assert(rest@.subrange(0, 1) =~= "+"@);
            }
        }
        match parse_bounded(rest, 0x8000_0000_0000_0000) {
            Some(n) => {
                if n == 0 {
                    Some(decimal(0))
                } else {
                    Some(join("-", decimal(n).as_str()))
                }
            },
            None => None,
        }
    } else {
        proof {
            reveal_strlit("-");
            if s@.len() > 0 && s@[0] == '-' {
                assert(s@.subrange(0, 1) =~= "-"@);
            }
        }
        match parse_bounded(s, 0x7FFF_FFFF_FFFF_FFFF) {
            Some(n) => Some(decimal(n)),
            None => None,
        }
    }
}

/// The value of a literal on the right of `==`.
fn parse_literal(s: &str) -> (r: Json)
    ensures
        r@ == literal_value(s@),
        !(r is Array),
        !(r is Object),
{
    let n: usize = s.unicode_len();
    if n >= 2 && s.get_char(0) == '"' && s.get_char(n - 1) == '"' {
        return Json::Text(s.substring_char(1, n - 1).to_owned());
    }
    if let Some(t) = integer_literal(s) {
        return Json::Number(t);
    }
    if let Some(t) = float_literal(s) {
        return Json::Number(t);
    }
    if same(s, "true") {
        return Json::Bool(true);
    }
    if same(s, "false") {
        return Json::Bool(false);
    }
    if same(s, "null") {
        return Json::Null;
    }
    Json::Text(s.to_owned())
}

/// The value that stands behind a path on an envelope.
fn lookup_path_value(env: &AlertEnvelope, path: &str) -> (r: Json)
    ensures
        r@ == env_value(env@, path@),
{
    let p: &str = trim(path);
    if starts_with(p, "payload.") {
        proof {
            reveal_strlit("payload.");
        }
        let n: usize = p.unicode_len();
        let rest: &str = p.substring_char(8, n);
        assert(rest@ =~= p@.skip(8));
        return match lookup_json_path(&env.payload, rest) {
            Some(v) => v.clone(),
            None => Json::Null,
        };
    }
    if same(p, "payload") {
        return env.payload.clone();
    }
    if same(p, "source") {
        return Json::Text(env.source.clone());
    }
    if same(p, "severity") {
        return Json::Text(env.severity.as_str().to_owned());
    }
    if same(p, "timestamp") {
        return Json::Number(decimal(env.timestamp));
    }
    if same(p, "event_id") {
        return Json::Text(env.event_id.clone());
    }
    if same(p, "schema_version") {
        return Json::Number(decimal(env.schema_version as u64));
    }
    if same(p, "tags") {
        let mut items: Vec<Json> = Vec::new();
        let mut i: usize = 0;
        while i < env.tags.len()
            invariant
                i <= env.tags@.len(),
                items@.len() == i,
                forall|k: int| 0 <= k < i ==> json_view(#[trigger] items@[k]) == JsonView::Text(env.tags@[k]@),
            decreases env.tags@.len() - i,
        {
            items.push(Json::Text(env.tags[i].clone()));
            i += 1;
        }
        proof {
            lemma_items_view(items@);
            let want = Seq::new(env@.tags.len(), |i: int| JsonView::Text(env@.tags[i]));
            assert forall|k: int| 0 <= k < want.len() implies items_view(items@)[k] == want[k] by {
                assert(json_view(items@[k]) == JsonView::Text(env.tags@[k]@));
            }
            assert(items_view(items@) =~= want);
        }
        return Json::Array(items);
    }
    Json::Null
}

/// A value as it stands in a rendered text.
fn value_to_string(v: &Json) -> (r: String)
    ensures
        r@ == value_text(v@),
{
    match v {
        Json::Text(t) => t.clone(),
        Json::Null => String::new(),
        Json::Bool(b) => if *b {
            "true".to_owned()
        } else {
            "false".to_owned()
        },
        Json::Number(n) => n.clone(),
        _ => json_text(v),
    }
}

/// Whether a condition holds.
fn eval_condition(expr: &str, env: &AlertEnvelope) -> (r: bool)
    ensures
        r == condition_holds(expr@, env@),
    decreases trim_seq(expr@).len(),
{
    let e: &str = trim(expr);
    if starts_with(e, "!") {
        let n: usize = e.unicode_len();
        proof {
            reveal_strlit("!");
            assert(e@.subrange(0, 1)[0] == e@[0]);
        }
        let rest: &str = e.substring_char(1, n);
        assert(rest@ =~= e@.drop_first());
        let inner: &str = trim(rest);
        proof {
            lemma_trim_len(rest@);
            lemma_trim_len(inner@);
        }
        return !eval_condition(inner, env);
    }
    proof {
        reveal_strlit("!");
        reveal_strlit("==");
        if e@.len() > 0 && e@[0] == '!' {
            assert(e@.subrange(0, 1) =~= "!"@);
        }
        find_from_is_first(e@, "=="@, 0);
    }
    let cs: Vec<char> = chars_of(e);
    let eq: Vec<char> = chars_of("==");
    let n: usize = cs.len();
    match find_at(&cs, &eq, 0) {
        Some(i) => {
            assert(occurs_at(e@, "=="@, i as int));
            assert(i + 2 <= n);
            let left: &str = e.substring_char(0, i);
            let right: &str = e.substring_char(i + 2, n);
            assert(left@ =~= e@.take(i as int));
            assert(right@ =~= e@.skip(i + 2));
            let lv: Json = lookup_path_value(env, trim(left));
            let rv: Json = parse_literal(trim(right));
            values_equal(&lv, &rv)
        },
        None => is_truthy(&lookup_path_value(env, e)),
    }
}

/// The byte offset of character `i`, in decimal notation.
fn offset_string(cs: &[char], i: usize) -> (r: String)
    requires
        i <= cs@.len(),
        byte_count(cs@) <= usize::MAX,
    ensures
        r@ == offset_text(cs@, i as int),
{
    decimal(byte_offset(cs, i) as u64)
}

/// Renders the body of an `each` block for one item.
fn render_each_body(cs: &[char], item: &Json, env: &AlertEnvelope) -> (r: Result<String, String>)
    requires
        byte_count(cs@) <= usize::MAX,
    ensures
        match r {
            Ok(s) => render_item(cs@, item@, env@, 0) == Ok::<Seq<char>, Seq<char>>(s@),
            Err(e) => render_item(cs@, item@, env@, 0) == Err::<Seq<char>, Seq<char>>(e@),
        },
{
    let open: Vec<char> = chars_of("{{");
    let open_this: Vec<char> = chars_of("{{this");
    let shut: Vec<char> = chars_of("}}");
    proof {
        reveal_strlit("{{");
        reveal_strlit("{{this");
        reveal_strlit("}}");
        reveal_strlit("this.");
        reveal_strlit("#");
    }
    let mut out: String = String::new();
    let mut i: usize = 0;
    assert(before_text(out@, render_item(cs@, item@, env@, 0)) =~= render_item(
        cs@,
        item@,
        env@,
        0,
    )) by {
        match render_item(cs@, item@, env@, 0) {
            Ok(s) => {
                assert(Seq::<char>::empty() + s =~= s);
            },
            Err(_) => {},
        }
    }
    while i < cs.len()
        invariant
            byte_count(cs@) <= usize::MAX,
            i <= cs@.len(),
            open@ == "{{"@,
            open@.len() == 2,
            open_this@ == "{{this"@,
            open_this@.len() == 6,
            shut@ == "}}"@,
            shut@.len() == 2,
            "this."@.len() == 5,
            "#"@ == seq!['#'],
            render_item(cs@, item@, env@, 0) == before_text(
                out@,
                render_item(cs@, item@, env@, i as int),
            ),
        decreases cs@.len() - i,
    {
        let ghost so_far = out@;
        if matches_at(cs, &open, i) {
            proof {
                find_from_is_first(cs@, "}}"@, i + 2);
            }
            let is_this: bool = matches_at(cs, &open_this, i);
            let close: usize = match find_at(cs, &shut, i + 2) {
                Some(c) => c,
                None => {
                    let at: String = offset_string(cs, i);
                    return Err(
                        if is_this {
                            join("unclosed {this... at ", at.as_str())
                        } else {
                            join("unclosed placeholder at ", at.as_str())
                        },
                    );
                },
            };
            let raw: String = slice_text(cs, i + 2, close);
            let expr: &str = trim(raw.as_str());
            let text: String = if is_this {
                if same(expr, "this") {
                    value_to_string(item)
                } else if starts_with(expr, "this.") {
                    let rest: &str = expr.substring_char(5, expr.unicode_len());
                    assert(rest@ =~= expr@.skip(5));
                    match lookup_json_path(item, rest) {
                        Some(v) => value_to_string(v),
                        None => String::new(),
                    }
                } else {
                    value_to_string(&lookup_path_value(env, expr))
                }
            } else {
                if starts_with(expr, "#") {
                    assert(expr@.subrange(0, 1)[0] == expr@[0]);
                    return Err(join("nested block not supported in each: ", expr));
                }
                assert(!(expr@.len() > 0 && expr@[0] == '#')) by {
                    if expr@.len() > 0 && expr@[0] == '#' {
                        assert(expr@.subrange(0, 1) =~= "#"@);
                    }
                }
                value_to_string(&lookup_path_value(env, expr))
            };
            out.append(text.as_str());
            proof {
                assert(before_text(so_far, before_text(text@, render_item(cs@, item@, env@, close + 2)))
                    == before_text(so_far + text@, render_item(cs@, item@, env@, close + 2))) by {
                    lemma_before_text(so_far, text@, render_item(cs@, item@, env@, close + 2));
                }
            }
            i = close + 2;
        } else {
            out.push(cs[i]);
            proof {
                lemma_before_text(so_far, seq![cs@[i as int]], render_item(cs@, item@, env@, i + 1));
                assert(so_far + seq![cs@[i as int]] =~= out@);
            }
            i += 1;
        }
    }
    proof {
        assert(out@ + Seq::<char>::empty() =~= out@);
    }
    Ok(out)
}

proof fn lemma_before_text(a: Seq<char>, b: Seq<char>, r: Result<Seq<char>, Seq<char>>)
    ensures
        before_text(a, before_text(b, r)) == before_text(a + b, r),
{
    match r {
        Ok(s) => {
            assert(a + (b + s) =~= (a + b) + s);
        },
        Err(_) => {},
    }
}

proof fn lemma_before(a: Seq<char>, b: Seq<char>, r: Result<(Seq<char>, int), Seq<char>>)
    ensures
        before(a, before(b, r)) == before(a + b, r),
{
    match r {
        Ok((s, _)) => {
            assert(a + (b + s) =~= (a + b) + s);
        },
        Err(_) => {},
    }
}

/// Renders the body of an `each` block for every item in turn.
fn render_each(cs: &[char], items: &Vec<Json>, env: &AlertEnvelope) -> (r: Result<String, String>)
    requires
        byte_count(cs@) <= usize::MAX,
    ensures
        match r {
            Ok(s) => render_items(cs@, items_view(items@), env@, 0) == Ok::<Seq<char>, Seq<char>>(s@),
            Err(e) => render_items(cs@, items_view(items@), env@, 0) == Err::<Seq<char>, Seq<char>>(e@),
        },
{
    let ghost all = items_view(items@);
    let mut out: String = String::new();
    let mut k: usize = 0;
    proof {
        lemma_items_view(items@);
        match render_items(cs@, all, env@, 0) {
            Ok(s) => {
                assert(Seq::<char>::empty() + s =~= s);
            },
            Err(_) => {},
        }
    }
    while k < items.len()
        invariant
            byte_count(cs@) <= usize::MAX,
            k <= items@.len(),
            all == items_view(items@),
            all.len() == items@.len(),
            forall|j: int| 0 <= j < items@.len() ==> all[j] == #[trigger] json_view(items@[j]),
            render_items(cs@, all, env@, 0) == before_text(
                out@,
                render_items(cs@, all, env@, k as int),
            ),
        decreases items@.len() - k,
    {
        assert(all[k as int] == json_view(items@[k as int]));
        let ghost so_far = out@;
        let text: String = render_each_body(cs, &items[k], env)?;
        out.append(text.as_str());
        proof {
            lemma_before_text(so_far, text@, render_items(cs@, all, env@, k + 1));
        }
        k += 1;
    }
    proof {
        assert(out@ + Seq::<char>::empty() =~= out@);
    }
    Ok(out)
}

/// Where character `i` stands: its byte offset, and its line and column.
fn place_string(cs: &[char], i: usize) -> (r: String)
    requires
        i < cs@.len(),
        byte_count(cs@) <= usize::MAX,
    ensures
        r@ == place_text(cs@, i as int),
{
    let n: usize = cs.len();
    let mut line: usize = 1;
    let mut column: usize = 1;
    let mut k: usize = 0;
    assert(cs@.take(0) =~= Seq::<char>::empty());
    while k < i
        invariant
            k <= i < n,
            n == cs@.len(),
            line <= k + 1,
            column <= k + 1,
            (line as nat, column as nat) == line_col_behind(cs@.take(k as int)),
        decreases i - k,
    {
        assert(cs@.take(k + 1).drop_last() =~= cs@.take(k as int));
        assert(cs@.take(k + 1).last() == cs@[k as int]);
        if cs[k] == '\n' {
            line += 1;
            column = 1;
        } else {
            column += 1;
        }
        k += 1;
    }
    let at: String = join3(
        offset_string(cs, i).as_str(),
        ", line:col ",
        decimal(line as u64).as_str(),
    );
    join3(at.as_str(), ":", decimal(column as u64).as_str())
}

/// Renders the two branches of an `if` block, which was opened at `opened`, from the beginning of its
/// body on, and finds its closing tag.
fn render_branches(cs: &[char], env: &AlertEnvelope, pos: usize, opened: usize) -> (r: Result<
    (String, Option<String>, usize),
    String,
>)
    requires
        pos <= cs@.len(),
        opened < cs@.len(),
        byte_count(cs@) <= usize::MAX,
    ensures
        match r {
            Ok(done) => {
                &&& branches_from(cs@, env@, pos as int, opened as int) == Ok::<
                    (Seq<char>, Option<Seq<char>>, int),
                    Seq<char>,
                >(
                    (
                        done.0@,
                        match done.1 {
                            Some(s) => Some(s@),
                            None => None,
                        },
                        done.2 as int,
                    ),
                )
                &&& pos <= done.2
                &&& occurs_at(cs@, "{{/if}}"@, done.2 as int)
            },
            Err(e) => branches_from(cs@, env@, pos as int, opened as int) == Err::<
                (Seq<char>, Option<Seq<char>>, int),
                Seq<char>,
            >(e@),
        },
    decreases cs@.len() - pos, 1nat,
{
    let else_tag: Vec<char> = chars_of("{{else}}");
    proof {
        reveal_strlit("{{else}}");
    }
    let n: usize = cs.len();
    let (text, end) = render_into(cs, env, pos, Part::Branch, opened)?;
    if !matches_at(cs, &else_tag, end) {
        return Ok((text, None, end));
    }
    assert(end + 8 <= n);
    let (next, last, stop) = render_branches(cs, env, end + 8, opened)?;
    match last {
        Some(last) => Ok((join(text.as_str(), next.as_str()), Some(last), stop)),
        None => Ok((text, Some(next), stop)),
    }
}

/// Renders from character `pos` on. A branch of an `if` block was opened at `opened`.
fn render_into(cs: &[char], env: &AlertEnvelope, pos: usize, part: Part, opened: usize) -> (r: Result<
    (String, usize),
    String,
>)
    requires
        pos <= cs@.len(),
        part != Part::Whole ==> opened < cs@.len(),
        byte_count(cs@) <= usize::MAX,
    ensures
        match r {
            Ok(done) => {
                &&& render_from(cs@, env@, pos as int, part, opened as int) == Ok::<
                    (Seq<char>, int),
                    Seq<char>,
                >((done.0@, done.1 as int))
                &&& pos <= done.1 <= cs@.len()
                &&& part != Part::Whole ==> {
                    ||| occurs_at(cs@, "{{/if}}"@, done.1 as int)
                    ||| occurs_at(cs@, "{{else}}"@, done.1 as int)
                }
            },
            Err(e) => render_from(cs@, env@, pos as int, part, opened as int) == Err::<
                (Seq<char>, int),
                Seq<char>,
            >(e@),
        },
    decreases cs@.len() - pos, 0nat,
{
    let if_end: Vec<char> = chars_of("{{/if}}");
    let each_end: Vec<char> = chars_of("{{/each}}");
    let else_tag: Vec<char> = chars_of("{{else}}");
    let open: Vec<char> = chars_of("{{");
    let shut: Vec<char> = chars_of("}}");
    proof {
        reveal_strlit("{{/if}}");
        reveal_strlit("{{/each}}");
        reveal_strlit("{{else}}");
        reveal_strlit("{{");
        reveal_strlit("}}");
        reveal_strlit("#if ");
        reveal_strlit("#each ");
    }
    let n: usize = cs.len();
    let mut out: String = String::new();
    let mut i: usize = pos;
    proof {
        match render_from(cs@, env@, pos as int, part, opened as int) {
            Ok((s, _)) => {
                assert(Seq::<char>::empty() + s =~= s);
            },
            Err(_) => {},
        }
    }
    while i < n
        invariant
            n == cs@.len(),
            byte_count(cs@) <= usize::MAX,
            part != Part::Whole ==> opened < n,
            pos <= i <= n,
            if_end@ == "{{/if}}"@,
            if_end@.len() == 7,
            each_end@ == "{{/each}}"@,
            each_end@.len() == 9,
            else_tag@ == "{{else}}"@,
            else_tag@.len() == 8,
            open@ == "{{"@,
            open@.len() == 2,
            shut@ == "}}"@,
            shut@.len() == 2,
            "#if "@.len() == 4,
            "#each "@.len() == 6,
            render_from(cs@, env@, pos as int, part, opened as int) == before(
                out@,
                render_from(cs@, env@, i as int, part, opened as int),
            ),
        decreases n - i,
    {
        let ghost so_far = out@;
        if matches_at(cs, &if_end, i) {
            if part != Part::Whole {
                assert(out@ + Seq::<char>::empty() =~= out@);
                return Ok((out, i));
            }
            let at: String = place_string(cs, i);
            return Err(
                join3("template: unexpected {/if} at offset ", at.as_str(), " (no matching {#if})"),
            );
        }
        if part == Part::Branch && matches_at(cs, &else_tag, i) {
            assert(out@ + Seq::<char>::empty() =~= out@);
            return Ok((out, i));
        }
        if matches_at(cs, &each_end, i) {
            let at: String = place_string(cs, i);
            return Err(
                join3(
                    "template: unexpected {/each} at offset ",
                    at.as_str(),
                    " (no matching {#each})",
                ),
            );
        }
        if matches_at(cs, &open, i) {
            proof {
                find_from_is_first(cs@, "}}"@, i + 2);
            }
            let close: usize = match find_at(cs, &shut, i + 2) {
                Some(c) => c,
                None => {
                    let at: String = offset_string(cs, i);
                    return Err(join("template: unclosed placeholder at offset ", at.as_str()));
                },
            };
            let raw: String = slice_text(cs, i + 2, close);
            let expr: &str = trim(raw.as_str());
            if starts_with(expr, "#if ") {
                let rest: &str = expr.substring_char(4, expr.unicode_len());
                assert(rest@ =~= expr@.skip(4));
                let holds: bool = eval_condition(trim(rest), env);
                let (first, second, end) = render_branches(cs, env, close + 2, i)?;
                let text: String = if holds {
                    first
                } else {
                    match second {
                        Some(other) => other,
                        None => String::new(),
                    }
                };
                assert(!holds && second is None ==> text@ =~= Seq::<char>::empty());
                out.append(text.as_str());
                proof {
                    lemma_before(
                        so_far,
                        text@,
                        render_from(cs@, env@, end + 7, part, opened as int),
                    );
                }
                i = end + 7;
                continue ;
            }
            if starts_with(expr, "#each ") {
                let rest: &str = expr.substring_char(6, expr.unicode_len());
                assert(rest@ =~= expr@.skip(6));
                let path: &str = trim(rest);
                let body_start: usize = close + 2;
                proof {
                    find_from_is_first(cs@, "{{/each}}"@, close + 2);
                }
                let end: usize = match find_at(cs, &each_end, body_start) {
                    Some(e) => e,
                    None => {
                        let at: String = place_string(cs, i);
                        return Err(join("template: unclosed {{#each}} at offset ", at.as_str()));
                    },
                };
                let body: &[char] = vstd::slice::slice_subrange(cs, body_start, end);
                proof {
                    lemma_sub_byte_count(cs@, body_start as int, end as int);
                }
                let text: String = match lookup_path_value(env, path) {
                    Json::Array(items) => render_each(body, &items, env)?,
                    _ => String::new(),
                };
                out.append(text.as_str());
                proof {
                    lemma_before(
                        so_far,
                        text@,
                        render_from(cs@, env@, end + 9, part, opened as int),
                    );
                }
                i = end + 9;
                continue ;
            }
            let text: String = value_to_string(&lookup_path_value(env, expr));
            out.append(text.as_str());
            proof {
                lemma_before(so_far, text@, render_from(cs@, env@, close + 2, part, opened as int));
            }
            i = close + 2;
            continue ;
        }
        out.push(cs[i]);
        proof {
            lemma_before(
                so_far,
                seq![cs@[i as int]],
                render_from(cs@, env@, i + 1, part, opened as int),
            );
            assert(so_far + seq![cs@[i as int]] =~= out@);
        }
        i += 1;
    }
    if part != Part::Whole {
        let at: String = place_string(cs, opened);
        return Err(
            join3("template: unclosed block at offset ", at.as_str(), " (expected {/if})"),
        );
    }
    assert(out@ + Seq::<char>::empty() =~= out@);
    Ok((out, i))
}

/// A stretch of a text takes no more bytes than the text.
proof fn lemma_sub_byte_count(s: Seq<char>, from: int, to: int)
    requires
        0 <= from <= to <= s.len(),
    ensures
        byte_count(s.subrange(from, to)) <= byte_count(s),
{
    assert(s =~= s.take(from) + (s.subrange(from, to) + s.skip(to)));
    lemma_encode_concat(s.take(from), s.subrange(from, to) + s.skip(to));
    lemma_encode_concat(s.subrange(from, to), s.skip(to));
}

/// Renders a template against an envelope and tells what the result is sent as.
///
/// `{{path}}` stands for a field of the envelope (`source`, `severity`, `timestamp`, `event_id`,
/// `schema_version`, `tags`), `{{payload}}` for the payload and `{{payload.a.b}}` for a member of it;
/// `{{#if c}}A{{/if}}` shows the rendering of `A` where `c` holds, `{{#if c}}A{{else}}B{{/if}}` that
/// of `B` where it does not, the last `else` of a block being the one that counts;
/// `{{#each path}}B{{/each}}` repeats `B` for each item of an array, which
/// is `{{this}}` there. Blocks may stand in the branches of an `if`; an `else` belongs to the
/// innermost `if` around it. A block without its other end is refused, with its place.
pub fn render_template(template: &str, env: &AlertEnvelope) -> (r: Result<
    (String, TemplateContentType),
    String,
>)
    ensures
        match r {
            Ok(done) => rendered(template@, env@) == Ok::<Seq<char>, Seq<char>>(done.0@) && done.1
                == content_type_of(done.0@),
            Err(e) => rendered(template@, env@) == Err::<Seq<char>, Seq<char>>(e@),
        },
{
    let cs: Vec<char> = chars_of(template);
    let total: usize = byte_len(template);
    assert(byte_count(cs@) == total);
    let (out, _) = render_into(&cs, env, 0, Part::Whole, 0)?;
    let body: &str = trim_start(out.as_str());
    let ct: TemplateContentType = if body.unicode_len() > 0 && (body.get_char(0) == '{'
        || body.get_char(0) == '[') {
        TemplateContentType::Json
    } else {
        TemplateContentType::Text
    };
    Ok((out, ct))
}

/// The line and the column behind a text, both counted from one.
pub open spec fn line_col_behind(p: Seq<char>) -> (nat, nat)
    decreases p.len(),
{
    if p.len() == 0 {
        (1, 1)
    } else {
        let (line, col) = line_col_behind(p.drop_last());
        if p.last() == '\n' {
            (line + 1, 1)
        } else {
            (line, col + 1)
        }
    }
}

/// How many characters of `s` begin in front of byte `offset`, counted on from `k`.
pub open spec fn chars_before(s: Seq<char>, offset: nat, k: int) -> int
    decreases s.len() - k,
{
    if k >= s.len() || byte_count(s.take(k)) >= offset {
        k
    } else {
        chars_before(s, offset, k + 1)
    }
}

/// The line and the column of byte `offset` of `s`; a column counts characters.
pub open spec fn line_col_of(s: Seq<char>, offset: nat) -> (nat, nat) {
    line_col_behind(s.take(chars_before(s, offset, 0)))
}

/// The line and the column of a byte offset, both counted from one. A column counts characters.
pub fn offset_to_line_col(template: &str, offset: usize) -> (r: (usize, usize))
    requires
        template@.len() < usize::MAX,
    ensures
        (r.0 as nat, r.1 as nat) == line_col_of(template@, offset as nat),
{
    let cs: Vec<char> = chars_of(template);
    let total: usize = byte_len(template);
    let n: usize = cs.len();
    let mut line: usize = 1;
    let mut col: usize = 1;
    let mut bytes: usize = 0;
    let mut i: usize = 0;
    assert(cs@.take(0) =~= Seq::<char>::empty());
    while i < n && bytes < offset
        invariant
            n == cs@.len(),
            n < usize::MAX,
            cs@ == template@,
            total == byte_count(cs@),
            i <= n,
            bytes == byte_count(cs@.take(i as int)),
            line <= i + 1,
            col <= i + 1,
            (line as nat, col as nat) == line_col_behind(cs@.take(i as int)),
            chars_before(cs@, offset as nat, 0) == chars_before(cs@, offset as nat, i as int),
        decreases n - i,
    {
        let c: char = cs[i];
        proof {
            lemma_byte_count_step(cs@, i as int);
            assert(cs@.take(i + 1).drop_last() =~= cs@.take(i as int));
            assert(cs@.take(i + 1).last() == c);
        }
        if c == '\n' {
            line += 1;
            col = 1;
        } else {
            col += 1;
        }
        bytes = bytes + char_len(c);
        i += 1;
    }
    (line, col)
}

/// One finding about a template.
#[derive(Debug)]
pub struct TemplateDiagnostic {
    /// `error` or `warning`.
    pub severity: &'static str,
    /// What kind of finding it is, as one fixed word.
    pub code: String,
    pub message: String,
    /// Where it is, in bytes.
    pub offset: usize,
    pub line: usize,
    pub column: usize,
}

/// What a [`TemplateDiagnostic`] holds.
pub struct TemplateDiagnosticView {
    pub severity: Seq<char>,
    pub code: Seq<char>,
    pub message: Seq<char>,
    pub offset: nat,
    pub line: nat,
    pub column: nat,
}

impl View for TemplateDiagnostic {
    type V = TemplateDiagnosticView;

    open spec fn view(&self) -> TemplateDiagnosticView {
        TemplateDiagnosticView {
            severity: self.severity@,
            code: self.code@,
            message: self.message@,
            offset: self.offset as nat,
            line: self.line as nat,
            column: self.column as nat,
        }
    }
}

impl Clone for TemplateDiagnostic {
    fn clone(&self) -> (r: Self)
        ensures
            r@ == self@,
    {
        TemplateDiagnostic {
            severity: self.severity,
            code: self.code.clone(),
            message: self.message.clone(),
            offset: self.offset,
            line: self.line,
            column: self.column,
        }
    }
}

/// The views of findings, in order.
pub open spec fn diagnostics_view(s: Seq<TemplateDiagnostic>) -> Seq<TemplateDiagnosticView> {
    Seq::new(s.len(), |i: int| s[i]@)
}

/// A finding at byte `offset` of `t`.
pub open spec fn finding(
    t: Seq<char>,
    offset: nat,
    severity: Seq<char>,
    code: Seq<char>,
    message: Seq<char>,
) -> TemplateDiagnosticView {
    TemplateDiagnosticView {
        severity,
        code,
        message,
        offset,
        line: line_col_of(t, offset).0,
        column: line_col_of(t, offset).1,
    }
}

fn diag_at(
    template: &str,
    offset: usize,
    severity: &'static str,
    code: &str,
    message: &str,
) -> (r: TemplateDiagnostic)
    requires
        template@.len() < usize::MAX,
    ensures
        r@ == finding(template@, offset as nat, severity@, code@, message@),
{
    let (line, column) = offset_to_line_col(template, offset);
    TemplateDiagnostic {
        severity,
        code: code.to_owned(),
        message: message.to_owned(),
        offset,
        line,
        column,
    }
}

/// A block that is open: whether it is an `if`, and the byte offset of its tag.
pub struct OpenBlock {
    pub is_if: bool,
    pub offset: usize,
}

/// What an [`OpenBlock`] holds.
pub struct OpenBlockView {
    pub is_if: bool,
    pub offset: nat,
}

impl View for OpenBlock {
    type V = OpenBlockView;

    open spec fn view(&self) -> OpenBlockView {
        OpenBlockView { is_if: self.is_if, offset: self.offset as nat }
    }
}

/// The views of open blocks, outermost first.
pub open spec fn blocks_view(s: Seq<OpenBlock>) -> Seq<OpenBlockView> {
    Seq::new(s.len(), |i: int| s[i]@)
}

/// The finding for a block that is never closed.
pub open spec fn unclosed_finding(t: Seq<char>, b: OpenBlockView) -> TemplateDiagnosticView {
    finding(
        t,
        b.offset,
        "error"@,
        "unclosed_block"@,
        if b.is_if {
            "unclosed {{#if}} block"@
        } else {
            "unclosed {{#each}} block"@
        },
    )
}

/// What one tag does: the findings it gives and the blocks that are open behind it. `expr` is what
/// stands between its braces, `offset` where it begins.
pub open spec fn lint_tag(
    t: Seq<char>,
    expr: Seq<char>,
    offset: nat,
    open: Seq<OpenBlockView>,
) -> (Seq<TemplateDiagnosticView>, Seq<OpenBlockView>) {
    if starts_with_seq(expr, "#if "@) || starts_with_seq(expr, "#each "@) {
        (
            if open.len() + 1 >= 9 {
                seq![
                    finding(t, offset, "error"@, "nested_too_deep"@, "block nesting too deep (max 8)"@),
                ]
            } else {
                Seq::empty()
            },
            open.push(OpenBlockView { is_if: starts_with_seq(expr, "#if "@), offset }),
        )
    } else if expr == "/if"@ || expr == "/each"@ {
        let closes_if = expr == "/if"@;
        if open.len() == 0 {
            (
                seq![
                    finding(
                        t,
                        offset,
                        "error"@,
                        "unexpected_close"@,
                        if closes_if {
                            "unexpected {{/if}} with no matching {{#if}}"@
                        } else {
                            "unexpected {{/each}} with no matching {{#each}}"@
                        },
                    ),
                ],
                open,
            )
        } else if open.last().is_if == closes_if {
            (Seq::empty(), open.drop_last())
        } else {
            (
                seq![
                    finding(
                        t,
                        offset,
                        "error"@,
                        "mismatched_close"@,
                        (if closes_if {
                            "{{/if}} closes {{}} at offset "@
                        } else {
                            "{{/each}} closes {{}} at offset "@
                        }) + decimal_seq(open.last().offset),
                    ),
                ],
                open.drop_last(),
            )
        }
    } else if expr.len() == 0 {
        (seq![finding(t, offset, "warning"@, "empty_tag"@, "empty placeholder"@)], open)
    } else if contains_seq(expr, " "@) && !contains_seq(expr, "=="@) && !starts_with_seq(expr, "#"@) {
        (
            seq![
                finding(
                    t,
                    offset,
                    "warning"@,
                    "unknown_tag"@,
                    "unexpected placeholder syntax: "@ + expr,
                ),
            ],
            open,
        )
    } else {
        (Seq::empty(), open)
    }
}

/// The findings for all blocks that are still open at the end.
pub open spec fn unclosed_findings(t: Seq<char>, open: Seq<OpenBlockView>) -> Seq<
    TemplateDiagnosticView,
> {
    Seq::new(open.len(), |i: int| unclosed_finding(t, open[i]))
}

/// The findings about `t` from character `i` on, where the blocks `open` are open.
pub open spec fn lint_from(t: Seq<char>, i: int, open: Seq<OpenBlockView>) -> Seq<
    TemplateDiagnosticView,
>
    decreases t.len() - i,
{
    if i < 0 || i >= t.len() {
        unclosed_findings(t, open)
    } else if occurs_at(t, "{{"@, i) {
        proof {
            reveal_strlit("}}");
            find_from_is_first(t, "}}"@, i + 2);
        }
        match find_from(t, "}}"@, i + 2) {
            None => seq![
                finding(
                    t,
                    byte_count(t.take(i)),
                    "error"@,
                    "unclosed_placeholder"@,
                    "unclosed {{ placeholder (missing }})"@,
                ),
            ] + unclosed_findings(t, open),
            Some(close) => {
                let (found, inside) = lint_tag(
                    t,
                    trim_seq(t.subrange(i + 2, close)),
                    byte_count(t.take(i)),
                    open,
                );
                found + lint_from(t, close + 2, inside)
            },
        }
    } else {
        lint_from(t, i + 1, open)
    }
}

/// Looks at one tag; hands out its finding, if there is one, and keeps track of the open blocks.
fn lint_one_tag(template: &str, expr: &str, offset: usize, open: &mut Vec<OpenBlock>) -> (r: Option<
    TemplateDiagnostic,
>)
    requires
        template@.len() < usize::MAX,
    ensures
        lint_tag(template@, expr@, offset as nat, blocks_view(old(open)@)).1 == blocks_view(final(open)@),
        lint_tag(template@, expr@, offset as nat, blocks_view(old(open)@)).0 == (match r {
            Some(d) => seq![d@],
            None => Seq::<TemplateDiagnosticView>::empty(),
        }),
{
    let ghost before = blocks_view(open@);
    let is_if: bool = starts_with(expr, "#if ");
    if is_if || starts_with(expr, "#each ") {
        let found: Option<TemplateDiagnostic> = if open.len() >= 8 {
            Some(
                diag_at(
                    template,
                    offset,
                    "error",
                    "nested_too_deep",
                    "block nesting too deep (max 8)",
                ),
            )
        } else {
            None
        };
        open.push(OpenBlock { is_if, offset });
        assert(blocks_view(open@) =~= before.push(OpenBlockView { is_if, offset: offset as nat }));
        return found;
    }
    let closes_if: bool = same(expr, "/if");
    if closes_if || same(expr, "/each") {
        return match open.pop() {
            None => {
                Some(
                    diag_at(
                        template,
                        offset,
                        "error",
                        "unexpected_close",
                        if closes_if {
                            "unexpected {{/if}} with no matching {{#if}}"
                        } else {
                            "unexpected {{/each}} with no matching {{#each}}"
                        },
                    ),
                )
            },
            Some(b) => {
                assert(b@ == before.last());
                assert(blocks_view(open@) =~= before.drop_last());
                if b.is_if == closes_if {
                    None
                } else {
                    let at: String = decimal(b.offset as u64);
                    let message: String = join(
                        if closes_if {
                            "{{/if}} closes {{}} at offset "
                        } else {
                            "{{/each}} closes {{}} at offset "
                        },
                        at.as_str(),
                    );
                    Some(diag_at(template, offset, "error", "mismatched_close", message.as_str()))
                }
            },
        };
    }
    if expr.is_empty() {
        return Some(diag_at(template, offset, "warning", "empty_tag", "empty placeholder"));
    }
    if contains(expr, " ") && !contains(expr, "==") && !starts_with(expr, "#") {
        let message: String = join("unexpected placeholder syntax: ", expr);
        return Some(diag_at(template, offset, "warning", "unknown_tag", message.as_str()));
    }
    None
}

/// Checks the structure of a template without rendering it: unclosed and unmatched blocks, blocks
/// nested too deep and unclosed placeholders are errors, empty and odd placeholders are warnings.
pub fn lint_template(template: &str) -> (r: Vec<TemplateDiagnostic>)
    requires
        template@.len() < usize::MAX,
    ensures
        diagnostics_view(r@) == lint_from(template@, 0, Seq::empty()),
{
    let cs: Vec<char> = chars_of(template);
    let total: usize = byte_len(template);
    let tag: Vec<char> = chars_of("{{");
    let shut: Vec<char> = chars_of("}}");
    proof {
        reveal_strlit("{{");
        reveal_strlit("}}");
    }
    let mut out: Vec<TemplateDiagnostic> = Vec::new();
    let mut open: Vec<OpenBlock> = Vec::new();
    let n: usize = cs.len();
    let mut i: usize = 0;
    let mut broken: bool = false;
    assert(blocks_view(open@) =~= Seq::<OpenBlockView>::empty());
    assert(diagnostics_view(out@) =~= Seq::<TemplateDiagnosticView>::empty());
    assert(Seq::<TemplateDiagnosticView>::empty() + lint_from(template@, 0, Seq::empty())
        =~= lint_from(template@, 0, Seq::empty()));
    while i < n && !broken
        invariant
            n == cs@.len(),
            n < usize::MAX,
            cs@ == template@,
            total == byte_count(cs@),
            i <= n,
            tag@ == "{{"@,
            tag@.len() == 2,
            shut@ == "}}"@,
            shut@.len() == 2,
            !broken ==> lint_from(template@, 0, Seq::empty()) == diagnostics_view(out@) + lint_from(
                template@,
                i as int,
                blocks_view(open@),
            ),
            broken ==> lint_from(template@, 0, Seq::empty()) == diagnostics_view(out@)
                + unclosed_findings(template@, blocks_view(open@)),
        decreases (n - i) + (if broken { 0int } else { 1int }),
    {
        let ghost so_far = diagnostics_view(out@);
        let ghost blocks = blocks_view(open@);
        if matches_at(&cs, &tag, i) {
            proof {
                find_from_is_first(cs@, "}}"@, i + 2);
            }
            let offset: usize = byte_offset(&cs, i);
            match find_at(&cs, &shut, i + 2) {
                None => {
                    out.push(
                        diag_at(
                            template,
                            offset,
                            "error",
                            "unclosed_placeholder",
                            "unclosed {{ placeholder (missing }})",
                        ),
                    );
                    broken = true;
                    assert(diagnostics_view(out@) =~= so_far.push(out@.last()@));
                    assert(so_far + (seq![out@.last()@] + unclosed_findings(template@, blocks))
                        =~= diagnostics_view(out@) + unclosed_findings(template@, blocks));
                },
                Some(close) => {
                    let raw: String = slice_text(&cs, i + 2, close);
                    let expr: &str = trim(raw.as_str());
                    let found: Option<TemplateDiagnostic> = lint_one_tag(
                        template,
                        expr,
                        offset,
                        &mut open,
                    );
                    let ghost tail = lint_from(template@, close + 2, blocks_view(open@));
                    match found {
                        Some(d) => {
                            let ghost dv = d@;
                            out.push(d);
                            assert(diagnostics_view(out@) =~= so_far.push(dv));
                            assert(so_far + (seq![dv] + tail) =~= diagnostics_view(out@) + tail);
                        },
                        None => {
                            assert(so_far + (Seq::<TemplateDiagnosticView>::empty() + tail) =~= so_far + tail);
                        },
                    }
                    i = close + 2;
                },
            }
        } else {
            i += 1;
        }
    }
    let ghost so_far = diagnostics_view(out@);
    let ghost blocks = blocks_view(open@);
    let mut k: usize = 0;
    assert(so_far + unclosed_findings(template@, blocks).take(0) =~= so_far);
    while k < open.len()
        invariant
            n < usize::MAX,
            n == template@.len(),
            k <= open@.len(),
            blocks == blocks_view(open@),
            diagnostics_view(out@) == so_far + unclosed_findings(template@, blocks).take(k as int),
        decreases open@.len() - k,
    {
        let ghost had = diagnostics_view(out@);
        let message: &str = if open[k].is_if {
            "unclosed {{#if}} block"
        } else {
            "unclosed {{#each}} block"
        };
        out.push(diag_at(template, open[k].offset, "error", "unclosed_block", message));
        assert(blocks[k as int] == open@[k as int]@);
        assert(diagnostics_view(out@) =~= had.push(unclosed_finding(template@, blocks[k as int])));
        assert(unclosed_findings(template@, blocks).take(k + 1) =~= unclosed_findings(
            template@,
            blocks,
        ).take(k as int).push(unclosed_finding(template@, blocks[k as int])));
        k += 1;
    }
    assert(unclosed_findings(template@, blocks).take(k as int) =~= unclosed_findings(
        template@,
        blocks,
    ));
    out
}

/// The body that a sample gives, what it is sent as, and all findings.
#[derive(Debug)]
pub struct TemplatePreviewResult {
    /// The rendered text; empty where rendering failed.
    pub body: String,
    pub content_type: String,
    pub diagnostics: Vec<TemplateDiagnostic>,
}

/// How many digits `s` begins with.
pub open spec fn leading_digits(s: Seq<char>) -> nat
    decreases s.len(),
{
    if s.len() > 0 && is_digit(s[0]) {
        1 + leading_digits(s.drop_first())
    } else {
        0
    }
}

/// The offset that a message of a failed rendering names, behind the last `at offset `.
pub open spec fn offset_in_message(msg: Seq<char>) -> Option<nat> {
    match rfind_seq(msg, "at offset "@) {
        Some(k) => {
            let rest = msg.skip(k + 10);
            unsigned_value(rest.take(leading_digits(rest) as int), usize::MAX as nat)
        },
        None => None,
    }
}

/// The offset that a message of a failed rendering names.
fn parse_error_offset(msg: &str) -> (r: Option<usize>)
    ensures
        match r {
            Some(n) => offset_in_message(msg@) == Some(n as nat),
            None => offset_in_message(msg@) is None,
        },
{
    let cs: Vec<char> = chars_of(msg);
    let mark: Vec<char> = chars_of("at offset ");
    proof {
        reveal_strlit("at offset ");
    }
    match rfind_at(&cs, &mark) {
        Some(k) => {
            let n: usize = cs.len();
            let start: usize = k + 10;
            let mut end: usize = start;
            let ghost rest = msg@.skip(start as int);
            assert(rest.skip(0) =~= rest);
            while end < n && '0' <= cs[end] && cs[end] <= '9'
                invariant
                    n == cs@.len(),
                    cs@ == msg@,
                    start <= end <= n,
                    rest == msg@.skip(start as int),
                    leading_digits(rest) == (end - start) + leading_digits(rest.skip(end - start)),
                decreases n - end,
            {
                assert(rest.skip(end - start)[0] == cs@[end as int]);
                assert(rest.skip(end - start).drop_first() =~= rest.skip(end + 1 - start));
                end += 1;
            }
            assert(end < n ==> rest.skip(end - start)[0] == cs@[end as int]);
            let digits: String = slice_text(&cs, start, end);
            assert(digits@ =~= rest.take(leading_digits(rest) as int));
            parse_usize(digits.as_str())
        },
        None => None,
    }
}

/// The envelope that a preview renders against.
pub open spec fn preview_envelope(sample: JsonView) -> AlertEnvelopeView {
    AlertEnvelopeView {
        schema_version: ALERT_SCHEMA_VERSION,
        event_id: "preview"@,
        source: "preview"@,
        severity: Severity::Info,
        tags: Seq::empty(),
        timestamp: 0,
        payload: sample,
    }
}

/// The finding for a rendering that failed with `msg`.
pub open spec fn render_failure(t: Seq<char>, msg: Seq<char>) -> TemplateDiagnosticView {
    match offset_in_message(msg) {
        Some(off) => finding(t, off, "error"@, "render_failed"@, msg),
        None => TemplateDiagnosticView {
            severity: "error"@,
            code: "render_failed"@,
            message: msg,
            offset: 0,
            line: 1,
            column: 1,
        },
    }
}

/// Whether a finding stands at a lower offset than another one.
pub open spec fn earlier_finding() -> spec_fn(TemplateDiagnosticView, TemplateDiagnosticView) -> bool {
    |a: TemplateDiagnosticView, b: TemplateDiagnosticView| a.offset < b.offset
}

/// All findings about a template and its rendering against an envelope, by their offsets.
pub open spec fn all_findings(t: Seq<char>, env: AlertEnvelopeView) -> Seq<TemplateDiagnosticView> {
    let structure = lint_from(t, 0, Seq::empty());
    sorted(
        match rendered(t, env) {
            Ok(_) => structure,
            Err(msg) => structure.push(render_failure(t, msg)),
        },
        earlier_finding(),
    )
}

fn by_offset(list: Vec<TemplateDiagnostic>) -> (r: Vec<TemplateDiagnostic>)
    ensures
        diagnostics_view(r@) == sorted(diagnostics_view(list@), earlier_finding()),
        in_order(diagnostics_view(r@), earlier_finding()),
{
    let ghost less = earlier_finding();
    let before = |a: &TemplateDiagnostic, b: &TemplateDiagnostic| -> (r: bool)
        ensures
            r == earlier_finding()(a@, b@),
    { a.offset < b.offset };
    proof {
        sorting_keeps_every_value(diagnostics_view(list@), less);
        assert(rows_view(list@) =~= diagnostics_view(list@));
    }
    let r: Vec<TemplateDiagnostic> = sort_list(list, before, Ghost(less));
    assert(rows_view(r@) =~= diagnostics_view(r@));
    r
}

/// Renders a template against a sample payload and checks its structure. A rendering that fails
/// gives an empty body and one more finding. The findings come by their offsets.
pub fn preview_alerting_template(template: &str, sample: &Json) -> (r: TemplatePreviewResult)
    requires
        template@.len() < usize::MAX,
    ensures
        r.body@ == (match rendered(template@, preview_envelope(sample@)) {
            Ok(body) => body,
            Err(_) => Seq::empty(),
        }),
        r.content_type@ == content_type_name(content_type_of(r.body@)),
        diagnostics_view(r.diagnostics@) == all_findings(template@, preview_envelope(sample@)),
        in_order(diagnostics_view(r.diagnostics@), earlier_finding()),
{
    let envelope: AlertEnvelope = AlertEnvelope {
        schema_version: ALERT_SCHEMA_VERSION,
        event_id: "preview".to_owned(),
        source: "preview".to_owned(),
        severity: Severity::Info,
        tags: Vec::new(),
        timestamp: 0,
        payload: sample.clone(),
    };
    assert(envelope@.tags =~= Seq::<Seq<char>>::empty());
    assert(envelope@ == preview_envelope(sample@));
    let mut diagnostics: Vec<TemplateDiagnostic> = lint_template(template);
    match render_template(template, &envelope) {
        Ok((body, ct)) => TemplatePreviewResult {
            body,
            content_type: ct.as_content_type().to_owned(),
            diagnostics: by_offset(diagnostics),
        },
        Err(message) => {
            let ghost had = diagnostics_view(diagnostics@);
            let found: TemplateDiagnostic = match parse_error_offset(message.as_str()) {
                Some(offset) => diag_at(
                    template,
                    offset,
                    "error",
                    "render_failed",
                    message.as_str(),
                ),
                None => TemplateDiagnostic {
                    severity: "error",
                    code: "render_failed".to_owned(),
                    message,
                    offset: 0,
                    line: 1,
                    column: 1,
                },
            };
            let ghost fv = found@;
            diagnostics.push(found);
            assert(diagnostics_view(diagnostics@) =~= had.push(fv));
            let body: String = String::new();
            assert(body@ =~= Seq::<char>::empty());
            TemplatePreviewResult {
                body,
                content_type: TemplateContentType::Text.as_content_type().to_owned(),
                diagnostics: by_offset(diagnostics),
            }
        },
    }
}

/// A template without tags renders to itself, whatever the envelope, and nothing is found wrong
/// with it.
pub proof fn plain_text_renders_to_itself(t: Seq<char>, env: AlertEnvelopeView)
    requires
        !contains_seq(t, "{{"@),
    ensures
        rendered(t, env) == Ok::<Seq<char>, Seq<char>>(t),
        lint_from(t, 0, Seq::empty()) == Seq::<TemplateDiagnosticView>::empty(),
{
    lemma_plain_from(t, env, 0);
    assert(t.skip(0) =~= t);
}

proof fn lemma_plain_from(t: Seq<char>, env: AlertEnvelopeView, i: int)
    requires
        !contains_seq(t, "{{"@),
        0 <= i <= t.len(),
    ensures
        render_from(t, env, i, Part::Whole, 0) == Ok::<(Seq<char>, int), Seq<char>>(
            (t.skip(i), t.len() as int),
        ),
        lint_from(t, i, Seq::empty()) == Seq::<TemplateDiagnosticView>::empty(),
    decreases t.len() - i,
{
    if i < t.len() {
        reveal_strlit("{{");
        reveal_strlit("{{/if}}");
        reveal_strlit("{{/each}}");
        assert(!occurs_at(t, "{{"@, i));
        if occurs_at(t, "{{/if}}"@, i) {
            assert(t.subrange(i, i + 7)[0] == t[i] && t.subrange(i, i + 7)[1] == t[i + 1]);
            assert(t.subrange(i, i + 2) =~= "{{"@);
        }
        if occurs_at(t, "{{/each}}"@, i) {
            assert(t.subrange(i, i + 9)[0] == t[i] && t.subrange(i, i + 9)[1] == t[i + 1]);
            assert(t.subrange(i, i + 2) =~= "{{"@);
        }
        lemma_plain_from(t, env, i + 1);
        assert(seq![t[i]] + t.skip(i + 1) =~= t.skip(i));
    } else {
        assert(t.skip(i) =~= Seq::<char>::empty());
        assert(unclosed_findings(t, Seq::empty()) =~= Seq::<TemplateDiagnosticView>::empty());
    }
}

proof fn lemma_occurs_in_front(a: Seq<char>, b: Seq<char>, p: Seq<char>, i: int)
    requires
        0 <= i,
        i + p.len() <= a.len(),
    ensures
        occurs_at(a + b, p, i) == occurs_at(a, p, i),
{
    assert((a + b).subrange(i, i + p.len()) =~= a.subrange(i, i + p.len()));
}

proof fn lemma_occurs_behind(a: Seq<char>, b: Seq<char>, p: Seq<char>, j: int)
    requires
        0 <= j,
    ensures
        occurs_at(a + b, p, a.len() + j) == occurs_at(b, p, j),
{
    if j + p.len() <= b.len() {
        assert((a + b).subrange(a.len() + j, a.len() + j + p.len()) =~= b.subrange(j, j + p.len()));
    }
}

proof fn lemma_find_in_front(a: Seq<char>, b: Seq<char>, p: Seq<char>, from: int)
    requires
        find_from(a, p, from) is Some,
    ensures
        find_from(a + b, p, from) == find_from(a, p, from),
    decreases a.len() + 1 - from,
{
    lemma_occurs_in_front(a, b, p, from);
    if !occurs_at(a, p, from) {
        lemma_find_in_front(a, b, p, from + 1);
    }
}

proof fn lemma_find_behind(a: Seq<char>, b: Seq<char>, p: Seq<char>, from: int)
    requires
        0 <= from,
    ensures
        match find_from(b, p, from) {
            Some(i) => find_from(a + b, p, a.len() + from) == Some(a.len() + i),
            None => find_from(a + b, p, a.len() + from) is None,
        },
    decreases b.len() + 1 - from,
{
    lemma_occurs_behind(a, b, p, from);
    if from + p.len() <= b.len() && !occurs_at(b, p, from) {
        lemma_find_behind(a, b, p, from + 1);
    }
}

/// A tag that is closed in front of `b` stands there or nowhere.
proof fn lemma_tag_in_front(a: Seq<char>, b: Seq<char>, tag: Seq<char>, i: int)
    requires
        0 <= i,
        tag.len() >= 4,
        occurs_at(tag, "}}"@, tag.len() - 2),
        forall|k: int| 2 <= k < tag.len() - 2 ==> #[trigger] tag[k] != '}',
        find_from(a, "}}"@, i + 2) is Some,
    ensures
        occurs_at(a + b, tag, i) == occurs_at(a, tag, i),
{
    reveal_strlit("}}");
    let t = a + b;
    let end = i + tag.len() - 2;
    lemma_find_in_front(a, b, "}}"@, i + 2);
    find_from_is_first(t, "}}"@, i + 2);
    find_from_is_first(a, "}}"@, i + 2);
    let close = find_from(a, "}}"@, i + 2)->0;
    if occurs_at(t, tag, i) {
        assert(t.subrange(end, end + 2) =~= tag.subrange(tag.len() - 2, tag.len() as int)) by {
            assert(tag =~= t.subrange(i, i + tag.len()));
        }
        assert(occurs_at(t, "}}"@, end));
        assert(close <= end);
        if close < end {
            assert(t.subrange(close, close + 2)[0] == '}');
            assert(t.subrange(i, i + tag.len())[close - i] == t[close]);
            assert(tag[close - i] == '}');
        }
        lemma_occurs_in_front(a, b, tag, i);
    } else if occurs_at(a, tag, i) {
        lemma_occurs_in_front(a, b, tag, i);
    }
}

proof fn lemma_tag_begins(t: Seq<char>, tag: Seq<char>, i: int)
    requires
        occurs_at(t, tag, i),
        occurs_at(tag, "{{"@, 0),
    ensures
        occurs_at(t, "{{"@, i),
{
    reveal_strlit("{{");
    assert(t.subrange(i, i + 2) =~= tag.subrange(0, 2)) by {
        assert(tag =~= t.subrange(i, i + tag.len()));
    }
}

proof fn lemma_tags()
    ensures
        forall|tag: Seq<char>|
            tag == "{{/if}}"@ || tag == "{{else}}"@ || tag == "{{/each}}"@ ==> {
                &&& tag.len() >= 4
                &&& #[trigger] occurs_at(tag, "{{"@, 0)
                &&& occurs_at(tag, "}}"@, tag.len() - 2)
                &&& forall|k: int| 2 <= k < tag.len() - 2 ==> #[trigger] tag[k] != '}'
            },
        "{{/if}}"@.len() == 7,
        "{{else}}"@.len() == 8,
        "{{/each}}"@.len() == 9,
        "{{"@ == seq!['{', '{'],
        "}}"@.len() == 2,
{
    reveal_strlit("{{/if}}");
    reveal_strlit("{{else}}");
    reveal_strlit("{{/each}}");
    reveal_strlit("{{");
    reveal_strlit("}}");
    assert("{{"@ =~= seq!['{', '{']);
    assert forall|tag: Seq<char>|
        tag == "{{/if}}"@ || tag == "{{else}}"@ || tag == "{{/each}}"@ implies {
        &&& tag.len() >= 4
        &&& #[trigger] occurs_at(tag, "{{"@, 0)
        &&& occurs_at(tag, "}}"@, tag.len() - 2)
        &&& forall|k: int| 2 <= k < tag.len() - 2 ==> #[trigger] tag[k] != '}'
    } by {
        assert(tag.subrange(0, 2) =~= "{{"@);
        assert(tag.subrange(tag.len() - 2, tag.len() as int) =~= "}}"@);
    }
}

proof fn lemma_before_nothing(r: Result<(Seq<char>, int), Seq<char>>)
    ensures
        before(Seq::empty(), r) == r,
{
    match r {
        Ok((s, _)) => {
            assert(Seq::<char>::empty() + s =~= s);
        },
        Err(_) => {},
    }
}

/// What a stretch of a template gives does not depend on what follows the stretch.
#[verifier::spinoff_prover]
#[verifier::rlimit(60)]
proof fn lemma_render_in_front(
    a: Seq<char>,
    b: Seq<char>,
    env: AlertEnvelopeView,
    i: int,
    part: Part,
    opened: int,
)
    requires
        0 <= i <= a.len(),
        a.len() > 0 ==> a.last() != '{',
        render_from(a, env, i, part, opened) is Ok,
    ensures
        ({
            let (s, end) = render_from(a, env, i, part, opened)->Ok_0;
            if part == Part::Whole {
                render_from(a + b, env, i, part, opened) == before(
                    s,
                    render_from(a + b, env, a.len() as int, part, opened),
                )
            } else {
                &&& render_from(a + b, env, i, part, opened) == Ok::<(Seq<char>, int), Seq<char>>(
                    (s, end),
                )
                &&& i <= end
                &&& occurs_at(a, "{{/if}}"@, end) || occurs_at(a, "{{else}}"@, end)
            }
        }),
    decreases a.len() - i, 0nat,
{
    let t = a + b;
    lemma_tags();
    let rest = render_from(t, env, a.len() as int, part, opened);
    if i >= a.len() {
        lemma_before_nothing(rest);
    } else if occurs_at(a, "{{"@, i) {
        let shut = find_from(a, "}}"@, i + 2);
        find_from_is_first(a, "}}"@, i + 2);
        if occurs_at(a, "{{/if}}"@, i) {
            lemma_occurs_in_front(a, b, "{{/if}}"@, i);
        } else if occurs_at(a, "{{else}}"@, i) && part == Part::Branch {
            lemma_occurs_in_front(a, b, "{{else}}"@, i);
            assert(occurs_at("{{else}}"@, "{{"@, 0));
            assert(!occurs_at(t, "{{/if}}"@, i)) by {
                reveal_strlit("{{/if}}");
                reveal_strlit("{{else}}");
                if occurs_at(t, "{{/if}}"@, i) {
                    assert(t.subrange(i, i + 7)[2] == t[i + 2]);
                    assert(t.subrange(i, i + 8)[2] == t[i + 2]);
                }
            }
        } else {
            assert(occurs_at("{{/if}}"@, "{{"@, 0));
            assert(occurs_at("{{else}}"@, "{{"@, 0));
            assert(occurs_at("{{/each}}"@, "{{"@, 0));
            lemma_tag_in_front(a, b, "{{/if}}"@, i);
            lemma_tag_in_front(a, b, "{{else}}"@, i);
            lemma_tag_in_front(a, b, "{{/each}}"@, i);
            lemma_occurs_in_front(a, b, "{{"@, i);
            lemma_find_in_front(a, b, "}}"@, i + 2);
            let close = shut->0;
            assert(t.subrange(i + 2, close) =~= a.subrange(i + 2, close));
            let expr = trim_seq(a.subrange(i + 2, close));
            if starts_with_seq(expr, "#if "@) {
                let holds = condition_holds(trim_seq(expr.skip(4)), env);
                lemma_branches_in_front(a, b, env, close + 2, i);
                let (first, second, end) = branches_from(a, env, close + 2, i)->Ok_0;
                lemma_occurs_in_front(a, b, "{{/if}}"@, end);
                lemma_render_in_front(a, b, env, end + 7, part, opened);
                let tail = render_from(a, env, end + 7, part, opened)->Ok_0;
                lemma_before(branch_shown(holds, first, second), tail.0, rest);
            } else if starts_with_seq(expr, "#each "@) {
                find_from_is_first(a, "{{/each}}"@, close + 2);
                lemma_find_in_front(a, b, "{{/each}}"@, close + 2);
                let end = find_from(a, "{{/each}}"@, close + 2)->0;
                assert(t.subrange(close + 2, end) =~= a.subrange(close + 2, end));
                lemma_render_in_front(a, b, env, end + 9, part, opened);
                let tail = render_from(a, env, end + 9, part, opened)->Ok_0;
                let text = render_items(
                    a.subrange(close + 2, end),
                    each_items(env, trim_seq(expr.skip(6))),
                    env,
                    0,
                )->Ok_0;
                lemma_before(text, tail.0, rest);
            } else {
                lemma_render_in_front(a, b, env, close + 2, part, opened);
                let tail = render_from(a, env, close + 2, part, opened)->Ok_0;
                lemma_before(value_text(env_value(env, expr)), tail.0, rest);
            }
        }
    } else {
        assert(!occurs_at(t, "{{"@, i)) by {
            if occurs_at(t, "{{"@, i) {
                assert(t.subrange(i, i + 2)[0] == t[i] && t.subrange(i, i + 2)[1] == t[i + 1]);
                if i + 2 <= a.len() {
                    lemma_occurs_in_front(a, b, "{{"@, i);
                } else {
                    assert(a.last() == t[i]);
                }
            }
        }
        assert(occurs_at("{{/if}}"@, "{{"@, 0));
        assert(occurs_at("{{else}}"@, "{{"@, 0));
        assert(occurs_at("{{/each}}"@, "{{"@, 0));
        assert forall|s: Seq<char>, tag: Seq<char>|
            (s == a || s == t) && (tag == "{{/if}}"@ || tag == "{{else}}"@ || tag == "{{/each}}"@) implies !(
        #[trigger] occurs_at(s, tag, i)) by {
            if occurs_at(s, tag, i) {
                lemma_tag_begins(s, tag, i);
            }
        }
        lemma_render_in_front(a, b, env, i + 1, part, opened);
        let tail = render_from(a, env, i + 1, part, opened)->Ok_0;
        lemma_before(seq![a[i]], tail.0, rest);
    }
}

proof fn lemma_branches_in_front(a: Seq<char>, b: Seq<char>, env: AlertEnvelopeView, i: int, opened: int)
    requires
        0 <= i <= a.len(),
        a.len() > 0 ==> a.last() != '{',
        branches_from(a, env, i, opened) is Ok,
    ensures
        branches_from(a + b, env, i, opened) == branches_from(a, env, i, opened),
        i <= branches_from(a, env, i, opened)->Ok_0.2,
        occurs_at(a, "{{/if}}"@, branches_from(a, env, i, opened)->Ok_0.2),
    decreases a.len() - i, 1nat,
{
    let t = a + b;
    lemma_tags();
    lemma_render_in_front(a, b, env, i, Part::Branch, opened);
    let (text, end) = render_from(a, env, i, Part::Branch, opened)->Ok_0;
    if occurs_at(a, "{{else}}"@, end) {
        lemma_occurs_in_front(a, b, "{{else}}"@, end);
        lemma_branches_in_front(a, b, env, end + 8, opened);
    } else {
        lemma_one_tag(a, t, end);
    }
}

/// No tag is the end of a block and an `else` of it at once.
proof fn lemma_one_tag(a: Seq<char>, t: Seq<char>, i: int)
    requires
        a.is_prefix_of(t),
        0 <= i,
        occurs_at(a, "{{/if}}"@, i),
    ensures
        !occurs_at(t, "{{else}}"@, i),
{
    reveal_strlit("{{/if}}");
    reveal_strlit("{{else}}");
    if occurs_at(t, "{{else}}"@, i) {
        assert(a.subrange(i, i + 7)[2] == a[i + 2]);
        assert(t.subrange(i, i + 8)[2] == t[i + 2]);
    }
}

/// What a stretch of a template gives does not depend on what stands in front of the stretch.
#[verifier::spinoff_prover]
#[verifier::rlimit(60)]
proof fn lemma_render_behind(
    a: Seq<char>,
    b: Seq<char>,
    env: AlertEnvelopeView,
    j: int,
    part: Part,
    opened: int,
    there: int,
)
    requires
        0 <= j <= b.len(),
        render_from(b, env, j, part, opened) is Ok,
    ensures
        ({
            let (s, end) = render_from(b, env, j, part, opened)->Ok_0;
            &&& render_from(a + b, env, a.len() + j, part, there) == Ok::<(Seq<char>, int), Seq<char>>(
                (s, a.len() + end),
            )
            &&& j <= end <= b.len()
            &&& part != Part::Whole ==> occurs_at(b, "{{/if}}"@, end) || occurs_at(b, "{{else}}"@, end)
        }),
    decreases b.len() - j, 0nat,
{
    let t = a + b;
    let n = a.len() as int;
    lemma_tags();
    if j < b.len() {
        lemma_occurs_behind(a, b, "{{/if}}"@, j);
        lemma_occurs_behind(a, b, "{{else}}"@, j);
        lemma_occurs_behind(a, b, "{{/each}}"@, j);
        lemma_occurs_behind(a, b, "{{"@, j);
        if occurs_at(b, "{{/if}}"@, j) || occurs_at(b, "{{else}}"@, j) && part == Part::Branch {
        } else if occurs_at(b, "{{"@, j) {
            lemma_find_behind(a, b, "}}"@, j + 2);
            find_from_is_first(b, "}}"@, j + 2);
            let close = find_from(b, "}}"@, j + 2)->0;
            assert(t.subrange(n + j + 2, n + close) =~= b.subrange(j + 2, close));
            let expr = trim_seq(b.subrange(j + 2, close));
            if starts_with_seq(expr, "#if "@) {
                lemma_branches_behind(a, b, env, close + 2, j, n + j);
                let (first, second, end) = branches_from(b, env, close + 2, j)->Ok_0;
                lemma_occurs_behind(a, b, "{{/if}}"@, end);
                lemma_render_behind(a, b, env, end + 7, part, opened, there);
            } else if starts_with_seq(expr, "#each "@) {
                lemma_find_behind(a, b, "{{/each}}"@, close + 2);
                find_from_is_first(b, "{{/each}}"@, close + 2);
                let end = find_from(b, "{{/each}}"@, close + 2)->0;
                assert(t.subrange(n + close + 2, n + end) =~= b.subrange(close + 2, end));
                lemma_render_behind(a, b, env, end + 9, part, opened, there);
            } else {
                lemma_render_behind(a, b, env, close + 2, part, opened, there);
            }
        } else {
            lemma_render_behind(a, b, env, j + 1, part, opened, there);
        }
    }
}

proof fn lemma_branches_behind(
    a: Seq<char>,
    b: Seq<char>,
    env: AlertEnvelopeView,
    j: int,
    opened: int,
    there: int,
)
    requires
        0 <= j <= b.len(),
        branches_from(b, env, j, opened) is Ok,
    ensures
        ({
            let (first, second, end) = branches_from(b, env, j, opened)->Ok_0;
            &&& branches_from(a + b, env, a.len() + j, there) == Ok::<
                (Seq<char>, Option<Seq<char>>, int),
                Seq<char>,
            >((first, second, a.len() + end))
            &&& j <= end
            &&& occurs_at(b, "{{/if}}"@, end)
        }),
    decreases b.len() - j, 1nat,
{
    lemma_tags();
    lemma_render_behind(a, b, env, j, Part::Branch, opened, there);
    let (text, end) = render_from(b, env, j, Part::Branch, opened)->Ok_0;
    lemma_occurs_behind(a, b, "{{else}}"@, end);
    if occurs_at(b, "{{else}}"@, end) {
        lemma_branches_behind(a, b, env, end + 8, opened, there);
    }
}

/// Two templates that render, written one behind the other, give their two results one behind the
/// other. The first must not end in a brace, which could open a tag with what follows.
pub proof fn templates_render_one_behind_the_other(a: Seq<char>, b: Seq<char>, env: AlertEnvelopeView)
    requires
        rendered(a, env) is Ok,
        rendered(b, env) is Ok,
        a.len() > 0 ==> a.last() != '{',
    ensures
        rendered(a + b, env) == Ok::<Seq<char>, Seq<char>>(
            rendered(a, env)->Ok_0 + rendered(b, env)->Ok_0,
        ),
{
    lemma_render_in_front(a, b, env, 0, Part::Whole, 0);
    lemma_render_behind(a, b, env, 0, Part::Whole, 0, 0);
}

} // verus!
