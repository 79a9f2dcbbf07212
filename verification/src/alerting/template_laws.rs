//! What templates render to, said of the operations and in no terms of how they come to their results.

use vstd::prelude::*;

use super::template::{
    before, branches_from, condition_holds, each_items, env_value, lint_from, lint_tag,
    offset_to_line_col, preview_alerting_template, line_col_behind, chars_before, render_from,
    render_item, render_items, render_template, rendered, unclosed_findings, value_text,
    lint_template, diagnostics_view, OpenBlockView, Part, TemplateContentType, TemplateDiagnostic,
    TemplateDiagnosticView, TemplatePreviewResult,
};
use super::laws::word_for;
use super::types::{AlertEnvelope, AlertEnvelopeView, Severity};
use crate::json::{is_truthy, json_text_of, lookup_json_path, Json, JsonView};
use crate::text::{
    byte_count, decimal_seq, find_from, find_from_is_first, is_space, lemma_byte_count_step,
    occurs_at, starts_with_seq, trim_end_seq, trim_seq, trim_start_seq,
};

verus! {

/// Whether a text can stand in a tag as it is: it is not empty, holds no brace, and has no white space at
/// its ends.
pub open spec fn is_tag_text(e: Seq<char>) -> bool {
    &&& e.len() > 0
    &&& forall|k: int| 0 <= k < e.len() ==> #[trigger] e[k] != '{' && e[k] != '}'
    &&& !is_space(e[0])
    &&& !is_space(e.last())
}

/// Whether a text is that of a placeholder: it begins no block and ends none.
pub open spec fn is_name(e: Seq<char>) -> bool {
    is_tag_text(e) && e[0] != '#' && e[0] != '/'
}

/// The tag with a text in it.
pub open spec fn tag(e: Seq<char>) -> Seq<char> {
    seq!['{', '{'] + e + seq!['}', '}']
}

/// Whether there is no brace in a text.
pub open spec fn is_plain_text(s: Seq<char>) -> bool {
    forall|k: int| 0 <= k < s.len() ==> #[trigger] s[k] != '{' && s[k] != '}'
}

/// Whether `text` is what is shown of a value: a text as it is, nothing of nothing, and of anything else
/// its JSON.
pub open spec fn shows(v: JsonView, text: Seq<char>) -> bool {
    match v {
        JsonView::Text(t) => text == t,
        JsonView::Null => text.len() == 0,
        JsonView::Bool(b) => text == if b {
            seq!['t', 'r', 'u', 'e']
        } else {
            seq!['f', 'a', 'l', 's', 'e']
        },
        JsonView::Number(n) => text == n,
        _ => text == json_text_of(v),
    }
}

proof fn lemma_shows(v: JsonView)
    ensures
        shows(v, value_text(v)),
{
    reveal_strlit("true");
    reveal_strlit("false");
    assert("true"@ =~= seq!['t', 'r', 'u', 'e']);
    assert("false"@ =~= seq!['f', 'a', 'l', 's', 'e']);
}

proof fn lemma_trimmed(e: Seq<char>)
    requires
        e.len() > 0 ==> !is_space(e[0]) && !is_space(e.last()),
    ensures
        trim_seq(e) == e,
{
    assert(trim_start_seq(e) == e);
    assert(trim_end_seq(e) == e);
}

/// Whether a tag with this text stands at a place.
pub open spec fn tag_at(t: Seq<char>, i: int, e: Seq<char>) -> bool {
    &&& 0 <= i
    &&& i + 4 + e.len() <= t.len()
    &&& t[i] == '{' && t[i + 1] == '{'
    &&& forall|k: int| 0 <= k < e.len() ==> #[trigger] e[k] == t[i + 2 + k]
    &&& t[i + 2 + e.len()] == '}' && t[i + 3 + e.len()] == '}'
}

proof fn lemma_tag_at(t: Seq<char>, i: int, e: Seq<char>)
    requires
        is_tag_text(e),
        tag_at(t, i, e),
    ensures
        occurs_at(t, "{{"@, i),
        find_from(t, "}}"@, i + 2) == Some(i + 2 + e.len()),
        t.subrange(i + 2, i + 2 + e.len()) == e,
        trim_seq(e) == e,
        e[0] != '/' ==> !occurs_at(t, "{{/if}}"@, i) && !occurs_at(t, "{{/each}}"@, i),
        e[0] != 'e' ==> !occurs_at(t, "{{else}}"@, i),
        e == "/if"@ ==> occurs_at(t, "{{/if}}"@, i) && !occurs_at(t, "{{/each}}"@, i),
        e == "/each"@ ==> occurs_at(t, "{{/each}}"@, i),
        e == "else"@ ==> occurs_at(t, "{{else}}"@, i),
        e[0] != '#' ==> !starts_with_seq(e, "#if "@) && !starts_with_seq(e, "#each "@),
{
    reveal_strlit("{{");
    reveal_strlit("}}");
    reveal_strlit("{{/if}}");
    reveal_strlit("{{/each}}");
    reveal_strlit("{{else}}");
    reveal_strlit("/if");
    reveal_strlit("/each");
    reveal_strlit("else");
    reveal_strlit("#if ");
    reveal_strlit("#each ");
    let n = e.len();
    assert(t.subrange(i, i + 2) =~= "{{"@);
    let close = i + 2 + n;
    assert(t.subrange(close, close + 2) =~= "}}"@);
    assert(occurs_at(t, "}}"@, close));
    find_from_is_first(t, "}}"@, i + 2);
    let found = find_from(t, "}}"@, i + 2)->0;
    if found < close {
        assert(t.subrange(found, found + 2)[0] == t[found]);
        assert(e[found - i - 2] == t[found]);
    }
    assert(t.subrange(i + 2, i + 2 + n) =~= e);
    lemma_trimmed(e);
    assert(e[0] == t[i + 2]);
    if occurs_at(t, "{{/if}}"@, i) {
        assert(t.subrange(i, i + 7)[2] == t[i + 2]);
    }
    if occurs_at(t, "{{/each}}"@, i) {
        assert(t.subrange(i, i + 9)[2] == t[i + 2]);
        assert(t.subrange(i, i + 9)[3] == t[i + 3]);
    }
    if occurs_at(t, "{{else}}"@, i) {
        assert(t.subrange(i, i + 8)[2] == t[i + 2]);
    }
    if e == "/if"@ {
        assert(e[1] == t[i + 3] && e[2] == t[i + 4]);
        assert(t.subrange(i, i + 7) =~= "{{/if}}"@);
    }
    if e == "/each"@ {
        assert(e[1] == t[i + 3] && e[2] == t[i + 4] && e[3] == t[i + 5] && e[4] == t[i + 6]);
        assert(t.subrange(i, i + 9) =~= "{{/each}}"@);
    }
    if e == "else"@ {
        assert(e[1] == t[i + 3] && e[2] == t[i + 4] && e[3] == t[i + 5]);
        assert(t.subrange(i, i + 8) =~= "{{else}}"@);
    }
    if e[0] != '#' {
        if starts_with_seq(e, "#if "@) {
            assert(e.subrange(0, 4)[0] == e[0]);
        }
        if starts_with_seq(e, "#each "@) {
            assert(e.subrange(0, 6)[0] == e[0]);
        }
    }
}

proof fn lemma_placeholder(e: Seq<char>, env: AlertEnvelopeView)
    requires
        is_name(e),
    ensures
        rendered(tag(e), env) == Ok::<Seq<char>, Seq<char>>(value_text(env_value(env, e))),
{
    let t = tag(e);
    assert(tag_at(t, 0, e));
    lemma_tag_at(t, 0, e);
    reveal_with_fuel(render_from, 2);
    assert(value_text(env_value(env, e)) + Seq::<char>::empty() =~= value_text(env_value(env, e)));
}

/// A placeholder gives the part of the alert that it names: source, severity, time, id, schema version,
/// tags or payload. Under another name there is nothing.
pub proof fn placeholders_give_what_they_name(
    template: &str,
    env: &AlertEnvelope,
    name: Seq<char>,
    r: Result<(String, TemplateContentType), String>,
)
    requires
        call_ensures(render_template, (template, env), r),
        is_name(name),
        template@ == tag(name),
    ensures
        r is Ok,
        name == "source"@ ==> (r->Ok_0).0@ == env@.source,
        name == "severity"@ ==> (r->Ok_0).0@ == word_for(env@.severity),
        name == "timestamp"@ ==> (r->Ok_0).0@ == decimal_seq(env@.timestamp as nat),
        name == "event_id"@ ==> (r->Ok_0).0@ == env@.event_id,
        name == "schema_version"@ ==> (r->Ok_0).0@ == decimal_seq(env@.schema_version as nat),
        name == "payload"@ ==> shows(env@.payload, (r->Ok_0).0@),
        name != "source"@ && name != "severity"@ && name != "timestamp"@ && name != "event_id"@ && name
            != "schema_version"@ && name != "payload"@ && name != "tags"@ && (name.len() < 8 || name.take(8)
            != "payload."@) ==> (r->Ok_0).0@.len() == 0,
{
    lemma_placeholder(name, env@);
    lemma_trimmed(name);
    lemma_shows(env@.payload);
    lemma_names();
    if name.len() >= 8 {
        assert(name.subrange(0, 8) =~= name.take(8));
    }
    if starts_with_seq(name, "payload."@) {
        assert(name.subrange(0, 8)[7] == name[7]);
        assert(name.subrange(0, 8)[0] == name[0]);
    }
}

proof fn lemma_names()
    ensures
        "source"@.len() == 6 && "severity"@.len() == 8 && "timestamp"@.len() == 9 && "event_id"@.len() == 8
            && "schema_version"@.len() == 14 && "payload"@.len() == 7 && "tags"@.len() == 4
            && "payload."@.len() == 8,
        "severity"@[0] == 's' && "event_id"@[0] == 'e' && "payload."@[0] == 'p' && "payload"@[0] == 'p',
        "timestamp"@[0] == 't' && "schema_version"@[0] == 's' && "payload."@[7] == '.' && "severity"@[7] == 'y',
{
    reveal_strlit("source");
    reveal_strlit("severity");
    reveal_strlit("timestamp");
    reveal_strlit("event_id");
    reveal_strlit("schema_version");
    reveal_strlit("payload");
    reveal_strlit("tags");
    reveal_strlit("payload.");
}

proof fn lemma_payload_value(env: AlertEnvelopeView, path: Seq<char>)
    requires
        path.len() > 0 ==> !is_space(path.last()),
    ensures
        env_value(env, "payload."@ + path) == (match crate::json::walk_members(
            env.payload,
            crate::json::dot_parts(path),
        ) {
            Some(v) => v,
            None => JsonView::Null,
        }),
{
    reveal_strlit("payload.");
    let name = "payload."@ + path;
    assert(name[0] == 'p');
    assert(name.last() == if path.len() > 0 {
        path.last()
    } else {
        '.'
    });
    lemma_trimmed(name);
    assert(name.subrange(0, 8) =~= "payload."@);
    assert(starts_with_seq(name, "payload."@));
    assert(name.skip(8) =~= path);
}

/// A placeholder with a path into the payload gives what the path leads to, and nothing where it leads
/// nowhere.
pub proof fn placeholders_lead_into_the_payload(
    template: &str,
    env: &AlertEnvelope,
    payload: &Json,
    path: &str,
    found: Option<&Json>,
    r: Result<(String, TemplateContentType), String>,
)
    requires
        call_ensures(render_template, (template, env), r),
        payload@ == env@.payload,
        call_ensures(lookup_json_path, (payload, path), found),
        is_tag_text(path@),
        template@ == tag("payload."@ + path@),
    ensures
        r is Ok,
        found is Some ==> shows(found->0@, (r->Ok_0).0@),
        found is None ==> (r->Ok_0).0@.len() == 0,
{
    reveal_strlit("payload.");
    let name = "payload."@ + path@;
    assert(name[0] == 'p' && name.last() == path@.last());
    assert forall|k: int| 0 <= k < name.len() implies #[trigger] name[k] != '{' && name[k] != '}' by {
        if k >= 8 {
            assert(name[k] == path@[k - 8]);
        }
    }
    lemma_placeholder(name, env@);
    lemma_payload_value(env@, path@);
    if let Some(v) = found {
        lemma_shows(v@);
    }
}

/// What is rendered is sent as JSON where it begins, behind any white space, with a brace or a bracket, and
/// as text otherwise.
pub proof fn renderings_are_what_they_look_like(
    template: &str,
    env: &AlertEnvelope,
    r: Result<(String, TemplateContentType), String>,
    space: Seq<char>,
    first: char,
    rest: Seq<char>,
)
    requires
        call_ensures(render_template, (template, env), r),
        r is Ok,
        (r->Ok_0).0@ == space.push(first) + rest,
        forall|i: int| 0 <= i < space.len() ==> is_space(#[trigger] space[i]),
        !is_space(first),
    ensures
        (r->Ok_0).1 == (if first == '{' || first == '[' {
            TemplateContentType::Json
        } else {
            TemplateContentType::Text
        }),
{
    lemma_behind_space(space, first, rest);
}

proof fn lemma_behind_space(space: Seq<char>, first: char, rest: Seq<char>)
    requires
        forall|i: int| 0 <= i < space.len() ==> is_space(#[trigger] space[i]),
        !is_space(first),
    ensures
        trim_start_seq(space.push(first) + rest) == seq![first] + rest,
    decreases space.len(),
{
    let s = space.push(first) + rest;
    if space.len() > 0 {
        assert(s[0] == space[0]);
        let less = space.drop_first();
        assert forall|i: int| 0 <= i < less.len() implies is_space(#[trigger] less[i]) by {
            assert(less[i] == space[i + 1]);
        }
        lemma_behind_space(less, first, rest);
        assert(s.drop_first() =~= less.push(first) + rest);
    } else {
        assert(s =~= seq![first] + rest);
    }
}

/// Whether the condition of a block is met where it names a value: whether that counts as true.
proof fn lemma_condition(c: Seq<char>, env: AlertEnvelopeView)
    requires
        is_tag_text(c),
        forall|k: int| 0 <= k < c.len() ==> #[trigger] c[k] != '=' && c[k] != '!',
    ensures
        condition_holds(c, env) == crate::json::truthy(env_value(env, c)),
        condition_holds(seq!['!'] + c, env) == !crate::json::truthy(env_value(env, c)),
{
    reveal_with_fuel(condition_holds, 2);
    lemma_trimmed(c);
    reveal_strlit("==");
    find_from_is_first(c, "=="@, 0);
    if let Some(i) = find_from(c, "=="@, 0) {
        assert(c.subrange(i, i + 2)[0] == c[i]);
        assert(false);
    }
    let n = seq!['!'] + c;
    assert(n[0] == '!' && n.last() == c.last());
    lemma_trimmed(n);
    assert(n.drop_first() =~= c);
}

proof fn lemma_plain_branch(t: Seq<char>, env: AlertEnvelopeView, i: int, k: int, opened: int)
    requires
        0 <= i <= k < t.len(),
        forall|j: int| i <= j < k ==> #[trigger] t[j] != '{',
        occurs_at(t, "{{/if}}"@, k) || occurs_at(t, "{{else}}"@, k),
    ensures
        render_from(t, env, i, Part::Branch, opened) == Ok::<(Seq<char>, int), Seq<char>>(
            (t.subrange(i, k), k),
        ),
    decreases k - i,
{
    reveal_strlit("{{");
    reveal_strlit("{{/if}}");
    reveal_strlit("{{/each}}");
    reveal_strlit("{{else}}");
    if i < k {
        assert(t[i] != '{');
        if occurs_at(t, "{{"@, i) {
            assert(t.subrange(i, i + 2)[0] == t[i]);
        }
        if occurs_at(t, "{{/if}}"@, i) {
            assert(t.subrange(i, i + 7)[0] == t[i]);
        }
        if occurs_at(t, "{{/each}}"@, i) {
            assert(t.subrange(i, i + 9)[0] == t[i]);
        }
        if occurs_at(t, "{{else}}"@, i) {
            assert(t.subrange(i, i + 8)[0] == t[i]);
        }
        lemma_plain_branch(t, env, i + 1, k, opened);
        assert(seq![t[i]] + t.subrange(i + 1, k) =~= t.subrange(i, k));
    } else {
        assert(t.subrange(i, k) =~= Seq::<char>::empty());
    }
}

/// A block that shows one of two texts.
pub open spec fn if_else(c: Seq<char>, a: Seq<char>, b: Seq<char>) -> Seq<char> {
    tag("#if "@ + c) + a + tag("else"@) + b + tag("/if"@)
}

/// A block that shows a text or nothing.
pub open spec fn if_only(c: Seq<char>, a: Seq<char>) -> Seq<char> {
    tag("#if "@ + c) + a + tag("/if"@)
}

#[verifier::rlimit(40)]
proof fn lemma_if_else(c: Seq<char>, a: Seq<char>, b: Seq<char>, env: AlertEnvelopeView)
    requires
        is_tag_text(c),
        is_plain_text(a),
        is_plain_text(b),
    ensures
        rendered(if_else(c, a, b), env) == Ok::<Seq<char>, Seq<char>>(
            if condition_holds(c, env) {
                a
            } else {
                b
            },
        ),
{
    reveal_strlit("#if ");
    reveal_strlit("else");
    reveal_strlit("/if");
    reveal_strlit("{{/if}}");
    reveal_strlit("{{else}}");
    let t = if_else(c, a, b);
    let e = "#if "@ + c;
    lemma_if_tag(c);
    let k0 = (4 + e.len()) as int;
    let k1 = k0 + a.len();
    let k2 = k1 + 8 + b.len();
    assert(t.len() == k2 + 7);
    assert(tag_at(t, 0, e)) by {
        assert forall|k: int| 0 <= k < e.len() implies #[trigger] e[k] == t[0 + 2 + k] by {}
    }
    assert(tag_at(t, k1, "else"@)) by {
        assert forall|k: int| 0 <= k < "else"@.len() implies #[trigger] "else"@[k] == t[k1 + 2 + k] by {}
    }
    assert(tag_at(t, k2, "/if"@)) by {
        assert forall|k: int| 0 <= k < "/if"@.len() implies #[trigger] "/if"@[k] == t[k2 + 2 + k] by {}
    }
    lemma_tag_at(t, 0, e);
    lemma_tag_at(t, k1, "else"@);
    lemma_tag_at(t, k2, "/if"@);
    assert(t.subrange(k0, k1) =~= a);
    assert(t.subrange(k1 + 8, k2) =~= b);
    assert forall|j: int| k0 <= j < k1 implies #[trigger] t[j] != '{' by {
        assert(t[j] == a[j - k0]);
    }
    assert forall|j: int| k1 + 8 <= j < k2 implies #[trigger] t[j] != '{' by {
        assert(t[j] == b[j - k1 - 8]);
    }
    lemma_plain_branch(t, env, k0, k1, 0);
    lemma_plain_branch(t, env, k1 + 8, k2, 0);
    assert(!occurs_at(t, "{{else}}"@, k2));
    assert(branches_from(t, env, k1 + 8, 0) == Ok::<(Seq<char>, Option<Seq<char>>, int), Seq<char>>(
        (b, None, k2),
    ));
    assert(branches_from(t, env, k0, 0) == Ok::<(Seq<char>, Option<Seq<char>>, int), Seq<char>>(
        (a, Some(b), k2),
    ));
    reveal_with_fuel(render_from, 2);
    let shown = if condition_holds(c, env) {
        a
    } else {
        b
    };
    assert(shown + Seq::<char>::empty() =~= shown);
}

proof fn lemma_if_tag(c: Seq<char>)
    requires
        is_tag_text(c),
    ensures
        is_tag_text("#if "@ + c),
        starts_with_seq("#if "@ + c, "#if "@),
        ("#if "@ + c).skip(4) == c,
        trim_seq(("#if "@ + c).skip(4)) == c,
        ("#if "@ + c)[0] == '#',
{
    reveal_strlit("#if ");
    let e = "#if "@ + c;
    assert(e[0] == '#' && e.last() == c.last());
    assert forall|k: int| 0 <= k < e.len() implies #[trigger] e[k] != '{' && e[k] != '}' by {
        if k >= 4 {
            assert(e[k] == c[k - 4]);
        }
    }
    assert(e.subrange(0, 4) =~= "#if "@);
    assert(e.skip(4) =~= c);
    lemma_trimmed(c);
}

#[verifier::rlimit(40)]
proof fn lemma_if_only(c: Seq<char>, a: Seq<char>, env: AlertEnvelopeView)
    requires
        is_tag_text(c),
        is_plain_text(a),
    ensures
        rendered(if_only(c, a), env) == Ok::<Seq<char>, Seq<char>>(
            if condition_holds(c, env) {
                a
            } else {
                Seq::empty()
            },
        ),
{
    reveal_strlit("#if ");
    reveal_strlit("/if");
    reveal_strlit("{{/if}}");
    reveal_strlit("{{else}}");
    let t = if_only(c, a);
    let e = "#if "@ + c;
    lemma_if_tag(c);
    let k0 = (4 + e.len()) as int;
    let k1 = k0 + a.len();
    assert(tag_at(t, 0, e)) by {
        assert forall|k: int| 0 <= k < e.len() implies #[trigger] e[k] == t[0 + 2 + k] by {}
    }
    assert(tag_at(t, k1, "/if"@)) by {
        assert forall|k: int| 0 <= k < "/if"@.len() implies #[trigger] "/if"@[k] == t[k1 + 2 + k] by {}
    }
    lemma_tag_at(t, 0, e);
    lemma_tag_at(t, k1, "/if"@);
    assert(t.subrange(k0, k1) =~= a);
    assert forall|j: int| k0 <= j < k1 implies #[trigger] t[j] != '{' by {
        assert(t[j] == a[j - k0]);
    }
    lemma_plain_branch(t, env, k0, k1, 0);
    assert(branches_from(t, env, k0, 0) == Ok::<(Seq<char>, Option<Seq<char>>, int), Seq<char>>(
        (a, None, k1),
    ));
    reveal_with_fuel(render_from, 2);
    let shown = if condition_holds(c, env) {
        a
    } else {
        Seq::empty()
    };
    assert(shown + Seq::<char>::empty() =~= shown);
}

/// A block shows its text where its path leads to something in the payload that counts as true, and else
/// the text behind its `else`, or nothing. With an exclamation mark it is the other way round.
pub proof fn blocks_show_one_of_two_texts(
    template: &str,
    env: &AlertEnvelope,
    payload: &Json,
    path: &str,
    found: Option<&Json>,
    counts: bool,
    a: Seq<char>,
    b: Seq<char>,
    r: Result<(String, TemplateContentType), String>,
)
    requires
        call_ensures(render_template, (template, env), r),
        payload@ == env@.payload,
        call_ensures(lookup_json_path, (payload, path), found),
        found is None ==> !counts,
        found is Some ==> call_ensures(is_truthy, (found->0,), counts),
        is_tag_text(path@),
        forall|k: int| 0 <= k < path@.len() ==> #[trigger] path@[k] != '=' && path@[k] != '!',
        is_plain_text(a),
        is_plain_text(b),
    ensures
        template@ == if_else("payload."@ + path@, a, b) ==> r is Ok && (r->Ok_0).0@ == if counts {
            a
        } else {
            b
        },
        template@ == if_else("!payload."@ + path@, a, b) ==> r is Ok && (r->Ok_0).0@ == if counts {
            b
        } else {
            a
        },
        template@ == if_only("payload."@ + path@, a) ==> r is Ok && (r->Ok_0).0@ == if counts {
            a
        } else {
            Seq::empty()
        },
        template@ == if_only("!payload."@ + path@, a) ==> r is Ok && (r->Ok_0).0@ == if counts {
            Seq::empty()
        } else {
            a
        },
{
    reveal_strlit("payload.");
    reveal_strlit("!payload.");
    let c = "payload."@ + path@;
    let n = "!payload."@ + path@;
    assert(n =~= seq!['!'] + c);
    assert(c.last() == path@.last() && n.last() == path@.last() && c[0] == 'p' && n[0] == '!');
    assert forall|k: int| 0 <= k < c.len() implies #[trigger] c[k] != '=' && c[k] != '!' && c[k] != '{' && c[k]
        != '}' by {
        if k >= 8 {
            assert(c[k] == path@[k - 8]);
        }
    }
    assert forall|k: int| 0 <= k < n.len() implies #[trigger] n[k] != '{' && n[k] != '}' by {
        if k >= 9 {
            assert(n[k] == path@[k - 9]);
        }
    }
    lemma_condition(c, env@);
    lemma_payload_value(env@, path@);
    lemma_if_else(c, a, b, env@);
    lemma_if_else(n, a, b, env@);
    lemma_if_only(c, a, env@);
    lemma_if_only(n, a, env@);
}

/// A block can compare: it shows its text where its path leads to the text between the quotes.
pub proof fn blocks_compare_with_a_text(
    template: &str,
    env: &AlertEnvelope,
    payload: &Json,
    path: &str,
    found: Option<&Json>,
    word: Seq<char>,
    a: Seq<char>,
    b: Seq<char>,
    r: Result<(String, TemplateContentType), String>,
)
    requires
        call_ensures(render_template, (template, env), r),
        payload@ == env@.payload,
        call_ensures(lookup_json_path, (payload, path), found),
        is_tag_text(path@),
        forall|k: int| 0 <= k < path@.len() ==> #[trigger] path@[k] != '=' && path@[k] != '!',
        forall|k: int| 0 <= k < word.len() ==> #[trigger] word[k] != '{' && word[k] != '}',
        is_plain_text(a),
        is_plain_text(b),
        template@ == if_else("payload."@ + path@ + "==\""@ + word + "\""@, a, b),
    ensures
        r is Ok,
        (r->Ok_0).0@ == if found is Some && found->0@ == JsonView::Text(word) {
            a
        } else {
            b
        },
{
    reveal_strlit("payload.");
    reveal_strlit("==\"");
    reveal_strlit("\"");
    reveal_strlit("==");
    let left = "payload."@ + path@;
    let right = seq!['"'] + word + seq!['"'];
    let c = "payload."@ + path@ + "==\""@ + word + "\""@;
    assert(c =~= left + seq!['=', '='] + right);
    assert(c[0] == 'p' && c.last() == '"');
    assert forall|k: int| 0 <= k < c.len() implies #[trigger] c[k] != '{' && c[k] != '}' by {
        if 8 <= k < left.len() {
            assert(c[k] == path@[k - 8]);
        } else if left.len() + 3 <= k < c.len() - 1 {
            assert(c[k] == word[k - left.len() - 3]);
        }
    }
    lemma_if_else(c, a, b, env@);
    lemma_trimmed(c);
    let at = left.len() as int;
    find_from_is_first(c, "=="@, 0);
    assert(c.subrange(at, at + 2) =~= "=="@);
    assert(occurs_at(c, "=="@, at));
    let i = find_from(c, "=="@, 0)->0;
    if i < at {
        assert(c.subrange(i, i + 2)[0] == c[i]);
        if i >= 8 {
            assert(c[i] == path@[i - 8]);
        }
    }
    assert(i == at);
    assert(c.take(i) =~= left);
    assert(c.skip(i + 2) =~= right);
    assert(left[0] == 'p' && left.last() == path@.last());
    lemma_trimmed(left);
    assert(right[0] == '"' && right.last() == '"');
    lemma_trimmed(right);
    assert(right.subrange(1, right.len() - 1) =~= word);
    lemma_payload_value(env@, path@);
    reveal_with_fuel(condition_holds, 1);
}

/// The text for each item in turn: what stands before the item, the item, and what stands behind it.
pub open spec fn spread(before: Seq<char>, items: Seq<JsonView>, behind: Seq<char>, text: Seq<char>) -> bool
    decreases items.len(),
{
    if items.len() == 0 {
        text.len() == 0
    } else {
        exists|one: Seq<char>, rest: Seq<char>|
            shows(items[0], one) && text == #[trigger] (before + one + behind + rest) && spread(
                before,
                items.drop_first(),
                behind,
                rest,
            )
    }
}

proof fn lemma_item_plain(body: Seq<char>, item: JsonView, env: AlertEnvelopeView, i: int, k: int)
    requires
        0 <= i <= k <= body.len(),
        forall|j: int| i <= j < k ==> #[trigger] body[j] != '{',
        render_item(body, item, env, k) is Ok,
    ensures
        render_item(body, item, env, i) == Ok::<Seq<char>, Seq<char>>(
            body.subrange(i, k) + render_item(body, item, env, k)->Ok_0,
        ),
    decreases k - i,
{
    reveal_strlit("{{");
    if i < k {
        assert(body[i] != '{');
        if occurs_at(body, "{{"@, i) {
            assert(body.subrange(i, i + 2)[0] == body[i]);
        }
        lemma_item_plain(body, item, env, i + 1, k);
        assert(seq![body[i]] + (body.subrange(i + 1, k) + render_item(body, item, env, k)->Ok_0)
            =~= body.subrange(i, k) + render_item(body, item, env, k)->Ok_0);
    } else {
        assert(body.subrange(i, k) + render_item(body, item, env, k)->Ok_0 =~= render_item(
            body,
            item,
            env,
            k,
        )->Ok_0);
    }
}

proof fn lemma_item(x: Seq<char>, y: Seq<char>, item: JsonView, env: AlertEnvelopeView)
    requires
        is_plain_text(x),
        is_plain_text(y),
    ensures
        render_item(x + tag("this"@) + y, item, env, 0) == Ok::<Seq<char>, Seq<char>>(
            x + value_text(item) + y,
        ),
{
    reveal_strlit("this");
    reveal_strlit("{{this");
    let body = x + tag("this"@) + y;
    let n = x.len() as int;
    assert(tag_at(body, n, "this"@)) by {
        assert forall|k: int| 0 <= k < "this"@.len() implies #[trigger] "this"@[k] == body[n + 2 + k] by {}
    }
    assert(!is_space('t') && !is_space('s'));
    lemma_tag_at(body, n, "this"@);
    assert(body.subrange(n, n + 6) =~= "{{this"@);
    let end = body.len() as int;
    assert forall|j: int| n + 8 <= j < end implies #[trigger] body[j] != '{' by {
        assert(body[j] == y[j - n - 8]);
    }
    assert(render_item(body, item, env, end) == Ok::<Seq<char>, Seq<char>>(Seq::empty()));
    lemma_item_plain(body, item, env, n + 8, end);
    assert(body.subrange(n + 8, end) + Seq::<char>::empty() =~= y);
    assert(render_item(body, item, env, n) == Ok::<Seq<char>, Seq<char>>(value_text(item) + y));
    assert forall|j: int| 0 <= j < n implies #[trigger] body[j] != '{' by {
        assert(body[j] == x[j]);
    }
    lemma_item_plain(body, item, env, 0, n);
    assert(body.subrange(0, n) =~= x);
    assert(x + (value_text(item) + y) =~= x + value_text(item) + y);
}

proof fn lemma_items(x: Seq<char>, y: Seq<char>, items: Seq<JsonView>, env: AlertEnvelopeView, k: int)
    requires
        is_plain_text(x),
        is_plain_text(y),
        0 <= k <= items.len(),
    ensures
        render_items(x + tag("this"@) + y, items, env, k) is Ok,
        spread(x, items.skip(k), y, render_items(x + tag("this"@) + y, items, env, k)->Ok_0),
    decreases items.len() - k,
{
    let body = x + tag("this"@) + y;
    if k < items.len() {
        lemma_item(x, y, items[k], env);
        lemma_items(x, y, items, env, k + 1);
        lemma_shows(items[k]);
        let rest = render_items(body, items, env, k + 1)->Ok_0;
        assert(items.skip(k).drop_first() =~= items.skip(k + 1));
        assert(items.skip(k)[0] == items[k]);
        assert(render_items(body, items, env, k)->Ok_0 == x + value_text(items[k]) + y + rest);
    }
}

/// A block for each item of a list in the payload gives its body once for each item, with the item in the
/// place of `this`; it gives nothing where there is no list.
#[verifier::rlimit(40)]
pub proof fn blocks_are_repeated_for_each_item(
    template: &str,
    env: &AlertEnvelope,
    payload: &Json,
    path: &str,
    found: Option<&Json>,
    x: Seq<char>,
    y: Seq<char>,
    r: Result<(String, TemplateContentType), String>,
)
    requires
        call_ensures(render_template, (template, env), r),
        payload@ == env@.payload,
        call_ensures(lookup_json_path, (payload, path), found),
        is_tag_text(path@),
        is_plain_text(x),
        is_plain_text(y),
        template@ == tag("#each payload."@ + path@) + (x + tag("this"@) + y) + tag("/each"@),
    ensures
        r is Ok,
        found is Some && found->0@ is Array ==> spread(x, found->0@->Array_0, y, (r->Ok_0).0@),
        found is None || !(found->0@ is Array) ==> (r->Ok_0).0@.len() == 0,
{
    reveal_strlit("#each payload.");
    reveal_strlit("#each ");
    reveal_strlit("#if ");
    reveal_strlit("payload.");
    reveal_strlit("/each");
    reveal_strlit("{{/each}}");
    reveal_strlit("this");
    let t = template@;
    let e = "#each payload."@ + path@;
    let body = x + tag("this"@) + y;
    let name = "payload."@ + path@;
    assert(e[0] == '#' && e.last() == path@.last() && name[0] == 'p' && name.last() == path@.last());
    assert forall|k: int| 0 <= k < e.len() implies #[trigger] e[k] != '{' && e[k] != '}' by {
        if k >= 14 {
            assert(e[k] == path@[k - 14]);
        }
    }
    assert(tag_at(t, 0, e)) by {
        assert forall|k: int| 0 <= k < e.len() implies #[trigger] e[k] == t[0 + 2 + k] by {}
    }
    let k0 = (4 + e.len()) as int;
    let k1 = k0 + body.len();
    assert(t.len() == k1 + 9);
    assert(tag_at(t, k1, "/each"@)) by {
        assert forall|k: int| 0 <= k < "/each"@.len() implies #[trigger] "/each"@[k] == t[k1 + 2 + k] by {}
    }
    lemma_tag_at(t, 0, e);
    lemma_tag_at(t, k1, "/each"@);
    assert(e.subrange(0, 6) =~= "#each "@);
    assert(!starts_with_seq(e, "#if "@)) by {
        if starts_with_seq(e, "#if "@) {
            assert(e.subrange(0, 4)[1] == e[1]);
        }
    }
    assert(e.skip(6) =~= name);
    lemma_trimmed(name);
    find_from_is_first(t, "{{/each}}"@, k0);
    let end = find_from(t, "{{/each}}"@, k0)->0;
    if end < k1 {
        assert(t.subrange(end, end + 9)[0] == t[end]);
        assert(t.subrange(end, end + 9)[1] == t[end + 1]);
        assert(t.subrange(end, end + 9)[2] == t[end + 2]);
        let n = x.len() as int;
        if end < k0 + n {
            assert(t[end] == x[end - k0]);
        } else if end >= k0 + n + 8 {
            assert(t[end] == y[end - k0 - n - 8]);
        } else {
            assert(t[end] == tag("this"@)[end - k0 - n]);
            if end == k0 + n {
                assert(t[end + 2] == 't');
            }
        }
    }
    assert(end == k1);
    assert(t.subrange(k0, k1) =~= body);
    lemma_payload_value(env@, path@);
    let items = each_items(env@, name);
    lemma_items(x, y, items, env@, 0);
    assert(items.skip(0) =~= items);
    let text = render_items(body, items, env@, 0)->Ok_0;
    reveal_with_fuel(render_from, 2);
    assert(text + Seq::<char>::empty() =~= text);
}

/// A tag that is not closed cannot be rendered.
pub proof fn open_tags_are_refused(
    template: &str,
    env: &AlertEnvelope,
    rest: Seq<char>,
    r: Result<(String, TemplateContentType), String>,
)
    requires
        call_ensures(render_template, (template, env), r),
        template@ == seq!['{', '{'] + rest,
        forall|k: int| 0 <= k < rest.len() ==> #[trigger] rest[k] != '}',
    ensures
        r is Err,
{
    reveal_strlit("{{");
    reveal_strlit("}}");
    reveal_strlit("{{/if}}");
    reveal_strlit("{{/each}}");
    let t = template@;
    assert(t.subrange(0, 2) =~= "{{"@);
    find_from_is_first(t, "}}"@, 2);
    if let Some(i) = find_from(t, "}}"@, 2) {
        assert(t.subrange(i, i + 2)[0] == t[i]);
        assert(t[i] == rest[i - 2]);
    }
    if occurs_at(t, "{{/if}}"@, 0) {
        assert(t.subrange(0, 7)[5] == t[5]);
        assert(t[5] == rest[3]);
    }
    if occurs_at(t, "{{/each}}"@, 0) {
        assert(t.subrange(0, 9)[7] == t[7]);
        assert(t[7] == rest[5]);
    }
}

/// A block that is not closed cannot be rendered, nor can one be closed that was not opened.
pub proof fn unmatched_blocks_are_refused(
    template: &str,
    env: &AlertEnvelope,
    c: Seq<char>,
    a: Seq<char>,
    r: Result<(String, TemplateContentType), String>,
)
    requires
        call_ensures(render_template, (template, env), r),
        is_tag_text(c),
        is_plain_text(a),
        template@ == tag("#if "@ + c) + a || template@ == tag("/if"@) + a || template@ == tag("/each"@) + a,
    ensures
        r is Err,
{
    reveal_strlit("#if ");
    reveal_strlit("/if");
    reveal_strlit("/each");
    let t = template@;
    if t == tag("#if "@ + c) + a {
        let e = "#if "@ + c;
        lemma_if_tag(c);
        assert(tag_at(t, 0, e)) by {
            assert forall|k: int| 0 <= k < e.len() implies #[trigger] e[k] == t[0 + 2 + k] by {}
        }
        lemma_tag_at(t, 0, e);
        let k0 = (4 + e.len()) as int;
        assert forall|j: int| k0 <= j < t.len() implies #[trigger] t[j] != '{' by {
            assert(t[j] == a[j - k0]);
        }
        lemma_never_closed(t, env@, k0, 0);
        assert(branches_from(t, env@, k0, 0) is Err);
    } else if t == tag("/if"@) + a {
        assert(tag_at(t, 0, "/if"@)) by {
            assert forall|k: int| 0 <= k < "/if"@.len() implies #[trigger] "/if"@[k] == t[0 + 2 + k] by {}
        }
        lemma_tag_at(t, 0, "/if"@);
    } else {
        assert(tag_at(t, 0, "/each"@)) by {
            assert forall|k: int| 0 <= k < "/each"@.len() implies #[trigger] "/each"@[k] == t[0 + 2 + k] by {}
        }
        lemma_tag_at(t, 0, "/each"@);
    }
}

proof fn lemma_never_closed(t: Seq<char>, env: AlertEnvelopeView, i: int, opened: int)
    requires
        0 <= i <= t.len(),
        forall|j: int| i <= j < t.len() ==> #[trigger] t[j] != '{',
    ensures
        render_from(t, env, i, Part::Branch, opened) is Err,
    decreases t.len() - i,
{
    reveal_strlit("{{");
    reveal_strlit("{{/if}}");
    reveal_strlit("{{/each}}");
    reveal_strlit("{{else}}");
    if i < t.len() {
        assert(t[i] != '{');
        if occurs_at(t, "{{"@, i) {
            assert(t.subrange(i, i + 2)[0] == t[i]);
        }
        if occurs_at(t, "{{/if}}"@, i) {
            assert(t.subrange(i, i + 7)[0] == t[i]);
        }
        if occurs_at(t, "{{/each}}"@, i) {
            assert(t.subrange(i, i + 9)[0] == t[i]);
        }
        if occurs_at(t, "{{else}}"@, i) {
            assert(t.subrange(i, i + 8)[0] == t[i]);
        }
        lemma_never_closed(t, env, i + 1, opened);
    }
}

/// Lines and columns are counted from one: a place is on the line behind as many line ends as stand
/// before it, in the column behind as many characters as stand between it and the last of them.
pub proof fn places_are_counted_in_lines_and_columns(
    template: &str,
    offset: usize,
    lines: Seq<char>,
    line: Seq<char>,
    rest: Seq<char>,
    r: (usize, usize),
)
    requires
        call_ensures(offset_to_line_col, (template, offset), r),
        template@.len() < usize::MAX,
        template@ == lines + line + rest,
        offset == byte_count(lines + line),
        lines.len() > 0 ==> lines.last() == '\n',
        forall|k: int| 0 <= k < line.len() ==> #[trigger] line[k] != '\n',
    ensures
        r.0 == 1 + lines.filter(is_line_end()).len(),
        r.1 == 1 + line.len(),
{
    let p = lines + line;
    lemma_chars_before(template@, p.len() as int, 0);
    assert(template@.take(p.len() as int) =~= p);
    lemma_line_col(lines, line);
}

/// Whether a character ends a line.
pub open spec fn is_line_end() -> spec_fn(char) -> bool {
    |c: char| c == '\n'
}

proof fn lemma_chars_before(s: Seq<char>, n: int, k: int)
    requires
        0 <= k <= n <= s.len(),
    ensures
        chars_before(s, byte_count(s.take(n)), k) == n,
    decreases n - k,
{
    if k < n {
        lemma_bytes_grow(s, k, n);
        lemma_chars_before(s, n, k + 1);
    }
}

proof fn lemma_bytes_grow(s: Seq<char>, k: int, n: int)
    requires
        0 <= k < n <= s.len(),
    ensures
        byte_count(s.take(k)) < byte_count(s.take(n)),
    decreases n - k,
{
    lemma_byte_count_step(s, k);
    if k + 1 < n {
        lemma_bytes_grow(s, k + 1, n);
    }
}

proof fn lemma_line_col(lines: Seq<char>, line: Seq<char>)
    requires
        lines.len() > 0 ==> lines.last() == '\n',
        forall|k: int| 0 <= k < line.len() ==> #[trigger] line[k] != '\n',
    ensures
        line_col_behind(lines + line) == (1 + lines.filter(is_line_end()).len(), 1 + line.len()),
    decreases line.len(),
{
    let p = lines + line;
    if line.len() > 0 {
        assert(p.drop_last() =~= lines + line.drop_last());
        assert(p.last() == line[line.len() - 1]);
        lemma_line_col(lines, line.drop_last());
    } else {
        assert(p =~= lines);
        lemma_line_count(lines);
        if lines.len() > 0 {
            assert(lines.last() == '\n');
        }
    }
}

proof fn lemma_line_count(s: Seq<char>)
    ensures
        line_col_behind(s).0 == 1 + s.filter(is_line_end()).len(),
        s.len() == 0 || s.last() == '\n' ==> line_col_behind(s).1 == 1,
    decreases s.len(),
{
    reveal(Seq::filter);
    if s.len() > 0 {
        lemma_line_count(s.drop_last());
    }
}

proof fn lemma_lint_plain(t: Seq<char>, i: int, k: int, open: Seq<OpenBlockView>)
    requires
        0 <= i <= k <= t.len(),
        forall|j: int| i <= j < k ==> #[trigger] t[j] != '{',
    ensures
        lint_from(t, i, open) == lint_from(t, k, open),
    decreases k - i,
{
    reveal_strlit("{{");
    if i < k {
        assert(t[i] != '{');
        if occurs_at(t, "{{"@, i) {
            assert(t.subrange(i, i + 2)[0] == t[i]);
        }
        lemma_lint_plain(t, i + 1, k, open);
    }
}

/// A block that is closed is in order; of one that is not, just that is found, at its place, and of one
/// that is closed without being open.
pub proof fn unmatched_blocks_are_found(
    template: &str,
    c: Seq<char>,
    a: Seq<char>,
    r: Vec<TemplateDiagnostic>,
)
    requires
        call_ensures(lint_template, (template,), r),
        template@.len() < usize::MAX,
        is_tag_text(c),
        is_plain_text(a),
    ensures
        template@ == if_only(c, a) ==> r@.len() == 0,
        template@ == tag("#if "@ + c) + a ==> r@.len() == 1 && r@[0]@.code == "unclosed_block"@ && r@[0]@.severity
            == "error"@ && r@[0]@.offset == 0,
        template@ == a + tag("/if"@) ==> r@.len() == 1 && r@[0]@.code == "unexpected_close"@
            && r@[0]@.severity == "error"@ && r@[0]@.offset == byte_count(a),
{
    reveal_strlit("#if ");
    reveal_strlit("#each ");
    reveal_strlit("/if");
    reveal_strlit("/each");
    reveal_strlit("{{");
    let t = template@;
    let e = "#if "@ + c;
    lemma_if_tag(c);
    let k0 = (4 + e.len()) as int;
    let none = Seq::<OpenBlockView>::empty();
    let one = none.push(OpenBlockView { is_if: true, offset: byte_count(t.take(0)) });
    let found = diagnostics_view(r@);
    assert(found.len() == r@.len());
    assert(t.take(0) =~= Seq::<char>::empty());
    assert(byte_count(Seq::<char>::empty()) == 0);
    assert(r@.len() > 0 ==> found[0] == r@[0]@);
    if t == if_only(c, a) || t == tag(e) + a {
        assert(tag_at(t, 0, e)) by {
            assert forall|k: int| 0 <= k < e.len() implies #[trigger] e[k] == t[0 + 2 + k] by {}
        }
        lemma_tag_at(t, 0, e);
        assert forall|j: int| k0 <= j < k0 + a.len() implies #[trigger] t[j] != '{' by {
            assert(t[j] == a[j - k0]);
        }
        let k1 = k0 + a.len();
        lemma_lint_plain(t, k0, k1, one);
        assert(lint_tag(t, e, byte_count(t.take(0)), none) == (Seq::<TemplateDiagnosticView>::empty(), one));
        if t == if_only(c, a) {
            assert(tag_at(t, k1, "/if"@)) by {
                assert forall|k: int| 0 <= k < "/if"@.len() implies #[trigger] "/if"@[k] == t[k1 + 2 + k] by {}
            }
            lemma_tag_at(t, k1, "/if"@);
            assert(one.drop_last() =~= none);
            assert(lint_from(t, k1 + 7, none) =~= Seq::<TemplateDiagnosticView>::empty());
            assert(found =~= Seq::<TemplateDiagnosticView>::empty());
        } else {
            assert(found =~= unclosed_findings(t, one));
        }
    }
    if t == a + tag("/if"@) {
        let k1 = a.len() as int;
        assert(tag_at(t, k1, "/if"@)) by {
            assert forall|k: int| 0 <= k < "/if"@.len() implies #[trigger] "/if"@[k] == t[k1 + 2 + k] by {}
        }
        lemma_tag_at(t, k1, "/if"@);
        assert forall|j: int| 0 <= j < k1 implies #[trigger] t[j] != '{' by {
            assert(t[j] == a[j]);
        }
        lemma_lint_plain(t, 0, k1, none);
        assert(t.take(k1) =~= a);
        assert(lint_from(t, k1 + 7, none) =~= Seq::<TemplateDiagnosticView>::empty());
        assert(found =~= lint_tag(t, "/if"@, byte_count(t.take(k1)), none).0);
    }
}

/// A preview shows what the template makes of an alert with the sample as its payload, or nothing where it
/// cannot be rendered, and then says so.
pub proof fn previews_show_what_would_be_rendered(
    template: &str,
    sample: &Json,
    env: &AlertEnvelope,
    done: Result<(String, TemplateContentType), String>,
    r: TemplatePreviewResult,
)
    requires
        call_ensures(preview_alerting_template, (template, sample), r),
        template@.len() < usize::MAX,
        env@ == (AlertEnvelopeView {
            schema_version: 1,
            event_id: "preview"@,
            source: "preview"@,
            severity: Severity::Info,
            tags: Seq::empty(),
            timestamp: 0,
            payload: sample@,
        }),
        call_ensures(render_template, (template, env), done),
    ensures
        done is Ok ==> r.body@ == (done->Ok_0).0@,
        done is Err ==> r.body@.len() == 0 && exists|i: int|
            0 <= i < r.diagnostics@.len() && (#[trigger] r.diagnostics@[i])@.code == "render_failed"@
                && r.diagnostics@[i]@.message == done->Err_0@,
        forall|i: int, j: int|
            0 <= i < j < r.diagnostics@.len() ==> (#[trigger] r.diagnostics@[i])@.offset <= (
            #[trigger] r.diagnostics@[j])@.offset,
{
    let found = diagnostics_view(r.diagnostics@);
    assert forall|i: int, j: int| 0 <= i < j < r.diagnostics@.len() implies (
    #[trigger] r.diagnostics@[i])@.offset <= (#[trigger] r.diagnostics@[j])@.offset by {
        assert(found[i] == r.diagnostics@[i]@ && found[j] == r.diagnostics@[j]@);
        assert(!super::template::earlier_finding()(found[j], found[i]));
    }
    if done is Err {
        let structure = lint_from(template@, 0, Seq::empty());
        let failure = super::template::render_failure(template@, done->Err_0@);
        let all = structure.push(failure);
        assert(env@ == super::template::preview_envelope(sample@));
        crate::order::sorting_keeps_every_value(all, super::template::earlier_finding());
        assert(all.to_multiset() == found.to_multiset());
        broadcast use vstd::seq_lib::group_to_multiset_ensures;
        assert(all[structure.len() as int] == failure);
        assert(all.contains(failure));
        assert(all.to_multiset().count(failure) > 0);
        assert(found.contains(failure));
        let i = choose|i: int| 0 <= i < found.len() && found[i] == failure;
        assert(found[i] == r.diagnostics@[i]@);
    }
}

} // verus!
