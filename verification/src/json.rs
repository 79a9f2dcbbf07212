//! JSON values: a tree of plain data, its mathematical view, and the passage to and from text.

use vstd::prelude::*;

use crate::text::{chars_of, same};

verus! {

/// A JSON value. A number is kept as the text that stands for it: an integer as its decimal
/// digits, any other number as the shortest decimal that reads back to it.
#[derive(Debug, PartialEq)]
pub enum Json {
    Null,
    Bool(bool),
    Number(String),
    Text(String),
    Array(Vec<Json>),
    Object(Vec<(String, Json)>),
}

/// What a [`Json`] value holds.
pub enum JsonView {
    Null,
    Bool(bool),
    Number(Seq<char>),
    Text(Seq<char>),
    Array(Seq<JsonView>),
    Object(Seq<(Seq<char>, JsonView)>),
}

impl View for Json {
    type V = JsonView;

    open spec fn view(&self) -> JsonView {
        json_view(*self)
    }
}

/// The view of a value.
pub open spec fn json_view(j: Json) -> JsonView
    decreases j,
{
    match j {
        Json::Null => JsonView::Null,
        Json::Bool(b) => JsonView::Bool(b),
        Json::Number(n) => JsonView::Number(n@),
        Json::Text(t) => JsonView::Text(t@),
        Json::Array(items) => JsonView::Array(items_view(items@)),
        Json::Object(members) => JsonView::Object(members_view(members@)),
    }
}

/// The views of the items of an array.
pub open spec fn items_view(s: Seq<Json>) -> Seq<JsonView>
    decreases s,
{
    if s.len() == 0 {
        Seq::empty()
    } else {
        items_view(s.drop_last()).push(json_view(s.last()))
    }
}

/// The views of the members of an object.
pub open spec fn members_view(s: Seq<(String, Json)>) -> Seq<(Seq<char>, JsonView)>
    decreases s,
{
    if s.len() == 0 {
        Seq::empty()
    } else {
        members_view(s.drop_last()).push((s.last().0@, json_view(s.last().1)))
    }
}

pub proof fn lemma_items_view(s: Seq<Json>)
    ensures
        items_view(s).len() == s.len(),
        forall|i: int| 0 <= i < s.len() ==> items_view(s)[i] == #[trigger] json_view(s[i]),
    decreases s.len(),
{
    if s.len() > 0 {
        lemma_items_view(s.drop_last());
        assert forall|i: int| 0 <= i < s.len() implies items_view(s)[i] == #[trigger] json_view(s[i]) by {
            if i < s.len() - 1 {
                assert(json_view(s.drop_last()[i]) == json_view(s[i]));
            }
        }
    }
}

pub proof fn lemma_members_view(s: Seq<(String, Json)>)
    ensures
        members_view(s).len() == s.len(),
        forall|i: int| 0 <= i < s.len() ==> #[trigger] members_view(s)[i] == (s[i].0@, json_view(s[i].1)),
    decreases s.len(),
{
    if s.len() > 0 {
        lemma_members_view(s.drop_last());
        assert forall|i: int| 0 <= i < s.len() implies #[trigger] members_view(s)[i] == (
            s[i].0@,
            json_view(s[i].1),
        ) by {
            if i < s.len() - 1 {
                assert(members_view(s.drop_last())[i] == (s.drop_last()[i].0@, json_view(s.drop_last()[i].1)));
            }
        }
    }
}

impl Clone for Json {
    fn clone(&self) -> (r: Self)
        ensures
            r@ == self@,
        decreases self,
    {
        match self {
            Json::Null => Json::Null,
            Json::Bool(b) => Json::Bool(*b),
            Json::Number(n) => Json::Number(n.clone()),
            Json::Text(t) => Json::Text(t.clone()),
            Json::Array(items) => {
                let mut out: Vec<Json> = Vec::new();
                let mut i: usize = 0;
                while i < items.len()
                    invariant
                        i <= items@.len(),
                        out@.len() == i,
                        *self == Json::Array(*items),
                        forall|k: int| 0 <= k < i ==> json_view(#[trigger] out@[k]) == json_view(items@[k]),
                    decreases items@.len() - i,
                {
                    assert(decreases_to!(*self => self->Array_0));
                    assert(decreases_to!(self->Array_0 => self->Array_0@));
                    assert(decreases_to!(self->Array_0@ => self->Array_0@[i as int]));
                    out.push(items[i].clone());
                    i += 1;
                }
                proof {
                    lemma_items_view(items@);
                    lemma_items_view(out@);
                    assert forall|k: int| 0 <= k < out@.len() implies items_view(out@)[k] == items_view(items@)[k] by {
                        assert(json_view(out@[k]) == json_view(items@[k]));
                    }
                    assert(items_view(out@) =~= items_view(items@));
                }
                Json::Array(out)
            },
            Json::Object(members) => {
                let mut out: Vec<(String, Json)> = Vec::new();
                let mut i: usize = 0;
                while i < members.len()
                    invariant
                        i <= members@.len(),
                        out@.len() == i,
                        *self == Json::Object(*members),
                        forall|k: int| 0 <= k < i ==> (#[trigger] out@[k]).0@ == members@[k].0@ && json_view(out@[k].1) == json_view(members@[k].1),
                    decreases members@.len() - i,
                {
                    assert(decreases_to!(*self => self->Object_0));
                    assert(decreases_to!(self->Object_0 => self->Object_0@));
                    assert(decreases_to!(self->Object_0@ => self->Object_0@[i as int]));
                    assert(decreases_to!(self->Object_0@[i as int] => self->Object_0@[i as int].1));
                    out.push((members[i].0.clone(), members[i].1.clone()));
                    i += 1;
                }
                proof {
                    lemma_members_view(members@);
                    lemma_members_view(out@);
                    assert forall|k: int| 0 <= k < out@.len() implies members_view(out@)[k] == members_view(members@)[k] by {
                        assert(out@[k].0@ == members@[k].0@);
                    }
                    assert(members_view(out@) =~= members_view(members@));
                }
                Json::Object(out)
            },
        }
    }
}

/// The value of the first member named `key`.
pub open spec fn member_of(members: Seq<(Seq<char>, JsonView)>, key: Seq<char>) -> Option<JsonView>
    decreases members.len(),
{
    if members.len() == 0 {
        None
    } else if members[0].0 == key {
        Some(members[0].1)
    } else {
        member_of(members.drop_first(), key)
    }
}

/// The value of the first member of `j` named `key`, where `j` is an object that has one.
pub open spec fn get_member(j: JsonView, key: Seq<char>) -> Option<JsonView> {
    match j {
        JsonView::Object(members) => member_of(members, key),
        _ => None,
    }
}

/// The parts of `s` between its dots. There is always at least one.
pub open spec fn dot_parts(s: Seq<char>) -> Seq<Seq<char>>
    decreases s.len(),
{
    if s.len() == 0 {
        seq![Seq::<char>::empty()]
    } else {
        let before = dot_parts(s.drop_last());
        if s.last() == '.' {
            before.push(Seq::<char>::empty())
        } else {
            before.drop_last().push(before.last().push(s.last()))
        }
    }
}

/// What `parts` lead to, member by member, from `j`.
pub open spec fn walk_members(j: JsonView, parts: Seq<Seq<char>>) -> Option<JsonView>
    decreases parts.len(),
{
    if parts.len() == 0 {
        Some(j)
    } else {
        match get_member(j, parts[0]) {
            Some(next) => walk_members(next, parts.drop_first()),
            None => None,
        }
    }
}

/// Whether `c` is a decimal digit.
pub open spec fn is_digit(c: char) -> bool {
    '0' <= c <= '9'
}

/// The number that the digits `s` stand for.
pub open spec fn digits_value(s: Seq<char>) -> nat
    decreases s.len(),
{
    if s.len() == 0 {
        0
    } else {
        digits_value(s.drop_last()) * 10 + ((s.last() as nat) - ('0' as nat)) as nat
    }
}

/// Whether `s` is made of digits, and of at least one.
pub open spec fn all_digits(s: Seq<char>) -> bool {
    s.len() > 0 && forall|i: int| 0 <= i < s.len() ==> is_digit(#[trigger] s[i])
}

/// `s` read as an unsigned number of at most `max`; one leading `+` is allowed.
pub open spec fn unsigned_value(s: Seq<char>, max: nat) -> Option<nat> {
    let digits = if s.len() > 0 && s[0] == '+' {
        s.drop_first()
    } else {
        s
    };
    if all_digits(digits) && digits_value(digits) <= max {
        Some(digits_value(digits))
    } else {
        None
    }
}

/// One step along a payload path: a number picks an array item, anything else a member.
pub open spec fn step_into(j: JsonView, part: Seq<char>) -> Option<JsonView> {
    if part.len() == 0 {
        None
    } else {
        match unsigned_value(part, usize::MAX as nat) {
            Some(i) => match j {
                JsonView::Array(items) => if i < items.len() {
                    Some(items[i as int])
                } else {
                    None
                },
                _ => None,
            },
            None => get_member(j, part),
        }
    }
}

/// What `parts` lead to from `j`, through members and array items.
pub open spec fn walk_payload(j: JsonView, parts: Seq<Seq<char>>) -> Option<JsonView>
    decreases parts.len(),
{
    if parts.len() == 0 {
        Some(j)
    } else {
        match step_into(j, parts[0]) {
            Some(next) => walk_payload(next, parts.drop_first()),
            None => None,
        }
    }
}

/// Whether a value counts as true: anything but null, false, zero and what is empty.
pub open spec fn truthy(j: JsonView) -> bool {
    match j {
        JsonView::Null => false,
        JsonView::Bool(b) => b,
        JsonView::Number(n) => n != "0"@ && n != "0.0"@ && n != "-0.0"@,
        JsonView::Text(t) => t.len() > 0,
        JsonView::Array(items) => items.len() > 0,
        JsonView::Object(members) => members.len() > 0,
    }
}

/// The two zeros that differ in sign alone count as one number.
pub open spec fn number_key(n: Seq<char>) -> Seq<char> {
    if n == "-0.0"@ {
        "0.0"@
    } else {
        n
    }
}

/// Whether `a` equals `b`, a value that is no array and no object.
pub open spec fn equals_scalar(a: JsonView, b: JsonView) -> bool {
    match (a, b) {
        (JsonView::Null, JsonView::Null) => true,
        (JsonView::Bool(x), JsonView::Bool(y)) => x == y,
        (JsonView::Number(x), JsonView::Number(y)) => number_key(x) == number_key(y),
        (JsonView::Text(x), JsonView::Text(y)) => x == y,
        _ => false,
    }
}

/// The name of the text that `serde_json` prints for a value; nothing where the value holds a number
/// whose text is none.
pub uninterp spec fn json_printed(j: JsonView) -> Option<Seq<char>>;

/// The name of the text that `serde_json` prints for a value over several lines; nothing where the
/// value holds a number whose text is none.
pub uninterp spec fn json_pretty_printed(j: JsonView) -> Option<Seq<char>>;

/// Whether a value is a list of lists of texts.
pub open spec fn is_text_table(j: JsonView) -> bool {
    match j {
        JsonView::Array(rows) => forall|i: int|
            0 <= i < rows.len() ==> match #[trigger] rows[i] {
                JsonView::Array(cells) => forall|k: int|
                    0 <= k < cells.len() ==> (#[trigger] cells[k]) is Text,
                _ => false,
            },
        _ => false,
    }
}

/// The text of a value: what `serde_json` prints for it, and `null` for a value that it cannot hold.
pub open spec fn json_text_of(j: JsonView) -> Seq<char> {
    match json_printed(j) {
        Some(t) => t,
        None => "null"@,
    }
}

/// The name of what `serde_json` reads from a text: a value, or what is wrong with the text.
pub uninterp spec fn json_read(s: Seq<char>) -> Result<JsonView, Seq<char>>;

/// `serde_json::Value`, passed through and never looked into.
#[verifier::external_type_specification]
#[verifier::external_body]
pub struct ExJsonValue(serde_json::Value);

/// A value of `serde_json` as a [`Json`], one variant for one.
#[verifier::external_body]
fn from_value(v: serde_json::Value) -> (r: Json) {
    match v {
        serde_json::Value::Null => Json::Null,
        serde_json::Value::Bool(b) => Json::Bool(b),
        serde_json::Value::Number(n) => Json::Number(n.to_string()),
        serde_json::Value::String(s) => Json::Text(s),
        serde_json::Value::Array(a) => Json::Array(a.into_iter().map(from_value).collect()),
        serde_json::Value::Object(o) => {
            Json::Object(o.into_iter().map(|(k, x)| (k, from_value(x))).collect())
        },
    }
}

/// A [`Json`] as a value of `serde_json`, one variant for one; nothing where a number in it is none.
#[verifier::external_body]
fn to_value(j: &Json) -> (r: Option<serde_json::Value>) {
    Some(match j {
        Json::Null => serde_json::Value::Null,
        Json::Bool(b) => serde_json::Value::Bool(*b),
        Json::Number(n) => serde_json::Value::Number(to_number(n)?),
        Json::Text(s) => serde_json::Value::String(s.clone()),
        Json::Array(a) => serde_json::Value::Array(a.iter().map(to_value).collect::<Option<_>>()?),
        Json::Object(o) => serde_json::Value::Object(
            o.iter().map(|(k, x)| Some((k.clone(), to_value(x)?))).collect::<Option<_>>()?,
        ),
    })
}

/// `serde_json::Number`, passed through and never looked into.
#[verifier::external_type_specification]
#[verifier::external_body]
pub struct ExJsonNumber(serde_json::Number);

/// The number of `serde_json` that prints as `n`: an integer where `n` is one, else
/// `serde_json::Number::from_f64` of what `n` reads as; nothing where `n` reads as no finite number.
#[verifier::external_body]
fn to_number(n: &str) -> (r: Option<serde_json::Number>) {
    let signed = n.parse::<i64>().map(serde_json::Number::from);
    let whole = signed.or_else(|_| n.parse::<u64>().map(serde_json::Number::from));
    whole.ok().or_else(|| serde_json::Number::from_f64(n.parse().ok()?))
}

/// The compact text that `serde_json` prints for a value (`Display` of `serde_json::Value`), or
/// nothing where a number in the value is none. It depends on the value alone. A list of lists of
/// texts, in which there is neither a number nor an object, is read back as it was by
/// `serde_json::from_str`.
#[verifier::external_body]
fn print_json(j: &Json) -> (r: Option<String>)
    ensures
        match r {
            Some(t) => json_printed(j@) == Some(t@),
            None => json_printed(j@) is None,
        },
        is_text_table(j@) ==> r is Some && (json_read(r->0@) == Ok::<JsonView, Seq<char>>(j@)),
{
    to_value(j).map(|v| v.to_string())
}

/// The text that `serde_json` prints for a value over several lines
/// (`serde_json::to_string_pretty`), or nothing where a number in the value is none. It depends on the
/// value alone.
#[verifier::external_body]
fn print_pretty(j: &Json) -> (r: Option<String>)
    ensures
        match r {
            Some(t) => json_pretty_printed(j@) == Some(t@),
            None => json_pretty_printed(j@) is None,
        },
{
    to_value(j).and_then(|v| serde_json::to_string_pretty(&v).ok())
}

/// The text of a value over several lines, for files that users read.
pub fn pretty_text(j: &Json) -> (r: String)
    ensures
        r@ == (match json_pretty_printed(j@) {
            Some(t) => t,
            None => "null"@,
        }),
{
    match print_pretty(j) {
        Some(t) => t,
        None => "null".to_owned(),
    }
}

/// The compact text of a value. A list of lists of texts is read back from it as it was.
pub(crate) fn json_text(j: &Json) -> (r: String)
    ensures
        r@ == json_text_of(j@),
        is_text_table(j@) ==> json_read(r@) == Ok::<JsonView, Seq<char>>(j@),
{
    match print_json(j) {
        Some(t) => t,
        None => "null".to_owned(),
    }
}

/// Reads a value from text by `serde_json::from_str`; on failure hands out the message of its
/// error. Both depend on the text alone.
#[verifier::external_body]
pub(crate) fn parse_json(s: &str) -> (r: Result<Json, String>)
    ensures
        match r {
            Ok(j) => json_read(s@) == Ok::<JsonView, Seq<char>>(j@),
            Err(e) => json_read(s@) == Err::<JsonView, Seq<char>>(e@),
        },
{
    match serde_json::from_str::<serde_json::Value>(s) {
        Ok(v) => Ok(from_value(v)),
        Err(e) => Err(e.to_string()),
    }
}

/// The views of a list of texts.
pub open spec fn texts_view(s: Seq<String>) -> Seq<Seq<char>> {
    Seq::new(s.len(), |i: int| s[i]@)
}

proof fn lemma_member_of_skip(members: Seq<(Seq<char>, JsonView)>, key: Seq<char>, i: int)
    requires
        0 <= i <= members.len(),
        forall|k: int| 0 <= k < i ==> (#[trigger] members[k]).0 != key,
    ensures
        member_of(members, key) == member_of(members.skip(i), key),
    decreases i,
{
    if i == 0 {
        assert(members.skip(0) =~= members);
    } else {
        assert(members[0].0 != key);
        assert forall|k: int| 0 <= k < i - 1 implies (#[trigger] members.drop_first()[k]).0 != key by {
            assert(members[k + 1].0 != key);
        }
        lemma_member_of_skip(members.drop_first(), key, i - 1);
        assert(members.drop_first().skip(i - 1) =~= members.skip(i));
    }
}

impl Json {
    /// The value of the first member named `key`.
    pub fn member(&self, key: &str) -> (r: Option<&Json>)
        ensures
            match r {
                Some(j) => get_member(self@, key@) == Some(j@),
                None => get_member(self@, key@) is None,
            },
    {
        match self {
            Json::Object(members) => {
                proof {
                    lemma_members_view(members@);
                }
                let ghost all = members_view(members@);
                let mut i: usize = 0;
                while i < members.len()
                    invariant
                        i <= members@.len(),
                        all == members_view(members@),
                        all.len() == members@.len(),
                        self@ == JsonView::Object(all),
                        forall|k: int| 0 <= k < members@.len() ==> #[trigger] all[k] == (members@[k].0@, json_view(members@[k].1)),
                        forall|k: int| 0 <= k < i ==> (#[trigger] all[k]).0 != key@,
                    decreases members@.len() - i,
                {
                    assert(all[i as int] == (members@[i as int].0@, json_view(members@[i as int].1)));
                    if same(members[i].0.as_str(), key) {
                        proof {
                            lemma_member_of_skip(all, key@, i as int);
                            assert(all.skip(i as int)[0] == all[i as int]);
                        }
                        return Some(&members[i].1);
                    }
                    i += 1;
                }
                proof {
                    lemma_member_of_skip(all, key@, i as int);
                    assert(all.skip(i as int).len() == 0);
                }
                None
            },
            _ => None,
        }
    }

    /// The text, where the value is one.
    pub fn as_text(&self) -> (r: Option<&str>)
        ensures
            match r {
                Some(t) => self@ == JsonView::Text(t@),
                None => !(self@ is Text),
            },
    {
        match self {
            Json::Text(t) => Some(t.as_str()),
            _ => None,
        }
    }
}

/// The parts of `path` between its dots.
pub fn split_dots(path: &str) -> (r: Vec<String>)
    ensures
        texts_view(r@) == dot_parts(path@),
{
    let cs: Vec<char> = chars_of(path);
    let mut done: Vec<String> = Vec::new();
    let mut cur: String = String::new();
    let mut i: usize = 0;
    assert(texts_view(done@).push(cur@) =~= dot_parts(path@.take(0)));
    while i < cs.len()
        invariant
            i <= cs@.len(),
            cs@ == path@,
            texts_view(done@).push(cur@) == dot_parts(path@.take(i as int)),
        decreases cs@.len() - i,
    {
        let c: char = cs[i];
        let ghost prefix = path@.take(i + 1);
        let ghost before = texts_view(done@);
        let ghost part = cur@;
        assert(prefix.drop_last() =~= path@.take(i as int));
        assert(prefix.last() == c);
        assert(before.push(part).drop_last() =~= before);
        if c == '.' {
            done.push(cur);
            cur = String::new();
            assert(texts_view(done@) =~= before.push(part));
        } else {
            cur.push(c);
        }
        i += 1;
    }
    assert(path@.take(path@.len() as int) =~= path@);
    let ghost before = texts_view(done@);
    let ghost part = cur@;
    done.push(cur);
    assert(texts_view(done@) =~= before.push(part));
    done
}

/// The value that `path` leads to, member by member.
pub fn lookup_json_path<'a>(v: &'a Json, path: &str) -> (r: Option<&'a Json>)
    ensures
        match r {
            Some(j) => walk_members(v@, dot_parts(path@)) == Some(j@),
            None => walk_members(v@, dot_parts(path@)) is None,
        },
{
    let parts: Vec<String> = split_dots(path);
    let ghost all = texts_view(parts@);
    let mut cur: &Json = v;
    let mut i: usize = 0;
    assert(all.skip(0) =~= all);
    while i < parts.len()
        invariant
            i <= parts@.len(),
            all == texts_view(parts@),
            all == dot_parts(path@),
            walk_members(v@, all) == walk_members(cur@, all.skip(i as int)),
        decreases parts@.len() - i,
    {
        assert(all.skip(i as int)[0] == parts@[i as int]@);
        assert(all.skip(i as int).drop_first() =~= all.skip(i + 1));
        match cur.member(parts[i].as_str()) {
            Some(next) => {
                cur = next;
            },
            None => {
                return None;
            },
        }
        i += 1;
    }
    assert(all.skip(i as int).len() == 0);
    Some(cur)
}

proof fn lemma_digits_value_prefix(s: Seq<char>, i: int)
    requires
        0 <= i <= s.len(),
        forall|k: int| 0 <= k < s.len() ==> is_digit(#[trigger] s[k]),
    ensures
        digits_value(s.take(i)) <= digits_value(s),
    decreases s.len() - i,
{
    if i == s.len() {
        assert(s.take(i) =~= s);
    } else {
        lemma_digits_value_prefix(s, i + 1);
        assert(s.take(i + 1).drop_last() =~= s.take(i));
        assert(is_digit(s[i]));
    }
}

/// `s` read as an unsigned number of at most `max`.
pub(crate) fn parse_bounded(s: &str, max: u64) -> (r: Option<u64>)
    ensures
        match r {
            Some(n) => unsigned_value(s@, max as nat) == Some(n as nat),
            None => unsigned_value(s@, max as nat) is None,
        },
{
    let cs: Vec<char> = chars_of(s);
    let start: usize = if cs.len() > 0 && cs[0] == '+' {
        1
    } else {
        0
    };
    let ghost digits = if s@.len() > 0 && s@[0] == '+' {
        s@.drop_first()
    } else {
        s@
    };
    assert(digits =~= s@.skip(start as int));
    if start == cs.len() {
        return None;
    }
    let mut n: u64 = 0;
    let mut i: usize = start;
    while i < cs.len()
        invariant
            start <= i <= cs@.len(),
            start < cs@.len(),
            cs@ == s@,
            digits == s@.skip(start as int),
            digits == (if s@.len() > 0 && s@[0] == '+' {
                s@.drop_first()
            } else {
                s@
            }),
            forall|k: int| 0 <= k < i - start ==> is_digit(#[trigger] digits[k]),
            n == digits_value(digits.take(i - start)),
            n <= max,
        decreases cs@.len() - i,
    {
        let c: char = cs[i];
        assert(digits[i - start] == c);
        if c < '0' || c > '9' {
            assert(!is_digit(digits[i - start]));
            return None;
        }
        let d: u64 = (c as u64) - ('0' as u64);
        assert(digits.take(i + 1 - start).drop_last() =~= digits.take(i - start));
        if n > (max - d.min(max)) / 10 || d > max {
            proof {
                if all_digits(digits) {
                    lemma_digits_value_prefix(digits, i + 1 - start);
                    assert(digits_value(digits.take(i + 1 - start)) == n * 10 + d);
                }
            }
            return None;
        }
        n = n * 10 + d;
        i += 1;
    }
    assert(digits.take(i - start) =~= digits);
    Some(n)
}

/// `s` read as a `u64`.
pub fn parse_u64(s: &str) -> (r: Option<u64>)
    ensures
        match r {
            Some(n) => unsigned_value(s@, u64::MAX as nat) == Some(n as nat),
            None => unsigned_value(s@, u64::MAX as nat) is None,
        },
{
    parse_bounded(s, u64::MAX)
}

/// `s` read as a `usize`.
pub fn parse_usize(s: &str) -> (r: Option<usize>)
    ensures
        match r {
            Some(n) => unsigned_value(s@, usize::MAX as nat) == Some(n as nat),
            None => unsigned_value(s@, usize::MAX as nat) is None,
        },
{
    match parse_bounded(s, usize::MAX as u64) {
        Some(n) => Some(n as usize),
        None => None,
    }
}

/// The value that `path` leads to in a payload: `a.b.c` goes through members, a number through
/// the items of an array.
pub fn payload_path_get<'a>(payload: &'a Json, path: &str) -> (r: Option<&'a Json>)
    ensures
        match r {
            Some(j) => walk_payload(payload@, dot_parts(path@)) == Some(j@),
            None => walk_payload(payload@, dot_parts(path@)) is None,
        },
{
    let parts: Vec<String> = split_dots(path);
    let ghost all = texts_view(parts@);
    let mut cur: &Json = payload;
    let mut i: usize = 0;
    assert(all.skip(0) =~= all);
    while i < parts.len()
        invariant
            i <= parts@.len(),
            all == texts_view(parts@),
            all == dot_parts(path@),
            walk_payload(payload@, all) == walk_payload(cur@, all.skip(i as int)),
        decreases parts@.len() - i,
    {
        assert(all.skip(i as int)[0] == parts@[i as int]@);
        assert(all.skip(i as int).drop_first() =~= all.skip(i + 1));
        let part: &str = parts[i].as_str();
        if part.is_empty() {
            return None;
        }
        match parse_usize(part) {
            Some(index) => match cur {
                Json::Array(items) => {
                    proof {
                        lemma_items_view(items@);
                    }
                    if index >= items.len() {
                        return None;
                    }
                    assert(items_view(items@)[index as int] == json_view(items@[index as int]));
                    cur = &items[index];
                },
                _ => {
                    return None;
                },
            },
            None => match cur.member(part) {
                Some(next) => {
                    cur = next;
                },
                None => {
                    return None;
                },
            },
        }
        i += 1;
    }
    assert(all.skip(i as int).len() == 0);
    Some(cur)
}

/// Whether a value counts as true.
pub fn is_truthy(j: &Json) -> (r: bool)
    ensures
        r == truthy(j@),
{
    match j {
        Json::Null => false,
        Json::Bool(b) => *b,
        Json::Number(n) => {
            !same(n.as_str(), "0") && !same(n.as_str(), "0.0") && !same(n.as_str(), "-0.0")
        },
        Json::Text(t) => !t.as_str().is_empty(),
        Json::Array(items) => {
            proof {
                lemma_items_view(items@);
            }
            items.len() > 0
        },
        Json::Object(members) => {
            proof {
                lemma_members_view(members@);
            }
            members.len() > 0
        },
    }
}

/// Whether `a` equals the scalar `b`.
pub fn values_equal(a: &Json, b: &Json) -> (r: bool)
    requires
        !(b is Array),
        !(b is Object),
    ensures
        r == equals_scalar(a@, b@),
{
    match (a, b) {
        (Json::Null, Json::Null) => true,
        (Json::Bool(x), Json::Bool(y)) => *x == *y,
        (Json::Number(x), Json::Number(y)) => {
            let x: &str = if same(x.as_str(), "-0.0") {
                "0.0"
            } else {
                x.as_str()
            };
            let y: &str = if same(y.as_str(), "-0.0") {
                "0.0"
            } else {
                y.as_str()
            };
            same(x, y)
        },
        (Json::Text(x), Json::Text(y)) => same(x.as_str(), y.as_str()),
        _ => false,
    }
}

} // verus!
