//! What the operations on texts, numbers and paths give, said in no terms of how they come to it.

use vstd::prelude::*;

use crate::json::{
    all_digits, digits_value, dot_parts, get_member, is_digit, is_truthy, lookup_json_path,
    parse_u64, payload_path_get, split_dots, texts_view, unsigned_value, values_equal, walk_members,
    walk_payload, Json, JsonView,
};
use crate::laws::{holds_at, members_are_read_by_name};
use crate::text::{
    decimal, decimal_seq, digit, ends_with, find_at, find_from, is_blank, is_space, occurs_at,
    rfind_at, rfind_from, starts_with, to_lower_ascii, trim, trim_end_seq, trim_seq, trim_start_seq,
};
use crate::words::{joined, split_words, take_chars, words};

verus! {

/// Whether there is nothing but white space in a text.
pub open spec fn only_space(s: Seq<char>) -> bool {
    forall|i: int| 0 <= i < s.len() ==> is_space(#[trigger] s[i])
}

proof fn lemma_trim_start(s: Seq<char>)
    ensures
        exists|a: Seq<char>| only_space(a) && s == #[trigger] (a + trim_start_seq(s)),
        trim_start_seq(s).len() > 0 ==> !is_space(trim_start_seq(s)[0]),
        trim_start_seq(s).len() > 0 ==> trim_start_seq(s).last() == s.last() && s.len() > 0,
    decreases s.len(),
{
    if s.len() > 0 && is_space(s[0]) {
        let rest = s.drop_first();
        lemma_trim_start(rest);
        let a = choose|a: Seq<char>| only_space(a) && rest == #[trigger] (a + trim_start_seq(rest));
        let more = seq![s[0]] + a;
        assert(only_space(more));
        assert(trim_start_seq(s) == trim_start_seq(rest));
        assert(s =~= seq![s[0]] + rest);
        assert(seq![s[0]] + (a + trim_start_seq(rest)) =~= more + trim_start_seq(rest));
    } else {
        assert(s =~= Seq::<char>::empty() + trim_start_seq(s));
    }
}

proof fn lemma_trim_end(s: Seq<char>)
    ensures
        exists|b: Seq<char>| only_space(b) && s == #[trigger] (trim_end_seq(s) + b),
        trim_end_seq(s).len() > 0 ==> !is_space(trim_end_seq(s).last()),
        trim_end_seq(s).len() > 0 ==> trim_end_seq(s)[0] == s[0] && s.len() > 0,
    decreases s.len(),
{
    if s.len() > 0 && is_space(s.last()) {
        let front = s.drop_last();
        lemma_trim_end(front);
        let b = choose|b: Seq<char>| only_space(b) && front == #[trigger] (trim_end_seq(front) + b);
        let more = b.push(s.last());
        assert(only_space(more));
        assert(trim_end_seq(s) == trim_end_seq(front));
        assert(s =~= front.push(s.last()));
        assert((trim_end_seq(front) + b).push(s.last()) =~= trim_end_seq(front) + more);
    } else {
        assert(s =~= trim_end_seq(s) + Seq::<char>::empty());
    }
}

/// Trimming takes white space off both ends, all of it and nothing else.
pub proof fn trimming_takes_off_white_space(s: &str, r: &str)
    requires
        call_ensures(trim, (s,), r),
    ensures
        exists|a: Seq<char>, b: Seq<char>|
            only_space(a) && only_space(b) && s@ == #[trigger] (a + r@ + b),
        r@.len() > 0 ==> !is_space(r@[0]) && !is_space(r@.last()),
{
    lemma_trim(s@);
}

pub proof fn lemma_trim(s: Seq<char>)
    ensures
        exists|a: Seq<char>, b: Seq<char>|
            only_space(a) && only_space(b) && s == #[trigger] (a + trim_seq(s) + b),
        trim_seq(s).len() > 0 ==> !is_space(trim_seq(s)[0]) && !is_space(trim_seq(s).last()),
{
    lemma_trim_start(s);
    let a = choose|a: Seq<char>| only_space(a) && s == #[trigger] (a + trim_start_seq(s));
    let mid = trim_start_seq(s);
    lemma_trim_end(mid);
    let b = choose|b: Seq<char>| only_space(b) && mid == #[trigger] (trim_end_seq(mid) + b);
    assert(s =~= a + trim_seq(s) + b);
}

/// A text is blank where there is nothing but white space in it.
pub proof fn blank_texts_are_white_space(s: &str, r: bool)
    requires
        call_ensures(is_blank, (s,), r),
    ensures
        r == only_space(s@),
{
    lemma_trim(s@);
    let (a, b) = choose|a: Seq<char>, b: Seq<char>|
        only_space(a) && only_space(b) && s@ == #[trigger] (a + trim_seq(s@) + b);
    if trim_seq(s@).len() == 0 {
        assert(only_space(s@));
    } else {
        assert(s@[a.len() as int] == trim_seq(s@)[0]);
    }
}

/// A text is found at the first place where it stands.
pub proof fn texts_are_found_where_they_first_stand(cs: &[char], p: &[char], from: usize, r: Option<usize>, k: int)
    requires
        call_ensures(find_at, (cs, p, from), r),
    ensures
        r is Some ==> from <= r->0 && r->0 + p@.len() <= cs@.len() && cs@.subrange(
            r->0 as int,
            r->0 + p@.len(),
        ) == p@,
        from <= k && k + p@.len() <= cs@.len() && cs@.subrange(k, k + p@.len()) == p@ ==> r is Some && r->0
            <= k,
{
    lemma_find(cs@, p@, from as int, k);
}

proof fn lemma_find(s: Seq<char>, p: Seq<char>, from: int, k: int)
    ensures
        match find_from(s, p, from) {
            Some(i) => from <= i && 0 <= i && i + p.len() <= s.len() && s.subrange(i, i + p.len()) == p,
            None => true,
        },
        0 <= from <= k && k + p.len() <= s.len() && s.subrange(k, k + p.len()) == p ==> find_from(s, p, from)
            is Some && find_from(s, p, from)->0 <= k,
    decreases s.len() + 1 - from,
{
    if from < 0 || from + p.len() > s.len() {
    } else if !occurs_at(s, p, from) {
        lemma_find(s, p, from + 1, k);
    }
}

/// The last place of a text is found from the end.
pub proof fn texts_are_found_from_the_end(cs: &[char], p: &[char], r: Option<usize>, k: int)
    requires
        call_ensures(rfind_at, (cs, p), r),
    ensures
        r is Some ==> r->0 + p@.len() <= cs@.len() && cs@.subrange(r->0 as int, r->0 + p@.len()) == p@,
        0 <= k && k + p@.len() <= cs@.len() && cs@.subrange(k, k + p@.len()) == p@ ==> r is Some && k <= r->0,
{
    lemma_rfind(cs@, p@, cs@.len() - p@.len(), k);
}

proof fn lemma_rfind(s: Seq<char>, p: Seq<char>, from: int, k: int)
    ensures
        match rfind_from(s, p, from) {
            Some(i) => i <= from && 0 <= i && i + p.len() <= s.len() && s.subrange(i, i + p.len()) == p,
            None => true,
        },
        0 <= k <= from && k + p.len() <= s.len() && s.subrange(k, k + p.len()) == p ==> rfind_from(s, p, from)
            is Some && k <= rfind_from(s, p, from)->0,
    decreases from + 1,
{
    if from < 0 {
    } else if !occurs_at(s, p, from) {
        lemma_rfind(s, p, from - 1, k);
    }
}

/// A text starts with another where something stands behind that, and ends with it where something
/// stands before.
pub proof fn texts_start_and_end(s: &str, p: &str, starts: bool, ends: bool)
    requires
        call_ensures(starts_with, (s, p), starts),
        call_ensures(ends_with, (s, p), ends),
    ensures
        starts == exists|rest: Seq<char>| s@ == #[trigger] (p@ + rest),
        ends == exists|front: Seq<char>| s@ == #[trigger] (front + p@),
{
    if starts {
        assert(s@ =~= p@ + s@.skip(p@.len() as int)) by {
            assert(s@.subrange(0, p@.len() as int) =~= p@);
        }
    }
    if ends {
        let n = s@.len() - p@.len();
        assert(s@ =~= s@.take(n) + p@) by {
            assert(s@.subrange(n, s@.len() as int) =~= p@);
        }
    }
    assert forall|rest: Seq<char>| s@ == #[trigger] (p@ + rest) implies starts by {
        assert(s@.subrange(0, p@.len() as int) =~= p@);
    }
    assert forall|front: Seq<char>| s@ == #[trigger] (front + p@) implies ends by {
        let n = s@.len() - p@.len();
        assert(s@.subrange(n, s@.len() as int) =~= p@);
    }
}

/// A number is written in decimal digits, without leading zeros, and reads back.
pub proof fn numbers_read_back(n: u64, text: String, read: &str, r: Option<u64>)
    requires
        call_ensures(decimal, (n,), text),
        read@ == text@,
        call_ensures(parse_u64, (read,), r),
    ensures
        forall|i: int| 0 <= i < text@.len() ==> '0' <= #[trigger] text@[i] <= '9',
        text@.len() > 1 ==> text@[0] != '0',
        n < 10 ==> text@ == seq![(('0' as int) + n) as char],
        r == Some(n),
{
    lemma_decimal_reads_back(n as nat);
}

pub proof fn lemma_decimal_reads_back(n: nat)
    ensures
        all_digits(decimal_seq(n)),
        digits_value(decimal_seq(n)) == n,
        decimal_seq(n).len() > 1 ==> decimal_seq(n)[0] != '0',
        n > 0 ==> decimal_seq(n)[0] != '0',
        decimal_seq(n)[0] != '+',
    decreases n,
{
    reveal_with_fuel(digits_value, 2);
    let s = decimal_seq(n);
    if n < 10 {
        assert(s =~= seq![digit(n)]);
        assert(s.drop_last().len() == 0);
        assert(s.last() == digit(n));
        assert(digits_value(s) == n);
    } else {
        lemma_decimal_reads_back(n / 10);
        let front = decimal_seq(n / 10);
        assert(s.drop_last() =~= front);
        assert(s.last() == digit(n % 10));
        assert(digits_value(s) == digits_value(front) * 10 + n % 10);
        assert forall|i: int| 0 <= i < s.len() implies is_digit(#[trigger] s[i]) by {
            if i < front.len() {
                assert(s[i] == front[i]);
            }
        }
        assert(s[0] == front[0]);
    }
}

/// A text that is no number, a digit text with an optional plus sign before it, is not read as one.
pub proof fn only_digits_are_numbers(s: &str, r: Option<u64>)
    requires
        call_ensures(parse_u64, (s,), r),
    ensures
        r is Some ==> s@.len() > 0 && forall|i: int|
            0 <= i < s@.len() ==> '0' <= #[trigger] s@[i] <= '9' || (i == 0 && s@[i] == '+'),
        r is Some ==> s@ != seq!['+'],
{
    if r is Some {
        assert forall|i: int| 0 <= i < s@.len() implies '0' <= #[trigger] s@[i] <= '9' || (i == 0 && s@[i] == '+') by {
            if s@[0] == '+' {
                if i > 0 {
                    assert(is_digit(s@.drop_first()[i - 1]));
                }
            } else {
                assert(is_digit(s@[i]));
            }
        }
    }
}

/// A path is split at every dot: its parts hold none, and give the path when put together again with
/// dots.
pub proof fn paths_are_split_at_dots(path: &str, r: Vec<String>, i: int)
    requires
        call_ensures(split_dots, (path,), r),
        0 <= i < r@.len(),
    ensures
        r@.len() > 0,
        !r@[i]@.contains('.'),
        joined(texts_view(r@), seq!['.']) == path@,
{
    lemma_dot_parts(path@);
    assert(texts_view(r@)[i] == r@[i]@);
}

proof fn lemma_dot_parts(s: Seq<char>)
    ensures
        dot_parts(s).len() > 0,
        forall|i: int| 0 <= i < dot_parts(s).len() ==> !(#[trigger] dot_parts(s)[i]).contains('.'),
        joined(dot_parts(s), seq!['.']) == s,
    decreases s.len(),
{
    let parts = dot_parts(s);
    let sep = seq!['.'];
    if s.len() == 0 {
        assert(joined(parts, sep) == parts[0]);
        assert(parts[0] =~= s);
        assert(!parts[0].contains('.'));
    } else {
        let front = s.drop_last();
        lemma_dot_parts(front);
        let before = dot_parts(front);
        if s.last() == '.' {
            assert(parts.drop_last() =~= before);
            assert(joined(parts, sep) =~= joined(before, sep) + sep + Seq::<char>::empty());
            assert(joined(parts, sep) =~= s);
            assert forall|i: int| 0 <= i < parts.len() implies !(#[trigger] parts[i]).contains('.') by {
                if i < before.len() {
                    assert(parts[i] == before[i]);
                }
            }
        } else {
            let last = before.last().push(s.last());
            assert(parts.drop_last() =~= before.drop_last());
            assert(parts.last() == last);
            assert(joined(parts, sep) =~= s) by {
                if before.len() == 1 {
                    assert(joined(before, sep) == before[0]);
                    assert(parts[0] == last);
                    assert(front.push(s.last()) =~= s);
                } else {
                    let head = joined(before.drop_last(), sep) + sep;
                    assert(joined(before, sep) == head + before.last());
                    assert(joined(parts, sep) == head + last);
                    assert(head + last =~= (head + before.last()).push(s.last()));
                    assert(front.push(s.last()) =~= s);
                }
            }
            assert forall|i: int| 0 <= i < parts.len() implies !(#[trigger] parts[i]).contains('.') by {
                if i < before.len() - 1 {
                    assert(parts[i] == before[i]);
                } else {
                    assert(!before[before.len() - 1].contains('.'));
                    if last.contains('.') {
                        let k = choose|k: int| 0 <= k < last.len() && last[k] == '.';
                        if k < before.last().len() {
                            assert(before.last()[k] == '.');
                        }
                    }
                }
            }
        }
    }
}

pub proof fn lemma_one_part(s: Seq<char>)
    requires
        !s.contains('.'),
    ensures
        dot_parts(s) == seq![s],
    decreases s.len(),
{
    if s.len() == 0 {
        assert(s =~= Seq::<char>::empty());
    } else {
        let front = s.drop_last();
        assert forall|i: int| 0 <= i < front.len() implies front[i] != '.' by {
            assert(s.contains(s[i]));
        }
        lemma_one_part(front);
        assert(s.contains(s[s.len() - 1]));
        assert(dot_parts(s) =~= seq![front.push(s.last())]);
        assert(front.push(s.last()) =~= s);
    }
}

pub proof fn lemma_first_part(key: Seq<char>, rest: Seq<char>)
    requires
        !key.contains('.'),
    ensures
        dot_parts(key + seq!['.'] + rest) == seq![key] + dot_parts(rest),
    decreases rest.len(),
{
    let s = key + seq!['.'] + rest;
    if rest.len() == 0 {
        lemma_one_part(key);
        assert(s.drop_last() =~= key);
        assert(dot_parts(s) =~= seq![key] + dot_parts(rest));
    } else {
        let front = rest.drop_last();
        lemma_first_part(key, front);
        assert(s.drop_last() =~= key + seq!['.'] + front);
        lemma_dot_parts(front);
        let before = dot_parts(front);
        assert(s.last() == rest.last());
        assert((seq![key] + before).last() == before.last());
        assert((seq![key] + before).drop_last() =~= seq![key] + before.drop_last());
        assert(dot_parts(s) =~= seq![key] + dot_parts(rest));
    }
}

/// A name without a dot leads to the member of that name; a name, a dot and a path lead to where the path
/// leads from the member of that name, and nowhere where there is none.
pub proof fn paths_lead_from_member_to_member(
    v: &Json,
    path: &str,
    r: Option<&Json>,
    key: Seq<char>,
    member: &Json,
    rest: &str,
    further: Option<&Json>,
)
    requires
        call_ensures(lookup_json_path, (v, path), r),
        call_ensures(lookup_json_path, (member, rest), further),
        !key.contains('.'),
    ensures
        path@ == key ==> r is Some == (exists|x: JsonView| #[trigger] holds_at(v@, key, x)),
        path@ == key && r is Some ==> holds_at(v@, key, r->0@),
        path@ == key + seq!['.'] + rest@ && holds_at(v@, key, member@) ==> (match (r, further) {
            (Some(a), Some(b)) => a@ == b@,
            (None, None) => true,
            _ => false,
        }),
        path@ == key + seq!['.'] + rest@ && (forall|x: JsonView| !#[trigger] holds_at(v@, key, x)) ==> r
            is None,
{
    lemma_member_read(v@, key);
    lemma_one_part(key);
    lemma_first_part(key, rest@);
    members_are_read_by_name(v@, key, member@);
    reveal_with_fuel(walk_members, 2);
    if path@ == key {
        assert(seq![key].drop_first().len() == 0);
        if let Some(found) = r {
            members_are_read_by_name(v@, key, found@);
        }
    }
    if path@ == key + seq!['.'] + rest@ {
        assert((seq![key] + dot_parts(rest@)).drop_first() =~= dot_parts(rest@));
        assert((seq![key] + dot_parts(rest@))[0] == key);
    }
}

proof fn lemma_member_read(j: JsonView, key: Seq<char>)
    ensures
        get_member(j, key) is Some == exists|x: JsonView| #[trigger] holds_at(j, key, x),
{
    if let Some(x) = get_member(j, key) {
        members_are_read_by_name(j, key, x);
        assert(holds_at(j, key, x));
    }
    assert forall|x: JsonView| #[trigger] holds_at(j, key, x) implies get_member(j, key) is Some by {
        members_are_read_by_name(j, key, x);
    }
}

/// In a payload, a number leads to the item of that number, counted from zero, and a name to the member of
/// that name; a path goes on from there behind a dot.
pub proof fn payload_paths_lead_to_members_and_items(
    v: &Json,
    path: &str,
    r: Option<&Json>,
    n: usize,
    key: Seq<char>,
    next: &Json,
    rest: &str,
    further: Option<&Json>,
)
    requires
        call_ensures(payload_path_get, (v, path), r),
        call_ensures(payload_path_get, (next, rest), further),
        key.len() > 0,
        !key.contains('.'),
    ensures
        path@ == decimal_seq(n as nat) && v@ is Array ==> (if n < v@->Array_0.len() {
            r is Some && r->0@ == v@->Array_0[n as int]
        } else {
            r is None
        }),
        path@ == decimal_seq(n as nat) && !(v@ is Array) ==> r is None,
        path@ == key && !('0' <= key[0] <= '9') && key[0] != '+' ==> (match r {
            Some(x) => holds_at(v@, key, x@),
            None => forall|x: JsonView| !#[trigger] holds_at(v@, key, x),
        }),
        path@ == key + seq!['.'] + rest@ && !('0' <= key[0] <= '9') && key[0] != '+' && holds_at(
            v@,
            key,
            next@,
        ) ==> (match (r, further) {
            (Some(a), Some(b)) => a@ == b@,
            (None, None) => true,
            _ => false,
        }),
        path@ == decimal_seq(n as nat) + seq!['.'] + rest@ && v@ is Array && n < v@->Array_0.len()
            && v@->Array_0[n as int] == next@ ==> (match (r, further) {
            (Some(a), Some(b)) => a@ == b@,
            (None, None) => true,
            _ => false,
        }),
{
    let digits = decimal_seq(n as nat);
    lemma_decimal_reads_back(n as nat);
    assert(!digits.contains('.')) by {
        if digits.contains('.') {
            let i = choose|i: int| 0 <= i < digits.len() && digits[i] == '.';
            assert(is_digit(digits[i]));
        }
    }
    reveal_with_fuel(walk_payload, 2);
    lemma_one_part(digits);
    lemma_one_part(key);
    lemma_first_part(key, rest@);
    lemma_first_part(digits, rest@);
    lemma_member_read(v@, key);
    members_are_read_by_name(v@, key, next@);
    assert(seq![key].drop_first().len() == 0 && seq![digits].drop_first().len() == 0);
    assert((seq![key] + dot_parts(rest@)).drop_first() =~= dot_parts(rest@));
    assert((seq![digits] + dot_parts(rest@)).drop_first() =~= dot_parts(rest@));
    assert((seq![key] + dot_parts(rest@))[0] == key);
    assert((seq![digits] + dot_parts(rest@))[0] == digits);
    if !('0' <= key[0] <= '9') && key[0] != '+' {
        assert(!all_digits(key)) by {
            assert(!is_digit(key[0]));
        }
        assert(unsigned_value(key, usize::MAX as nat) is None);
        if path@ == key {
            if let Some(x) = r {
                members_are_read_by_name(v@, key, x@);
            }
        }
    }
}

/// Nothing, `false`, zero and what is empty do not count as true; everything else does.
pub proof fn empty_values_are_not_true(j: &Json, r: bool)
    requires
        call_ensures(is_truthy, (j,), r),
    ensures
        j@ is Null ==> !r,
        j@ is Bool ==> r == j@->Bool_0,
        j@ is Text ==> r == (j@->Text_0.len() > 0),
        j@ is Array ==> r == (j@->Array_0.len() > 0),
        j@ is Object ==> r == (j@->Object_0.len() > 0),
        j@ == JsonView::Number(seq!['0']) ==> !r,
        j@ is Number && all_digits(j@->Number_0) && j@->Number_0[0] != '0' ==> r,
{
    reveal_strlit("0");
    reveal_strlit("0.0");
    reveal_strlit("-0.0");
    assert("0"@ =~= seq!['0']);
    assert("0"@[0] == '0' && "0.0"@[0] == '0' && "-0.0"@[0] == '-');
    if j@ is Number && all_digits(j@->Number_0) && j@->Number_0[0] != '0' {
        assert(is_digit(j@->Number_0[0]));
    }
}

/// A value equals one of its own kind that holds the same, and none of another kind.
pub proof fn values_equal_their_own_kind(a: &Json, b: &Json, r: bool)
    requires
        call_ensures(values_equal, (a, b), r),
        !(b is Array),
        !(b is Object),
    ensures
        a@ == b@ ==> r,
        r && !(a@ is Number) ==> a@ == b@,
        r ==> a@ is Number == b@ is Number,
        r && a@ is Number && all_digits(a@->Number_0) ==> b@ == a@,
{
    reveal_strlit("0.0");
    reveal_strlit("-0.0");
    if a@ is Number && all_digits(a@->Number_0) {
        assert("0.0"@[1] == '.' && "0.0"@.len() == 3 && "-0.0"@[0] == '-');
        assert(is_digit(a@->Number_0[0]));
        if a@->Number_0.len() > 1 {
            assert(is_digit(a@->Number_0[1]));
        }
    }
}

/// Lower case changes the letters from `A` to `Z` and nothing else.
pub proof fn lower_case_changes_capitals(s: &str, r: String, i: int)
    requires
        call_ensures(to_lower_ascii, (s,), r),
        0 <= i < s@.len(),
    ensures
        r@.len() == s@.len(),
        'A' <= s@[i] <= 'Z' ==> 'a' <= r@[i] <= 'z' && r@[i] as int - 'a' as int == s@[i] as int - 'A' as int,
        !('A' <= s@[i] <= 'Z') ==> r@[i] == s@[i],
{
}

/// The first characters of a text, as many as asked for, or all.
pub proof fn texts_are_cut_at_their_end(s: &str, n: usize, r: String)
    requires
        call_ensures(take_chars, (s, n), r),
    ensures
        exists|rest: Seq<char>| s@ == #[trigger] (r@ + rest),
        s@.len() <= n ==> r@ == s@,
        s@.len() > n ==> r@.len() == n,
{
    assert(s@ =~= r@ + s@.skip(r@.len() as int));
}

/// All characters of some texts, one behind the other.
pub open spec fn run_together(texts: Seq<Seq<char>>) -> Seq<char>
    decreases texts.len(),
{
    if texts.len() == 0 {
        Seq::empty()
    } else {
        run_together(texts.drop_last()) + texts.last()
    }
}

/// Whether a character is none of white space.
pub open spec fn is_ink() -> spec_fn(char) -> bool {
    |c: char| !is_space(c)
}

/// The words of a text are not empty, hold no white space, and are all of the text but its white space.
pub proof fn words_hold_no_white_space(s: &str, r: Vec<String>, i: int, k: int)
    requires
        call_ensures(split_words, (s,), r),
        0 <= i < r@.len(),
        0 <= k < r@[i]@.len(),
    ensures
        !is_space(r@[i]@[k]),
        run_together(texts_view(r@)) == s@.filter(is_ink()),
{
    lemma_words(s@);
    assert(texts_view(r@)[i] == r@[i]@);
}

proof fn lemma_words(s: Seq<char>)
    ensures
        forall|i: int, k: int|
            0 <= i < words(s).len() && 0 <= k < words(s)[i].len() ==> !is_space(#[trigger] words(s)[i][k]),
        forall|i: int| 0 <= i < words(s).len() ==> (#[trigger] words(s)[i]).len() > 0,
        s.len() > 0 && !is_space(s.last()) ==> words(s).len() > 0,
        run_together(words(s)) == s.filter(is_ink()),
    decreases s.len(),
{
    reveal(Seq::filter);
    if s.len() > 0 {
        let front = s.drop_last();
        lemma_words(front);
        let before = words(front);
        let all = words(s);
        if is_space(s.last()) {
        } else if s.len() == 1 || is_space(s[s.len() - 2]) {
            assert(all.drop_last() =~= before);
            assert(all.last() == seq![s.last()]);
            assert(run_together(all) =~= run_together(before).push(s.last()));
            assert forall|i: int, k: int| 0 <= i < all.len() && 0 <= k < all[i].len() implies !is_space(
                #[trigger] all[i][k],
            ) by {
                if i < before.len() {
                    assert(all[i] == before[i]);
                    assert(!is_space(before[i][k]));
                }
            }
            assert forall|i: int| 0 <= i < all.len() implies (#[trigger] all[i]).len() > 0 by {
                if i < before.len() {
                    assert(all[i] == before[i]);
                }
            }
        } else {
            assert(front.last() == s[s.len() - 2]);
            assert(all.drop_last() =~= before.drop_last());
            assert(all.last() == before.last().push(s.last()));
            assert(run_together(all) =~= run_together(before).push(s.last()));
            assert forall|i: int, k: int| 0 <= i < all.len() && 0 <= k < all[i].len() implies !is_space(
                #[trigger] all[i][k],
            ) by {
                if i < before.len() - 1 {
                    assert(all[i] == before[i]);
                    assert(!is_space(before[i][k]));
                } else if k < before.last().len() {
                    assert(before.last() == before[before.len() - 1]);
                    assert(!is_space(before[i][k]));
                }
            }
            assert forall|i: int| 0 <= i < all.len() implies (#[trigger] all[i]).len() > 0 by {
                if i < before.len() - 1 {
                    assert(all[i] == before[i]);
                }
            }
        }
    }
}

} // verus!
