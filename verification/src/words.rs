//! Text in pieces: words, joined lists, first characters, and numbers with a sign.

use vstd::prelude::*;

use crate::json::texts_view;
use crate::text::{chars_of, decimal, decimal_seq, is_space, is_space_char, join, slice_text};

verus! {

/// The first `n` characters of a text, or all of it where it is shorter.
pub open spec fn first_chars(s: Seq<char>, n: int) -> Seq<char> {
    if s.len() <= n {
        s
    } else {
        s.take(n)
    }
}

/// The first `n` characters of a text, or all of it where it is shorter.
pub fn take_chars(s: &str, n: usize) -> (r: String)
    ensures
        r@ == first_chars(s@, n as int),
{
    let cs: Vec<char> = chars_of(s);
    let to: usize = if cs.len() <= n {
        cs.len()
    } else {
        n
    };
    assert(cs@.subrange(0, to as int) =~= first_chars(s@, n as int));
    slice_text(&cs, 0, to)
}

/// The texts one behind the other, with `sep` between two of them.
pub open spec fn joined(texts: Seq<Seq<char>>, sep: Seq<char>) -> Seq<char>
    decreases texts.len(),
{
    if texts.len() == 0 {
        Seq::empty()
    } else if texts.len() == 1 {
        texts[0]
    } else {
        joined(texts.drop_last(), sep) + sep + texts.last()
    }
}

/// The texts one behind the other, with `sep` between two of them.
pub fn join_texts(texts: &[String], sep: &str) -> (r: String)
    ensures
        r@ == joined(texts_view(texts@), sep@),
{
    let ghost all = texts_view(texts@);
    let mut out: String = String::new();
    let mut i: usize = 0;
    assert(out@ =~= joined(all.take(0), sep@));
    while i < texts.len()
        invariant
            i <= texts@.len(),
            all == texts_view(texts@),
            out@ == joined(all.take(i as int), sep@),
        decreases texts@.len() - i,
    {
        let ghost next = all.take(i + 1);
        let ghost before = out@;
        assert(next.drop_last() =~= all.take(i as int));
        assert(next.last() == texts@[i as int]@);
        if i > 0 {
            out.append(sep);
        }
        out.append(texts[i].as_str());
        assert(i == 0 ==> out@ =~= next[0]);
        i += 1;
    }
    assert(all.take(all.len() as int) =~= all);
    out
}

/// The words of a text: its longest stretches without white space.
pub open spec fn words(s: Seq<char>) -> Seq<Seq<char>>
    decreases s.len(),
{
    if s.len() == 0 {
        Seq::empty()
    } else {
        let before = words(s.drop_last());
        if is_space(s.last()) {
            before
        } else if s.len() == 1 || is_space(s[s.len() - 2]) {
            before.push(seq![s.last()])
        } else {
            before.drop_last().push(before.last().push(s.last()))
        }
    }
}

/// The words of a text: its longest stretches without white space.
pub fn split_words(s: &str) -> (r: Vec<String>)
    ensures
        texts_view(r@) == words(s@),
{
    let cs: Vec<char> = chars_of(s);
    let mut done: Vec<String> = Vec::new();
    let mut cur: String = String::new();
    let mut open_word: bool = false;
    let mut i: usize = 0;
    assert(texts_view(done@) =~= words(s@.take(0)));
    while i < cs.len()
        invariant
            i <= cs@.len(),
            cs@ == s@,
            open_word == (i > 0 && !is_space(s@[i - 1])),
            open_word ==> texts_view(done@).push(cur@) == words(s@.take(i as int)),
            !open_word ==> texts_view(done@) == words(s@.take(i as int)),
        decreases cs@.len() - i,
    {
        let c: char = cs[i];
        let ghost prefix = s@.take(i + 1);
        let ghost listed = texts_view(done@);
        let ghost part = cur@;
        assert(prefix.drop_last() =~= s@.take(i as int));
        assert(prefix.last() == c);
        assert(i > 0 ==> prefix[prefix.len() - 2] == s@[i - 1]);
        if is_space_char(c) {
            if open_word {
                done.push(cur);
                cur = String::new();
                assert(texts_view(done@) =~= listed.push(part));
            }
            open_word = false;
        } else {
            if !open_word {
                cur = String::new();
                assert(cur@ =~= Seq::<char>::empty());
            }
            cur.push(c);
            proof {
                if open_word {
                    assert(listed.push(part).drop_last() =~= listed);
                } else {
                    assert(cur@ =~= seq![c]);
                }
            }
            open_word = true;
        }
        i += 1;
    }
    assert(s@.take(s@.len() as int) =~= s@);
    if open_word {
        let ghost listed = texts_view(done@);
        let ghost part = cur@;
        done.push(cur);
        assert(texts_view(done@) =~= listed.push(part));
    }
    done
}

/// The words of a text with one blank between two of them.
pub open spec fn spaced(s: Seq<char>) -> Seq<char> {
    joined(words(s), " "@)
}

/// The words of a text with one blank between two of them.
pub fn normalize_space(s: &str) -> (r: String)
    ensures
        r@ == spaced(s@),
{
    let found: Vec<String> = split_words(s);
    join_texts(&found, " ")
}

/// The decimal digits of a number, behind a minus sign where it is negative.
pub open spec fn signed_seq(n: int) -> Seq<char> {
    if n < 0 {
        "-"@ + decimal_seq((-n) as nat)
    } else {
        decimal_seq(n as nat)
    }
}

/// The decimal digits of a number, behind a minus sign where it is negative.
pub fn signed_decimal(n: i64) -> (r: String)
    ensures
        r@ == signed_seq(n as int),
{
    if n < 0 {
        let size: u64 = if n == i64::MIN {
            0x8000_0000_0000_0000
        } else {
            (-n) as u64
        };
        join("-", decimal(size).as_str())
    } else {
        decimal(n as u64)
    }
}

} // verus!
