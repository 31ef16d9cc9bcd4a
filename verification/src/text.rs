//! Literal replacement in text.

use crate::model::Text;
use vstd::prelude::*;
use vstd::string::{StrSliceExecFns, StringExecFns};

verus! {

/// The text with every occurrence of `from` replaced by `to`. Occurrences are
/// found from the left and do not overlap: after one has been replaced the
/// search goes on behind it, so what `to` brings in is never searched. An
/// empty `from` replaces nothing.
pub open spec fn replaced(text: Text, from: Text, to: Text) -> Text
    decreases text.len(),
{
    if from.len() == 0 || text.len() < from.len() {
        text
    } else if text.take(from.len() as int) == from {
        to + replaced(text.skip(from.len() as int), from, to)
    } else {
        text.take(1) + replaced(text.skip(1), from, to)
    }
}

/// The token that stands for a column in a step's text: the title between
/// angle brackets.
pub open spec fn placeholder(title: Text) -> Text {
    seq!['<'] + title + seq!['>']
}

/// The characters of a string.
fn to_chars(s: &str) -> (chars: Vec<char>)
    ensures
        chars@ == s@,
{
    let mut chars: Vec<char> = Vec::new();
    for c in it: s.chars()
        invariant
            it.seq() == s@,
            chars@ == it.seq().take(it.index()),
    {
        chars.push(c);
        assert(it.seq().take(it.index() + 1) =~= it.seq().take(it.index()).push(c));
    }
    assert(s@.take(s@.len() as int) =~= s@);
    chars
}

/// Whether `from` stands in `text` at position `at`.
fn occurs_at(text: &Vec<char>, from: &Vec<char>, at: usize) -> (hit: bool)
    requires
        at + from.len() <= text.len(),
    ensures
        hit == (text@.subrange(at as int, at + from.len()) == from@),
{
    let mut j: usize = 0;
    while j < from.len()
        invariant
            j <= from.len(),
            at + from.len() <= text.len(),
            forall|k: int| 0 <= k < j ==> text@[at + k] == #[trigger] from@[k],
        decreases from.len() - j,
    {
        if text[at + j] != from[j] {
            assert(text@.subrange(at as int, at + from.len())[j as int] != from@[j as int]);
            return false;
        }
        j += 1;
    }
    assert(text@.subrange(at as int, at + from.len()) =~= from@);
    true
}

/// Replaces every occurrence of `from` in `text` by `to`.
pub(crate) fn replace_all(text: &str, from: &str, to: &str) -> (out: String)
    requires
        from@.len() > 0,
    ensures
        out@ == replaced(text@, from@, to@),
{
    let chars = to_chars(text);
    let token = to_chars(from);
    let n = chars.len();
    let m = token.len();
    let mut out = String::new();
    let mut start: usize = 0;
    let mut i: usize = 0;
    assert(out@ + text@.subrange(0, 0) + replaced(text@.skip(0), from@, to@) =~= replaced(
        text@,
        from@,
        to@,
    )) by {
        assert(text@.skip(0) =~= text@);
    }
    while m <= n - i
        invariant
            start <= i <= n,
            n == text@.len(),
            m == from@.len(),
            m > 0,
            chars@ == text@,
            token@ == from@,
            replaced(text@, from@, to@) == out@ + text@.subrange(start as int, i as int)
                + replaced(text@.skip(i as int), from@, to@),
        decreases n - i,
    {
        let ghost rest = text@.skip(i as int);
        let ghost done = out@;
        assert(rest.take(m as int) =~= text@.subrange(i as int, i + m));
        if occurs_at(&chars, &token, i) {
            out.append(text.substring_char(start, i));
            out.append(to);
            assert(rest.skip(m as int) =~= text@.skip(i + m));
            assert(out@ + text@.subrange(i + m, i + m) + replaced(text@.skip(i + m), from@, to@)
                =~= done + text@.subrange(start as int, i as int) + (to@ + replaced(
                rest.skip(m as int),
                from@,
                to@,
            )));
            i += m;
            start = i;
        } else {
            assert(rest.skip(1) =~= text@.skip(i + 1));
            assert(text@.subrange(start as int, i + 1) =~= text@.subrange(start as int, i as int)
                + rest.take(1));
            assert(done + text@.subrange(start as int, i + 1) + replaced(
                text@.skip(i + 1),
                from@,
                to@,
            ) =~= done + text@.subrange(start as int, i as int) + (rest.take(1) + replaced(
                rest.skip(1),
                from@,
                to@,
            )));
            i += 1;
        }
    }
    assert(out@ + text@.subrange(start as int, n as int) =~= out@ + text@.subrange(
        start as int,
        i as int,
    ) + text@.skip(i as int));
    out.append(text.substring_char(start, n));
    out
}

/// The placeholder of a column title.
pub(crate) fn placeholder_of(title: &str) -> (token: String)
    ensures
        token@ == placeholder(title@),
{
    let mut token = String::from_str("<");
    token.append(title);
    token.append(">");
    proof {
        reveal_strlit("<");
        reveal_strlit(">");
        assert("<"@ =~= seq!['<']);
        assert(">"@ =~= seq!['>']);
    }
    token
}

} // verus!
