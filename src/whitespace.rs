//! Trimming and collapsing of whitespace.
use vstd::prelude::*;

use crate::text::{chars_of, string_of};

verus! {

/// Whether a character has the Unicode `White_Space` property.
pub uninterp spec fn white_space(c: char) -> bool;

/// Relies on `char::is_whitespace`: true exactly for the characters with the
/// Unicode `White_Space` property.
#[verifier::external_body]
fn is_white_space(c: char) -> (r: bool)
    ensures
        r == white_space(c),
{
    c.is_whitespace()
}

/// Whitespace other than a horizontal tab.
pub open spec fn plain_space(c: char) -> bool {
    white_space(c) && c != '\t'
}

/// `s` without its leading whitespace.
pub open spec fn trim_start(s: Seq<char>) -> Seq<char>
    decreases s.len(),
{
    if s.len() > 0 && white_space(s[0]) {
        trim_start(s.drop_first())
    } else {
        s
    }
}

/// `s` without its trailing whitespace.
pub open spec fn trim_end(s: Seq<char>) -> Seq<char>
    decreases s.len(),
{
    if s.len() > 0 && white_space(s.last()) {
        trim_end(s.drop_last())
    } else {
        s
    }
}

/// `s` without leading or trailing whitespace.
pub open spec fn trimmed(s: Seq<char>) -> Seq<char> {
    trim_end(trim_start(s))
}

/// The scan over `s`, where `prev_ws` tells whether the last character kept
/// by the ordinary rule was whitespace: a whitespace character that follows
/// such a one is dropped unless it is a tab, which is kept without changing
/// that state; any other character is kept and sets the state.
pub open spec fn collapsed_from(s: Seq<char>, prev_ws: bool) -> Seq<char>
    decreases s.len(),
{
    if s.len() == 0 {
        Seq::empty()
    } else if prev_ws && white_space(s[0]) {
        if s[0] == '\t' {
            seq![s[0]] + collapsed_from(s.drop_first(), prev_ws)
        } else {
            collapsed_from(s.drop_first(), prev_ws)
        }
    } else {
        seq![s[0]] + collapsed_from(s.drop_first(), white_space(s[0]))
    }
}

/// `s` trimmed, with each run of whitespace reduced to its first character
/// and the tabs in it.
pub open spec fn whitespace_collapsed(s: Seq<char>) -> Seq<char> {
    collapsed_from(trimmed(s), false)
}

/// Trims `text`, then drops each whitespace character that follows a kept
/// whitespace character, except tabs, which are always kept.
pub fn whitespace_less(text: &str) -> (r: String)
    ensures
        r@ == whitespace_collapsed(text@),
{
    let chars = chars_of(text);
    let n = chars.len();
    let mut lo: usize = 0;
    assert(chars@.subrange(0, n as int) =~= chars@);
    while lo < n && is_white_space(chars[lo])
        invariant
            chars@ == text@,
            n == chars.len(),
            lo <= n,
            trim_start(chars@.subrange(lo as int, n as int)) == trim_start(chars@),
        decreases n - lo,
    {
        assert(chars@.subrange(lo as int, n as int).drop_first() =~= chars@.subrange(
            lo + 1,
            n as int,
        ));
        lo = lo + 1;
    }
    assert(lo < n ==> chars@.subrange(lo as int, n as int)[0] == chars@[lo as int]);
    let mut hi: usize = n;
    while hi > lo && is_white_space(chars[hi - 1])
        invariant
            chars@ == text@,
            n == chars.len(),
            lo <= hi <= n,
            trim_start(chars@) == chars@.subrange(lo as int, n as int),
            trim_end(chars@.subrange(lo as int, hi as int)) == trimmed(chars@),
        decreases hi,
    {
        assert(chars@.subrange(lo as int, hi as int).drop_last() =~= chars@.subrange(
            lo as int,
            hi - 1,
        ));
        hi = hi - 1;
    }
    assert(hi > lo ==> chars@.subrange(lo as int, hi as int).last() == chars@[hi - 1]);
    let ghost t = chars@.subrange(lo as int, hi as int);
    assert(trimmed(chars@) == t);
    let mut out: Vec<char> = Vec::new();
    let mut prev_ws = false;
    let mut j: usize = lo;
    assert(chars@.subrange(j as int, hi as int) == t);
    assert(out@ + t =~= t);
    while j < hi
        invariant
            chars@ == text@,
            n == chars.len(),
            lo <= j <= hi <= n,
            t == trimmed(chars@),
            out@ + collapsed_from(chars@.subrange(j as int, hi as int), prev_ws) == collapsed_from(
                t,
                false,
            ),
        decreases hi - j,
    {
        let c = chars[j];
        let ghost u = chars@.subrange(j as int, hi as int);
        assert(u.drop_first() =~= chars@.subrange(j + 1, hi as int));
        assert(u[0] == c);
        let ws = is_white_space(c);
        if prev_ws && ws {
            if c == '\t' {
                assert(out@.push(c) + collapsed_from(u.drop_first(), prev_ws) =~= out@ + (seq![c]
                    + collapsed_from(u.drop_first(), prev_ws)));
                out.push(c);
            }
        } else {
            assert(out@.push(c) + collapsed_from(u.drop_first(), ws) =~= out@ + (seq![c]
                + collapsed_from(u.drop_first(), ws)));
            out.push(c);
            prev_ws = ws;
        }
        j = j + 1;
    }
    assert(chars@.subrange(j as int, hi as int) =~= Seq::<char>::empty());
    assert(out@ + Seq::<char>::empty() =~= out@);
    string_of(&out)
}

/// Whether no two neighbouring characters of `s` are both whitespace other
/// than a tab.
pub open spec fn no_double_space(s: Seq<char>) -> bool {
    forall|i: int| 0 <= i < s.len() - 1 ==> !(plain_space(s[i]) && plain_space(#[trigger] s[i + 1]))
}

proof fn lemma_trim_start_front(s: Seq<char>)
    ensures
        trim_start(s).len() > 0 ==> !white_space(trim_start(s)[0]),
    decreases s.len(),
{
    if s.len() > 0 && white_space(s[0]) {
        lemma_trim_start_front(s.drop_first());
    }
}

proof fn lemma_trim_end_shape(s: Seq<char>)
    ensures
        trim_end(s).len() <= s.len(),
        trim_end(s) == s.take(trim_end(s).len() as int),
        trim_end(s).len() > 0 ==> !white_space(trim_end(s).last()),
    decreases s.len(),
{
    if s.len() > 0 && white_space(s.last()) {
        lemma_trim_end_shape(s.drop_last());
        let m = trim_end(s).len() as int;
        assert(s.drop_last().take(m) =~= s.take(m));
    } else {
        assert(s.take(s.len() as int) =~= s);
    }
}

/// A trimmed text neither starts nor ends with whitespace.
proof fn lemma_trimmed_ends(s: Seq<char>)
    ensures
        trimmed(s).len() > 0 ==> !white_space(trimmed(s)[0]) && !white_space(trimmed(s).last()),
{
    lemma_trim_start_front(s);
    lemma_trim_end_shape(trim_start(s));
    if trimmed(s).len() > 0 {
        assert(trimmed(s)[0] == trim_start(s)[0]);
    }
}

/// The scan keeps a last character that is not whitespace, as its last.
proof fn lemma_collapsed_last(s: Seq<char>, prev_ws: bool)
    requires
        s.len() > 0,
        !white_space(s.last()),
    ensures
        collapsed_from(s, prev_ws).len() > 0,
        collapsed_from(s, prev_ws).last() == s.last(),
    decreases s.len(),
{
    let rest = s.drop_first();
    if s.len() == 1 {
        assert(s[0] == s.last());
        assert(collapsed_from(rest, white_space(s[0])) =~= Seq::<char>::empty());
    } else {
        assert(rest.last() == s.last());
        lemma_collapsed_last(rest, prev_ws);
        lemma_collapsed_last(rest, white_space(s[0]));
    }
}

/// The scan never puts two non-tab whitespace characters side by side and,
/// after a kept whitespace character, starts with no non-tab whitespace.
proof fn lemma_collapsed_no_double(s: Seq<char>, prev_ws: bool)
    ensures
        no_double_space(collapsed_from(s, prev_ws)),
        prev_ws && collapsed_from(s, prev_ws).len() > 0 ==> !plain_space(
            collapsed_from(s, prev_ws)[0],
        ),
    decreases s.len(),
{
    if s.len() > 0 {
        let c = s[0];
        let rest = s.drop_first();
        let next = if prev_ws && white_space(c) {
            prev_ws
        } else {
            white_space(c)
        };
        lemma_collapsed_no_double(rest, next);
        let tail = collapsed_from(rest, next);
        if !(prev_ws && white_space(c) && c != '\t') {
            let out = seq![c] + tail;
            assert(collapsed_from(s, prev_ws) == out);
            assert forall|i: int| 0 <= i < out.len() - 1 implies !(plain_space(out[i])
                && plain_space(#[trigger] out[i + 1])) by {
                if i > 0 {
                    let k = i - 1;
                    assert(out[i] == tail[k]);
                    assert(out[i + 1] == tail[k + 1]);
                    assert(!(plain_space(tail[k]) && plain_space(tail[k + 1])));
                } else {
                    assert(out[1] == tail[0]);
                }
            }
        }
    }
}

/// The collapsed text neither starts nor ends with whitespace and never
/// holds two neighbouring whitespace characters other than tabs.
pub proof fn lemma_whitespace_collapsed(s: Seq<char>)
    ensures
        no_double_space(whitespace_collapsed(s)),
        whitespace_collapsed(s).len() > 0 ==> !white_space(whitespace_collapsed(s)[0])
            && !white_space(whitespace_collapsed(s).last()),
{
    let t = trimmed(s);
    lemma_trimmed_ends(s);
    lemma_collapsed_no_double(t, false);
    if t.len() > 0 {
        lemma_collapsed_last(t, false);
        assert(whitespace_collapsed(s)[0] == t[0]);
    } else {
        assert(whitespace_collapsed(s) =~= Seq::<char>::empty());
    }
}

} // verus!
