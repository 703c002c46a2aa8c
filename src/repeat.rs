//! Capping runs of one repeated character.
use vstd::prelude::*;

use crate::text::{chars_of, string_of};

verus! {

/// The position of `s[i]` in its run: 1 when `s[i]` differs from the
/// character before it (or has none), one more than for `s[i - 1]` otherwise.
pub open spec fn run_at(s: Seq<char>, i: int) -> nat
    decreases i,
{
    if 0 < i < s.len() && s[i - 1] == s[i] {
        run_at(s, i - 1) + 1
    } else {
        1
    }
}

/// `s` keeping of each run of one repeated character only its first `n`
/// characters.
pub open spec fn derepeated(s: Seq<char>, n: nat) -> Seq<char>
    decreases s.len(),
{
    if s.len() == 0 {
        Seq::empty()
    } else if run_at(s, s.len() - 1) <= n {
        derepeated(s.drop_last(), n).push(s.last())
    } else {
        derepeated(s.drop_last(), n)
    }
}

/// The position of a character in its run lies between 1 and its index plus 1.
pub proof fn lemma_run_at_bounds(s: Seq<char>, i: int)
    requires
        0 <= i < s.len(),
    ensures
        1 <= run_at(s, i) <= i + 1,
    decreases i,
{
    if i > 0 {
        lemma_run_at_bounds(s, i - 1);
    }
}

/// The position of a character in its run depends only on what comes before it.
pub proof fn lemma_run_at_prefix(s: Seq<char>, t: Seq<char>, i: int)
    requires
        0 <= i < s.len(),
        i < t.len(),
        forall|k: int| 0 <= k <= i ==> s[k] == t[k],
    ensures
        run_at(s, i) == run_at(t, i),
    decreases i,
{
    if i > 0 {
        lemma_run_at_prefix(s, t, i - 1);
    }
}

/// Keeps the first `n` characters of each run of one repeated character of
/// `text` and drops the rest. A run ends at any other character, whitespace
/// included.
pub fn derepeat(text: &str, n: usize) -> (r: String)
    ensures
        r@ == derepeated(text@, n as nat),
{
    let chars = chars_of(text);
    let mut out: Vec<char> = Vec::new();
    let mut prev: Option<char> = None;
    let mut repeat: usize = 0;
    for i in 0..chars.len()
        invariant
            chars@ == text@,
            out@ == derepeated(chars@.take(i as int), n as nat),
            i == 0 ==> prev is None,
            i > 0 ==> prev == Some(chars@[i - 1]) && repeat + 1 == run_at(chars@, i - 1),
    {
        let c = chars[i];
        let same = match prev {
            Some(p) => p == c,
            None => false,
        };
        if same {
            proof {
                lemma_run_at_bounds(chars@, i - 1);
            }
            repeat = repeat + 1;
        } else {
            repeat = 0;
            prev = Some(c);
        }
        assert(repeat + 1 == run_at(chars@, i as int));
        let ghost t = chars@.take(i + 1);
        proof {
            lemma_run_at_prefix(chars@, t, i as int);
        }
        assert(t.drop_last() =~= chars@.take(i as int));
        if repeat < n {
            out.push(c);
        }
    }
    assert(chars@.take(chars.len() as int) =~= chars@);
    string_of(&out)
}

/// With a cap of 0 nothing is kept.
pub proof fn lemma_derepeat_zero(s: Seq<char>)
    ensures
        derepeated(s, 0) == Seq::<char>::empty(),
    decreases s.len(),
{
    if s.len() > 0 {
        lemma_run_at_bounds(s, s.len() - 1);
        lemma_derepeat_zero(s.drop_last());
    }
}

/// With a cap `n` of at least 1, the output of a non-empty text is non-empty,
/// ends with the text's last character, whose run there is its run in the
/// text capped at `n`, and holds no run longer than `n`.
proof fn lemma_derepeat_end(s: Seq<char>, n: nat)
    requires
        n >= 1,
        s.len() > 0,
    ensures
        derepeated(s, n).len() > 0,
        derepeated(s, n).last() == s.last(),
        run_at(derepeated(s, n), derepeated(s, n).len() - 1) == if run_at(s, s.len() - 1) <= n {
            run_at(s, s.len() - 1)
        } else {
            n
        },
        forall|i: int|
            0 <= i < derepeated(s, n).len() ==> run_at(derepeated(s, n), i) <= n,
    decreases s.len(),
{
    let r = derepeated(s, n);
    let last = s.len() - 1;
    let k = run_at(s, last);
    if s.len() == 1 {
        assert(derepeated(s.drop_last(), n) =~= Seq::<char>::empty());
        assert(r =~= seq![s.last()]);
    } else {
        let p = s.drop_last();
        let rp = derepeated(p, n);
        lemma_derepeat_end(p, n);
        lemma_run_at_prefix(s, p, last - 1);
        if k <= n {
            assert(r == rp.push(s.last()));
            assert forall|i: int| 0 <= i < rp.len() implies run_at(r, i) == run_at(rp, i) by {
                lemma_run_at_prefix(r, rp, i);
            }
            if rp.last() == s.last() {
                assert(r[r.len() - 2] == rp.last());
            }
            assert forall|i: int| 0 <= i < r.len() implies run_at(r, i) <= n by {
                if i < rp.len() {
                    assert(run_at(r, i) == run_at(rp, i));
                }
            }
        } else {
            assert(r == rp);
        }
    }
}

/// With a cap `n` of at least 1, no run of one repeated character in the
/// output is longer than `n`.
pub proof fn lemma_derepeat_bound(s: Seq<char>, n: nat)
    requires
        n >= 1,
    ensures
        forall|i: int|
            0 <= i < derepeated(s, n).len() ==> run_at(derepeated(s, n), i) <= n,
{
    if s.len() > 0 {
        lemma_derepeat_end(s, n);
    }
}

/// A text whose runs are all at most `n` long comes back unchanged.
pub proof fn lemma_derepeat_short_runs(s: Seq<char>, n: nat)
    requires
        forall|i: int| 0 <= i < s.len() ==> run_at(s, i) <= n,
    ensures
        derepeated(s, n) == s,
    decreases s.len(),
{
    if s.len() > 0 {
        let p = s.drop_last();
        assert forall|i: int| 0 <= i < p.len() implies run_at(p, i) <= n by {
            lemma_run_at_prefix(s, p, i);
        }
        lemma_derepeat_short_runs(p, n);
        assert(p.push(s.last()) =~= s);
    }
}

/// Past a change of character, positions in runs are those of the second part.
proof fn lemma_run_at_after_change(x: Seq<char>, y: Seq<char>, j: int)
    requires
        x.len() > 0,
        0 <= j < y.len(),
        x.last() != y[0],
    ensures
        run_at(x + y, x.len() + j) == run_at(y, j),
    decreases j,
{
    if j > 0 {
        lemma_run_at_after_change(x, y, j - 1);
        assert((x + y)[x.len() + j - 1] == y[j - 1]);
        assert((x + y)[x.len() + j] == y[j]);
    } else {
        assert((x + y)[x.len() - 1] == x.last());
        assert((x + y)[x.len() as int] == y[0]);
    }
}

/// Where the character changes, the text can be capped in two parts: so a
/// run is capped on its own, whatever stands around it.
pub proof fn lemma_derepeat_split(x: Seq<char>, y: Seq<char>, n: nat)
    requires
        x.len() > 0,
        y.len() > 0,
        x.last() != y[0],
    ensures
        derepeated(x + y, n) == derepeated(x, n) + derepeated(y, n),
    decreases y.len(),
{
    let s = x + y;
    lemma_run_at_after_change(x, y, y.len() - 1);
    assert(s.last() == y.last());
    if y.len() == 1 {
        assert(s.drop_last() =~= x);
        assert(derepeated(y.drop_last(), n) =~= Seq::<char>::empty());
        assert(derepeated(x, n) + derepeated(y, n) =~= if run_at(y, 0) <= n {
            derepeated(x, n).push(y.last())
        } else {
            derepeated(x, n)
        });
    } else {
        assert(s.drop_last() =~= x + y.drop_last());
        assert(y.drop_last()[0] == y[0]);
        lemma_derepeat_split(x, y.drop_last(), n);
        assert(derepeated(x, n) + derepeated(y.drop_last(), n).push(y.last()) =~= (derepeated(
            x,
            n,
        ) + derepeated(y.drop_last(), n)).push(y.last()));
    }
}

} // verus!
