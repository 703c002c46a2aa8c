//! Replacement of characters outside the allow-list.
use vstd::prelude::*;

use crate::text::{chars_of, string_of};

verus! {

/// Whether `c` passes the filter: an ASCII letter or digit, a compatibility
/// consonant or vowel letter (U+3131 to U+3163), a precomposed syllable
/// (U+AC00 to U+D7A3), one of `~ ! ? . , ( ) : ; * / = + - [ ]`, a space or a
/// newline.
pub open spec fn allowed(c: char) -> bool {
    ||| ('A' <= c && c <= 'Z')
    ||| ('a' <= c && c <= 'z')
    ||| ('0' <= c && c <= '9')
    ||| (0x3131 <= (c as u32) && (c as u32) <= 0x3163)
    ||| (0xAC00 <= (c as u32) && (c as u32) <= 0xD7A3)
    ||| c == '~' || c == '!' || c == '?' || c == '.' || c == ','
    ||| c == '(' || c == ')' || c == ':' || c == ';' || c == '*'
    ||| c == '/' || c == '=' || c == '+' || c == '-' || c == '['
    ||| c == ']' || c == ' ' || c == '\n'
}

/// `s` with every character that is not allowed replaced by `replacement`.
pub open spec fn filtered(s: Seq<char>, replacement: Seq<char>) -> Seq<char>
    decreases s.len(),
{
    if s.len() == 0 {
        Seq::empty()
    } else if allowed(s.last()) {
        filtered(s.drop_last(), replacement).push(s.last())
    } else {
        filtered(s.drop_last(), replacement) + replacement
    }
}

/// How many characters of `s` are not allowed.
pub open spec fn disallowed_count(s: Seq<char>) -> nat
    decreases s.len(),
{
    if s.len() == 0 {
        0
    } else {
        disallowed_count(s.drop_last()) + if allowed(s.last()) { 0nat } else { 1nat }
    }
}

/// Executable form of [`allowed`].
pub fn is_allowed(c: char) -> (r: bool)
    ensures
        r == allowed(c),
{
    let code = c as u32;
    ('A' <= c && c <= 'Z')
        || ('a' <= c && c <= 'z')
        || ('0' <= c && c <= '9')
        || (0x3131 <= code && code <= 0x3163)
        || (0xAC00 <= code && code <= 0xD7A3)
        || c == '~' || c == '!' || c == '?' || c == '.' || c == ','
        || c == '(' || c == ')' || c == ':' || c == ';' || c == '*'
        || c == '/' || c == '=' || c == '+' || c == '-' || c == '['
        || c == ']' || c == ' ' || c == '\n'
}

/// Replaces each character of `text` that is not allowed by a copy of
/// `replacer`; allowed characters are kept. Neighbouring disallowed
/// characters each get their own copy.
pub fn control_chars(text: &str, replacer: &str) -> (r: String)
    ensures
        r@ == filtered(text@, replacer@),
{
    let chars = chars_of(text);
    let rep = chars_of(replacer);
    let mut out: Vec<char> = Vec::new();
    for i in 0..chars.len()
        invariant
            chars@ == text@,
            rep@ == replacer@,
            out@ == filtered(chars@.take(i as int), rep@),
    {
        let c = chars[i];
        assert(chars@.take(i + 1).drop_last() =~= chars@.take(i as int));
        if is_allowed(c) {
            out.push(c);
        } else {
            let ghost before = out@;
            for j in 0..rep.len()
                invariant
                    out@ == before + rep@.take(j as int),
            {
                out.push(rep[j]);
                assert(rep@.take(j + 1) =~= rep@.take(j as int).push(rep@[j as int]));
                assert(out@ =~= before + rep@.take(j + 1));
            }
            assert(rep@.take(rep.len() as int) =~= rep@);
        }
    }
    assert(chars@.take(chars.len() as int) =~= chars@);
    string_of(&out)
}

/// The filtered text has one character for each allowed character and one
/// copy of the replacement for each disallowed one.
pub proof fn lemma_filtered_len(s: Seq<char>, replacement: Seq<char>)
    ensures
        disallowed_count(s) <= s.len(),
        filtered(s, replacement).len() == (s.len() - disallowed_count(s)) + disallowed_count(s)
            * replacement.len(),
    decreases s.len(),
{
    if s.len() > 0 {
        lemma_filtered_len(s.drop_last(), replacement);
        let d = disallowed_count(s.drop_last());
        let k = replacement.len();
        if !allowed(s.last()) {
            assert((d + 1) * k == d * k + k) by (nonlinear_arith);
            assert(disallowed_count(s) == d + 1);
            assert(disallowed_count(s) * k == d * k + k);
            assert(filtered(s, replacement).len() == filtered(s.drop_last(), replacement).len()
                + k);
        } else {
            assert(disallowed_count(s) == d);
        }
        assert(filtered(s, replacement).len() == (s.len() - disallowed_count(s))
            + disallowed_count(s) * k);
    } else {
        assert(disallowed_count(s) == 0);
        assert(0 * replacement.len() == 0);
    }
}

} // verus!
