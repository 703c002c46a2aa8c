//! Decomposition of precomposed Hangul syllables into compatibility jamo.
use vstd::prelude::*;

use crate::text::{chars_of, string_of};

verus! {

/// First precomposed syllable, U+AC00.
pub const SYLLABLE_FIRST: u32 = 0xAC00;

/// Last precomposed syllable, U+D7A3.
pub const SYLLABLE_LAST: u32 = 0xD7A3;

/// Syllables that share one leading consonant (21 vowels times 28 finals).
pub const PER_LEADING: u32 = 588;

/// Syllables that share one leading consonant and one vowel.
pub const PER_VOWEL: u32 = 28;

/// The 19 leading consonants, in the order of the syllable block.
pub open spec fn leading_table() -> Seq<char> {
    seq![
        'ㄱ', 'ㄲ', 'ㄴ', 'ㄷ', 'ㄸ', 'ㄹ', 'ㅁ', 'ㅂ', 'ㅃ', 'ㅅ', 'ㅆ', 'ㅇ', 'ㅈ', 'ㅉ', 'ㅊ',
        'ㅋ', 'ㅌ', 'ㅍ', 'ㅎ',
    ]
}

/// The 21 vowels, in the order of the syllable block.
pub open spec fn vowel_table() -> Seq<char> {
    seq![
        'ㅏ', 'ㅐ', 'ㅑ', 'ㅒ', 'ㅓ', 'ㅔ', 'ㅕ', 'ㅖ', 'ㅗ', 'ㅘ', 'ㅙ', 'ㅚ', 'ㅛ', 'ㅜ', 'ㅝ',
        'ㅞ', 'ㅟ', 'ㅠ', 'ㅡ', 'ㅢ', 'ㅣ',
    ]
}

/// The 27 trailing consonants; index 0 of the syllable arithmetic means
/// "no trailing consonant" and has no entry here, so index `k` is entry `k - 1`.
pub open spec fn trailing_table() -> Seq<char> {
    seq![
        'ㄱ', 'ㄲ', 'ㄳ', 'ㄴ', 'ㄵ', 'ㄶ', 'ㄷ', 'ㄹ', 'ㄺ', 'ㄻ', 'ㄼ', 'ㄽ', 'ㄾ', 'ㄿ',
        'ㅀ', 'ㅁ', 'ㅂ', 'ㅄ', 'ㅅ', 'ㅆ', 'ㅇ', 'ㅈ', 'ㅊ', 'ㅋ', 'ㅌ', 'ㅍ', 'ㅎ',
    ]
}

/// Whether `c` is a precomposed Hangul syllable.
pub open spec fn is_syllable(c: char) -> bool {
    SYLLABLE_FIRST <= (c as u32) <= SYLLABLE_LAST
}

/// The letters of one character: leading consonant, vowel and, unless the
/// trailing index is 0, trailing consonant for a syllable; the character
/// itself otherwise.
pub open spec fn jamo_of(c: char) -> Seq<char> {
    if is_syllable(c) {
        let offset = (c as u32) - SYLLABLE_FIRST;
        let lead = offset / (PER_LEADING as int);
        let vowel = (offset - lead * PER_LEADING) / (PER_VOWEL as int);
        let trail = offset - lead * PER_LEADING - vowel * PER_VOWEL;
        let lv = seq![leading_table()[lead], vowel_table()[vowel]];
        if trail == 0 {
            lv
        } else {
            lv.push(trailing_table()[trail - 1])
        }
    } else {
        seq![c]
    }
}

/// The letters of every character of `s`, in order.
pub open spec fn decomposed(s: Seq<char>) -> Seq<char>
    decreases s.len(),
{
    if s.len() == 0 {
        Seq::empty()
    } else {
        decomposed(s.drop_last()) + jamo_of(s.last())
    }
}

fn push_jamo(out: &mut Vec<char>, c: char)
    ensures
        final(out)@ == old(out)@ + jamo_of(c),
{
    let leading: [char; 19] = [
        'ㄱ', 'ㄲ', 'ㄴ', 'ㄷ', 'ㄸ', 'ㄹ', 'ㅁ', 'ㅂ', 'ㅃ', 'ㅅ', 'ㅆ', 'ㅇ', 'ㅈ', 'ㅉ', 'ㅊ',
        'ㅋ', 'ㅌ', 'ㅍ', 'ㅎ',
    ];
    let vowels: [char; 21] = [
        'ㅏ', 'ㅐ', 'ㅑ', 'ㅒ', 'ㅓ', 'ㅔ', 'ㅕ', 'ㅖ', 'ㅗ', 'ㅘ', 'ㅙ', 'ㅚ', 'ㅛ', 'ㅜ', 'ㅝ',
        'ㅞ', 'ㅟ', 'ㅠ', 'ㅡ', 'ㅢ', 'ㅣ',
    ];
    let trailing: [char; 27] = [
        'ㄱ', 'ㄲ', 'ㄳ', 'ㄴ', 'ㄵ', 'ㄶ', 'ㄷ', 'ㄹ', 'ㄺ', 'ㄻ', 'ㄼ', 'ㄽ', 'ㄾ', 'ㄿ',
        'ㅀ', 'ㅁ', 'ㅂ', 'ㅄ', 'ㅅ', 'ㅆ', 'ㅇ', 'ㅈ', 'ㅊ', 'ㅋ', 'ㅌ', 'ㅍ', 'ㅎ',
    ];
    assert(leading@ =~= leading_table());
    assert(vowels@ =~= vowel_table());
    assert(trailing@ =~= trailing_table());
    let code = c as u32;
    if SYLLABLE_FIRST <= code && code <= SYLLABLE_LAST {
        let offset = code - SYLLABLE_FIRST;
        let lead = offset / PER_LEADING;
        let vowel = (offset - lead * PER_LEADING) / PER_VOWEL;
        let trail = offset - lead * PER_LEADING - vowel * PER_VOWEL;
        assert(lead < 19 && vowel < 21 && trail < 28) by (nonlinear_arith)
            requires
                offset <= 11171,
                lead == offset / 588,
                vowel == (offset - lead * 588) / 28,
                trail == offset - lead * 588 - vowel * 28,
        ;
        out.push(leading[lead as usize]);
        out.push(vowels[vowel as usize]);
        if trail != 0 {
            out.push(trailing[(trail - 1) as usize]);
        }
    } else {
        out.push(c);
    }
}

/// Replaces every precomposed Hangul syllable of `text` by its leading
/// consonant, its vowel and, when it has one, its trailing consonant, all as
/// compatibility jamo; every other character is kept as it is.
pub fn hangul_to_jamo(text: String) -> (r: String)
    ensures
        r@ == decomposed(text@),
{
    let chars = chars_of(text.as_str());
    let mut out: Vec<char> = Vec::new();
    for i in 0..chars.len()
        invariant
            chars@ == text@,
            out@ == decomposed(chars@.take(i as int)),
    {
        push_jamo(&mut out, chars[i]);
        assert(chars@.take(i + 1).drop_last() =~= chars@.take(i as int));
    }
    assert(chars@.take(chars.len() as int) =~= chars@);
    string_of(&out)
}

/// Decomposing distributes over concatenation.
pub proof fn lemma_decomposed_append(a: Seq<char>, b: Seq<char>)
    ensures
        decomposed(a + b) == decomposed(a) + decomposed(b),
    decreases b.len(),
{
    if b.len() == 0 {
        assert(a + b =~= a);
        assert(decomposed(a) + decomposed(b) =~= decomposed(a));
    } else {
        lemma_decomposed_append(a, b.drop_last());
        assert((a + b).drop_last() =~= a + b.drop_last());
        assert(decomposed(a) + decomposed(b) =~= decomposed(a) + decomposed(b.drop_last())
            + jamo_of(b.last()));
    }
}

/// The letters of one character hold no syllable.
pub proof fn lemma_jamo_of_has_no_syllable(c: char)
    ensures
        forall|i: int| 0 <= i < jamo_of(c).len() ==> !is_syllable(#[trigger] jamo_of(c)[i]),
{
    if is_syllable(c) {
        let offset = (c as u32) - SYLLABLE_FIRST;
        let lead = offset / (PER_LEADING as int);
        let vowel = (offset - lead * PER_LEADING) / (PER_VOWEL as int);
        let trail = offset - lead * PER_LEADING - vowel * PER_VOWEL;
        assert(0 <= lead < 19 && 0 <= vowel < 21 && 0 <= trail < 28) by (nonlinear_arith)
            requires
                0 <= offset <= 11171,
                lead == offset / 588,
                vowel == (offset - lead * 588) / 28,
                trail == offset - lead * 588 - vowel * 28,
        ;
        assert forall|i: int| 0 <= i < 19 implies !is_syllable(#[trigger] leading_table()[i]) by {
        }
        assert forall|i: int| 0 <= i < 21 implies !is_syllable(#[trigger] vowel_table()[i]) by {
        }
        assert forall|i: int| 0 <= i < 27 implies !is_syllable(#[trigger] trailing_table()[i]) by {
        }
    }
}

/// A text without syllables is its own decomposition.
pub proof fn lemma_decomposed_without_syllables(s: Seq<char>)
    requires
        forall|i: int| 0 <= i < s.len() ==> !is_syllable(#[trigger] s[i]),
    ensures
        decomposed(s) == s,
    decreases s.len(),
{
    if s.len() > 0 {
        lemma_decomposed_without_syllables(s.drop_last());
        assert(s.drop_last().push(s.last()) =~= s);
        assert(seq![s.last()] + Seq::empty() =~= seq![s.last()]);
        assert(s.drop_last() + seq![s.last()] =~= s);
    }
}

/// A decomposed text holds no syllable.
pub proof fn lemma_decomposed_has_no_syllable(s: Seq<char>)
    ensures
        forall|i: int| 0 <= i < decomposed(s).len() ==> !is_syllable(#[trigger] decomposed(s)[i]),
    decreases s.len(),
{
    if s.len() > 0 {
        lemma_decomposed_has_no_syllable(s.drop_last());
        lemma_jamo_of_has_no_syllable(s.last());
        let a = decomposed(s.drop_last());
        let b = jamo_of(s.last());
        assert forall|i: int| 0 <= i < (a + b).len() implies !is_syllable(#[trigger] (a + b)[i]) by {
            if i >= a.len() {
                assert((a + b)[i] == b[i - a.len()]);
            }
        }
    }
}

/// Decomposing twice gives what decomposing once gives: the jamo that come
/// out are not syllables and pass through unchanged.
pub proof fn lemma_decompose_idempotent(s: Seq<char>)
    ensures
        decomposed(decomposed(s)) == decomposed(s),
{
    lemma_decomposed_has_no_syllable(s);
    lemma_decomposed_without_syllables(decomposed(s));
}

} // verus!
