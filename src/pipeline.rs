//! The normalisation pipeline: filter, cap repetition, collapse whitespace,
//! decompose, each stage switched on by the configuration.
use vstd::prelude::*;

use crate::filter::{control_chars, filtered};
use crate::jamo::{decomposed, hangul_to_jamo};
use crate::repeat::{derepeat, derepeated};
use crate::whitespace::{whitespace_collapsed, whitespace_less};

verus! {

/// Which stages run, and how.
pub struct NormalizeConfig {
    /// Decompose syllables into jamo.
    pub hangul_to_jamo: bool,
    /// When present, replace disallowed characters by this text.
    pub control_chars: Option<String>,
    /// When present, keep at most this many characters of each run.
    pub repeat: Option<usize>,
    /// Trim and collapse whitespace.
    pub whitespace_less: bool,
}

/// `s` after the stages that `opts` switches on, in the order filter,
/// repetition cap, whitespace collapse, decomposition.
pub open spec fn normalized(s: Seq<char>, opts: NormalizeConfig) -> Seq<char> {
    let a = match opts.control_chars {
        Some(rep) => filtered(s, rep@),
        None => s,
    };
    let b = match opts.repeat {
        Some(n) => derepeated(a, n as nat),
        None => a,
    };
    let c = if opts.whitespace_less {
        whitespace_collapsed(b)
    } else {
        b
    };
    if opts.hangul_to_jamo {
        decomposed(c)
    } else {
        c
    }
}

/// Runs the stages that `opts` switches on over `text`, each on the output of
/// the one before; a stage that is off passes its input on unchanged.
pub fn normalize(text: String, opts: &NormalizeConfig) -> (r: String)
    ensures
        r@ == normalized(text@, *opts),
{
    let text = match &opts.control_chars {
        Some(c) => control_chars(text.as_str(), c.as_str()),
        None => text,
    };
    let text = match opts.repeat {
        Some(n) => derepeat(text.as_str(), n),
        None => text,
    };
    let text = if opts.whitespace_less {
        whitespace_less(text.as_str())
    } else {
        text
    };
    if opts.hangul_to_jamo {
        hangul_to_jamo(text)
    } else {
        text
    }
}

} // verus!
