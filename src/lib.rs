//! Python-style comprehensions (`mapping for pattern in iterable if condition ...`)
//! lowered into an iterator pipeline of the host language.
//!
//! The library is split into the token model (`token`), the host expression and
//! pattern sub-parser (`subparse`), the comprehension grammar (`grammar`), the
//! lowering into output source text (`emit`), and a runtime counterpart of the
//! lowered pipeline (`pipeline`).
use vstd::prelude::*;
use crate::token::Tok;
use crate::grammar::{CompError, spec_comp, parse_comp};
use crate::emit::{emitted, emit};

pub mod token;
pub mod subparse;
pub mod grammar;
pub mod emit;
pub mod pipeline;

verus! {

/// Parses a comprehension from its tokens and lowers it: the text of the output
/// pipeline, or the first parse error.
pub fn expand(toks: &Vec<Tok>) -> (r: Result<String, CompError>)
    ensures
        match spec_comp(toks@) {
            Ok(c) => r matches Ok(out) && out@ == emitted(c),
            Err(x) => r == Err::<String, CompError>(x),
        },
{
    let c = parse_comp(toks)?;
    Ok(emit(&c))
}

} // verus!
