//! The host language's own expression and pattern grammars, which `syn` supplies,
//! seen through a cursor over top-level tokens.
use vstd::prelude::*;
use crate::token::{Tok, rendered, render};

verus! {

/// How many top-level token trees are left after `syn` parses one expression from
/// the front of the text; `None` when the text does not lex or does not start with
/// an expression.
pub uninterp spec fn expr_rest(src: Seq<char>) -> Option<nat>;

/// How many top-level token trees are left after `syn` parses one pattern (not an
/// or-pattern) from the front of the text; `None` when the text does not lex or does
/// not start with a pattern.
pub uninterp spec fn pat_rest(src: Seq<char>) -> Option<nat>;

/// The position one past an item of the sub-parser that starts at `pos`, given the
/// count of tokens it left: an item never ends beyond the input.
pub open spec fn end_from_rest(len: int, pos: int, rest: Option<nat>) -> Option<int> {
    match rest {
        Some(r) => if r <= len - pos {
            Some(len - r)
        } else {
            None
        },
        None => None,
    }
}

/// The end of the expression that starts at `pos` in `s`.
pub open spec fn expr_end(s: Seq<Tok>, pos: int) -> Option<int> {
    end_from_rest(s.len() as int, pos, expr_rest(rendered(s.subrange(pos, s.len() as int))))
}

/// The end of the pattern that starts at `pos` in `s`.
pub open spec fn pat_end(s: Seq<Tok>, pos: int) -> Option<int> {
    end_from_rest(s.len() as int, pos, pat_rest(rendered(s.subrange(pos, s.len() as int))))
}

/// Relies on `syn`: parses one `syn::Expr` from the front of the tokens of `src`
/// (through `syn::parse::Parser::parse_str`) and counts the token trees left over.
#[verifier::external_body]
fn syn_expr_rest(src: &str) -> (r: Option<usize>)
    ensures
        r matches Some(n) ==> expr_rest(src@) == Some(n as nat),
        r is None ==> expr_rest(src@) is None,
{
    let prefix = |input: syn::parse::ParseStream| {
        let _: syn::Expr = input.parse()?;
        let rest: proc_macro2::TokenStream = input.parse()?;
        Ok(rest.into_iter().count())
    };
    syn::parse::Parser::parse_str(prefix, src).ok()
}

/// Relies on `syn`: parses one pattern with `syn::Pat::parse_single` from the front
/// of the tokens of `src` and counts the token trees left over.
#[verifier::external_body]
fn syn_pat_rest(src: &str) -> (r: Option<usize>)
    ensures
        r matches Some(n) ==> pat_rest(src@) == Some(n as nat),
        r is None ==> pat_rest(src@) is None,
{
    let prefix = |input: syn::parse::ParseStream| {
        let _: syn::Pat = syn::Pat::parse_single(input)?;
        let rest: proc_macro2::TokenStream = input.parse()?;
        Ok(rest.into_iter().count())
    };
    syn::parse::Parser::parse_str(prefix, src).ok()
}

/// A count of tokens as a natural number.
pub open spec fn as_count(o: Option<usize>) -> Option<nat> {
    match o {
        Some(n) => Some(n as nat),
        None => None,
    }
}

fn end_of(len: usize, pos: usize, rest: Option<usize>) -> (r: Option<usize>)
    requires
        pos <= len,
    ensures
        r matches Some(e) ==> end_from_rest(len as int, pos as int, as_count(rest))
            == Some(e as int),
        r is None ==> end_from_rest(len as int, pos as int, as_count(rest)) is None,
{
    match rest {
        Some(n) => if n <= len - pos {
            Some(len - n)
        } else {
            None
        },
        None => None,
    }
}

/// Parses one host expression starting at `pos`: the position one past it, or
/// `None` when no expression starts there.
pub fn parse_expression(toks: &Vec<Tok>, pos: usize) -> (r: Option<usize>)
    requires
        pos <= toks@.len(),
    ensures
        r matches Some(e) ==> expr_end(toks@, pos as int) == Some(e as int),
        r is None ==> expr_end(toks@, pos as int) is None,
{
    let text = render(toks, pos, toks.len());
    let rest = syn_expr_rest(text.as_str());
    end_of(toks.len(), pos, rest)
}

/// Parses one host pattern starting at `pos`: the position one past it, or `None`
/// when no pattern starts there.
pub fn parse_pattern(toks: &Vec<Tok>, pos: usize) -> (r: Option<usize>)
    requires
        pos <= toks@.len(),
    ensures
        r matches Some(e) ==> pat_end(toks@, pos as int) == Some(e as int),
        r is None ==> pat_end(toks@, pos as int) is None,
{
    let text = render(toks, pos, toks.len());
    let rest = syn_pat_rest(text.as_str());
    end_of(toks.len(), pos, rest)
}

} // verus!
