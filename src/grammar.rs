//! The comprehension grammar:
//!
//! ```text
//! comprehension := mapping for_if_clause+
//! mapping       := expression
//! for_if_clause := 'for' pattern 'in' expression condition*
//! condition     := 'if' expression
//! ```
//!
//! Expressions and patterns are parsed by the host sub-parser; each node of the tree
//! keeps the tokens that its host expression or pattern spans.
use vstd::prelude::*;
use crate::token::{Tok, is_kw, is_keyword};
use crate::subparse::{expr_end, pat_end, parse_expression, parse_pattern};

verus! {

/// What went wrong while parsing.
#[derive(Clone, Copy, Debug, PartialEq, Eq, Structural)]
pub enum ErrorKind {
    /// `for`, `in` or `if` was expected, or the input went on after the last clause.
    MissingKeyword,
    /// The host sub-parser found no expression where one was needed.
    MalformedSubExpression,
    /// The host sub-parser found no pattern after `for`.
    MalformedPattern,
}

/// A parse error and the index of the top-level token where it was found.
#[derive(Clone, Copy, Debug, PartialEq, Eq, Structural)]
pub struct CompError {
    pub kind: ErrorKind,
    pub pos: usize,
}

pub open spec fn err(kind: ErrorKind, pos: int) -> CompError {
    CompError { kind, pos: pos as usize }
}

/// The per-element output expression.
pub struct Mapping {
    pub expr: Vec<Tok>,
}

/// The destructuring pattern each element is bound to.
pub struct Pattern {
    pub pat: Vec<Tok>,
}

/// One filter predicate.
pub struct Condition {
    pub expr: Vec<Tok>,
}

/// `for pattern in iterable if c1 if c2 ...`
pub struct ForIfClause {
    pub pattern: Pattern,
    pub iterable: Vec<Tok>,
    pub conditions: Vec<Condition>,
}

/// A mapping followed by one or more clauses, outermost first (`parse_comp` never
/// gives an empty list of clauses).
pub struct Comp {
    pub mapping: Mapping,
    pub clauses: Vec<ForIfClause>,
}

/// The abstract form of a clause: the tokens of each of its parts.
pub struct ClauseSpec {
    pub pattern: Seq<Tok>,
    pub iterable: Seq<Tok>,
    pub conditions: Seq<Seq<Tok>>,
}

/// The abstract form of a comprehension.
pub struct CompSpec {
    pub mapping: Seq<Tok>,
    pub clauses: Seq<ClauseSpec>,
}

impl View for ForIfClause {
    type V = ClauseSpec;

    open spec fn view(&self) -> ClauseSpec {
        ClauseSpec {
            pattern: self.pattern.pat@,
            iterable: self.iterable@,
            conditions: self.conditions@.map_values(|c: Condition| c.expr@),
        }
    }
}

impl View for Comp {
    type V = CompSpec;

    open spec fn view(&self) -> CompSpec {
        CompSpec {
            mapping: self.mapping.expr@,
            clauses: self.clauses@.map_values(|c: ForIfClause| c@),
        }
    }
}

/// The token at `pos` exists and is the keyword `kw`.
pub open spec fn kw_at(s: Seq<Tok>, pos: int, kw: Seq<char>) -> bool {
    0 <= pos < s.len() && is_kw(s[pos], kw)
}

/// One attempt at a condition at `pos`: its expression's tokens and the position
/// after it.
pub open spec fn spec_condition(s: Seq<Tok>, pos: int) -> Result<(Seq<Tok>, int), CompError> {
    if !kw_at(s, pos, "if"@) {
        Err(err(ErrorKind::MissingKeyword, pos))
    } else {
        match expr_end(s, pos + 1) {
            Some(e) => Ok((s.subrange(pos + 1, e), e)),
            None => Err(err(ErrorKind::MalformedSubExpression, pos + 1)),
        }
    }
}

/// Zero or more conditions from `pos`: attempts go on while they succeed; an
/// attempt that finds no `if` ends the repetition where it started, while any other
/// failure is an error.
pub open spec fn spec_conditions(s: Seq<Tok>, pos: int) -> Result<(Seq<Seq<Tok>>, int), CompError>
    decreases s.len() - pos,
{
    match spec_condition(s, pos) {
        Ok((c, e)) => match spec_conditions(s, e) {
            Ok((cs, p)) => Ok((seq![c] + cs, p)),
            Err(x) => Err(x),
        },
        Err(x) => if x.kind == ErrorKind::MissingKeyword {
            Ok((Seq::empty(), pos))
        } else {
            Err(x)
        },
    }
}

/// One `for` clause at `pos` and the position after it.
pub open spec fn spec_clause(s: Seq<Tok>, pos: int) -> Result<(ClauseSpec, int), CompError> {
    if !kw_at(s, pos, "for"@) {
        Err(err(ErrorKind::MissingKeyword, pos))
    } else {
        match pat_end(s, pos + 1) {
            None => Err(err(ErrorKind::MalformedPattern, pos + 1)),
            Some(pe) => if !kw_at(s, pe, "in"@) {
                Err(err(ErrorKind::MissingKeyword, pe))
            } else {
                match expr_end(s, pe + 1) {
                    None => Err(err(ErrorKind::MalformedSubExpression, pe + 1)),
                    Some(ie) => match spec_conditions(s, ie) {
                        Err(x) => Err(x),
                        Ok((cs, p)) => Ok(
                            (
                                ClauseSpec {
                                    pattern: s.subrange(pos + 1, pe),
                                    iterable: s.subrange(pe + 1, ie),
                                    conditions: cs,
                                },
                                p,
                            ),
                        ),
                    },
                }
            },
        }
    }
}

/// One or more clauses from `pos`: another clause follows while the next token is
/// `for` (a clause always moves past its own `for`, so `pos < p` holds whenever the
/// clause parsed).
pub open spec fn spec_clauses(s: Seq<Tok>, pos: int) -> Result<(Seq<ClauseSpec>, int), CompError>
    decreases s.len() - pos,
{
    match spec_clause(s, pos) {
        Err(x) => Err(x),
        Ok((c, p)) => if pos < p && kw_at(s, p, "for"@) {
            match spec_clauses(s, p) {
                Ok((cs, q)) => Ok((seq![c] + cs, q)),
                Err(x) => Err(x),
            }
        } else {
            Ok((seq![c], p))
        },
    }
}

/// The whole input as one comprehension, every token consumed.
pub open spec fn spec_comp(s: Seq<Tok>) -> Result<CompSpec, CompError> {
    match expr_end(s, 0) {
        None => Err(err(ErrorKind::MalformedSubExpression, 0)),
        Some(me) => match spec_clauses(s, me) {
            Err(x) => Err(x),
            Ok((cls, p)) => if p == s.len() {
                Ok(CompSpec { mapping: s.subrange(0, me), clauses: cls })
            } else {
                Err(err(ErrorKind::MissingKeyword, p))
            },
        },
    }
}

/// A failed attempt at one more condition consumes nothing: where no `if` stands,
/// the repetition ends at the very position that attempt started from, and in any
/// case the position at which the repetition stops is one where an attempt finds no
/// `if`, so the parsing that follows starts there.
pub proof fn lemma_failed_attempt_consumes_nothing(s: Seq<Tok>, pos: int)
    requires
        0 <= pos <= s.len(),
    ensures
        spec_condition(s, pos) is Err && spec_condition(s, pos)->Err_0.kind
            == ErrorKind::MissingKeyword ==> spec_conditions(s, pos) == Ok::<
            (Seq<Seq<Tok>>, int),
            CompError,
        >((Seq::empty(), pos)),
        spec_conditions(s, pos) matches Ok((cs, p)) ==> pos <= p <= s.len()
            && spec_condition(s, p) == Err::<(Seq<Tok>, int), CompError>(
            err(ErrorKind::MissingKeyword, p),
        ),
    decreases s.len() - pos,
{
    if let Ok((c, e)) = spec_condition(s, pos) {
        lemma_failed_attempt_consumes_nothing(s, e);
    }
}

/// `acc` put in front of the items of a successful parse.
pub open spec fn prefixed<A>(acc: Seq<A>, r: Result<(Seq<A>, int), CompError>) -> Result<(Seq<A>, int), CompError> {
    match r {
        Ok((xs, p)) => Ok((acc + xs, p)),
        Err(x) => Err(x),
    }
}

/// A copy of the tokens `toks[from..to]`.
pub fn tokens_between(toks: &Vec<Tok>, from: usize, to: usize) -> (r: Vec<Tok>)
    requires
        from <= to <= toks@.len(),
    ensures
        r@ == toks@.subrange(from as int, to as int),
{
    let mut r: Vec<Tok> = Vec::new();
    let mut i: usize = from;
    while i < to
        invariant
            from <= i <= to <= toks@.len(),
            r@ == toks@.subrange(from as int, i as int),
        decreases to - i,
    {
        r.push(toks[i].duplicate());
        proof {
            assert(r@ =~= toks@.subrange(from as int, i + 1));
        }
        i += 1;
    }
    r
}

/// Whether the token at `pos` exists and is the keyword `kw`.
fn keyword_at(toks: &Vec<Tok>, pos: usize, kw: &str) -> (r: bool)
    ensures
        r == kw_at(toks@, pos as int, kw@),
{
    pos < toks.len() && is_keyword(&toks[pos], kw)
}

/// Attempts one condition at the cursor. On success the cursor moves past it; when
/// no `if` stands there it is left in place; after a malformed expression it is left
/// somewhere within the input, for the caller to restore.
pub fn parse_condition(toks: &Vec<Tok>, cursor: &mut usize) -> (r: Result<Condition, CompError>)
    requires
        *old(cursor) <= toks@.len(),
    ensures
        *final(cursor) <= toks@.len(),
        r matches Err(x) && x.kind == ErrorKind::MissingKeyword ==> *final(cursor) == *old(cursor),
        match spec_condition(toks@, *old(cursor) as int) {
            Ok((c, e)) => r matches Ok(cond) && cond.expr@ == c && *final(cursor) == e,
            Err(x) => r == Err::<Condition, CompError>(x),
        },
{
    let pos = *cursor;
    let n = toks.len();
    if !keyword_at(toks, pos, "if") {
        return Err(CompError { kind: ErrorKind::MissingKeyword, pos });
    }
    *cursor = pos + 1;
    match parse_expression(toks, pos + 1) {
        Some(e) => {
            let expr = tokens_between(toks, pos + 1, e);
            *cursor = e;
            Ok(Condition { expr })
        },
        None => Err(CompError { kind: ErrorKind::MalformedSubExpression, pos: pos + 1 }),
    }
}

/// Zero or more conditions from the cursor. Each attempt starts from a checkpoint;
/// an attempt that finds no `if` restores the cursor to it and ends the repetition,
/// while any other failure is returned.
pub fn parse_conditions(toks: &Vec<Tok>, cursor: &mut usize) -> (r: Result<Vec<Condition>, CompError>)
    requires
        *old(cursor) <= toks@.len(),
    ensures
        *final(cursor) <= toks@.len(),
        match spec_conditions(toks@, *old(cursor) as int) {
            Ok((cs, p)) => r matches Ok(v) && v@.map_values(|c: Condition| c.expr@) == cs
                && *final(cursor) == p,
            Err(x) => r == Err::<Vec<Condition>, CompError>(x),
        },
{
    let ghost start = *cursor as int;
    let mut out: Vec<Condition> = Vec::new();
    loop
        invariant
            *cursor <= toks@.len(),
            start == *old(cursor) as int,
            spec_conditions(toks@, start) == prefixed(
                out@.map_values(|c: Condition| c.expr@),
                spec_conditions(toks@, *cursor as int),
            ),
        decreases toks@.len() - *cursor,
    {
        let checkpoint = *cursor;
        let ghost acc = out@.map_values(|c: Condition| c.expr@);
        match parse_condition(toks, cursor) {
            Ok(c) => {
                let ghost e = *cursor as int;
                proof {
                    if let Ok((cs, _)) = spec_conditions(toks@, e) {
                        assert(acc + (seq![c.expr@] + cs) =~= acc.push(c.expr@) + cs);
                    }
                }
                out.push(c);
                proof {
                    assert(out@.map_values(|c: Condition| c.expr@) =~= acc.push(
                        out@.last().expr@,
                    ));
                }
            },
            Err(x) => {
                *cursor = checkpoint;
                assert(spec_condition(toks@, checkpoint as int) == Err::<(Seq<Tok>, int), CompError>(x));
                if x.kind == ErrorKind::MissingKeyword {
                    proof {
                        assert(spec_conditions(toks@, checkpoint as int) == Ok::<(Seq<Seq<Tok>>, int), CompError>((Seq::<Seq<Tok>>::empty(), checkpoint as int)));
                        assert(acc + Seq::<Seq<Tok>>::empty() =~= acc);
                        assert(spec_conditions(toks@, start) == Ok::<(Seq<Seq<Tok>>, int), CompError>((acc, checkpoint as int)));
                    }
                    return Ok(out);
                }
                return Err(x);
            },
        }
    }
}

/// One `for` clause at the cursor, with its conditions. On success the cursor moves
/// past it.
pub fn parse_clause(toks: &Vec<Tok>, cursor: &mut usize) -> (r: Result<ForIfClause, CompError>)
    requires
        *old(cursor) <= toks@.len(),
    ensures
        *final(cursor) <= toks@.len(),
        match spec_clause(toks@, *old(cursor) as int) {
            Ok((c, p)) => r matches Ok(cl) && cl@ == c && *final(cursor) == p,
            Err(x) => r == Err::<ForIfClause, CompError>(x),
        },
{
    let pos = *cursor;
    let n = toks.len();
    if !keyword_at(toks, pos, "for") {
        return Err(CompError { kind: ErrorKind::MissingKeyword, pos });
    }
    let pe = match parse_pattern(toks, pos + 1) {
        Some(pe) => pe,
        None => return Err(CompError { kind: ErrorKind::MalformedPattern, pos: pos + 1 }),
    };
    if !keyword_at(toks, pe, "in") {
        return Err(CompError { kind: ErrorKind::MissingKeyword, pos: pe });
    }
    let ie = match parse_expression(toks, pe + 1) {
        Some(ie) => ie,
        None => return Err(CompError { kind: ErrorKind::MalformedSubExpression, pos: pe + 1 }),
    };
    *cursor = ie;
    let conditions = parse_conditions(toks, cursor)?;
    let pattern = Pattern { pat: tokens_between(toks, pos + 1, pe) };
    let iterable = tokens_between(toks, pe + 1, ie);
    Ok(ForIfClause { pattern, iterable, conditions })
}

/// One or more `for` clauses from the cursor: another is parsed while the next token
/// is `for`.
pub fn parse_clauses(toks: &Vec<Tok>, cursor: &mut usize) -> (r: Result<Vec<ForIfClause>, CompError>)
    requires
        *old(cursor) <= toks@.len(),
    ensures
        *final(cursor) <= toks@.len(),
        match spec_clauses(toks@, *old(cursor) as int) {
            Ok((cs, p)) => r matches Ok(v) && v@.map_values(|c: ForIfClause| c@) == cs
                && *final(cursor) == p,
            Err(x) => r == Err::<Vec<ForIfClause>, CompError>(x),
        },
        r matches Ok(v) ==> v@.len() >= 1,
{
    let ghost start = *cursor as int;
    let mut out: Vec<ForIfClause> = Vec::new();
    loop
        invariant
            *cursor <= toks@.len(),
            start == *old(cursor) as int,
            out@.len() == 0 ==> *cursor as int == start,
            out@.len() > 0 ==> kw_at(toks@, *cursor as int, "for"@),
            spec_clauses(toks@, start) == prefixed(
                out@.map_values(|c: ForIfClause| c@),
                spec_clauses(toks@, *cursor as int),
            ),
        decreases toks@.len() - *cursor,
    {
        let ghost acc = out@.map_values(|c: ForIfClause| c@);
        let before = *cursor;
        let c = parse_clause(toks, cursor)?;
        let more = *cursor > before && keyword_at(toks, *cursor, "for");
        proof {
            if let Ok((cs, _)) = spec_clauses(toks@, *cursor as int) {
                assert(acc + (seq![c@] + cs) =~= acc.push(c@) + cs);
            }
            assert(acc + seq![c@] =~= acc.push(c@));
        }
        out.push(c);
        proof {
            assert(out@.map_values(|c: ForIfClause| c@) =~= acc.push(out@.last()@));
        }
        if !more {
            return Ok(out);
        }
    }
}

/// Parses the whole token sequence as one comprehension.
pub fn parse_comp(toks: &Vec<Tok>) -> (r: Result<Comp, CompError>)
    ensures
        match spec_comp(toks@) {
            Ok(c) => r matches Ok(comp) && comp@ == c,
            Err(x) => r == Err::<Comp, CompError>(x),
        },
        r matches Ok(comp) ==> comp.clauses@.len() >= 1,
{
    let me = match parse_expression(toks, 0) {
        Some(me) => me,
        None => return Err(CompError { kind: ErrorKind::MalformedSubExpression, pos: 0 }),
    };
    let mut cursor = me;
    let clauses = parse_clauses(toks, &mut cursor)?;
    if cursor != toks.len() {
        return Err(CompError { kind: ErrorKind::MissingKeyword, pos: cursor });
    }
    let mapping = Mapping { expr: tokens_between(toks, 0, me) };
    Ok(Comp { mapping, clauses })
}

} // verus!
