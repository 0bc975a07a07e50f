//! Lowering of a parsed comprehension into the source text of an iterator
//! pipeline: one fused filter-and-map stage per clause, outermost clause first.
//!
//! ```text
//! ::core::iter::IntoIterator::into_iter(ITER).flat_map(move |PAT| (if true && (C1) && (C2) {
//!     ::core::option::Option::Some(BODY) } else { ::core::option::Option::None }))
//! ```
//!
//! `BODY` is the mapping for the innermost clause; for an outer clause it is the
//! pipeline of the next clause, and the stage flattens it.
use vstd::prelude::*;
use vstd::string::*;
use crate::token::{Tok, rendered, render};
use crate::grammar::{ClauseSpec, CompSpec, Comp, ForIfClause, Condition, spec_comp};

verus! {

/// The guard of a stage: `true`, then one `&& (C)` for each condition, in order.
/// `&&` evaluates the conditions left to right and stops at the first false one.
pub open spec fn guard(cs: Seq<Seq<Tok>>) -> Seq<char>
    decreases cs.len(),
{
    if cs.len() == 0 {
        "true "@
    } else {
        guard(cs.drop_last()) + conjunct(cs.last())
    }
}

/// The text that one condition adds to a guard.
pub open spec fn conjunct(c: Seq<Tok>) -> Seq<char> {
    "&& ("@ + rendered(c) + ") "@
}

/// The text of a stage before its body: the iterable, the pattern and the guard.
pub open spec fn stage_head(c: ClauseSpec) -> Seq<char> {
    "::core::iter::IntoIterator::into_iter("@ + rendered(c.iterable) + ").flat_map(move |"@
        + rendered(c.pattern) + "| (if "@ + guard(c.conditions)
        + "{ ::core::option::Option::Some("@
}

/// The text of a stage after its body; an outer stage flattens the inner pipeline.
pub open spec fn stage_tail(innermost: bool) -> Seq<char> {
    ") } else { ::core::option::Option::None })"@ + (if innermost {
        Seq::empty()
    } else {
        ".into_iter().flatten()"@
    }) + ")"@
}

/// One stage of the pipeline for clause `c` around `body`.
pub open spec fn stage(c: ClauseSpec, body: Seq<char>, innermost: bool) -> Seq<char> {
    stage_head(c) + body + stage_tail(innermost)
}

/// The pipeline of the clauses `cls` around the mapping.
pub open spec fn lowered(cls: Seq<ClauseSpec>, mapping: Seq<Tok>) -> Seq<char>
    decreases cls.len(),
{
    if cls.len() == 0 {
        rendered(mapping)
    } else {
        stage(cls[0], lowered(cls.drop_first(), mapping), cls.len() == 1)
    }
}

/// The output text of a comprehension.
pub open spec fn emitted(c: CompSpec) -> Seq<char> {
    lowered(c.clauses, c.mapping)
}

/// The conjuncts of a guard, one for each condition.
pub open spec fn conjuncts(cs: Seq<Seq<Tok>>) -> Seq<Seq<char>> {
    cs.map_values(|c: Seq<Tok>| conjunct(c))
}

/// The conditions of a clause survive lowering one for one: the guard of `N`
/// conditions is `true` followed by exactly `N` parenthesised conjuncts, the `i`-th
/// holding the text of the `i`-th condition.
pub proof fn lemma_guard_lists_conditions(cs: Seq<Seq<Tok>>)
    ensures
        guard(cs) == "true "@ + conjuncts(cs).flatten(),
        conjuncts(cs).len() == cs.len(),
        forall|i: int|
            0 <= i < cs.len() ==> #[trigger] conjuncts(cs)[i] == "&& ("@ + rendered(cs[i]) + ") "@,
    decreases cs.len(),
{
    if cs.len() > 0 {
        let init = cs.drop_last();
        lemma_guard_lists_conditions(init);
        assert(conjuncts(cs) =~= conjuncts(init).push(conjunct(cs.last())));
        conjuncts(init).lemma_flatten_push(conjunct(cs.last()));
        assert(guard(cs) =~= "true "@ + conjuncts(cs).flatten());
    } else {
        assert(conjuncts(cs) =~= Seq::<Seq<char>>::empty());
    }
}

/// The head of every clause's stage, with its guard, stands in the lowered text.
pub proof fn lemma_lowered_holds_each_stage(cls: Seq<ClauseSpec>, mapping: Seq<Tok>, k: int)
    requires
        0 <= k < cls.len(),
    ensures
        exists|a: Seq<char>, b: Seq<char>|
            lowered(cls, mapping) == #[trigger] (a + stage_head(cls[k]) + b),
    decreases cls.len(),
{
    let rest = cls.drop_first();
    let tail = stage_tail(cls.len() == 1);
    if k == 0 {
        let b = lowered(rest, mapping) + tail;
        assert(lowered(cls, mapping) =~= Seq::<char>::empty() + stage_head(cls[0]) + b);
    } else {
        lemma_lowered_holds_each_stage(rest, mapping, k - 1);
        let (a0, b0) = choose|a: Seq<char>, b: Seq<char>|
            lowered(rest, mapping) == #[trigger] (a + stage_head(rest[k - 1]) + b);
        assert(rest[k - 1] == cls[k]);
        let a = stage_head(cls[0]) + a0;
        let b = b0 + tail;
        assert(lowered(cls, mapping) =~= a + stage_head(cls[k]) + b);
    }
}

/// Parsing then lowering keeps every condition: for each clause of the parsed
/// comprehension, the output holds the guard of that clause, which is `true`
/// followed by one conjunct per condition parsed for it, in source order.
pub proof fn lemma_round_trip_conditions(s: Seq<Tok>, k: int)
    requires
        spec_comp(s) is Ok,
        0 <= k < spec_comp(s)->Ok_0.clauses.len(),
    ensures
        ({
            let cl = spec_comp(s)->Ok_0.clauses[k];
            &&& exists|a: Seq<char>, b: Seq<char>|
                emitted(spec_comp(s)->Ok_0) == #[trigger] (a + guard(cl.conditions) + b)
            &&& guard(cl.conditions) == "true "@ + conjuncts(cl.conditions).flatten()
            &&& conjuncts(cl.conditions).len() == cl.conditions.len()
            &&& forall|i: int|
                0 <= i < cl.conditions.len() ==> #[trigger] conjuncts(cl.conditions)[i] == "&& ("@
                    + rendered(cl.conditions[i]) + ") "@
        }),
{
    let c = spec_comp(s)->Ok_0;
    let cl = c.clauses[k];
    lemma_lowered_holds_each_stage(c.clauses, c.mapping, k);
    let (a, b) = choose|a: Seq<char>, b: Seq<char>|
        lowered(c.clauses, c.mapping) == #[trigger] (a + stage_head(cl) + b);
    let pre = a + "::core::iter::IntoIterator::into_iter("@ + rendered(cl.iterable)
        + ").flat_map(move |"@ + rendered(cl.pattern) + "| (if "@;
    let post = "{ ::core::option::Option::Some("@ + b;
    assert(emitted(c) =~= pre + guard(cl.conditions) + post);
    lemma_guard_lists_conditions(cl.conditions);
}

/// Appends the guard of `conds` to `out`.
fn emit_guard(conds: &Vec<Condition>, out: &mut String)
    ensures
        final(out)@ == old(out)@ + guard(conds@.map_values(|c: Condition| c.expr@)),
{
    let ghost start = out@;
    let ghost cs = conds@.map_values(|c: Condition| c.expr@);
    out.append("true ");
    let mut i: usize = 0;
    proof {
        assert(cs.subrange(0, 0) =~= Seq::<Seq<Tok>>::empty());
    }
    while i < conds.len()
        invariant
            i <= conds@.len(),
            cs == conds@.map_values(|c: Condition| c.expr@),
            out@ == start + guard(cs.subrange(0, i as int)),
        decreases conds@.len() - i,
    {
        let ghost before = out@;
        let c = &conds[i];
        out.append("&& (");
        out.append(render(&c.expr, 0, c.expr.len()).as_str());
        out.append(") ");
        proof {
            assert(c.expr@.subrange(0, c.expr@.len() as int) =~= c.expr@);
            let next = cs.subrange(0, i + 1);
            assert(next.drop_last() =~= cs.subrange(0, i as int));
            assert(out@ =~= start + guard(next));
        }
        i += 1;
    }
    proof {
        assert(cs.subrange(0, conds@.len() as int) =~= cs);
    }
}

/// Appends the head of the stage of `cl` to `out`.
fn emit_head(cl: &ForIfClause, out: &mut String)
    ensures
        final(out)@ == old(out)@ + stage_head(cl@),
{
    let ghost start = out@;
    out.append("::core::iter::IntoIterator::into_iter(");
    out.append(render(&cl.iterable, 0, cl.iterable.len()).as_str());
    out.append(").flat_map(move |");
    out.append(render(&cl.pattern.pat, 0, cl.pattern.pat.len()).as_str());
    out.append("| (if ");
    emit_guard(&cl.conditions, out);
    out.append("{ ::core::option::Option::Some(");
    proof {
        assert(cl.iterable@.subrange(0, cl.iterable@.len() as int) =~= cl.iterable@);
        assert(cl.pattern.pat@.subrange(0, cl.pattern.pat@.len() as int) =~= cl.pattern.pat@);
        assert(out@ =~= start + stage_head(cl@));
    }
}

/// Appends the tail of a stage to `out`.
fn emit_tail(innermost: bool, out: &mut String)
    ensures
        final(out)@ == old(out)@ + stage_tail(innermost),
{
    let ghost start = out@;
    out.append(") } else { ::core::option::Option::None })");
    if !innermost {
        out.append(".into_iter().flatten()");
    }
    out.append(")");
    proof {
        assert(out@ =~= start + stage_tail(innermost));
    }
}

/// Appends the pipeline of the clauses from `k` on to `out`.
fn emit_from(c: &Comp, k: usize, out: &mut String)
    requires
        k <= c.clauses@.len(),
    ensures
        final(out)@ == old(out)@ + lowered(
            c@.clauses.subrange(k as int, c@.clauses.len() as int),
            c@.mapping,
        ),
    decreases c.clauses@.len() - k,
{
    let ghost start = out@;
    let ghost rest = c@.clauses.subrange(k as int, c@.clauses.len() as int);
    if k == c.clauses.len() {
        out.append(render(&c.mapping.expr, 0, c.mapping.expr.len()).as_str());
        proof {
            assert(c.mapping.expr@.subrange(0, c.mapping.expr@.len() as int) =~= c.mapping.expr@);
        }
        return;
    }
    emit_head(&c.clauses[k], out);
    let ghost before_body = out@;
    emit_from(c, k + 1, out);
    let ghost after_body = out@;
    emit_tail(k + 1 == c.clauses.len(), out);
    proof {
        assert(rest[0] == c.clauses@[k as int]@);
        assert(rest.drop_first() =~= c@.clauses.subrange(k + 1, c@.clauses.len() as int));
        let body = lowered(rest.drop_first(), c@.mapping);
        assert(out@ =~= start + stage(rest[0], body, rest.len() == 1));
    }
}

/// The source text of the pipeline that a comprehension lowers to.
pub fn emit(c: &Comp) -> (r: String)
    requires
        c.clauses@.len() >= 1,
    ensures
        r@ == emitted(c@),
{
    let mut out = String::new();
    emit_from(c, 0, &mut out);
    proof {
        assert(c@.clauses.subrange(0, c@.clauses.len() as int) =~= c@.clauses);
        assert(out@ =~= Seq::<char>::empty() + emitted(c@));
    }
    out
}

} // verus!
