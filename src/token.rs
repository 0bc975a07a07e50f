//! Top-level token trees, as plain values, and their rendering back into text.
use vstd::prelude::*;
use vstd::string::*;

verus! {

/// One top-level token tree of the input: its source text (a delimited group is a
/// single token holding its whole text) and whether it is a punctuation character
/// joined to the next token (the first `=` of `==`).
pub struct Tok {
    pub text: String,
    pub joint: bool,
}

impl Tok {
    pub fn new(text: String, joint: bool) -> (r: Tok)
        ensures
            r.text@ == text@,
            r.joint == joint,
    {
        Tok { text, joint }
    }

    /// An exact copy of the token.
    pub fn duplicate(&self) -> (r: Tok)
        ensures
            r == *self,
    {
        Tok { text: self.text.clone(), joint: self.joint }
    }
}

/// The token is the keyword `kw`.
pub open spec fn is_kw(t: Tok, kw: Seq<char>) -> bool {
    t.text@ == kw
}

/// The text a token contributes when rendered: its own text, then a space unless it
/// is joined to the next token.
pub open spec fn piece(t: Tok) -> Seq<char> {
    if t.joint {
        t.text@
    } else {
        t.text@ + " "@
    }
}

/// The text of a token sequence, which lexes back into the same token trees.
pub open spec fn rendered(s: Seq<Tok>) -> Seq<char>
    decreases s.len(),
{
    if s.len() == 0 {
        Seq::empty()
    } else {
        rendered(s.drop_last()) + piece(s.last())
    }
}

/// Whether `t` is the keyword `kw`.
pub fn is_keyword(t: &Tok, kw: &str) -> (r: bool)
    ensures
        r == is_kw(*t, kw@),
{
    let s = t.text.as_str();
    let n = s.unicode_len();
    if n != kw.unicode_len() {
        return false;
    }
    let mut i: usize = 0;
    while i < n
        invariant
            n == s@.len(),
            n == kw@.len(),
            s@ == t.text@,
            i <= n,
            s@.subrange(0, i as int) == kw@.subrange(0, i as int),
        decreases n - i,
    {
        if s.get_char(i) != kw.get_char(i) {
            return false;
        }
        proof {
            assert(s@.subrange(0, i + 1) =~= s@.subrange(0, i as int).push(s@[i as int]));
            assert(kw@.subrange(0, i + 1) =~= kw@.subrange(0, i as int).push(kw@[i as int]));
        }
        i += 1;
    }
    proof {
        assert(s@ =~= s@.subrange(0, n as int));
        assert(kw@ =~= kw@.subrange(0, n as int));
    }
    true
}

/// Renders the tokens `toks[from..to]` as text.
pub fn render(toks: &Vec<Tok>, from: usize, to: usize) -> (r: String)
    requires
        from <= to <= toks@.len(),
    ensures
        r@ == rendered(toks@.subrange(from as int, to as int)),
{
    let mut r = String::new();
    let mut i: usize = from;
    proof {
        assert(toks@.subrange(from as int, from as int) =~= Seq::<Tok>::empty());
    }
    while i < to
        invariant
            from <= i <= to <= toks@.len(),
            r@ == rendered(toks@.subrange(from as int, i as int)),
        decreases to - i,
    {
        let t = &toks[i];
        r.append(t.text.as_str());
        if !t.joint {
            r.append(" ");
        }
        proof {
            let next = toks@.subrange(from as int, i + 1);
            assert(next.drop_last() =~= toks@.subrange(from as int, i as int));
        }
        i += 1;
    }
    r
}

} // verus!
