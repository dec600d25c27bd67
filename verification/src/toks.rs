//! Token-level model of the nested-list syntax.
//!
//! The printed text of an expression tree is abstracted as a sequence of
//! tokens: opening and closing delimiters and atoms.  Tokenization is a fold
//! over the characters; parenthesis balance is a fold over the characters as
//! well.  Together they state exactly what the parser accepts and returns.

use vstd::prelude::*;
use crate::sexpr::{Sx, is_ws_char, is_atom_char};

verus! {

/// A token of the nested-list syntax.
pub enum Tok {
    Open,
    Close,
    Atom(Seq<char>),
}

/// Tokenizer state: the tokens read so far, and whether the last of them is
/// an atom still being extended.
pub struct TokSt {
    pub toks: Seq<Tok>,
    pub in_atom: bool,
}

/// The tokenizer's initial state.
pub open spec fn tok_init() -> TokSt {
    TokSt { toks: Seq::empty(), in_atom: false }
}

/// One tokenizer step: whitespace ends an atom, a delimiter is a token of its
/// own, and an atom character extends the pending atom or starts a new one.
pub open spec fn tok_step(st: TokSt, c: char) -> TokSt {
    if is_ws_char(c) {
        TokSt { toks: st.toks, in_atom: false }
    } else if c == '(' {
        TokSt { toks: st.toks.push(Tok::Open), in_atom: false }
    } else if c == ')' {
        TokSt { toks: st.toks.push(Tok::Close), in_atom: false }
    } else if st.in_atom && st.toks.len() > 0 && st.toks.last() is Atom {
        TokSt {
            toks: st.toks.update(st.toks.len() - 1, Tok::Atom(st.toks.last()->Atom_0.push(c))),
            in_atom: true,
        }
    } else {
        TokSt { toks: st.toks.push(Tok::Atom(seq![c])), in_atom: true }
    }
}

/// The tokenizer, folded over the characters from the left.
pub open spec fn tok_fold(s: Seq<char>, st: TokSt) -> TokSt
    decreases s.len(),
{
    if s.len() == 0 {
        st
    } else {
        tok_fold(s.drop_first(), tok_step(st, s.first()))
    }
}

/// The tokens of a text.
pub open spec fn toks_of(s: Seq<char>) -> Seq<Tok> {
    tok_fold(s, tok_init()).toks
}

/// The tokens of one expression.
pub open spec fn sx_toks(x: Sx) -> Seq<Tok>
    decreases x,
{
    match x {
        Sx::Atom(a) => seq![Tok::Atom(a)],
        Sx::List(l) => seq![Tok::Open] + seq_toks(l) + seq![Tok::Close],
    }
}

/// The tokens of a sequence of expressions, in order.
pub open spec fn seq_toks(xs: Seq<Sx>) -> Seq<Tok>
    decreases xs,
{
    if xs.len() == 0 {
        Seq::empty()
    } else {
        seq_toks(xs.drop_last()) + sx_toks(xs.last())
    }
}

/// The parenthesis weight of one character.
pub open spec fn cdelta(c: char) -> int {
    if c == '(' {
        1
    } else if c == ')' {
        -1
    } else {
        0
    }
}

/// The parenthesis depth at the end of a text.
pub open spec fn cdepth(s: Seq<char>) -> int
    decreases s.len(),
{
    if s.len() == 0 {
        0
    } else {
        cdepth(s.drop_last()) + cdelta(s.last())
    }
}

/// No prefix of the text closes more parentheses than it opens.
pub open spec fn prefixes_ok(s: Seq<char>) -> bool {
    forall|i: int| 0 <= i <= s.len() ==> cdepth(#[trigger] s.take(i)) >= 0
}

/// The text's parentheses are balanced: no prefix dips below zero and the
/// whole text closes every parenthesis it opens.
pub open spec fn char_balanced(s: Seq<char>) -> bool {
    prefixes_ok(s) && cdepth(s) == 0
}

/// Extending a text by one character adds that character's weight.
pub proof fn lemma_cdepth_snoc(s: Seq<char>, c: char)
    ensures
        cdepth(s.push(c)) == cdepth(s) + cdelta(c),
{
    assert(s.push(c).drop_last() =~= s);
    assert(s.push(c).last() == c);
}

/// Folding over a text extended by one character is one more step.
pub proof fn lemma_fold_snoc(s: Seq<char>, c: char, st: TokSt)
    ensures
        tok_fold(s.push(c), st) == tok_step(tok_fold(s, st), c),
    decreases s.len(),
{
    let t = s.push(c);
    if s.len() == 0 {
        assert(t.drop_first() =~= Seq::<char>::empty());
        assert(t.first() == c);
        assert(tok_fold(t, st) == tok_fold(t.drop_first(), tok_step(st, c)));
    } else {
        assert(t.drop_first() =~= s.drop_first().push(c));
        assert(t.first() == s.first());
        assert(tok_fold(t, st) == tok_fold(s.drop_first().push(c), tok_step(st, s.first())));
        lemma_fold_snoc(s.drop_first(), c, tok_step(st, s.first()));
        assert(tok_fold(s, st) == tok_fold(s.drop_first(), tok_step(st, s.first())));
    }
}

/// Folding over a concatenation folds over each part in turn.
pub proof fn lemma_fold_concat(a: Seq<char>, b: Seq<char>, st: TokSt)
    ensures
        tok_fold(a + b, st) == tok_fold(b, tok_fold(a, st)),
    decreases a.len(),
{
    if a.len() == 0 {
        assert(a + b =~= b);
    } else {
        assert((a + b).drop_first() =~= a.drop_first() + b);
        assert((a + b).first() == a.first());
        lemma_fold_concat(a.drop_first(), b, tok_step(st, a.first()));
    }
}

/// The tokens of a sequence extended by one expression.
pub proof fn lemma_seq_toks_snoc(xs: Seq<Sx>, x: Sx)
    ensures
        seq_toks(xs.push(x)) == seq_toks(xs) + sx_toks(x),
{
    assert(xs.push(x).drop_last() =~= xs);
    assert(xs.push(x).last() == x);
}

/// The depth of a concatenation is the sum of the parts' depths.
pub proof fn lemma_cdepth_concat(a: Seq<char>, b: Seq<char>)
    ensures
        cdepth(a + b) == cdepth(a) + cdepth(b),
    decreases b.len(),
{
    if b.len() == 0 {
        assert(a + b =~= a);
    } else {
        assert((a + b).drop_last() =~= a + b.drop_last());
        assert((a + b).last() == b.last());
        lemma_cdepth_concat(a, b.drop_last());
    }
}

} // verus!
