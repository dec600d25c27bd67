//! Laws relating the printer, the tokenizer and the parser.
//!
//! The main result: printing a sequence of well-formed expressions yields a
//! balanced text whose tokens are exactly the expressions' tokens, and the
//! tokens determine the expressions.  Together with the parser's contract
//! this gives the round trip: re-parsing a printed parse yields the same
//! expression trees.

use vstd::prelude::*;
use crate::sexpr::{Sx, wf_sx, wf_all, wf_atom, is_atom_char, is_ws_char, print_sx, print_join};
use crate::toks::{Tok, TokSt, tok_init, tok_step, tok_fold, toks_of, sx_toks, seq_toks,
    cdelta, cdepth, prefixes_ok, char_balanced, lemma_fold_concat, lemma_cdepth_concat,
    lemma_cdepth_snoc, lemma_seq_toks_snoc};

verus! {

/// Folding a single character is a single step.
proof fn lemma_fold_one(c: char, st: TokSt)
    ensures
        tok_fold(seq![c], st) == tok_step(st, c),
{
    assert(seq![c].drop_first() =~= Seq::<char>::empty());
    assert(seq![c].first() == c);
    assert(tok_fold(Seq::<char>::empty(), tok_step(st, c)) == tok_step(st, c));
}

/// The depth of a single character is its weight.
proof fn lemma_cdepth_one(c: char)
    ensures
        cdepth(seq![c]) == cdelta(c),
{
    assert(seq![c].drop_last() =~= Seq::<char>::empty());
    assert(seq![c].last() == c);
    assert(cdepth(Seq::<char>::empty()) == 0);
}

/// The tokens of a single expression.
proof fn lemma_seq_toks_one(x: Sx)
    ensures
        seq_toks(seq![x]) == sx_toks(x),
{
    assert(seq![x].drop_last() =~= Seq::<Sx>::empty());
    assert(seq![x].last() == x);
    assert(seq_toks(Seq::<Sx>::empty()) =~= Seq::<Tok>::empty());
    assert(seq_toks(seq![x]) =~= sx_toks(x));
}

/// Folding atom characters while an atom is open extends that atom.
proof fn lemma_fold_atom_cont(a: Seq<char>, st: TokSt)
    requires
        forall|i: int| 0 <= i < a.len() ==> is_atom_char(a[i]),
        st.in_atom,
        st.toks.len() > 0,
        st.toks.last() is Atom,
    ensures
        tok_fold(a, st) == (TokSt {
            toks: st.toks.update(st.toks.len() - 1, Tok::Atom(st.toks.last()->Atom_0 + a)),
            in_atom: true,
        }),
    decreases a.len(),
{
    let last = st.toks.len() - 1;
    let va = st.toks.last()->Atom_0;
    if a.len() == 0 {
        assert(va + a =~= va);
        assert(st.toks.update(last, Tok::Atom(va)) =~= st.toks);
    } else {
        let c = a.first();
        assert(is_atom_char(a[0]));
        assert(!is_ws_char(c) && c != '(' && c != ')');
        let st1 = tok_step(st, c);
        assert(st1 == (TokSt { toks: st.toks.update(last, Tok::Atom(va.push(c))), in_atom: true }));
        assert(st1.toks.last() == Tok::Atom(va.push(c)));
        assert(forall|i: int| 0 <= i < a.drop_first().len() ==> is_atom_char(a.drop_first()[i]));
        lemma_fold_atom_cont(a.drop_first(), st1);
        assert(va.push(c) + a.drop_first() =~= va + a);
        assert(st1.toks.update(last, Tok::Atom(va + a)) =~= st.toks.update(last, Tok::Atom(va + a)));
    }
}

/// Folding a whole atom from a state with no open atom appends one atom token.
proof fn lemma_fold_atom(a: Seq<char>, st: TokSt)
    requires
        wf_atom(a),
        !st.in_atom,
    ensures
        tok_fold(a, st) == (TokSt { toks: st.toks.push(Tok::Atom(a)), in_atom: true }),
{
    let c = a.first();
    assert(is_atom_char(a[0]));
    assert(!is_ws_char(c) && c != '(' && c != ')');
    let st1 = tok_step(st, c);
    assert(st1 == (TokSt { toks: st.toks.push(Tok::Atom(seq![c])), in_atom: true }));
    assert(st1.toks.last() == Tok::Atom(seq![c]));
    assert(forall|i: int| 0 <= i < a.drop_first().len() ==> is_atom_char(a.drop_first()[i]));
    lemma_fold_atom_cont(a.drop_first(), st1);
    assert(seq![c] + a.drop_first() =~= a);
    assert(st1.toks.update(st1.toks.len() - 1, Tok::Atom(a)) =~= st.toks.push(Tok::Atom(a)));
}

/// Folding the printed form of a well-formed expression appends its tokens.
proof fn lemma_print_toks(x: Sx, st: TokSt)
    requires
        wf_sx(x),
        !st.in_atom,
    ensures
        tok_fold(print_sx(x), st).toks == st.toks + sx_toks(x),
    decreases x, 0int,
{
    match x {
        Sx::Atom(a) => {
            lemma_fold_atom(a, st);
            assert(st.toks.push(Tok::Atom(a)) =~= st.toks + sx_toks(x));
        },
        Sx::List(l) => {
            let p1 = seq!['('];
            let pj = print_join(l, l.len() as int);
            let p3 = seq![')'];
            lemma_fold_concat(p1 + pj, p3, st);
            lemma_fold_concat(p1, pj, st);
            // one step over the opening parenthesis
            lemma_fold_one('(', st);
            let st1 = tok_step(st, '(');
            assert(st1 == (TokSt { toks: st.toks.push(Tok::Open), in_atom: false }));
            lemma_print_join_toks(l, l.len() as int, st1);
            let st2 = tok_fold(pj, st1);
            // one step over the closing parenthesis
            lemma_fold_one(')', st2);
            assert(l.take(l.len() as int) =~= l);
            assert(tok_step(st2, ')').toks =~= st.toks + sx_toks(x));
        },
    }
}

/// Folding the printed forms of the first `n` expressions appends their tokens.
proof fn lemma_print_join_toks(l: Seq<Sx>, n: int, st: TokSt)
    requires
        0 <= n <= l.len(),
        forall|i: int| 0 <= i < l.len() ==> wf_sx(#[trigger] l[i]),
        !st.in_atom,
    ensures
        tok_fold(print_join(l, n), st).toks == st.toks + seq_toks(l.take(n)),
    decreases l, n,
{
    if n == 0 {
        assert(l.take(0) =~= Seq::<Sx>::empty());
        assert(st.toks + seq_toks(l.take(0)) =~= st.toks);
    } else if n == 1 {
        lemma_print_toks(l[0], st);
        assert(l.take(1) =~= seq![l[0]]);
        lemma_seq_toks_one(l[0]);
    } else {
        let pa = print_join(l, n - 1);
        let sp = seq![' '];
        let px = print_sx(l[n - 1]);
        lemma_fold_concat(pa + sp, px, st);
        lemma_fold_concat(pa, sp, st);
        lemma_print_join_toks(l, n - 1, st);
        let sta = tok_fold(pa, st);
        lemma_fold_one(' ', sta);
        let stb = tok_step(sta, ' ');
        assert(stb.toks == sta.toks && !stb.in_atom);
        lemma_print_toks(l[n - 1], stb);
        assert(l.take(n) =~= l.take(n - 1).push(l[n - 1]));
        lemma_seq_toks_snoc(l.take(n - 1), l[n - 1]);
        assert(tok_fold(print_join(l, n), st).toks =~= st.toks + seq_toks(l.take(n)));
    }
}

/// A run of atom characters has no parenthesis weight anywhere.
proof fn lemma_atom_balance(a: Seq<char>)
    requires
        forall|i: int| 0 <= i < a.len() ==> is_atom_char(a[i]),
    ensures
        cdepth(a) == 0,
        prefixes_ok(a),
    decreases a.len(),
{
    if a.len() == 0 {
        assert forall|i: int| 0 <= i <= a.len() implies cdepth(#[trigger] a.take(i)) >= 0 by {
            assert(a.take(i) =~= a);
        }
    } else {
        let b = a.drop_last();
        assert(forall|i: int| 0 <= i < b.len() ==> is_atom_char(b[i]));
        lemma_atom_balance(b);
        assert(is_atom_char(a.last()));
        assert(cdelta(a.last()) == 0);
        assert forall|i: int| 0 <= i <= a.len() implies cdepth(#[trigger] a.take(i)) >= 0 by {
            if i <= b.len() {
                assert(a.take(i) =~= b.take(i));
            } else {
                assert(a.take(i) =~= a);
                assert(a =~= b.push(a.last()));
                lemma_cdepth_snoc(b, a.last());
            }
        }
        assert(a =~= b.push(a.last()));
        lemma_cdepth_snoc(b, a.last());
    }
}

/// Prefix balance is preserved by concatenation when the first part never
/// dips below zero and ends at or above zero.
proof fn lemma_prefixes_concat(a: Seq<char>, b: Seq<char>)
    requires
        prefixes_ok(a),
        prefixes_ok(b),
        cdepth(a) >= 0,
    ensures
        prefixes_ok(a + b),
{
    assert forall|i: int| 0 <= i <= (a + b).len() implies cdepth(#[trigger] (a + b).take(i)) >= 0 by {
        if i <= a.len() {
            assert((a + b).take(i) =~= a.take(i));
        } else {
            assert((a + b).take(i) =~= a + b.take(i - a.len()));
            lemma_cdepth_concat(a, b.take(i - a.len()));
        }
    }
}

/// The printed form of a well-formed expression is balanced.
proof fn lemma_print_balance(x: Sx)
    requires
        wf_sx(x),
    ensures
        cdepth(print_sx(x)) == 0,
        prefixes_ok(print_sx(x)),
    decreases x, 0int,
{
    match x {
        Sx::Atom(a) => {
            lemma_atom_balance(a);
        },
        Sx::List(l) => {
            let p1 = seq!['('];
            let pj = print_join(l, l.len() as int);
            let p3 = seq![')'];
            lemma_print_join_balance(l, l.len() as int);
            lemma_cdepth_one('(');
            assert(cdepth(p1) == 1);
            assert forall|i: int| 0 <= i <= p1.len() implies cdepth(#[trigger] p1.take(i)) >= 0 by {
                if i == 0 {
                    assert(p1.take(0) =~= Seq::<char>::empty());
                } else {
                    assert(p1.take(i) =~= p1);
                }
            }
            lemma_prefixes_concat(p1, pj);
            lemma_cdepth_concat(p1, pj);
            let q = p1 + pj;
            assert(cdepth(q) == 1);
            assert(print_sx(x) =~= q.push(')'));
            lemma_cdepth_snoc(q, ')');
            assert forall|i: int| 0 <= i <= print_sx(x).len()
                implies cdepth(#[trigger] print_sx(x).take(i)) >= 0 by {
                if i <= q.len() {
                    assert(print_sx(x).take(i) =~= q.take(i));
                } else {
                    assert(print_sx(x).take(i) =~= q.push(')'));
                    lemma_cdepth_snoc(q, ')');
                }
            }
        },
    }
}

/// The space-joined printed forms of well-formed expressions are balanced.
proof fn lemma_print_join_balance(l: Seq<Sx>, n: int)
    requires
        0 <= n <= l.len(),
        forall|i: int| 0 <= i < l.len() ==> wf_sx(#[trigger] l[i]),
    ensures
        cdepth(print_join(l, n)) == 0,
        prefixes_ok(print_join(l, n)),
    decreases l, n,
{
    if n == 0 {
        assert forall|i: int| 0 <= i <= print_join(l, 0).len()
            implies cdepth(#[trigger] print_join(l, 0).take(i)) >= 0 by {
            assert(print_join(l, 0).take(i) =~= print_join(l, 0));
        }
    } else if n == 1 {
        lemma_print_balance(l[0]);
    } else {
        let pa = print_join(l, n - 1);
        let sp = seq![' '];
        let px = print_sx(l[n - 1]);
        lemma_print_join_balance(l, n - 1);
        lemma_print_balance(l[n - 1]);
        lemma_cdepth_one(' ');
        assert(cdepth(sp) == 0);
        assert forall|i: int| 0 <= i <= sp.len() implies cdepth(#[trigger] sp.take(i)) >= 0 by {
            if i == 0 {
                assert(sp.take(0) =~= Seq::<char>::empty());
            } else {
                assert(sp.take(i) =~= sp);
            }
        }
        lemma_prefixes_concat(pa, sp);
        lemma_cdepth_concat(pa, sp);
        lemma_prefixes_concat(pa + sp, px);
        lemma_cdepth_concat(pa + sp, px);
    }
}

/// The tokens of the expressions of `l` from position `i` on.
pub open spec fn items_from(l: Seq<Sx>, i: int) -> Seq<Tok>
    decreases l.len() - i,
{
    if i < 0 || i >= l.len() {
        Seq::empty()
    } else {
        sx_toks(l[i]) + items_from(l, i + 1)
    }
}

/// Appending an expression appends its tokens, from any position.
proof fn lemma_items_from_snoc(l: Seq<Sx>, x: Sx, i: int)
    requires
        0 <= i <= l.len(),
    ensures
        items_from(l.push(x), i) == items_from(l, i) + sx_toks(x),
    decreases l.len() - i,
{
    let lp = l.push(x);
    if i == l.len() {
        assert(lp[i] == x);
        assert(items_from(lp, i + 1) =~= Seq::<Tok>::empty());
        assert(items_from(lp, i) =~= sx_toks(x));
        assert(items_from(l, i) + sx_toks(x) =~= sx_toks(x));
    } else {
        assert(lp[i] == l[i]);
        lemma_items_from_snoc(l, x, i + 1);
        assert(items_from(lp, i) =~= items_from(l, i) + sx_toks(x));
    }
}

/// The two token readings of an expression sequence agree.
proof fn lemma_items_from_all(l: Seq<Sx>)
    ensures
        items_from(l, 0) == seq_toks(l),
    decreases l.len(),
{
    if l.len() == 0 {
    } else {
        let b = l.drop_last();
        lemma_items_from_all(b);
        lemma_items_from_snoc(b, l.last(), 0);
        assert(b.push(l.last()) =~= l);
    }
}

/// An expression's tokens start with something other than a closing
/// delimiter, and are never empty.
proof fn lemma_sx_toks_first(x: Sx)
    ensures
        sx_toks(x).len() > 0,
        !(sx_toks(x)[0] is Close),
{
}

/// Token sequences are prefix-deterministic at the level of one expression:
/// equal continuations of equal token texts force equal expressions.
proof fn lemma_sx_det(x1: Sx, x2: Sx, r1: Seq<Tok>, r2: Seq<Tok>)
    requires
        sx_toks(x1) + r1 == sx_toks(x2) + r2,
    ensures
        x1 == x2,
        r1 == r2,
    decreases x1, 0int,
{
    let t1 = sx_toks(x1);
    let t2 = sx_toks(x2);
    let w = t1 + r1;
    match x1 {
        Sx::Atom(a1) => {
            assert(w[0] == Tok::Atom(a1));
            match x2 {
                Sx::Atom(a2) => {
                    assert((t2 + r2)[0] == Tok::Atom(a2));
                    assert(a1 == a2);
                    assert(t1.len() == 1 && t2.len() == 1);
                    assert(w.len() == t1.len() + r1.len());
                    assert((t2 + r2).len() == t2.len() + r2.len());
                    assert(r1.len() == r2.len());
                    assert forall|j: int| 0 <= j < r1.len() implies r1[j] == r2[j] by {
                        assert(w[1 + j] == r1[j]);
                        assert((t2 + r2)[1 + j] == r2[j]);
                    }
                    assert(r1 =~= r2);
                },
                Sx::List(_) => {
                    assert((t2 + r2)[0] == Tok::Open);
                    assert(false);
                },
            }
        },
        Sx::List(l1) => {
            assert(w[0] == Tok::Open);
            match x2 {
                Sx::Atom(a2) => {
                    assert((t2 + r2)[0] == Tok::Atom(a2));
                    assert(false);
                },
                Sx::List(l2) => {
                    lemma_items_from_all(l1);
                    lemma_items_from_all(l2);
                    let u1 = items_from(l1, 0) + seq![Tok::Close] + r1;
                    let u2 = items_from(l2, 0) + seq![Tok::Close] + r2;
                    assert(t1 + r1 =~= seq![Tok::Open] + u1);
                    assert(t2 + r2 =~= seq![Tok::Open] + u2);
                    assert(u1.len() == u2.len());
                    assert forall|j: int| 0 <= j < u1.len() implies u1[j] == u2[j] by {
                        assert((seq![Tok::Open] + u1)[1 + j] == u1[j]);
                        assert((seq![Tok::Open] + u2)[1 + j] == u2[j]);
                    }
                    assert(u1 =~= u2);
                    lemma_items_det(l1, 0, l2, 0, r1, r2);
                    assert(l1.subrange(0, l1.len() as int) =~= l1);
                    assert(l2.subrange(0, l2.len() as int) =~= l2);
                },
            }
        },
    }
}

/// Prefix determinism for the members of a list, up to the closing delimiter.
proof fn lemma_items_det(l1: Seq<Sx>, i1: int, l2: Seq<Sx>, i2: int, r1: Seq<Tok>, r2: Seq<Tok>)
    requires
        0 <= i1 <= l1.len(),
        0 <= i2 <= l2.len(),
        items_from(l1, i1) + seq![Tok::Close] + r1 == items_from(l2, i2) + seq![Tok::Close] + r2,
    ensures
        l1.subrange(i1, l1.len() as int) == l2.subrange(i2, l2.len() as int),
        r1 == r2,
    decreases l1, l1.len() - i1,
{
    let w1 = items_from(l1, i1) + seq![Tok::Close] + r1;
    let w2 = items_from(l2, i2) + seq![Tok::Close] + r2;
    if i1 == l1.len() {
        assert(items_from(l1, i1) =~= Seq::<Tok>::empty());
        assert(w1[0] == Tok::Close);
        if i2 < l2.len() {
            lemma_sx_toks_first(l2[i2]);
            assert(w2[0] == sx_toks(l2[i2])[0]);
            assert(false);
        }
        assert(items_from(l2, i2) =~= Seq::<Tok>::empty());
        assert(w1 =~= seq![Tok::Close] + r1);
        assert(w2 =~= seq![Tok::Close] + r2);
        assert(w1.len() == 1 + r1.len());
        assert(w2.len() == 1 + r2.len());
        assert(r1.len() == r2.len());
        assert forall|j: int| 0 <= j < r1.len() implies r1[j] == r2[j] by {
            assert((seq![Tok::Close] + r1)[1 + j] == r1[j]);
            assert((seq![Tok::Close] + r2)[1 + j] == r2[j]);
        }
        assert(r1 =~= r2);
        assert(l1.subrange(i1, l1.len() as int) =~= l2.subrange(i2, l2.len() as int));
    } else {
        if i2 == l2.len() {
            assert(items_from(l2, i2) =~= Seq::<Tok>::empty());
            assert(w2[0] == Tok::Close);
            lemma_sx_toks_first(l1[i1]);
            assert(w1[0] == sx_toks(l1[i1])[0]);
            assert(false);
        }
        let c1 = items_from(l1, i1 + 1) + seq![Tok::Close] + r1;
        let c2 = items_from(l2, i2 + 1) + seq![Tok::Close] + r2;
        assert(sx_toks(l1[i1]) + c1 =~= w1);
        assert(sx_toks(l2[i2]) + c2 =~= w2);
        lemma_sx_det(l1[i1], l2[i2], c1, c2);
        lemma_items_det(l1, i1 + 1, l2, i2 + 1, r1, r2);
        assert(l1.subrange(i1, l1.len() as int)
            =~= seq![l1[i1]] + l1.subrange(i1 + 1, l1.len() as int));
        assert(l2.subrange(i2, l2.len() as int)
            =~= seq![l2[i2]] + l2.subrange(i2 + 1, l2.len() as int));
    }
}

/// Prefix determinism for whole expression sequences.
proof fn lemma_top_det(l1: Seq<Sx>, i1: int, l2: Seq<Sx>, i2: int)
    requires
        0 <= i1 <= l1.len(),
        0 <= i2 <= l2.len(),
        items_from(l1, i1) == items_from(l2, i2),
    ensures
        l1.subrange(i1, l1.len() as int) == l2.subrange(i2, l2.len() as int),
    decreases l1.len() - i1,
{
    if i1 == l1.len() {
        if i2 < l2.len() {
            lemma_sx_toks_first(l2[i2]);
            assert(items_from(l2, i2).len() > 0);
            assert(false);
        }
        assert(l1.subrange(i1, l1.len() as int) =~= l2.subrange(i2, l2.len() as int));
    } else {
        if i2 == l2.len() {
            lemma_sx_toks_first(l1[i1]);
            assert(false);
        }
        let c1 = items_from(l1, i1 + 1);
        let c2 = items_from(l2, i2 + 1);
        lemma_sx_det(l1[i1], l2[i2], c1, c2);
        lemma_top_det(l1, i1 + 1, l2, i2 + 1);
        assert(l1.subrange(i1, l1.len() as int)
            =~= seq![l1[i1]] + l1.subrange(i1 + 1, l1.len() as int));
        assert(l2.subrange(i2, l2.len() as int)
            =~= seq![l2[i2]] + l2.subrange(i2 + 1, l2.len() as int));
    }
}

/// The tokens of a sequence of expressions determine that sequence.
pub proof fn lemma_toks_determine(l1: Seq<Sx>, l2: Seq<Sx>)
    requires
        seq_toks(l1) == seq_toks(l2),
    ensures
        l1 == l2,
{
    lemma_items_from_all(l1);
    lemma_items_from_all(l2);
    lemma_top_det(l1, 0, l2, 0);
    assert(l1.subrange(0, l1.len() as int) =~= l1);
    assert(l2.subrange(0, l2.len() as int) =~= l2);
}

/// Round trip: printing well-formed expressions gives a balanced text whose
/// tokens are exactly the expressions' tokens, and no other expression
/// sequence has those tokens.  By the parser's contract, parsing the space-
/// joined canonical prints of a parse result therefore succeeds and returns
/// expressions with the same models.
pub proof fn lemma_round_trip(es: Seq<Sx>)
    requires
        wf_all(es),
    ensures
        char_balanced(print_join(es, es.len() as int)),
        toks_of(print_join(es, es.len() as int)) == seq_toks(es),
        forall|es2: Seq<Sx>| #[trigger] seq_toks(es2) == seq_toks(es) ==> es2 == es,
{
    lemma_print_join_balance(es, es.len() as int);
    lemma_print_join_toks(es, es.len() as int, tok_init());
    assert(es.take(es.len() as int) =~= es);
    assert(toks_of(print_join(es, es.len() as int)) =~= seq_toks(es));
    assert forall|es2: Seq<Sx>| #[trigger] seq_toks(es2) == seq_toks(es) implies es2 == es by {
        lemma_toks_determine(es2, es);
    }
}

} // verus!
