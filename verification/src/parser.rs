//! The expression parser.
//!
//! A single pass over the characters drives a stack machine: an opening
//! parenthesis starts a new list, a closing parenthesis finishes the current
//! one, atom characters accumulate into atoms.  The contract states exactly
//! when parsing succeeds (the parentheses are balanced) and what it returns
//! (the expressions whose tokens are the tokens of the input).

use vstd::prelude::*;
use vstd::string::StrSliceExecFns;
use vstd::string::StringExecFns;
use crate::sexpr::{SExpr, Sx, is_ws_char, wf_atom, wf_all, sx_of, sxs_of, lemma_sxs_of_index,
    push_char};
use crate::toks::{Tok, TokSt, tok_init, tok_fold, toks_of, sx_toks, seq_toks,
    cdepth, char_balanced, prefixes_ok, lemma_fold_snoc, lemma_cdepth_snoc,
    lemma_seq_toks_snoc};

verus! {

broadcast use vstd::std_specs::vec::group_vec_axioms;

/// The models of the expression lists held on the machine's stack.
pub open spec fn stack_views(st: Seq<Vec<SExpr>>) -> Seq<Seq<Sx>> {
    Seq::new(st.len(), |i: int| sxs_of(st[i]@))
}

/// The tokens already consumed by the enclosing, still unfinished lists:
/// each stacked frame contributes its members' tokens and the opening
/// parenthesis that started the next frame.
pub open spec fn frames_toks(fs: Seq<Seq<Sx>>) -> Seq<Tok>
    decreases fs.len(),
{
    if fs.len() == 0 {
        Seq::empty()
    } else {
        frames_toks(fs.drop_last()) + seq_toks(fs.last()) + seq![Tok::Open]
    }
}

/// All the tokens consumed by a machine state: the enclosing frames, the
/// members of the current list, and the pending atom if one is open.
pub open spec fn machine_toks(fs: Seq<Seq<Sx>>, cur: Seq<Sx>, atom: Seq<char>, in_atom: bool)
    -> Seq<Tok> {
    frames_toks(fs) + seq_toks(cur) + if in_atom {
        seq![Tok::Atom(atom)]
    } else {
        Seq::empty()
    }
}

/// Every member of every stacked frame is well formed.
pub open spec fn frames_wf(fs: Seq<Seq<Sx>>) -> bool {
    forall|i: int| 0 <= i < fs.len() ==> wf_all(#[trigger] fs[i])
}

/// Appending one model to a model sequence appends its model.
proof fn lemma_sxs_of_snoc(es: Seq<SExpr>, e: SExpr)
    ensures
        sxs_of(es.push(e)) == sxs_of(es).push(sx_of(e)),
{
    lemma_sxs_of_index(es.push(e));
    lemma_sxs_of_index(es);
    assert(sxs_of(es.push(e)) =~= sxs_of(es).push(sx_of(e)));
}

/// The decimal digit characters of a number, most significant first.
fn decimal(n: usize) -> (r: String)
    ensures
        r@.len() > 0,
{
    let mut digits: Vec<char> = Vec::new();
    let mut m: usize = n;
    if m == 0 {
        digits.push('0');
    }
    while m > 0
        invariant
            digits@.len() >= 1 || m >= 1,
        decreases m,
    {
        let d = m % 10;
        let c = match d {
            0 => '0',
            1 => '1',
            2 => '2',
            3 => '3',
            4 => '4',
            5 => '5',
            6 => '6',
            7 => '7',
            8 => '8',
            _ => '9',
        };
        digits.push(c);
        m = m / 10;
    }
    let mut s = String::new();
    let mut i: usize = digits.len();
    while i > 0
        invariant
            digits@.len() >= 1,
            i <= digits@.len(),
            s@.len() == digits@.len() - i,
        decreases i,
    {
        i -= 1;
        push_char(&mut s, digits[i]);
    }
    s
}

/// A parse error's text: the kind of fault and the character position.
fn parse_error_at(kind: &str, pos: usize) -> (r: String)
{
    let mut m = String::from_str(kind);
    m.append(" at position ");
    let p = decimal(pos);
    m.append(p.as_str());
    m
}

/// Whether a character separates tokens.
fn is_ws(c: char) -> (r: bool)
    ensures
        r == is_ws_char(c),
{
    c == ' ' || c == '\t' || c == '\n' || c == '\r'
}

/// The characters of a text, in order.
fn str_chars(s: &str) -> (r: Vec<char>)
    ensures
        r@ == s@,
{
    let n = s.unicode_len();
    let mut v: Vec<char> = Vec::new();
    let mut i: usize = 0;
    while i < n
        invariant
            n == s@.len(),
            i <= n,
            v@ == s@.take(i as int),
        decreases n - i,
    {
        let c = s.get_char(i);
        v.push(c);
        proof {
            assert(v@ =~= s@.take(i + 1));
        }
        i += 1;
    }
    proof {
        assert(s@.take(n as int) =~= s@);
    }
    v
}

impl SExpr {
    /// Parses a text as a sequence of consecutive expressions.
    ///
    /// Succeeds exactly when the text's parentheses are balanced; the
    /// result's expressions are well formed and carry exactly the tokens of
    /// the input.
    pub fn parse_many(s: &str) -> (r: Result<Vec<SExpr>, String>)
        ensures
            match r {
                Ok(es) => {
                    &&& char_balanced(s@)
                    &&& wf_all(sxs_of(es@))
                    &&& toks_of(s@) == seq_toks(sxs_of(es@))
                },
                Err(_) => !char_balanced(s@),
            },
    {
        let cs = str_chars(s);
        let n = cs.len();
        let mut stack: Vec<Vec<SExpr>> = Vec::new();
        let mut cur: Vec<SExpr> = Vec::new();
        let mut atom = String::new();
        let mut in_atom = false;
        let mut i: usize = 0;
        proof {
            assert(cs@.take(0) =~= Seq::<char>::empty());
            assert(sxs_of(cur@) =~= Seq::<Sx>::empty());
            assert(machine_toks(stack_views(stack@), sxs_of(cur@), atom@, false)
                =~= Seq::<Tok>::empty());
        }
        while i < n
            invariant
                cs@ == s@,
                n == cs@.len(),
                i <= n,
                tok_fold(cs@.take(i as int), tok_init()) == (TokSt {
                    toks: machine_toks(stack_views(stack@), sxs_of(cur@), atom@, in_atom),
                    in_atom: in_atom,
                }),
                in_atom ==> wf_atom(atom@),
                frames_wf(stack_views(stack@)),
                wf_all(sxs_of(cur@)),
                stack@.len() == cdepth(cs@.take(i as int)),
                forall|j: int| 0 <= j <= i ==> cdepth(#[trigger] cs@.take(j)) >= 0,
            decreases n - i,
        {
            let ghost pre = tok_fold(cs@.take(i as int), tok_init());
            let c = cs[i];
            proof {
                assert(cs@.take(i + 1) =~= cs@.take(i as int).push(c));
                lemma_fold_snoc(cs@.take(i as int), c, tok_init());
                lemma_cdepth_snoc(cs@.take(i as int), c);
            }
            let ws = is_ws(c);
            let catom = !ws && c != '(' && c != ')';
            if !catom && in_atom {
                // A delimiter or whitespace ends the pending atom.
                let ghost cur0 = sxs_of(cur@);
                let ghost curseq = cur@;
                let ghost a0 = atom@;
                let done = SExpr::Atom(atom);
                cur.push(done);
                atom = String::new();
                in_atom = false;
                proof {
                    assert(sx_of(cur@.last()) == Sx::Atom(a0));
                    lemma_sxs_of_snoc(curseq, cur@.last());
                    assert(sxs_of(cur@) == cur0.push(Sx::Atom(a0)));
                    lemma_seq_toks_snoc(cur0, Sx::Atom(a0));
                    assert(machine_toks(stack_views(stack@), sxs_of(cur@), atom@, false)
                        =~= pre.toks);
                    assert(wf_all(sxs_of(cur@)));
                }
            }
            if ws {
                proof {
                    assert(tok_fold(cs@.take(i + 1), tok_init()) == (TokSt {
                        toks: machine_toks(stack_views(stack@), sxs_of(cur@), atom@, in_atom),
                        in_atom: in_atom,
                    }));
                }
            } else if c == '(' {
                let ghost fs0 = stack_views(stack@);
                let ghost cur0 = sxs_of(cur@);
                stack.push(cur);
                cur = Vec::new();
                proof {
                    assert(stack_views(stack@) =~= fs0.push(cur0));
                    assert(stack_views(stack@).drop_last() =~= fs0);
                    assert(sxs_of(cur@) =~= Seq::<Sx>::empty());
                    assert(machine_toks(stack_views(stack@), sxs_of(cur@), atom@, in_atom)
                        =~= pre.toks.push(Tok::Open));
                }
            } else if c == ')' {
                if stack.len() == 0 {
                    proof {
                        assert(cdepth(cs@.take(i + 1)) < 0);
                        assert(s@.take(i + 1) == cs@.take(i + 1));
                        assert(!prefixes_ok(s@));
                    }
                    return Err(parse_error_at("Unexpected closing parenthesis", i));
                }
                let ghost fs0 = stack_views(stack@);
                let ghost cur0 = sxs_of(cur@);
                let mut up = stack.pop().unwrap();
                let ghost upseq = up@;
                let ghost upv = sxs_of(up@);
                proof {
                    assert(stack_views(stack@) =~= fs0.drop_last());
                    assert(fs0.last() == upv);
                }
                let finished = SExpr::List(cur);
                up.push(finished);
                cur = up;
                proof {
                    assert(sx_of(cur@.last()) == Sx::List(cur0));
                    lemma_sxs_of_snoc(upseq, cur@.last());
                    assert(sxs_of(cur@) == upv.push(Sx::List(cur0)));
                    lemma_seq_toks_snoc(upv, Sx::List(cur0));
                    assert(machine_toks(stack_views(stack@), sxs_of(cur@), atom@, in_atom)
                        =~= pre.toks.push(Tok::Close));
                    assert(wf_all(sxs_of(cur@)));
                }
            } else {
                if in_atom {
                    let ghost a0 = atom@;
                    push_char(&mut atom, c);
                    proof {
                        let fs = stack_views(stack@);
                        let cv = sxs_of(cur@);
                        assert(pre.toks =~= frames_toks(fs) + seq_toks(cv)
                            + seq![Tok::Atom(a0)]);
                        assert(pre.toks.len() > 0);
                        assert(pre.toks.last() == Tok::Atom(a0));
                        assert(machine_toks(fs, cv, atom@, true)
                            =~= pre.toks.update(pre.toks.len() - 1, Tok::Atom(a0.push(c))));
                        assert(wf_atom(atom@));
                    }
                } else {
                    atom = String::new();
                    push_char(&mut atom, c);
                    in_atom = true;
                    proof {
                        assert(atom@ =~= seq![c]);
                        assert(machine_toks(stack_views(stack@), sxs_of(cur@), atom@, true)
                            =~= pre.toks.push(Tok::Atom(seq![c])));
                        assert(wf_atom(atom@));
                    }
                }
            }
            i += 1;
        }
        proof {
            assert(cs@.take(n as int) =~= s@);
        }
        if in_atom {
            let ghost cur0 = sxs_of(cur@);
            let ghost curseq = cur@;
            let ghost a0 = atom@;
            let done = SExpr::Atom(atom);
            cur.push(done);
            in_atom = false;
            proof {
                assert(sx_of(cur@.last()) == Sx::Atom(a0));
                lemma_sxs_of_snoc(curseq, cur@.last());
                assert(sxs_of(cur@) == cur0.push(Sx::Atom(a0)));
                lemma_seq_toks_snoc(cur0, Sx::Atom(a0));
                assert(machine_toks(stack_views(stack@), sxs_of(cur@), a0, false)
                    =~= tok_fold(s@, tok_init()).toks);
                assert(wf_all(sxs_of(cur@)));
            }
        }
        if stack.len() > 0 {
            proof {
                assert(cdepth(s@) == stack@.len());
            }
            return Err(parse_error_at("Unclosed parenthesis", n));
        }
        proof {
            assert(stack_views(stack@) =~= Seq::<Seq<Sx>>::empty());
            assert(toks_of(s@) =~= seq_toks(sxs_of(cur@)));
            assert forall|j: int| 0 <= j <= s@.len() implies cdepth(#[trigger] s@.take(j)) >= 0 by {
                assert(s@.take(j) == cs@.take(j));
            }
            assert(cdepth(s@) == 0);
        }
        Ok(cur)
    }

    /// Parses a text as exactly one expression.
    ///
    /// Succeeds exactly when the text's parentheses are balanced and its
    /// tokens form one expression; that expression is returned.
    pub fn parse_one(s: &str) -> (r: Result<SExpr, String>)
        ensures
            match r {
                Ok(e) => {
                    &&& char_balanced(s@)
                    &&& crate::sexpr::wf_sx(e@)
                    &&& toks_of(s@) == sx_toks(e@)
                },
                Err(_) => !char_balanced(s@) || !(exists|x: Sx|
                    #[trigger] sx_toks(x) == toks_of(s@)),
            },
    {
        let mut es = match Self::parse_many(s) {
            Ok(es) => es,
            Err(m) => {
                return Err(m);
            },
        };
        let ghost esv = sxs_of(es@);
        proof {
            lemma_sxs_of_index(es@);
        }
        if es.len() == 1 {
            let e = es.pop().unwrap();
            proof {
                assert(esv =~= seq![e@]);
                assert(seq![e@].drop_last() =~= Seq::<Sx>::empty());
                assert(seq_toks(Seq::<Sx>::empty()) =~= Seq::<Tok>::empty());
                assert(seq_toks(esv) =~= sx_toks(e@));
            }
            Ok(e)
        } else {
            proof {
                if exists|x: Sx| #[trigger] sx_toks(x) == toks_of(s@) {
                    let x = choose|x: Sx| #[trigger] sx_toks(x) == toks_of(s@);
                    assert(seq![x].drop_last() =~= Seq::<Sx>::empty());
                    assert(seq_toks(Seq::<Sx>::empty()) =~= Seq::<Tok>::empty());
                    assert(seq_toks(seq![x]) =~= sx_toks(x));
                    crate::laws::lemma_toks_determine(seq![x], esv);
                    assert(false);
                }
            }
            Err(String::from_str("Expected exactly one expression"))
        }
    }
}

} // verus!
