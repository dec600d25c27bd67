//! Nested-list expressions: atoms and ordered lists, with a canonical printer.

use vstd::prelude::*;
use vstd::string::StringExecFns;

verus! {

broadcast use vstd::std_specs::vec::group_vec_axioms;

/// Mathematical model of an expression: an atom is a sequence of characters,
/// a list is an ordered sequence of expressions.
pub enum Sx {
    Atom(Seq<char>),
    List(Seq<Sx>),
}

/// Characters that separate tokens.
pub open spec fn is_ws_char(c: char) -> bool {
    c == ' ' || c == '\t' || c == '\n' || c == '\r'
}

/// Characters that may stand inside an atom: anything that is not whitespace
/// and not a list delimiter.
pub open spec fn is_atom_char(c: char) -> bool {
    !is_ws_char(c) && c != '(' && c != ')'
}

/// A well-formed atom is a non-empty run of atom characters.
pub open spec fn wf_atom(a: Seq<char>) -> bool {
    a.len() > 0 && forall|i: int| 0 <= i < a.len() ==> is_atom_char(a[i])
}

/// A well-formed expression: every atom in the tree is well formed.
pub open spec fn wf_sx(x: Sx) -> bool
    decreases x,
{
    match x {
        Sx::Atom(a) => wf_atom(a),
        Sx::List(l) => forall|i: int| 0 <= i < l.len() ==> wf_sx(#[trigger] l[i]),
    }
}

/// Every expression of a sequence is well formed.
pub open spec fn wf_all(l: Seq<Sx>) -> bool {
    forall|i: int| 0 <= i < l.len() ==> wf_sx(#[trigger] l[i])
}

/// Canonical printed form: atoms print verbatim, lists print as parenthesized,
/// space-joined children.
pub open spec fn print_sx(x: Sx) -> Seq<char>
    decreases x, 0int,
{
    match x {
        Sx::Atom(a) => a,
        Sx::List(l) => seq!['('] + print_join(l, l.len() as int) + seq![')'],
    }
}

/// Space-joined printed forms of the first `n` expressions of `l`.
pub open spec fn print_join(l: Seq<Sx>, n: int) -> Seq<char>
    decreases l, n,
{
    if n <= 0 || n > l.len() {
        Seq::empty()
    } else if n == 1 {
        print_sx(l[0])
    } else {
        print_join(l, n - 1) + seq![' '] + print_sx(l[n - 1])
    }
}

/// An expression of the nested-list syntax: an atom (a text token) or an
/// ordered list of expressions.
#[derive(Debug)]
pub enum SExpr {
    Atom(String),
    List(Vec<SExpr>),
}

/// The model of an expression value.
pub open spec fn sx_of(e: SExpr) -> Sx
    decreases e,
{
    match e {
        SExpr::Atom(a) => Sx::Atom(a@),
        SExpr::List(l) => Sx::List(sxs_of(l@)),
    }
}

/// The models of a sequence of expression values, in order.
pub open spec fn sxs_of(es: Seq<SExpr>) -> Seq<Sx>
    decreases es,
{
    if es.len() == 0 {
        Seq::empty()
    } else {
        seq![sx_of(es[0])] + sxs_of(es.drop_first())
    }
}

/// `sxs_of` maps each element to its model, keeping length and order.
pub broadcast proof fn lemma_sxs_of_index(es: Seq<SExpr>)
    ensures
        (#[trigger] sxs_of(es)).len() == es.len(),
        forall|i: int| 0 <= i < es.len() ==> sxs_of(es)[i] == sx_of(es[i]),
    decreases es.len(),
{
    if es.len() > 0 {
        lemma_sxs_of_index(es.drop_first());
    }
}

impl View for SExpr {
    type V = Sx;

    open spec fn view(&self) -> Sx {
        sx_of(*self)
    }
}

/// Relies on String::push: appends exactly the one character.
#[verifier::external_body]
pub(crate) fn push_char(s: &mut String, c: char)
    ensures
        final(s)@ == old(s)@.push(c),
{
    s.push(c);
}

/// Clones every expression of a list, preserving the models.
fn clone_sexprs(l: &Vec<SExpr>) -> (r: Vec<SExpr>)
    ensures
        r@.len() == l@.len(),
        forall|j: int| 0 <= j < l@.len() ==> r@[j]@ == l@[j]@,
    decreases l,
{
    let mut out: Vec<SExpr> = Vec::new();
    let mut i: usize = 0;
    while i < l.len()
        invariant
            i <= l.len(),
            out@.len() == i as int,
            forall|j: int| 0 <= j < i ==> out@[j]@ == l@[j]@,
        decreases l.len() - i,
    {
        out.push(l[i].clone());
        i += 1;
    }
    out
}

impl Clone for SExpr {
    /// Cloning an expression preserves its model.
    fn clone(&self) -> (r: Self)
        ensures
            r@ == self@,
        decreases self,
    {
        match self {
            SExpr::Atom(a) => SExpr::Atom(a.clone()),
            SExpr::List(l) => {
                let out = clone_sexprs(l);
                proof {
                    lemma_sxs_of_index(out@);
                    lemma_sxs_of_index(l@);
                    assert(sxs_of(out@) =~= sxs_of(l@));
                }
                SExpr::List(out)
            },
        }
    }
}

impl SExpr {
    /// The atom's text, or an error naming the offending list.
    pub fn as_atom(&self) -> (r: Result<String, String>)
        ensures
            match r {
                Ok(a) => self@ is Atom && a@ == self@->Atom_0,
                Err(m) => self@ is List && m@ == "Expected an atom, got "@ + print_sx(self@),
            },
    {
        match self {
            SExpr::Atom(a) => Ok(a.clone()),
            SExpr::List(_) => {
                let mut m = String::from_str("Expected an atom, got ");
                m.append(self.to_text().as_str());
                Err(m)
            },
        }
    }

    /// The list's elements, or an error naming the atom found instead.
    pub fn as_list(&self) -> (r: Result<Vec<SExpr>, String>)
        ensures
            match r {
                Ok(l) => self@ is List && sxs_of(l@) == self@->List_0,
                Err(m) => self@ is Atom && m@ == "Expected a list, got "@ + self@->Atom_0,
            },
    {
        match self {
            SExpr::Atom(a) => {
                let mut m = String::from_str("Expected a list, got ");
                m.append(a.as_str());
                Err(m)
            },
            SExpr::List(l) => {
                let out = clone_sexprs(l);
                proof {
                    lemma_sxs_of_index(out@);
                    lemma_sxs_of_index(l@);
                    assert(sxs_of(out@) =~= self@->List_0);
                }
                Ok(out)
            },
        }
    }

    /// Splits a non-empty list into its atom head and the remaining elements.
    /// Fails when the expression is an atom, an empty list, or a list whose
    /// head is itself a list.
    pub fn as_atom_headed_list(&self) -> (r: Result<(String, Vec<SExpr>), String>)
        ensures
            match r {
                Ok(p) => {
                    &&& self@ is List
                    &&& self@->List_0.len() > 0
                    &&& self@->List_0[0] is Atom
                    &&& p.0@ == self@->List_0[0]->Atom_0
                    &&& sxs_of(p.1@) == self@->List_0.drop_first()
                },
                Err(m) => match self@ {
                    Sx::Atom(a) => m@ == "Expected a list, got "@ + a,
                    Sx::List(l) => {
                        if l.len() == 0 {
                            m@ == "Expected a non-empty list, got "@ + print_sx(self@)
                        } else {
                            l[0] is List && m@ == "Expected an atom, got "@ + print_sx(l[0])
                        }
                    },
                },
            },
    {
        let l = self.as_list()?;
        if l.len() == 0 {
            let mut m = String::from_str("Expected a non-empty list, got ");
            m.append(self.to_text().as_str());
            return Err(m);
        }
        let head = l[0].as_atom()?;
        let mut tail: Vec<SExpr> = Vec::new();
        let mut i: usize = 1;
        while i < l.len()
            invariant
                1 <= i <= l.len(),
                tail@.len() == i - 1,
                forall|j: int| 0 <= j < i - 1 ==> tail@[j]@ == l@[j + 1]@,
            decreases l.len() - i,
        {
            tail.push(l[i].clone());
            i += 1;
        }
        proof {
            lemma_sxs_of_index(tail@);
            lemma_sxs_of_index(l@);
            assert(sxs_of(tail@) =~= self@->List_0.drop_first());
        }
        Ok((head, tail))
    }

    /// Renders the expression in its canonical printed form.
    pub fn to_text(&self) -> (r: String)
        ensures
            r@ == print_sx(self@),
        decreases self,
    {
        match self {
            SExpr::Atom(a) => {
                let r = a.clone();
                proof {
                    assert(print_sx(self@) == a@);
                }
                r
            },
            SExpr::List(l) => {
                proof {
                    reveal_strlit("(");
                    reveal_strlit(")");
                }
                let mut s = String::from_str("(");
                proof {
                    assert(s@ =~= seq!['('] + print_join(sxs_of(l@), 0));
                }
                let body = texts_joined(l);
                s.append(body.as_str());
                s.append(")");
                proof {
                    assert(print_sx(self@) == seq!['('] + print_join(sxs_of(l@), sxs_of(l@).len() as int)
                        + seq![')']);
                    lemma_sxs_of_index(l@);
                    assert(s@ =~= print_sx(self@));
                }
                s
            },
        }
    }
}

/// Renders the expressions of a list, space-joined.
fn texts_joined(l: &Vec<SExpr>) -> (r: String)
    ensures
        r@ == print_join(sxs_of(l@), l@.len() as int),
    decreases l,
{
    let mut s = String::new();
    let ghost vl = sxs_of(l@);
    let mut i: usize = 0;
    while i < l.len()
        invariant
            i <= l.len(),
            vl == sxs_of(l@),
            s@ == print_join(vl, i as int),
        decreases l.len() - i,
    {
        proof {
            reveal_strlit(" ");
        }
        if i > 0 {
            s.append(" ");
        }
        let t = l[i].to_text();
        s.append(t.as_str());
        proof {
            lemma_sxs_of_index(l@);
            assert(vl[i as int] == l@[i as int]@);
            if i == 0 {
                assert(print_join(vl, 1) == print_sx(vl[0]));
                assert(s@ =~= print_join(vl, 1));
            } else {
                assert(s@ =~= print_join(vl, i + 1));
            }
        }
        i += 1;
    }
    proof {
        lemma_sxs_of_index(l@);
    }
    s
}

} // verus!
