//! Typed declarations: access modifiers, types, members, and the builders
//! that interpret expressions as declarations.
//!
//! Every builder's contract is exact: a spec-level interpreter states, for
//! every expression, either the value built or the error text returned.

use vstd::prelude::*;
use vstd::string::StringExecFns;
use crate::sexpr::{SExpr, Sx, print_sx};

verus! {

broadcast use vstd::std_specs::vec::group_vec_axioms;

/// Member visibility; the default is public.
#[derive(Clone, Copy, Debug, PartialEq, Eq, Structural)]
pub enum AccessModifier {
    Public,
    Protected,
    Private,
}

impl Default for AccessModifier {
    /// The default visibility is public.
    fn default() -> (r: AccessModifier)
        ensures
            r == AccessModifier::Public,
    {
        AccessModifier::Public
    }
}

/// How a class destructor is declared.
#[derive(Clone, Copy, Debug, PartialEq, Eq, Structural)]
pub enum DtorKind {
    Custom,
    Default,
    Virtual,
    Deleted,
}

impl Default for DtorKind {
    /// The default destructor kind.
    fn default() -> (r: DtorKind)
        ensures
            r == DtorKind::Default,
    {
        DtorKind::Default
    }
}

/// A class destructor descriptor.
#[derive(Clone, Copy, Debug, PartialEq, Eq, Structural)]
pub struct Dtor {
    pub modifier: AccessModifier,
    pub kind: DtorKind,
}

/// The destructor value treated as absent: public and defaulted.
pub open spec fn dtor_default() -> Dtor {
    Dtor { modifier: AccessModifier::Public, kind: DtorKind::Default }
}

/// Whether a destructor is the absent default.
pub open spec fn dtor_is_default(d: Dtor) -> bool {
    d == dtor_default()
}

impl Default for Dtor {
    /// The default destructor: public and defaulted.
    fn default() -> (r: Dtor)
        ensures
            r == dtor_default(),
    {
        Dtor { modifier: AccessModifier::Public, kind: DtorKind::Default }
    }
}

impl Dtor {
    /// Whether this destructor is the absent default, which is not rendered.
    pub fn is_default(&self) -> (r: bool)
        ensures
            r == dtor_is_default(*self),
    {
        matches!(self.modifier, AccessModifier::Public) && matches!(self.kind, DtorKind::Default)
    }
}

/// Model of a type reference.
pub enum TyV {
    /// A generic type applied to arguments.
    App(Box<TyV>, Seq<TyV>),
    /// A plain named type.
    Base(Seq<char>),
}

/// A type reference: a plain name, or a head type applied to arguments.
#[derive(Debug)]
pub enum Ty {
    App(Box<Ty>, Vec<Ty>),
    Base(String),
}

/// The model of a type value.
pub open spec fn ty_view(t: Ty) -> TyV
    decreases t,
{
    match t {
        Ty::Base(s) => TyV::Base(s@),
        Ty::App(h, args) => TyV::App(Box::new(ty_view(*h)), tys_view(args@)),
    }
}

/// The models of a sequence of type values, in order.
pub open spec fn tys_view(ts: Seq<Ty>) -> Seq<TyV>
    decreases ts,
{
    if ts.len() == 0 {
        Seq::empty()
    } else {
        seq![ty_view(ts[0])] + tys_view(ts.drop_first())
    }
}

/// `tys_view` maps each element to its model, keeping length and order.
pub proof fn lemma_tys_view_index(ts: Seq<Ty>)
    ensures
        tys_view(ts).len() == ts.len(),
        forall|i: int| 0 <= i < ts.len() ==> tys_view(ts)[i] == ty_view(ts[i]),
    decreases ts.len(),
{
    if ts.len() > 0 {
        lemma_tys_view_index(ts.drop_first());
    }
}

impl View for Ty {
    type V = TyV;

    open spec fn view(&self) -> TyV {
        ty_view(*self)
    }
}

/// Model of an argument: an optional name and a type.
pub struct ArgV {
    pub name: Option<Seq<char>>,
    pub ty: TyV,
}

/// An argument of a constructor or method: an optional name and a type.
#[derive(Debug)]
pub struct Arg(pub Option<String>, pub Ty);

impl View for Arg {
    type V = ArgV;

    open spec fn view(&self) -> ArgV {
        ArgV {
            name: match self.0 {
                Option::Some(n) => Option::Some(n@),
                Option::None => Option::None,
            },
            ty: ty_view(self.1),
        }
    }
}

/// The models of a sequence of arguments.
pub open spec fn args_view(s: Seq<Arg>) -> Seq<ArgV> {
    Seq::new(s.len(), |i: int| s[i]@)
}

/// Model of a constructor.
pub struct CtorV {
    pub modifier: AccessModifier,
    pub args: Seq<ArgV>,
}

/// A class constructor: a visibility and its arguments.
#[derive(Debug)]
pub struct Ctor {
    pub modifier: AccessModifier,
    pub args: Vec<Arg>,
}

impl View for Ctor {
    type V = CtorV;

    open spec fn view(&self) -> CtorV {
        CtorV { modifier: self.modifier, args: args_view(self.args@) }
    }
}

/// Model of a method.
pub struct MethodV {
    pub modifier: AccessModifier,
    pub name: Seq<char>,
    pub args: Seq<ArgV>,
    pub ret: TyV,
}

/// A method: visibility, name, arguments and return type.
#[derive(Debug)]
pub struct Method {
    pub modifier: AccessModifier,
    pub name: String,
    pub args: Vec<Arg>,
    pub ret: Ty,
}

impl View for Method {
    type V = MethodV;

    open spec fn view(&self) -> MethodV {
        MethodV {
            modifier: self.modifier,
            name: self.name@,
            args: args_view(self.args@),
            ret: ty_view(self.ret),
        }
    }
}

/// Model of a property.
pub struct PropV {
    pub modifier: AccessModifier,
    pub name: Seq<char>,
    pub ty: TyV,
}

/// A property: visibility, name and type.
#[derive(Debug)]
pub struct Prop {
    pub modifier: AccessModifier,
    pub name: String,
    pub ty: Ty,
}

impl View for Prop {
    type V = PropV;

    open spec fn view(&self) -> PropV {
        PropV { modifier: self.modifier, name: self.name@, ty: ty_view(self.ty) }
    }
}

/// Splits an expression into an atom head and a body, as the builders do;
/// the error cases mirror `SExpr::as_atom_headed_list`.
pub open spec fn ahl_of(x: Sx) -> Result<(Seq<char>, Seq<Sx>), Seq<char>> {
    match x {
        Sx::Atom(a) => Err("Expected a list, got "@ + a),
        Sx::List(l) => {
            if l.len() == 0 {
                Err("Expected a non-empty list, got "@ + print_sx(x))
            } else if !(l[0] is Atom) {
                Err("Expected an atom, got "@ + print_sx(l[0]))
            } else {
                Ok((l[0]->Atom_0, l.drop_first()))
            }
        },
    }
}

/// Interprets an expression as a type: an atom is a plain type, a non-empty
/// list is its head type applied to the remaining types.
pub open spec fn ty_of(x: Sx) -> Result<TyV, Seq<char>>
    decreases x, 0int,
{
    match x {
        Sx::Atom(a) => Ok(TyV::Base(a)),
        Sx::List(l) => {
            if l.len() == 0 {
                Err("Expected a type, got ()"@)
            } else {
                match ty_of(l[0]) {
                    Err(e) => Err(e),
                    Ok(h) => match tys_of(l, 1) {
                        Err(e) => Err(e),
                        Ok(args) => Ok(TyV::App(Box::new(h), args)),
                    },
                }
            }
        },
    }
}

/// Interprets the expressions of `l` from position `i` on as types, stopping
/// at the first failure.
pub open spec fn tys_of(l: Seq<Sx>, i: int) -> Result<Seq<TyV>, Seq<char>>
    decreases l, l.len() - i,
{
    if i < 0 || i >= l.len() {
        Ok(Seq::empty())
    } else {
        match ty_of(l[i]) {
            Err(e) => Err(e),
            Ok(t) => match tys_of(l, i + 1) {
                Err(e) => Err(e),
                Ok(rest) => Ok(seq![t] + rest),
            },
        }
    }
}

/// Prepends already-built values to the result of building the rest.
pub open spec fn prepend_ok<T>(v: Seq<T>, r: Result<Seq<T>, Seq<char>>) -> Result<
    Seq<T>,
    Seq<char>,
> {
    match r {
        Ok(rest) => Ok(v + rest),
        Err(e) => Err(e),
    }
}

/// The result and error of a view-carrying builder, as models.
pub open spec fn rv<T: View>(r: Result<T, String>) -> Result<<T as View>::V, Seq<char>> {
    match r {
        Ok(t) => Ok(t@),
        Err(m) => Err(m@),
    }
}

/// Whether a text equals a keyword.
pub(crate) fn eq_str(a: &String, b: &str) -> (r: bool)
    ensures
        r == (a@ == b@),
{
    let bs: String = b.to_owned();
    a.eq(&bs)
}

impl Ty {
    /// Interprets an expression as a type.
    pub fn from_sexpr(s: SExpr) -> (r: Result<Ty, String>)
        ensures
            rv(r) == ty_of(s@),
    {
        ty_from(&s)
    }
}

/// Interprets an expression as a type, by reference.
#[verifier::loop_isolation(false)]
fn ty_from(e: &SExpr) -> (r: Result<Ty, String>)
    ensures
        rv(r) == ty_of(e@),
    decreases e,
{
    match e {
        SExpr::Atom(a) => Ok(Ty::Base(a.clone())),
        SExpr::List(l) => {
            if l.len() == 0 {
                return Err(String::from_str("Expected a type, got ()"));
            }
            let ghost lv = e@->List_0;
            proof {
                crate::sexpr::lemma_sxs_of_index(l@);
            }
            let head = match ty_from(&l[0]) {
                Ok(t) => t,
                Err(m) => {
                    return Err(m);
                },
            };
            let mut args: Vec<Ty> = Vec::new();
            let mut i: usize = 1;
            proof {
                lemma_tys_view_index(args@);
                assert(prepend_ok(tys_view(args@), tys_of(lv, 1)) == tys_of(lv, 1)) by {
                    match tys_of(lv, 1) {
                        Ok(rest) => {
                            assert(tys_view(args@) + rest =~= rest);
                        },
                        Err(_) => {},
                    }
                }
            }
            while i < l.len()
                invariant
                    1 <= i <= l@.len(),
                    lv == crate::sexpr::sxs_of(l@),
                    tys_of(lv, 1) == prepend_ok(tys_view(args@), tys_of(lv, i as int)),
                decreases l@.len() - i,
            {
                proof {
                    crate::sexpr::lemma_sxs_of_index(l@);
                }
                let t = match ty_from(&l[i]) {
                    Ok(t) => t,
                    Err(m) => {
                        proof {
                            assert(tys_of(lv, i as int) == Err::<Seq<TyV>, Seq<char>>(m@));
                        }
                        return Err(m);
                    },
                };
                let ghost args0 = args@;
                args.push(t);
                proof {
                    lemma_tys_view_index(args0);
                    lemma_tys_view_index(args@);
                    assert(args@ =~= args0.push(t));
                    assert(tys_view(args@) =~= tys_view(args0).push(ty_view(t)));
                    match tys_of(lv, i + 1) {
                        Ok(rest) => {
                            assert(tys_of(lv, i as int)
                                == Ok::<Seq<TyV>, Seq<char>>(seq![ty_view(t)] + rest));
                            assert(tys_view(args0) + (seq![ty_view(t)] + rest)
                                =~= tys_view(args@) + rest);
                        },
                        Err(e) => {
                            assert(tys_of(lv, i as int) == Err::<Seq<TyV>, Seq<char>>(e));
                        },
                    }
                }
                i += 1;
            }
            proof {
                assert(tys_of(lv, l@.len() as int) == Ok::<Seq<TyV>, Seq<char>>(Seq::empty()));
                assert(tys_view(args@) + Seq::<TyV>::empty() =~= tys_view(args@));
                assert(tys_of(lv, 1) == Ok::<Seq<TyV>, Seq<char>>(tys_view(args@)));
            }
            Ok(Ty::App(Box::new(head), args))
        },
    }
}

/// Interprets an expression as an argument: a bare type, or a two-element
/// list of name and type where the reserved name `_` means unnamed.
pub open spec fn arg_of(x: Sx) -> Result<ArgV, Seq<char>> {
    match x {
        Sx::Atom(a) => Ok(ArgV { name: Option::None, ty: TyV::Base(a) }),
        Sx::List(l) => {
            if l.len() != 2 {
                Err("Expected a named argument, got "@ + print_sx(x))
            } else {
                match ty_of(l[1]) {
                    Err(e) => Err(e),
                    Ok(t) => match l[0] {
                        Sx::Atom(n) => Ok(ArgV {
                            name: if n == "_"@ {
                                Option::None
                            } else {
                                Option::Some(n)
                            },
                            ty: t,
                        }),
                        Sx::List(_) => Err("Expected an atom, got "@ + print_sx(l[0])),
                    },
                }
            }
        },
    }
}

/// Interprets the expressions of `l` from position `i` on as arguments,
/// stopping at the first failure.
pub open spec fn args_of(l: Seq<Sx>, i: int) -> Result<Seq<ArgV>, Seq<char>>
    decreases l.len() - i,
{
    if i < 0 || i >= l.len() {
        Ok(Seq::empty())
    } else {
        match arg_of(l[i]) {
            Err(e) => Err(e),
            Ok(a) => match args_of(l, i + 1) {
                Err(e) => Err(e),
                Ok(rest) => Ok(seq![a] + rest),
            },
        }
    }
}

/// Interprets an expression as a constructor: `(ctor (arg ...))`.
pub open spec fn ctor_of(am: AccessModifier, x: Sx) -> Result<CtorV, Seq<char>> {
    match ahl_of(x) {
        Err(e) => Err(e),
        Ok((h, body)) => {
            if h != "ctor"@ || body.len() != 1 {
                Err("Expected a constructor, got "@ + print_sx(x))
            } else {
                match body[0] {
                    Sx::Atom(a) => Err("Expected a list, got "@ + a),
                    Sx::List(al) => match args_of(al, 0) {
                        Err(e) => Err(e),
                        Ok(args) => Ok(CtorV { modifier: am, args }),
                    },
                }
            }
        },
    }
}

/// Interprets an expression as a method: `(fn name (arg ...) ret)`.
pub open spec fn method_of(am: AccessModifier, x: Sx) -> Result<MethodV, Seq<char>> {
    match ahl_of(x) {
        Err(e) => Err(e),
        Ok((h, body)) => {
            if h != "fn"@ || body.len() != 3 {
                Err("Expected a method, got "@ + print_sx(x))
            } else {
                match body[1] {
                    Sx::Atom(a) => Err("Expected a list, got "@ + a),
                    Sx::List(al) => match body[0] {
                        Sx::List(_) => Err("Expected an atom, got "@ + print_sx(body[0])),
                        Sx::Atom(nm) => match args_of(al, 0) {
                            Err(e) => Err(e),
                            Ok(args) => match ty_of(body[2]) {
                                Err(e) => Err(e),
                                Ok(ret) => Ok(MethodV { modifier: am, name: nm, args, ret }),
                            },
                        },
                    },
                }
            }
        },
    }
}

/// Interprets an expression as a property: `(prop name type)`.
pub open spec fn prop_of(am: AccessModifier, x: Sx) -> Result<PropV, Seq<char>> {
    match ahl_of(x) {
        Err(e) => Err(e),
        Ok((h, body)) => {
            if h != "prop"@ || body.len() != 2 {
                Err("Expected a property, got "@ + print_sx(x))
            } else {
                match ty_of(body[1]) {
                    Err(e) => Err(e),
                    Ok(t) => match body[0] {
                        Sx::List(_) => Err("Expected an atom, got "@ + print_sx(body[0])),
                        Sx::Atom(nm) => Ok(PropV { modifier: am, name: nm, ty: t }),
                    },
                }
            }
        },
    }
}

impl Arg {
    /// Interprets an expression as an argument.
    pub fn from_sexpr(s: SExpr) -> (r: Result<Arg, String>)
        ensures
            rv(r) == arg_of(s@),
    {
        match &s {
            SExpr::Atom(a) => Ok(Arg(Option::None, Ty::Base(a.clone()))),
            SExpr::List(l) => {
                proof {
                    crate::sexpr::lemma_sxs_of_index(l@);
                }
                if l.len() != 2 {
                    let mut m = String::from_str("Expected a named argument, got ");
                    m.append(s.to_text().as_str());
                    return Err(m);
                }
                let ty = match ty_from(&l[1]) {
                    Ok(t) => t,
                    Err(m) => {
                        return Err(m);
                    },
                };
                match &l[0] {
                    SExpr::Atom(n) => {
                        let name = if eq_str(n, "_") {
                            Option::None
                        } else {
                            Option::Some(n.clone())
                        };
                        Ok(Arg(name, ty))
                    },
                    SExpr::List(_) => {
                        let mut m = String::from_str("Expected an atom, got ");
                        m.append(l[0].to_text().as_str());
                        Err(m)
                    },
                }
            },
        }
    }
}

/// Interprets every expression of a list as an argument.
#[verifier::loop_isolation(false)]
fn args_from(l: &Vec<SExpr>) -> (r: Result<Vec<Arg>, String>)
    ensures
        match r {
            Ok(v) => args_of(crate::sexpr::sxs_of(l@), 0)
                == Ok::<Seq<ArgV>, Seq<char>>(args_view(v@)),
            Err(m) => args_of(crate::sexpr::sxs_of(l@), 0) == Err::<Seq<ArgV>, Seq<char>>(m@),
        },
{
    let ghost lv = crate::sexpr::sxs_of(l@);
    let mut out: Vec<Arg> = Vec::new();
    let mut i: usize = 0;
    proof {
        crate::sexpr::lemma_sxs_of_index(l@);
        assert(prepend_ok(args_view(out@), args_of(lv, 0)) == args_of(lv, 0)) by {
            match args_of(lv, 0) {
                Ok(rest) => {
                    assert(args_view(out@) + rest =~= rest);
                },
                Err(_) => {},
            }
        }
    }
    while i < l.len()
        invariant
            0 <= i <= l@.len(),
            args_of(lv, 0) == prepend_ok(args_view(out@), args_of(lv, i as int)),
        decreases l@.len() - i,
    {
        let a = match Arg::from_sexpr(l[i].clone()) {
            Ok(a) => a,
            Err(m) => {
                proof {
                    assert(args_of(lv, i as int) == Err::<Seq<ArgV>, Seq<char>>(m@));
                }
                return Err(m);
            },
        };
        let ghost out0 = out@;
        out.push(a);
        proof {
            assert(out@ =~= out0.push(a));
            assert(args_view(out@) =~= args_view(out0).push(a@));
            match args_of(lv, i + 1) {
                Ok(rest) => {
                    assert(args_of(lv, i as int) == Ok::<Seq<ArgV>, Seq<char>>(seq![a@] + rest));
                    assert(args_view(out0) + (seq![a@] + rest) =~= args_view(out@) + rest);
                },
                Err(e) => {
                    assert(args_of(lv, i as int) == Err::<Seq<ArgV>, Seq<char>>(e));
                },
            }
        }
        i += 1;
    }
    proof {
        assert(args_of(lv, l@.len() as int) == Ok::<Seq<ArgV>, Seq<char>>(Seq::empty()));
        assert(args_view(out@) + Seq::<ArgV>::empty() =~= args_view(out@));
    }
    Ok(out)
}

impl Ctor {
    /// Interprets an expression as a constructor with the given visibility.
    pub fn from_sexpr(modifier: AccessModifier, s: SExpr) -> (r: Result<Ctor, String>)
        ensures
            rv(r) == ctor_of(modifier, s@),
    {
        let (head, body) = match s.as_atom_headed_list() {
            Ok(p) => p,
            Err(m) => {
                return Err(m);
            },
        };
        proof {
            crate::sexpr::lemma_sxs_of_index(body@);
        }
        if !eq_str(&head, "ctor") || body.len() != 1 {
            let mut m = String::from_str("Expected a constructor, got ");
            m.append(s.to_text().as_str());
            return Err(m);
        }
        let argsl = match body[0].as_list() {
            Ok(l) => l,
            Err(m) => {
                return Err(m);
            },
        };
        let args = match args_from(&argsl) {
            Ok(a) => a,
            Err(m) => {
                return Err(m);
            },
        };
        Ok(Ctor { modifier, args })
    }
}

impl Method {
    /// Interprets an expression as a method with the given visibility.
    pub fn from_sexpr(modifier: AccessModifier, s: SExpr) -> (r: Result<Method, String>)
        ensures
            rv(r) == method_of(modifier, s@),
    {
        let (head, body) = match s.as_atom_headed_list() {
            Ok(p) => p,
            Err(m) => {
                return Err(m);
            },
        };
        proof {
            crate::sexpr::lemma_sxs_of_index(body@);
        }
        if !eq_str(&head, "fn") || body.len() != 3 {
            let mut m = String::from_str("Expected a method, got ");
            m.append(s.to_text().as_str());
            return Err(m);
        }
        let argsl = match body[1].as_list() {
            Ok(l) => l,
            Err(m) => {
                return Err(m);
            },
        };
        let name = match body[0].as_atom() {
            Ok(n) => n,
            Err(m) => {
                return Err(m);
            },
        };
        let args = match args_from(&argsl) {
            Ok(a) => a,
            Err(m) => {
                return Err(m);
            },
        };
        let ret = match ty_from(&body[2]) {
            Ok(t) => t,
            Err(m) => {
                return Err(m);
            },
        };
        Ok(Method { modifier, name, args, ret })
    }
}

impl Prop {
    /// Interprets an expression as a property with the given visibility.
    pub fn from_sexpr(modifier: AccessModifier, s: SExpr) -> (r: Result<Prop, String>)
        ensures
            rv(r) == prop_of(modifier, s@),
    {
        let (head, body) = match s.as_atom_headed_list() {
            Ok(p) => p,
            Err(m) => {
                return Err(m);
            },
        };
        proof {
            crate::sexpr::lemma_sxs_of_index(body@);
        }
        if !eq_str(&head, "prop") || body.len() != 2 {
            let mut m = String::from_str("Expected a property, got ");
            m.append(s.to_text().as_str());
            return Err(m);
        }
        let ty = match ty_from(&body[1]) {
            Ok(t) => t,
            Err(m) => {
                return Err(m);
            },
        };
        let name = match body[0].as_atom() {
            Ok(n) => n,
            Err(m) => {
                return Err(m);
            },
        };
        Ok(Prop { modifier, name, ty })
    }
}

/// Model of a top-level declaration.
pub enum TopLevelV {
    Class {
        name: Seq<char>,
        parents: Seq<Seq<char>>,
        ctors: Seq<CtorV>,
        dtor: Dtor,
        methods: Seq<MethodV>,
        props: Seq<PropV>,
    },
    Interface { name: Seq<char>, parents: Seq<Seq<char>>, methods: Seq<MethodV> },
}

/// A top-level declaration: a class or an interface.
#[derive(Debug)]
pub enum TopLevel {
    Class {
        name: String,
        parents: Vec<String>,
        ctors: Vec<Ctor>,
        dtor: Dtor,
        methods: Vec<Method>,
        props: Vec<Prop>,
    },
    Interface { name: String, parents: Vec<String>, methods: Vec<Method> },
}

/// The models of a sequence of names.
pub open spec fn names_view(s: Seq<String>) -> Seq<Seq<char>> {
    Seq::new(s.len(), |i: int| s[i]@)
}

/// The models of a sequence of constructors.
pub open spec fn ctors_view(s: Seq<Ctor>) -> Seq<CtorV> {
    Seq::new(s.len(), |i: int| s[i]@)
}

/// The models of a sequence of methods.
pub open spec fn methods_view(s: Seq<Method>) -> Seq<MethodV> {
    Seq::new(s.len(), |i: int| s[i]@)
}

/// The models of a sequence of properties.
pub open spec fn props_view(s: Seq<Prop>) -> Seq<PropV> {
    Seq::new(s.len(), |i: int| s[i]@)
}

impl View for TopLevel {
    type V = TopLevelV;

    open spec fn view(&self) -> TopLevelV {
        match self {
            TopLevel::Class { name, parents, ctors, dtor, methods, props } => TopLevelV::Class {
                name: name@,
                parents: names_view(parents@),
                ctors: ctors_view(ctors@),
                dtor: *dtor,
                methods: methods_view(methods@),
                props: props_view(props@),
            },
            TopLevel::Interface { name, parents, methods } => TopLevelV::Interface {
                name: name@,
                parents: names_view(parents@),
                methods: methods_view(methods@),
            },
        }
    }
}

/// The members contributed by part of a class body, in encounter order.
pub struct MembersV {
    pub ctors: Seq<CtorV>,
    pub methods: Seq<MethodV>,
    pub props: Seq<PropV>,
}

/// No members.
pub open spec fn m3_empty() -> MembersV {
    MembersV { ctors: Seq::empty(), methods: Seq::empty(), props: Seq::empty() }
}

/// Members contributed by two parts in turn.
pub open spec fn m3_cat(a: MembersV, b: MembersV) -> MembersV {
    MembersV {
        ctors: a.ctors + b.ctors,
        methods: a.methods + b.methods,
        props: a.props + b.props,
    }
}

/// Chains two member-building results, stopping at the first failure.
pub open spec fn m3_seq(s: Result<MembersV, Seq<char>>, r: Result<MembersV, Seq<char>>) -> Result<
    MembersV,
    Seq<char>,
> {
    match s {
        Err(e) => Err(e),
        Ok(a) => match r {
            Err(e) => Err(e),
            Ok(b) => Ok(m3_cat(a, b)),
        },
    }
}

/// Prepends already-built members to the result of building the rest.
pub open spec fn m3_prepend(a: MembersV, r: Result<MembersV, Seq<char>>) -> Result<
    MembersV,
    Seq<char>,
> {
    match r {
        Err(e) => Err(e),
        Ok(b) => Ok(m3_cat(a, b)),
    }
}

/// Interprets one expression inside an access section.
pub open spec fn sec_one(am: AccessModifier, x: Sx) -> Result<MembersV, Seq<char>> {
    match ahl_of(x) {
        Err(e) => Err(e),
        Ok((h, _)) => {
            if h == "ctor"@ {
                match ctor_of(am, x) {
                    Err(e) => Err(e),
                    Ok(c) => Ok(MembersV { ctors: seq![c], ..m3_empty() }),
                }
            } else if h == "fn"@ {
                match method_of(am, x) {
                    Err(e) => Err(e),
                    Ok(m) => Ok(MembersV { methods: seq![m], ..m3_empty() }),
                }
            } else if h == "prop"@ {
                match prop_of(am, x) {
                    Err(e) => Err(e),
                    Ok(p) => Ok(MembersV { props: seq![p], ..m3_empty() }),
                }
            } else {
                Err("Expected a member, got "@ + print_sx(x))
            }
        },
    }
}

/// Interprets the expressions of an access section from position `i` on.
pub open spec fn sec_of(l: Seq<Sx>, i: int, am: AccessModifier) -> Result<MembersV, Seq<char>>
    decreases l.len() - i,
{
    if i < 0 || i >= l.len() {
        Ok(m3_empty())
    } else {
        m3_seq(sec_one(am, l[i]), sec_of(l, i + 1, am))
    }
}

/// Interprets one member expression of a class body: a public member, or a
/// `private`/`protected` section of members.
pub open spec fn cls_one(x: Sx) -> Result<MembersV, Seq<char>> {
    match ahl_of(x) {
        Err(e) => Err(e),
        Ok((h, body)) => {
            if h == "ctor"@ || h == "fn"@ || h == "prop"@ {
                sec_one(AccessModifier::Public, x)
            } else if h == "private"@ {
                sec_of(body, 0, AccessModifier::Private)
            } else if h == "protected"@ {
                sec_of(body, 0, AccessModifier::Protected)
            } else {
                Err("Expected a member, got "@ + print_sx(x))
            }
        },
    }
}

/// Interprets the member expressions of a class body from position `i` on.
pub open spec fn cls_of(l: Seq<Sx>, i: int) -> Result<MembersV, Seq<char>>
    decreases l.len() - i,
{
    if i < 0 || i >= l.len() {
        Ok(m3_empty())
    } else {
        m3_seq(cls_one(l[i]), cls_of(l, i + 1))
    }
}

/// Interprets the expressions of an interface body from position `i` on as
/// methods, stopping at the first failure.
pub open spec fn meths_of(l: Seq<Sx>, i: int) -> Result<Seq<MethodV>, Seq<char>>
    decreases l.len() - i,
{
    if i < 0 || i >= l.len() {
        Ok(Seq::empty())
    } else {
        match method_of(AccessModifier::Public, l[i]) {
            Err(e) => Err(e),
            Ok(m) => match meths_of(l, i + 1) {
                Err(e) => Err(e),
                Ok(rest) => Ok(seq![m] + rest),
            },
        }
    }
}

/// The position of the first element from `i` on that is not an atom, or the
/// length if all are atoms.
pub open spec fn first_non_atom(l: Seq<Sx>, i: int) -> int
    decreases l.len() - i,
{
    if i < 0 || i >= l.len() {
        l.len() as int
    } else if !(l[i] is Atom) {
        i
    } else {
        first_non_atom(l, i + 1)
    }
}

/// Interprets a top-level expression: a list headed by `class` or
/// `interface`, then the declaration name, then parent names (the atoms up
/// to the first list), then the members.
pub open spec fn tl_of(x: Sx) -> Result<TopLevelV, Seq<char>> {
    match ahl_of(x) {
        Err(e) => Err(e),
        Ok((h, body)) => {
            if body.len() == 0 {
                Err("Missing name in "@ + print_sx(x))
            } else {
                match body[0] {
                    Sx::List(_) => Err("Expected an atom, got "@ + print_sx(body[0])),
                    Sx::Atom(nm) => {
                        let k = first_non_atom(body, 1);
                        let parents = Seq::new((k - 1) as nat, |j: int| body[j + 1]->Atom_0);
                        if h == "class"@ {
                            match cls_of(body, k) {
                                Err(e) => Err(e),
                                Ok(m3) => Ok(TopLevelV::Class {
                                    name: nm,
                                    parents: parents,
                                    ctors: m3.ctors,
                                    dtor: dtor_default(),
                                    methods: m3.methods,
                                    props: m3.props,
                                }),
                            }
                        } else if h == "interface"@ {
                            match meths_of(body, k) {
                                Err(e) => Err(e),
                                Ok(ms) => Ok(TopLevelV::Interface {
                                    name: nm,
                                    parents: parents,
                                    methods: ms,
                                }),
                            }
                        } else {
                            Err("Expected a top-level expression, got "@ + print_sx(x))
                        }
                    },
                }
            }
        },
    }
}

/// The name of a declaration's model.
pub open spec fn tl_name(t: TopLevelV) -> Seq<char> {
    match t {
        TopLevelV::Class { name, .. } => name,
        TopLevelV::Interface { name, .. } => name,
    }
}

/// Chaining one built member reassociates into the accumulator.
proof fn lemma_m3_assoc(a: MembersV, b: MembersV, r: Result<MembersV, Seq<char>>)
    ensures
        m3_prepend(a, m3_seq(Ok(b), r)) == m3_prepend(m3_cat(a, b), r),
{
    match r {
        Err(_) => {},
        Ok(c) => {
            assert(m3_cat(a, m3_cat(b, c)) == m3_cat(m3_cat(a, b), c)) by {
                assert(a.ctors + (b.ctors + c.ctors) =~= (a.ctors + b.ctors) + c.ctors);
                assert(a.methods + (b.methods + c.methods) =~= (a.methods + b.methods) + c.methods);
                assert(a.props + (b.props + c.props) =~= (a.props + b.props) + c.props);
            }
        },
    }
}

/// Whether an expression is an atom.
fn is_atom_expr(e: &SExpr) -> (r: bool)
    ensures
        r == (e@ is Atom),
{
    match e {
        SExpr::Atom(_) => true,
        SExpr::List(_) => false,
    }
}

/// Interprets the expressions of an access section, appending the members to
/// the class's accumulated member lists.
#[verifier::loop_isolation(false)]
fn section_members(
    am: AccessModifier,
    mbody: &Vec<SExpr>,
    ctors: &mut Vec<Ctor>,
    methods: &mut Vec<Method>,
    props: &mut Vec<Prop>,
) -> (r: Result<(), String>)
    ensures
        match r {
            Ok(_) => {
                &&& sec_of(crate::sexpr::sxs_of(mbody@), 0, am) matches Ok(d)
                &&& ctors_view(final(ctors)@) == ctors_view(old(ctors)@)
                    + sec_of(crate::sexpr::sxs_of(mbody@), 0, am)->Ok_0.ctors
                &&& methods_view(final(methods)@) == methods_view(old(methods)@)
                    + sec_of(crate::sexpr::sxs_of(mbody@), 0, am)->Ok_0.methods
                &&& props_view(final(props)@) == props_view(old(props)@)
                    + sec_of(crate::sexpr::sxs_of(mbody@), 0, am)->Ok_0.props
            },
            Err(m) => sec_of(crate::sexpr::sxs_of(mbody@), 0, am) == Err::<MembersV, Seq<char>>(
                m@,
            ),
        },
{
    let ghost mbv = crate::sexpr::sxs_of(mbody@);
    let ghost c0 = ctors_view(ctors@);
    let ghost f0 = methods_view(methods@);
    let ghost p0 = props_view(props@);
    proof {
        crate::sexpr::lemma_sxs_of_index(mbody@);
    }
    let mut j: usize = 0;
    proof {
        let acc = MembersV {
            ctors: ctors_view(ctors@).skip(c0.len() as int),
            methods: methods_view(methods@).skip(f0.len() as int),
            props: props_view(props@).skip(p0.len() as int),
        };
        assert(sec_of(mbv, 0, am) == m3_prepend(acc, sec_of(mbv, 0, am))) by {
            match sec_of(mbv, 0, am) {
                Ok(d) => {
                    assert(acc.ctors =~= Seq::<CtorV>::empty());
                    assert(acc.methods =~= Seq::<MethodV>::empty());
                    assert(acc.props =~= Seq::<PropV>::empty());
                    assert(acc.ctors + d.ctors =~= d.ctors);
                    assert(acc.methods + d.methods =~= d.methods);
                    assert(acc.props + d.props =~= d.props);
                },
                Err(_) => {},
            }
        }
    }
    while j < mbody.len()
        invariant
            0 <= j <= mbody@.len(),
            ctors_view(ctors@).len() >= c0.len(),
            methods_view(methods@).len() >= f0.len(),
            props_view(props@).len() >= p0.len(),
            ctors_view(ctors@).take(c0.len() as int) == c0,
            methods_view(methods@).take(f0.len() as int) == f0,
            props_view(props@).take(p0.len() as int) == p0,
            sec_of(mbv, 0, am) == m3_prepend(
                MembersV {
                    ctors: ctors_view(ctors@).skip(c0.len() as int),
                    methods: methods_view(methods@).skip(f0.len() as int),
                    props: props_view(props@).skip(p0.len() as int),
                },
                sec_of(mbv, j as int, am),
            ),
        decreases mbody@.len() - j,
    {
        let ghost acc = MembersV {
            ctors: ctors_view(ctors@).skip(c0.len() as int),
            methods: methods_view(methods@).skip(f0.len() as int),
            props: props_view(props@).skip(p0.len() as int),
        };
        let (h2, _rest) = match mbody[j].as_atom_headed_list() {
            Ok(p) => p,
            Err(m) => {
                proof {
                    assert(sec_one(am, mbv[j as int]) == Err::<MembersV, Seq<char>>(m@));
                }
                return Err(m);
            },
        };
        if eq_str(&h2, "ctor") {
            let c = match Ctor::from_sexpr(am, mbody[j].clone()) {
                Ok(c) => c,
                Err(m) => {
                    proof {
                        assert(sec_one(am, mbv[j as int]) == Err::<MembersV, Seq<char>>(m@));
                    }
                    return Err(m);
                },
            };
            let ghost one = MembersV { ctors: seq![c@], methods: Seq::empty(), props: Seq::empty() };
            ctors.push(c);
            proof {
                assert(sec_one(am, mbv[j as int]) == Ok::<MembersV, Seq<char>>(one));
                lemma_m3_assoc(acc, one, sec_of(mbv, j + 1, am));
                assert(ctors_view(ctors@).take(c0.len() as int) =~= c0);
                assert(ctors_view(ctors@).skip(c0.len() as int) =~= m3_cat(acc, one).ctors);
                assert(methods_view(methods@).skip(f0.len() as int) =~= m3_cat(acc, one).methods);
                assert(props_view(props@).skip(p0.len() as int) =~= m3_cat(acc, one).props);
            }
        } else if eq_str(&h2, "fn") {
            let mm = match Method::from_sexpr(am, mbody[j].clone()) {
                Ok(mm) => mm,
                Err(m) => {
                    proof {
                        assert(sec_one(am, mbv[j as int]) == Err::<MembersV, Seq<char>>(m@));
                    }
                    return Err(m);
                },
            };
            let ghost one = MembersV {
                ctors: Seq::empty(),
                methods: seq![mm@],
                props: Seq::empty(),
            };
            methods.push(mm);
            proof {
                assert(sec_one(am, mbv[j as int]) == Ok::<MembersV, Seq<char>>(one));
                lemma_m3_assoc(acc, one, sec_of(mbv, j + 1, am));
                assert(methods_view(methods@).take(f0.len() as int) =~= f0);
                assert(ctors_view(ctors@).skip(c0.len() as int) =~= m3_cat(acc, one).ctors);
                assert(methods_view(methods@).skip(f0.len() as int) =~= m3_cat(acc, one).methods);
                assert(props_view(props@).skip(p0.len() as int) =~= m3_cat(acc, one).props);
            }
        } else if eq_str(&h2, "prop") {
            let p = match Prop::from_sexpr(am, mbody[j].clone()) {
                Ok(p) => p,
                Err(m) => {
                    proof {
                        assert(sec_one(am, mbv[j as int]) == Err::<MembersV, Seq<char>>(m@));
                    }
                    return Err(m);
                },
            };
            let ghost one = MembersV { ctors: Seq::empty(), methods: Seq::empty(), props: seq![p@] };
            props.push(p);
            proof {
                assert(sec_one(am, mbv[j as int]) == Ok::<MembersV, Seq<char>>(one));
                lemma_m3_assoc(acc, one, sec_of(mbv, j + 1, am));
                assert(props_view(props@).take(p0.len() as int) =~= p0);
                assert(ctors_view(ctors@).skip(c0.len() as int) =~= m3_cat(acc, one).ctors);
                assert(methods_view(methods@).skip(f0.len() as int) =~= m3_cat(acc, one).methods);
                assert(props_view(props@).skip(p0.len() as int) =~= m3_cat(acc, one).props);
            }
        } else {
            let mut m = String::from_str("Expected a member, got ");
            m.append(mbody[j].to_text().as_str());
            proof {
                assert(sec_one(am, mbv[j as int]) == Err::<MembersV, Seq<char>>(m@));
            }
            return Err(m);
        }
        j += 1;
    }
    proof {
        assert(sec_of(mbv, mbody@.len() as int, am) == Ok::<MembersV, Seq<char>>(m3_empty()));
        let acc = MembersV {
            ctors: ctors_view(ctors@).skip(c0.len() as int),
            methods: methods_view(methods@).skip(f0.len() as int),
            props: props_view(props@).skip(p0.len() as int),
        };
        assert(m3_cat(acc, m3_empty()) == acc) by {
            assert(acc.ctors + m3_empty().ctors =~= acc.ctors);
            assert(acc.methods + m3_empty().methods =~= acc.methods);
            assert(acc.props + m3_empty().props =~= acc.props);
        }
        assert(ctors_view(ctors@) =~= c0 + acc.ctors);
        assert(methods_view(methods@) =~= f0 + acc.methods);
        assert(props_view(props@) =~= p0 + acc.props);
    }
    Ok(())
}

impl TopLevel {
    /// Interprets a top-level expression as a class or interface declaration.
    #[verifier::loop_isolation(false)]
    pub fn from_sexpr(s: SExpr) -> (r: Result<TopLevel, String>)
        ensures
            rv(r) == tl_of(s@),
    {
        let (head, body) = match s.as_atom_headed_list() {
            Ok(p) => p,
            Err(m) => {
                return Err(m);
            },
        };
        let ghost bv = crate::sexpr::sxs_of(body@);
        proof {
            crate::sexpr::lemma_sxs_of_index(body@);
        }
        if body.len() == 0 {
            let mut m = String::from_str("Missing name in ");
            m.append(s.to_text().as_str());
            return Err(m);
        }
        let name = match body[0].as_atom() {
            Ok(n) => n,
            Err(m) => {
                return Err(m);
            },
        };
        // The parent names: the atoms up to the first list member.
        let mut k: usize = 1;
        while k < body.len() && is_atom_expr(&body[k])
            invariant
                1 <= k <= body@.len(),
                first_non_atom(bv, 1) == first_non_atom(bv, k as int),
                forall|j: int| 1 <= j < k ==> bv[j] is Atom,
            decreases body@.len() - k,
        {
            proof {
                assert(bv[k as int] is Atom);
                assert(first_non_atom(bv, k as int) == first_non_atom(bv, k + 1));
            }
            k += 1;
        }
        proof {
            assert(first_non_atom(bv, 1) == k as int);
        }
        let mut parents: Vec<String> = Vec::new();
        let mut j: usize = 1;
        while j < k
            invariant
                1 <= j <= k,
                parents@.len() == j - 1,
                forall|t: int| 0 <= t < j - 1 ==> parents@[t]@ == bv[t + 1]->Atom_0,
            decreases k - j,
        {
            match &body[j] {
                SExpr::Atom(a) => {
                    parents.push(a.clone());
                },
                SExpr::List(_) => {
                    proof {
                        assert(body@[j as int]@ is List);
                        assert(bv[j as int] is Atom);
                        assert(false);
                    }
                },
            }
            j += 1;
        }
        let ghost pv = Seq::new((k - 1) as nat, |t: int| bv[t + 1]->Atom_0);
        proof {
            assert(names_view(parents@) =~= pv);
        }
        if eq_str(&head, "class") {
            let mut ctors: Vec<Ctor> = Vec::new();
            let mut methods: Vec<Method> = Vec::new();
            let mut props: Vec<Prop> = Vec::new();
            let mut i: usize = k;
            proof {
                assert(cls_of(bv, k as int) == m3_prepend(
                    MembersV {
                        ctors: ctors_view(ctors@),
                        methods: methods_view(methods@),
                        props: props_view(props@),
                    },
                    cls_of(bv, k as int),
                )) by {
                    match cls_of(bv, k as int) {
                        Ok(d) => {
                            assert(ctors_view(ctors@) + d.ctors =~= d.ctors);
                            assert(methods_view(methods@) + d.methods =~= d.methods);
                            assert(props_view(props@) + d.props =~= d.props);
                        },
                        Err(_) => {},
                    }
                }
            }
            while i < body.len()
                invariant
                    k <= i <= body@.len(),
                    cls_of(bv, k as int) == m3_prepend(
                        MembersV {
                            ctors: ctors_view(ctors@),
                            methods: methods_view(methods@),
                            props: props_view(props@),
                        },
                        cls_of(bv, i as int),
                    ),
                decreases body@.len() - i,
            {
                let ghost acc = MembersV {
                    ctors: ctors_view(ctors@),
                    methods: methods_view(methods@),
                    props: props_view(props@),
                };
                let (mh, mbody) = match body[i].as_atom_headed_list() {
                    Ok(p) => p,
                    Err(m) => {
                        proof {
                            assert(cls_one(bv[i as int]) == Err::<MembersV, Seq<char>>(m@));
                        }
                        return Err(m);
                    },
                };
                proof {
                    assert(ahl_of(bv[i as int]) == Ok::<(Seq<char>, Seq<Sx>), Seq<char>>(
                        (mh@, crate::sexpr::sxs_of(mbody@)),
                    ));
                }
                if eq_str(&mh, "ctor") {
                    let c = match Ctor::from_sexpr(AccessModifier::Public, body[i].clone()) {
                        Ok(c) => c,
                        Err(m) => {
                            proof {
                                assert(cls_one(bv[i as int]) == Err::<MembersV, Seq<char>>(m@));
                            }
                            return Err(m);
                        },
                    };
                    let ghost one = MembersV {
                        ctors: seq![c@],
                        methods: Seq::empty(),
                        props: Seq::empty(),
                    };
                    ctors.push(c);
                    proof {
                        assert(cls_one(bv[i as int]) == Ok::<MembersV, Seq<char>>(one));
                        lemma_m3_assoc(acc, one, cls_of(bv, i + 1));
                        assert(ctors_view(ctors@) =~= m3_cat(acc, one).ctors);
                        assert(methods_view(methods@) =~= m3_cat(acc, one).methods);
                        assert(props_view(props@) =~= m3_cat(acc, one).props);
                    }
                } else if eq_str(&mh, "fn") {
                    let mm = match Method::from_sexpr(AccessModifier::Public, body[i].clone()) {
                        Ok(mm) => mm,
                        Err(m) => {
                            proof {
                                assert(cls_one(bv[i as int]) == Err::<MembersV, Seq<char>>(m@));
                            }
                            return Err(m);
                        },
                    };
                    let ghost one = MembersV {
                        ctors: Seq::empty(),
                        methods: seq![mm@],
                        props: Seq::empty(),
                    };
                    methods.push(mm);
                    proof {
                        assert(cls_one(bv[i as int]) == Ok::<MembersV, Seq<char>>(one));
                        lemma_m3_assoc(acc, one, cls_of(bv, i + 1));
                        assert(ctors_view(ctors@) =~= m3_cat(acc, one).ctors);
                        assert(methods_view(methods@) =~= m3_cat(acc, one).methods);
                        assert(props_view(props@) =~= m3_cat(acc, one).props);
                    }
                } else if eq_str(&mh, "prop") {
                    let p = match Prop::from_sexpr(AccessModifier::Public, body[i].clone()) {
                        Ok(p) => p,
                        Err(m) => {
                            proof {
                                assert(cls_one(bv[i as int]) == Err::<MembersV, Seq<char>>(m@));
                            }
                            return Err(m);
                        },
                    };
                    let ghost one = MembersV {
                        ctors: Seq::empty(),
                        methods: Seq::empty(),
                        props: seq![p@],
                    };
                    props.push(p);
                    proof {
                        assert(cls_one(bv[i as int]) == Ok::<MembersV, Seq<char>>(one));
                        lemma_m3_assoc(acc, one, cls_of(bv, i + 1));
                        assert(ctors_view(ctors@) =~= m3_cat(acc, one).ctors);
                        assert(methods_view(methods@) =~= m3_cat(acc, one).methods);
                        assert(props_view(props@) =~= m3_cat(acc, one).props);
                    }
                } else if eq_str(&mh, "private") {
                    match section_members(
                        AccessModifier::Private,
                        &mbody,
                        &mut ctors,
                        &mut methods,
                        &mut props,
                    ) {
                        Ok(_) => {
                            proof {
                                let d = sec_of(
                                    crate::sexpr::sxs_of(mbody@),
                                    0,
                                    AccessModifier::Private,
                                )->Ok_0;
                                assert(cls_one(bv[i as int]) == Ok::<MembersV, Seq<char>>(d));
                                lemma_m3_assoc(acc, d, cls_of(bv, i + 1));
                                assert(ctors_view(ctors@) =~= m3_cat(acc, d).ctors);
                                assert(methods_view(methods@) =~= m3_cat(acc, d).methods);
                                assert(props_view(props@) =~= m3_cat(acc, d).props);
                            }
                        },
                        Err(m) => {
                            proof {
                                assert(cls_one(bv[i as int]) == Err::<MembersV, Seq<char>>(m@));
                            }
                            return Err(m);
                        },
                    }
                } else if eq_str(&mh, "protected") {
                    match section_members(
                        AccessModifier::Protected,
                        &mbody,
                        &mut ctors,
                        &mut methods,
                        &mut props,
                    ) {
                        Ok(_) => {
                            proof {
                                let d = sec_of(
                                    crate::sexpr::sxs_of(mbody@),
                                    0,
                                    AccessModifier::Protected,
                                )->Ok_0;
                                assert(cls_one(bv[i as int]) == Ok::<MembersV, Seq<char>>(d));
                                lemma_m3_assoc(acc, d, cls_of(bv, i + 1));
                                assert(ctors_view(ctors@) =~= m3_cat(acc, d).ctors);
                                assert(methods_view(methods@) =~= m3_cat(acc, d).methods);
                                assert(props_view(props@) =~= m3_cat(acc, d).props);
                            }
                        },
                        Err(m) => {
                            proof {
                                assert(cls_one(bv[i as int]) == Err::<MembersV, Seq<char>>(m@));
                            }
                            return Err(m);
                        },
                    }
                } else {
                    let mut m = String::from_str("Expected a member, got ");
                    m.append(body[i].to_text().as_str());
                    proof {
                        assert(cls_one(bv[i as int]) == Err::<MembersV, Seq<char>>(m@));
                    }
                    return Err(m);
                }
                i += 1;
            }
            proof {
                assert(cls_of(bv, body@.len() as int) == Ok::<MembersV, Seq<char>>(m3_empty()));
                let acc = MembersV {
                    ctors: ctors_view(ctors@),
                    methods: methods_view(methods@),
                    props: props_view(props@),
                };
                assert(m3_cat(acc, m3_empty()) == acc) by {
                    assert(acc.ctors + m3_empty().ctors =~= acc.ctors);
                    assert(acc.methods + m3_empty().methods =~= acc.methods);
                    assert(acc.props + m3_empty().props =~= acc.props);
                }
            }
            let dtor = Dtor { modifier: AccessModifier::Public, kind: DtorKind::Default };
            Ok(TopLevel::Class { name, parents, ctors, dtor, methods, props })
        } else if eq_str(&head, "interface") {
            let mut methods: Vec<Method> = Vec::new();
            let mut i: usize = k;
            proof {
                assert(prepend_ok(methods_view(methods@), meths_of(bv, k as int))
                    == meths_of(bv, k as int)) by {
                    match meths_of(bv, k as int) {
                        Ok(rest) => {
                            assert(methods_view(methods@) + rest =~= rest);
                        },
                        Err(_) => {},
                    }
                }
            }
            while i < body.len()
                invariant
                    k <= i <= body@.len(),
                    meths_of(bv, k as int) == prepend_ok(
                        methods_view(methods@),
                        meths_of(bv, i as int),
                    ),
                decreases body@.len() - i,
            {
                let mm = match Method::from_sexpr(AccessModifier::Public, body[i].clone()) {
                    Ok(mm) => mm,
                    Err(m) => {
                        proof {
                            assert(meths_of(bv, i as int) == Err::<Seq<MethodV>, Seq<char>>(m@));
                        }
                        return Err(m);
                    },
                };
                let ghost m0 = methods@;
                methods.push(mm);
                proof {
                    assert(methods_view(methods@) =~= methods_view(m0).push(mm@));
                    match meths_of(bv, i + 1) {
                        Ok(rest) => {
                            assert(meths_of(bv, i as int) == Ok::<Seq<MethodV>, Seq<char>>(
                                seq![mm@] + rest,
                            ));
                            assert(methods_view(m0) + (seq![mm@] + rest)
                                =~= methods_view(methods@) + rest);
                        },
                        Err(e) => {
                            assert(meths_of(bv, i as int) == Err::<Seq<MethodV>, Seq<char>>(e));
                        },
                    }
                }
                i += 1;
            }
            proof {
                assert(meths_of(bv, body@.len() as int) == Ok::<Seq<MethodV>, Seq<char>>(
                    Seq::empty(),
                ));
                assert(methods_view(methods@) + Seq::<MethodV>::empty() =~= methods_view(methods@));
            }
            Ok(TopLevel::Interface { name, parents, methods })
        } else {
            let mut m = String::from_str("Expected a top-level expression, got ");
            m.append(s.to_text().as_str());
            Err(m)
        }
    }

    /// The declaration's name.
    pub fn name(&self) -> (r: String)
        ensures
            r@ == tl_name(self@),
    {
        match self {
            TopLevel::Class { name, .. } => name.clone(),
            TopLevel::Interface { name, .. } => name.clone(),
        }
    }
}

} // verus!
