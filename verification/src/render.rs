//! Rendering declarations as a textual graph description.
//!
//! Each declaration becomes a record-shaped node label; each parent name
//! becomes a directed edge, hollow-headed when the parent names an interface.

use vstd::prelude::*;
use vstd::string::StringExecFns;
use crate::decl::{AccessModifier, Dtor, dtor_is_default, Ty, TyV, Arg, ArgV, Ctor, CtorV, Method,
    MethodV, Prop, PropV, TopLevel, TopLevelV, tl_name, args_view, ctors_view, methods_view,
    props_view, names_view, lemma_tys_view_index, tys_view};

verus! {

broadcast use vstd::std_specs::vec::group_vec_axioms;

/// The glyph of an access modifier.
pub open spec fn am_glyph(m: AccessModifier) -> Seq<char> {
    match m {
        AccessModifier::Public => "+"@,
        AccessModifier::Protected => "#"@,
        AccessModifier::Private => "-"@,
    }
}

/// The rendered form of a type: a plain name, or `head<args>`.
pub open spec fn ty_text(t: TyV) -> Seq<char>
    decreases t, 0int,
{
    match t {
        TyV::Base(n) => n,
        TyV::App(h, args) => ty_text(*h) + "<"@ + tys_text(args, args.len() as int) + ">"@,
    }
}

/// The comma-joined rendered forms of the first `n` types.
pub open spec fn tys_text(ts: Seq<TyV>, n: int) -> Seq<char>
    decreases ts, n,
{
    if n <= 0 || n > ts.len() {
        Seq::empty()
    } else if n == 1 {
        ty_text(ts[0])
    } else {
        tys_text(ts, n - 1) + ", "@ + ty_text(ts[n - 1])
    }
}

/// The rendered form of an argument: `name: type`, or the type alone for an
/// unnamed argument.
pub open spec fn arg_text(a: ArgV) -> Seq<char> {
    match a.name {
        Option::Some(n) => n + ": "@ + ty_text(a.ty),
        Option::None => ty_text(a.ty),
    }
}

/// The comma-joined rendered forms of the first `n` arguments.
pub open spec fn args_text(args: Seq<ArgV>, n: int) -> Seq<char>
    decreases n,
{
    if n <= 0 || n > args.len() {
        Seq::empty()
    } else if n == 1 {
        arg_text(args[0])
    } else {
        args_text(args, n - 1) + ", "@ + arg_text(args[n - 1])
    }
}

/// A method's line: glyph, name, arguments, and an arrow to the return type.
pub open spec fn method_text(m: MethodV) -> Seq<char> {
    am_glyph(m.modifier) + " "@ + m.name + "("@ + args_text(m.args, m.args.len() as int)
        + ") -> "@ + ty_text(m.ret)
}

/// A property's line: glyph, name and type.
pub open spec fn prop_text(p: PropV) -> Seq<char> {
    am_glyph(p.modifier) + " "@ + p.name + ": "@ + ty_text(p.ty)
}

/// A constructor's line, ended by a line break.
pub open spec fn ctor_text(c: CtorV, cname: Seq<char>) -> Seq<char> {
    am_glyph(c.modifier) + " "@ + cname + "("@ + args_text(c.args, c.args.len() as int) + ")\n"@
}

/// A destructor's line, ended by a line break.
pub open spec fn dtor_text(d: Dtor, cname: Seq<char>) -> Seq<char> {
    am_glyph(d.modifier) + " ~"@ + cname + "()\n"@
}

/// The newline-joined lines of the first `n` methods.
pub open spec fn methods_text(ms: Seq<MethodV>, n: int) -> Seq<char>
    decreases n,
{
    if n <= 0 || n > ms.len() {
        Seq::empty()
    } else if n == 1 {
        method_text(ms[0])
    } else {
        methods_text(ms, n - 1) + "\n"@ + method_text(ms[n - 1])
    }
}

/// The newline-joined lines of the first `n` properties.
pub open spec fn props_text(ps: Seq<PropV>, n: int) -> Seq<char>
    decreases n,
{
    if n <= 0 || n > ps.len() {
        Seq::empty()
    } else if n == 1 {
        prop_text(ps[0])
    } else {
        props_text(ps, n - 1) + "\n"@ + prop_text(ps[n - 1])
    }
}

/// The concatenated lines of the first `n` constructors.
pub open spec fn ctors_text(cs: Seq<CtorV>, n: int, cname: Seq<char>) -> Seq<char>
    decreases n,
{
    if n <= 0 || n > cs.len() {
        Seq::empty()
    } else {
        ctors_text(cs, n - 1, cname) + ctor_text(cs[n - 1], cname)
    }
}

/// The record label of a declaration's node.  A class label has three
/// compartments: name, properties, then constructors, the destructor line
/// only when it is not the absent default, and methods.  An interface label
/// has an empty middle compartment.
pub open spec fn node_label(t: TopLevelV) -> Seq<char> {
    match t {
        TopLevelV::Class { name, parents: _, ctors, dtor, methods, props } => {
            let third = ctors_text(ctors, ctors.len() as int, name) + (if !dtor_is_default(dtor) {
                dtor_text(dtor, name)
            } else {
                Seq::empty()
            }) + methods_text(methods, methods.len() as int);
            "{"@ + name + "|"@ + props_text(props, props.len() as int) + "|"@ + third + "}"@
        },
        TopLevelV::Interface { name, parents: _, methods } => {
            "{<<interface>>\n"@ + name + "||"@ + methods_text(methods, methods.len() as int)
                + "}"@
        },
    }
}

/// One inheritance edge: from the parent to the declaration, hollow-headed
/// when the parent names an interface.
pub open spec fn edge_text(parent: Seq<char>, name: Seq<char>, hollow: bool) -> Seq<char> {
    parent + " -> "@ + name + " [arrowtail="@ + (if hollow {
        "empty"@
    } else {
        "normal"@
    }) + ", dir=back];"@
}

/// A declaration's parent names.
pub open spec fn tl_parents(t: TopLevelV) -> Seq<Seq<char>> {
    match t {
        TopLevelV::Class { parents, .. } => parents,
        TopLevelV::Interface { parents, .. } => parents,
    }
}

/// A class's destructor descriptor (the default for an interface).
pub open spec fn class_dtor(t: TopLevelV) -> Dtor {
    match t {
        TopLevelV::Class { dtor, .. } => dtor,
        TopLevelV::Interface { .. } => crate::decl::dtor_default(),
    }
}

/// Every declaration built from an expression has the absent default
/// destructor: the grammar has no destructor form, so a class never renders
/// a destructor line.
pub proof fn lemma_built_dtor_default(x: crate::sexpr::Sx)
    ensures
        crate::decl::tl_of(x) matches Ok(t) ==> dtor_is_default(class_dtor(t)),
{
}

/// Default-destructor suppression: a class whose destructor is the absent
/// default renders exactly its constructors and methods in the third
/// compartment, with no destructor line.
pub proof fn lemma_default_dtor_suppressed(
    name: Seq<char>,
    parents: Seq<Seq<char>>,
    ctors: Seq<CtorV>,
    dtor: Dtor,
    methods: Seq<MethodV>,
    props: Seq<PropV>,
)
    requires
        dtor_is_default(dtor),
    ensures
        node_label(TopLevelV::Class { name, parents, ctors, dtor, methods, props }) == "{"@ + name
            + "|"@ + props_text(props, props.len() as int) + "|"@
            + ctors_text(ctors, ctors.len() as int, name)
            + methods_text(methods, methods.len() as int) + "}"@,
{
    let cs = ctors_text(ctors, ctors.len() as int, name);
    let ms = methods_text(methods, methods.len() as int);
    assert(cs + Seq::<char>::empty() + ms =~= cs + ms);
}

/// The glyph of an access modifier.
fn am_glyph_ex(m: AccessModifier) -> (r: &'static str)
    ensures
        r@ == am_glyph(m),
{
    match m {
        AccessModifier::Public => "+",
        AccessModifier::Protected => "#",
        AccessModifier::Private => "-",
    }
}

/// Renders a type.
#[verifier::loop_isolation(false)]
fn ty_text_ex(t: &Ty) -> (r: String)
    ensures
        r@ == ty_text(t@),
    decreases t,
{
    match t {
        Ty::Base(n) => n.clone(),
        Ty::App(h, args) => {
            let mut s = ty_text_ex(h);
            s.append("<");
            let ghost tv = tys_view(args@);
            proof {
                lemma_tys_view_index(args@);
                assert(s@ =~= ty_text(*t@->App_0) + "<"@ + tys_text(tv, 0));
            }
            let mut i: usize = 0;
            while i < args.len()
                invariant
                    i <= args@.len(),
                    s@ == ty_text(*t@->App_0) + "<"@ + tys_text(tv, i as int),
                decreases args@.len() - i,
            {
                if i > 0 {
                    s.append(", ");
                }
                let piece = ty_text_ex(&args[i]);
                s.append(piece.as_str());
                proof {
                    assert(tv[i as int] == args@[i as int]@);
                    if i == 0 {
                        assert(s@ =~= ty_text(*t@->App_0) + "<"@ + tys_text(tv, 1));
                    } else {
                        assert(s@ =~= ty_text(*t@->App_0) + "<"@ + tys_text(tv, i + 1));
                    }
                }
                i += 1;
            }
            s.append(">");
            proof {
                assert(s@ =~= ty_text(t@));
            }
            s
        },
    }
}

/// Renders an argument.
fn arg_text_ex(a: &Arg) -> (r: String)
    ensures
        r@ == arg_text(a@),
{
    match &a.0 {
        Option::Some(n) => {
            let mut s = n.clone();
            s.append(": ");
            let tt = ty_text_ex(&a.1);
            s.append(tt.as_str());
            s
        },
        Option::None => ty_text_ex(&a.1),
    }
}

/// Renders a comma-joined argument list.
#[verifier::loop_isolation(false)]
fn args_join(args: &Vec<Arg>) -> (r: String)
    ensures
        r@ == args_text(args_view(args@), args@.len() as int),
{
    let ghost av = args_view(args@);
    let mut s = String::new();
    proof {
        assert(s@ =~= args_text(av, 0));
    }
    let mut i: usize = 0;
    while i < args.len()
        invariant
            i <= args@.len(),
            s@ == args_text(av, i as int),
        decreases args@.len() - i,
    {
        if i > 0 {
            s.append(", ");
        }
        let piece = arg_text_ex(&args[i]);
        s.append(piece.as_str());
        proof {
            assert(av[i as int] == args@[i as int]@);
            if i == 0 {
                assert(s@ =~= args_text(av, 1));
            } else {
                assert(s@ =~= args_text(av, i + 1));
            }
        }
        i += 1;
    }
    s
}

/// Renders a method's line.
fn method_text_ex(m: &Method) -> (r: String)
    ensures
        r@ == method_text(m@),
{
    let mut s = String::from_str(am_glyph_ex(m.modifier));
    s.append(" ");
    s.append(m.name.as_str());
    s.append("(");
    let aj = args_join(&m.args);
    s.append(aj.as_str());
    s.append(") -> ");
    let rt = ty_text_ex(&m.ret);
    s.append(rt.as_str());
    proof {
        assert(s@ =~= method_text(m@));
    }
    s
}

/// Renders a property's line.
fn prop_text_ex(p: &Prop) -> (r: String)
    ensures
        r@ == prop_text(p@),
{
    let mut s = String::from_str(am_glyph_ex(p.modifier));
    s.append(" ");
    s.append(p.name.as_str());
    s.append(": ");
    let tt = ty_text_ex(&p.ty);
    s.append(tt.as_str());
    proof {
        assert(s@ =~= prop_text(p@));
    }
    s
}

/// Renders a constructor's line.
fn ctor_text_ex(c: &Ctor, cname: &String) -> (r: String)
    ensures
        r@ == ctor_text(c@, cname@),
{
    let mut s = String::from_str(am_glyph_ex(c.modifier));
    s.append(" ");
    s.append(cname.as_str());
    s.append("(");
    let aj = args_join(&c.args);
    s.append(aj.as_str());
    s.append(")\n");
    proof {
        assert(s@ =~= ctor_text(c@, cname@));
    }
    s
}

/// Whether a name stands among the given names.
#[verifier::loop_isolation(false)]
fn contains_name(names: &Vec<String>, p: &String) -> (r: bool)
    ensures
        r == names_view(names@).contains(p@),
{
    let mut i: usize = 0;
    while i < names.len()
        invariant
            i <= names@.len(),
            forall|j: int| 0 <= j < i ==> names_view(names@)[j] != p@,
        decreases names@.len() - i,
    {
        if names[i].eq(p) {
            proof {
                assert(names_view(names@)[i as int] == p@);
            }
            return true;
        }
        i += 1;
    }
    proof {
        assert(!names_view(names@).contains(p@));
    }
    false
}

impl TopLevel {
    /// Renders the declaration's record node label.
    #[verifier::loop_isolation(false)]
    #[verifier::rlimit(100)]
    pub fn uml_node(&self) -> (r: String)
        ensures
            r@ == node_label(self@),
    {
        match self {
            TopLevel::Class { name, parents: _, ctors, dtor, methods, props } => {
                let ghost pv = props_view(props@);
                let ghost cv = ctors_view(ctors@);
                let ghost mv = methods_view(methods@);
                let mut s = String::from_str("{");
                s.append(name.as_str());
                s.append("|");
                proof {
                    assert(s@ =~= "{"@ + name@ + "|"@ + props_text(pv, 0));
                }
                let mut i: usize = 0;
                while i < props.len()
                    invariant
                        i <= props@.len(),
                        s@ == "{"@ + name@ + "|"@ + props_text(pv, i as int),
                    decreases props@.len() - i,
                {
                    if i > 0 {
                        s.append("\n");
                    }
                    let piece = prop_text_ex(&props[i]);
                    s.append(piece.as_str());
                    proof {
                        assert(pv[i as int] == props@[i as int]@);
                        if i == 0 {
                            assert(s@ =~= "{"@ + name@ + "|"@ + props_text(pv, 1));
                        } else {
                            assert(s@ =~= "{"@ + name@ + "|"@ + props_text(pv, i + 1));
                        }
                    }
                    i += 1;
                }
                s.append("|");
                let ghost pre = "{"@ + name@ + "|"@ + props_text(pv, pv.len() as int) + "|"@;
                proof {
                    assert(s@ =~= pre + ctors_text(cv, 0, name@));
                }
                let mut i: usize = 0;
                while i < ctors.len()
                    invariant
                        i <= ctors@.len(),
                        s@ == pre + ctors_text(cv, i as int, name@),
                    decreases ctors@.len() - i,
                {
                    let piece = ctor_text_ex(&ctors[i], name);
                    s.append(piece.as_str());
                    proof {
                        assert(cv[i as int] == ctors@[i as int]@);
                        assert(s@ =~= pre + ctors_text(cv, i + 1, name@));
                    }
                    i += 1;
                }
                let ghost dpart = if !dtor_is_default(*dtor) {
                    dtor_text(*dtor, name@)
                } else {
                    Seq::<char>::empty()
                };
                if !dtor.is_default() {
                    s.append(am_glyph_ex(dtor.modifier));
                    s.append(" ~");
                    s.append(name.as_str());
                    s.append("()\n");
                }
                let ghost pre2 = pre + ctors_text(cv, cv.len() as int, name@) + dpart;
                proof {
                    assert(s@ =~= pre2 + methods_text(mv, 0));
                }
                let mut i: usize = 0;
                while i < methods.len()
                    invariant
                        i <= methods@.len(),
                        s@ == pre2 + methods_text(mv, i as int),
                    decreases methods@.len() - i,
                {
                    if i > 0 {
                        s.append("\n");
                    }
                    let piece = method_text_ex(&methods[i]);
                    s.append(piece.as_str());
                    proof {
                        assert(mv[i as int] == methods@[i as int]@);
                        if i == 0 {
                            assert(s@ =~= pre2 + methods_text(mv, 1));
                        } else {
                            assert(s@ =~= pre2 + methods_text(mv, i + 1));
                        }
                    }
                    i += 1;
                }
                s.append("}");
                proof {
                    assert(s@ =~= node_label(self@));
                }
                s
            },
            TopLevel::Interface { name, parents: _, methods } => {
                let ghost mv = methods_view(methods@);
                let mut s = String::from_str("{<<interface>>\n");
                s.append(name.as_str());
                s.append("||");
                let ghost pre = "{<<interface>>\n"@ + name@ + "||"@;
                proof {
                    assert(s@ =~= pre + methods_text(mv, 0));
                }
                let mut i: usize = 0;
                while i < methods.len()
                    invariant
                        i <= methods@.len(),
                        s@ == pre + methods_text(mv, i as int),
                    decreases methods@.len() - i,
                {
                    if i > 0 {
                        s.append("\n");
                    }
                    let piece = method_text_ex(&methods[i]);
                    s.append(piece.as_str());
                    proof {
                        assert(mv[i as int] == methods@[i as int]@);
                        if i == 0 {
                            assert(s@ =~= pre + methods_text(mv, 1));
                        } else {
                            assert(s@ =~= pre + methods_text(mv, i + 1));
                        }
                    }
                    i += 1;
                }
                s.append("}");
                proof {
                    assert(s@ =~= node_label(self@));
                }
                s
            },
        }
    }

    /// Renders one edge line for each parent name, in order; the edge is
    /// hollow-headed exactly when the parent's name is among the interfaces.
    #[verifier::loop_isolation(false)]
    pub fn uml_edges(&self, interfaces: &Vec<String>) -> (r: Vec<String>)
        ensures
            r@.len() == tl_parents(self@).len(),
            forall|i: int| 0 <= i < r@.len() ==> r@[i]@ == edge_text(
                tl_parents(self@)[i],
                tl_name(self@),
                names_view(interfaces@).contains(tl_parents(self@)[i]),
            ),
    {
        let parents = match self {
            TopLevel::Class { parents, .. } => parents,
            TopLevel::Interface { parents, .. } => parents,
        };
        let name = self.name();
        let mut out: Vec<String> = Vec::new();
        let mut i: usize = 0;
        while i < parents.len()
            invariant
                i <= parents@.len(),
                out@.len() == i as int,
                forall|j: int| 0 <= j < i ==> out@[j]@ == edge_text(
                    tl_parents(self@)[j],
                    tl_name(self@),
                    names_view(interfaces@).contains(tl_parents(self@)[j]),
                ),
            decreases parents@.len() - i,
        {
            let hollow = contains_name(interfaces, &parents[i]);
            let mut line = parents[i].clone();
            line.append(" -> ");
            line.append(name.as_str());
            line.append(" [arrowtail=");
            if hollow {
                line.append("empty");
            } else {
                line.append("normal");
            }
            line.append(", dir=back];");
            proof {
                assert(tl_parents(self@)[i as int] == parents@[i as int]@);
                assert(line@ =~= edge_text(
                    tl_parents(self@)[i as int],
                    tl_name(self@),
                    names_view(interfaces@).contains(tl_parents(self@)[i as int]),
                ));
            }
            out.push(line);
            i += 1;
        }
        out
    }
}

/// The models of a sequence of declarations.
pub open spec fn tls_view(ts: Seq<TopLevel>) -> Seq<TopLevelV> {
    Seq::new(ts.len(), |i: int| ts[i]@)
}

/// The names of the interface declarations, in order.
pub open spec fn iface_names(ts: Seq<TopLevelV>) -> Seq<Seq<char>>
    decreases ts.len(),
{
    if ts.len() == 0 {
        Seq::empty()
    } else {
        iface_names(ts.drop_last()) + (if ts.last() is Interface {
            seq![tl_name(ts.last())]
        } else {
            Seq::empty()
        })
    }
}

/// The escaped form of one character inside a quoted label.
pub open spec fn esc_char(c: char) -> Seq<char> {
    if c == '\n' {
        "\\n"@
    } else if c == '\t' {
        "\\t"@
    } else if c == '\r' {
        "\\r"@
    } else if c == '"' {
        "\\\""@
    } else if c == '\\' {
        "\\\\"@
    } else {
        seq![c]
    }
}

/// The escaped forms of the first `n` characters.
pub open spec fn esc(s: Seq<char>, n: int) -> Seq<char>
    decreases n,
{
    if n <= 0 || n > s.len() {
        Seq::empty()
    } else {
        esc(s, n - 1) + esc_char(s[n - 1])
    }
}

/// A label in double quotes, with line breaks, quotes and backslashes
/// escaped.
pub open spec fn quoted(s: Seq<char>) -> Seq<char> {
    "\""@ + esc(s, s.len() as int) + "\""@
}

/// The first `n` edge lines of a declaration, each ended by a line break.
pub open spec fn edge_lines(
    ps: Seq<Seq<char>>,
    name: Seq<char>,
    inames: Seq<Seq<char>>,
    n: int,
) -> Seq<char>
    decreases n,
{
    if n <= 0 || n > ps.len() {
        Seq::empty()
    } else {
        edge_lines(ps, name, inames, n - 1) + edge_text(ps[n - 1], name, inames.contains(ps[n - 1]))
            + "\n"@
    }
}

/// One declaration's part of the graph: its node statement and its edges.
pub open spec fn node_block(t: TopLevelV, inames: Seq<Seq<char>>) -> Seq<char> {
    "\t"@ + tl_name(t) + " [label="@ + quoted(node_label(t)) + ",shape=\"record\"];\n"@
        + edge_lines(tl_parents(t), tl_name(t), inames, tl_parents(t).len() as int)
}

/// The blocks of the first `n` declarations.
pub open spec fn blocks(ts: Seq<TopLevelV>, inames: Seq<Seq<char>>, n: int) -> Seq<char>
    decreases n,
{
    if n <= 0 || n > ts.len() {
        Seq::empty()
    } else {
        blocks(ts, inames, n - 1) + node_block(ts[n - 1], inames)
    }
}

/// The whole graph description: a directed-graph block holding each
/// declaration's node and edges, in input order, with the interface-name set
/// computed from the whole declaration list.
pub open spec fn graph_text(ts: Seq<TopLevelV>) -> Seq<char> {
    "digraph {\n"@ + blocks(ts, iface_names(ts), ts.len() as int) + "}\n"@
}

/// Quotes and escapes a label.
#[verifier::loop_isolation(false)]
fn quote_ex(label: &String) -> (r: String)
    ensures
        r@ == quoted(label@),
{
    let mut out = String::from_str("\"");
    let sl = label.as_str();
    let n = sl.unicode_len();
    proof {
        assert(out@ =~= "\""@ + esc(label@, 0));
    }
    let mut i: usize = 0;
    while i < n
        invariant
            n == label@.len(),
            sl@ == label@,
            i <= n,
            out@ == "\""@ + esc(label@, i as int),
        decreases n - i,
    {
        let c = sl.get_char(i);
        if c == '\n' {
            out.append("\\n");
        } else if c == '\t' {
            out.append("\\t");
        } else if c == '\r' {
            out.append("\\r");
        } else if c == '"' {
            out.append("\\\"");
        } else if c == '\\' {
            out.append("\\\\");
        } else {
            crate::sexpr::push_char(&mut out, c);
            proof {
                assert(esc_char(c) =~= seq![c]);
            }
        }
        proof {
            assert(out@ =~= "\""@ + esc(label@, i + 1));
        }
        i += 1;
    }
    out.append("\"");
    proof {
        assert(out@ =~= quoted(label@));
    }
    out
}

/// Renders the whole graph description for a list of declarations.
#[verifier::loop_isolation(false)]
#[verifier::rlimit(100)]
pub fn render_graph(tls: &Vec<TopLevel>) -> (r: String)
    ensures
        r@ == graph_text(tls_view(tls@)),
{
    let ghost tv = tls_view(tls@);
    // The interface-name set is computed from the whole list first.
    let mut interfaces: Vec<String> = Vec::new();
    let mut i: usize = 0;
    proof {
        assert(tv.take(0) =~= Seq::<TopLevelV>::empty());
        assert(names_view(interfaces@) =~= iface_names(tv.take(0)));
    }
    while i < tls.len()
        invariant
            i <= tls@.len(),
            tv == tls_view(tls@),
            names_view(interfaces@) == iface_names(tv.take(i as int)),
        decreases tls@.len() - i,
    {
        let ghost p0 = names_view(interfaces@);
        match &tls[i] {
            TopLevel::Interface { name, .. } => {
                interfaces.push(name.clone());
            },
            TopLevel::Class { .. } => {},
        }
        proof {
            assert(tv.take(i + 1).drop_last() =~= tv.take(i as int));
            assert(tv.take(i + 1).last() == tv[i as int]);
            if tv[i as int] is Interface {
                assert(names_view(interfaces@) =~= p0 + seq![tl_name(tv[i as int])]);
            } else {
                assert(names_view(interfaces@) =~= p0 + Seq::<Seq<char>>::empty());
            }
        }
        i += 1;
    }
    let ghost inames = iface_names(tv);
    proof {
        assert(tv.take(tls@.len() as int) =~= tv);
    }
    let mut s = String::from_str("digraph {\n");
    proof {
        assert(s@ =~= "digraph {\n"@ + blocks(tv, inames, 0));
    }
    let mut i: usize = 0;
    while i < tls.len()
        invariant
            i <= tls@.len(),
            tv == tls_view(tls@),
            inames == iface_names(tv),
            names_view(interfaces@) == inames,
            s@ == "digraph {\n"@ + blocks(tv, inames, i as int),
        decreases tls@.len() - i,
    {
        let t = &tls[i];
        let name = t.name();
        s.append("\t");
        s.append(name.as_str());
        s.append(" [label=");
        let label = t.uml_node();
        let q = quote_ex(&label);
        s.append(q.as_str());
        s.append(",shape=\"record\"];\n");
        let ghost pre = "digraph {\n"@ + blocks(tv, inames, i as int) + "\t"@ + tl_name(tv[i as int])
            + " [label="@ + quoted(node_label(tv[i as int])) + ",shape=\"record\"];\n"@;
        proof {
            assert(s@ =~= pre + edge_lines(tl_parents(tv[i as int]), tl_name(tv[i as int]), inames, 0));
        }
        let edges = t.uml_edges(&interfaces);
        let mut j: usize = 0;
        while j < edges.len()
            invariant
                j <= edges@.len(),
                s@ == pre + edge_lines(
                    tl_parents(tv[i as int]),
                    tl_name(tv[i as int]),
                    inames,
                    j as int,
                ),
            decreases edges@.len() - j,
        {
            s.append(edges[j].as_str());
            s.append("\n");
            proof {
                assert(s@ =~= pre + edge_lines(
                    tl_parents(tv[i as int]),
                    tl_name(tv[i as int]),
                    inames,
                    j + 1,
                ));
            }
            j += 1;
        }
        proof {
            assert(s@ =~= "digraph {\n"@ + blocks(tv, inames, i + 1));
        }
        i += 1;
    }
    s.append("}\n");
    proof {
        assert(s@ =~= graph_text(tv));
    }
    s
}

/// Interprets the expressions from position `i` on as declarations, stopping
/// at the first failure.
pub open spec fn builds(es: Seq<crate::sexpr::Sx>, i: int) -> Result<Seq<TopLevelV>, Seq<char>>
    decreases es.len() - i,
{
    if i < 0 || i >= es.len() {
        Ok(Seq::empty())
    } else {
        match crate::decl::tl_of(es[i]) {
            Err(e) => Err(e),
            Ok(t) => match builds(es, i + 1) {
                Err(e) => Err(e),
                Ok(rest) => Ok(seq![t] + rest),
            },
        }
    }
}

/// The whole pipeline: parses the text, interprets every expression as a
/// declaration, and renders the graph description.  Succeeds exactly when
/// the text parses and every declaration is well shaped; the output is the
/// graph of the parsed declarations, whose models the token equality pins
/// down.
#[verifier::loop_isolation(false)]
pub fn process(input: &str) -> (r: Result<String, String>)
    ensures
        match r {
            Ok(out) => {
                &&& crate::toks::char_balanced(input@)
                &&& exists|es: Seq<crate::sexpr::Sx>| {
                    &&& #[trigger] crate::toks::seq_toks(es) == crate::toks::toks_of(input@)
                    &&& crate::sexpr::wf_all(es)
                    &&& builds(es, 0) matches Ok(ts) && out@ == graph_text(ts)
                }
            },
            Err(m) => !crate::toks::char_balanced(input@) || (exists|es: Seq<crate::sexpr::Sx>| {
                &&& #[trigger] crate::toks::seq_toks(es) == crate::toks::toks_of(input@)
                &&& crate::sexpr::wf_all(es)
                &&& builds(es, 0) == Err::<Seq<TopLevelV>, Seq<char>>(m@)
            }),
        },
{
    let sexprs = match crate::sexpr::SExpr::parse_many(input) {
        Ok(es) => es,
        Err(m) => {
            return Err(m);
        },
    };
    let ghost esv = crate::sexpr::sxs_of(sexprs@);
    proof {
        crate::sexpr::lemma_sxs_of_index(sexprs@);
    }
    let mut tls: Vec<TopLevel> = Vec::new();
    let mut i: usize = 0;
    proof {
        assert(builds(esv, 0) == (match builds(esv, 0) {
            Ok(rest) => Ok::<Seq<TopLevelV>, Seq<char>>(tls_view(tls@) + rest),
            Err(e) => Err::<Seq<TopLevelV>, Seq<char>>(e),
        })) by {
            match builds(esv, 0) {
                Ok(rest) => {
                    assert(tls_view(tls@) + rest =~= rest);
                },
                Err(_) => {},
            }
        }
    }
    while i < sexprs.len()
        invariant
            i <= sexprs@.len(),
            esv == crate::sexpr::sxs_of(sexprs@),
            builds(esv, 0) == (match builds(esv, i as int) {
                Ok(rest) => Ok::<Seq<TopLevelV>, Seq<char>>(tls_view(tls@) + rest),
                Err(e) => Err::<Seq<TopLevelV>, Seq<char>>(e),
            }),
        decreases sexprs@.len() - i,
    {
        let t = match TopLevel::from_sexpr(sexprs[i].clone()) {
            Ok(t) => t,
            Err(m) => {
                proof {
                    assert(builds(esv, i as int) == Err::<Seq<TopLevelV>, Seq<char>>(m@));
                }
                return Err(m);
            },
        };
        let ghost t0 = tls@;
        tls.push(t);
        proof {
            assert(tls_view(tls@) =~= tls_view(t0).push(t@));
            match builds(esv, i + 1) {
                Ok(rest) => {
                    assert(builds(esv, i as int) == Ok::<Seq<TopLevelV>, Seq<char>>(
                        seq![t@] + rest,
                    ));
                    assert(tls_view(t0) + (seq![t@] + rest) =~= tls_view(tls@) + rest);
                },
                Err(e) => {
                    assert(builds(esv, i as int) == Err::<Seq<TopLevelV>, Seq<char>>(e));
                },
            }
        }
        i += 1;
    }
    proof {
        assert(builds(esv, sexprs@.len() as int) == Ok::<Seq<TopLevelV>, Seq<char>>(Seq::empty()));
        assert(tls_view(tls@) + Seq::<TopLevelV>::empty() =~= tls_view(tls@));
        assert(builds(esv, 0) == Ok::<Seq<TopLevelV>, Seq<char>>(tls_view(tls@)));
    }
    let out = render_graph(&tls);
    Ok(out)
}

} // verus!
