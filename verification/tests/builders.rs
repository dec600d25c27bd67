//! Tests of the declaration builders.

use luml::{AccessModifier, Arg, Ctor, Method, Prop, SExpr, TopLevel, Ty};

fn build(src: &str) -> Result<TopLevel, String> {
    TopLevel::from_sexpr(SExpr::parse_one(src).unwrap())
}

#[test]
fn parents_stop_at_first_list() {
    let t = build("(class Foo A B (fn f () int))").unwrap();
    match t {
        TopLevel::Class { name, parents, methods, .. } => {
            assert_eq!(name, "Foo");
            assert_eq!(parents, vec!["A".to_string(), "B".to_string()]);
            assert_eq!(methods.len(), 1);
        },
        TopLevel::Interface { .. } => panic!("expected a class"),
    }
}

#[test]
fn atom_after_member_is_rejected() {
    let err = build("(class Foo A (fn f () int) B)").unwrap_err();
    assert_eq!(err, "Expected a list, got B");
}

#[test]
fn missing_name_fails() {
    let err = build("(class)").unwrap_err();
    assert_eq!(err, "Missing name in (class)");
}

#[test]
fn bogus_member_fails() {
    let err = build("(class Foo (bogus 1 2))").unwrap_err();
    assert_eq!(err, "Expected a member, got (bogus 1 2)");
}

#[test]
fn name_must_be_atom() {
    let err = build("(class (x) y)").unwrap_err();
    assert_eq!(err, "Expected an atom, got (x)");
}

#[test]
fn top_level_must_be_class_or_interface() {
    let err = build("(struct X)").unwrap_err();
    assert_eq!(err, "Expected a top-level expression, got (struct X)");
}

#[test]
fn top_level_must_be_list() {
    let err = build("x").unwrap_err();
    assert_eq!(err, "Expected a list, got x");
}

#[test]
fn built_class_has_default_destructor() {
    let t = build("(class Foo (ctor ()) (fn f () int))").unwrap();
    match t {
        TopLevel::Class { dtor, .. } => assert!(dtor.is_default()),
        TopLevel::Interface { .. } => panic!("expected a class"),
    }
}

#[test]
fn sections_tag_their_members() {
    let t = build(
        "(class Foo (prop a int) (private (prop b int) (fn g () int)) (protected (ctor ())))",
    )
    .unwrap();
    match t {
        TopLevel::Class { ctors, methods, props, .. } => {
            assert_eq!(props.len(), 2);
            assert_eq!(props[0].modifier, AccessModifier::Public);
            assert_eq!(props[0].name, "a");
            assert_eq!(props[1].modifier, AccessModifier::Private);
            assert_eq!(props[1].name, "b");
            assert_eq!(methods.len(), 1);
            assert_eq!(methods[0].modifier, AccessModifier::Private);
            assert_eq!(ctors.len(), 1);
            assert_eq!(ctors[0].modifier, AccessModifier::Protected);
        },
        TopLevel::Interface { .. } => panic!("expected a class"),
    }
}

#[test]
fn nested_section_is_rejected() {
    let err = build("(class Foo (private (private (prop x int))))").unwrap_err();
    assert_eq!(err, "Expected a member, got (private (prop x int))");
}

#[test]
fn interface_members_are_methods_only() {
    let t = build("(interface I (fn f () int))").unwrap();
    match t {
        TopLevel::Interface { name, methods, .. } => {
            assert_eq!(name, "I");
            assert_eq!(methods.len(), 1);
            assert_eq!(methods[0].name, "f");
        },
        TopLevel::Class { .. } => panic!("expected an interface"),
    }
    let err = build("(interface I (prop x int))").unwrap_err();
    assert_eq!(err, "Expected a method, got (prop x int)");
}

#[test]
fn anonymous_argument_has_no_name() {
    let m = Method::from_sexpr(
        AccessModifier::Public,
        SExpr::parse_one("(fn f ((_ int)) bool)").unwrap(),
    )
    .unwrap();
    assert_eq!(m.args.len(), 1);
    assert!(m.args[0].0.is_none());
    match &m.args[0].1 {
        Ty::Base(n) => assert_eq!(n, "int"),
        Ty::App(_, _) => panic!("expected a plain type"),
    }
}

#[test]
fn named_argument_keeps_its_name() {
    let a = Arg::from_sexpr(SExpr::parse_one("(x int)").unwrap()).unwrap();
    assert_eq!(a.0.as_deref(), Some("x"));
}

#[test]
fn bare_argument_is_a_type() {
    let a = Arg::from_sexpr(SExpr::parse_one("int").unwrap()).unwrap();
    assert!(a.0.is_none());
}

#[test]
fn malformed_argument_fails() {
    let err = Arg::from_sexpr(SExpr::parse_one("(a b c)").unwrap()).unwrap_err();
    assert_eq!(err, "Expected a named argument, got (a b c)");
}

#[test]
fn generic_type_structure() {
    let t = Ty::from_sexpr(SExpr::parse_one("(List (Pair int string))").unwrap()).unwrap();
    match t {
        Ty::App(head, args) => {
            match *head {
                Ty::Base(n) => assert_eq!(n, "List"),
                Ty::App(_, _) => panic!("expected a plain head"),
            }
            assert_eq!(args.len(), 1);
            match &args[0] {
                Ty::App(inner_head, inner_args) => {
                    match inner_head.as_ref() {
                        Ty::Base(n) => assert_eq!(n, "Pair"),
                        Ty::App(_, _) => panic!("expected a plain head"),
                    }
                    assert_eq!(inner_args.len(), 2);
                    match &inner_args[0] {
                        Ty::Base(n) => assert_eq!(n, "int"),
                        Ty::App(_, _) => panic!("expected a plain type"),
                    }
                    match &inner_args[1] {
                        Ty::Base(n) => assert_eq!(n, "string"),
                        Ty::App(_, _) => panic!("expected a plain type"),
                    }
                },
                Ty::Base(_) => panic!("expected an application"),
            }
        },
        Ty::Base(_) => panic!("expected an application"),
    }
}

#[test]
fn empty_type_list_fails() {
    let err = Ty::from_sexpr(SExpr::parse_one("()").unwrap()).unwrap_err();
    assert_eq!(err, "Expected a type, got ()");
}

#[test]
fn constructor_arity_is_checked() {
    let err = Ctor::from_sexpr(AccessModifier::Public, SExpr::parse_one("(ctor)").unwrap())
        .unwrap_err();
    assert_eq!(err, "Expected a constructor, got (ctor)");
    let err2 = Ctor::from_sexpr(AccessModifier::Public, SExpr::parse_one("(ctor y)").unwrap())
        .unwrap_err();
    assert_eq!(err2, "Expected a list, got y");
}

#[test]
fn method_arity_is_checked() {
    let err = Method::from_sexpr(AccessModifier::Public, SExpr::parse_one("(fn f ())").unwrap())
        .unwrap_err();
    assert_eq!(err, "Expected a method, got (fn f ())");
}

#[test]
fn property_arity_is_checked() {
    let err = Prop::from_sexpr(AccessModifier::Public, SExpr::parse_one("(prop p)").unwrap())
        .unwrap_err();
    assert_eq!(err, "Expected a property, got (prop p)");
}
