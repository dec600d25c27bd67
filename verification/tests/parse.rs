//! Tests of the expression parser and the canonical printer.

use luml::SExpr;

fn atom_text(e: &SExpr) -> String {
    match e {
        SExpr::Atom(a) => a.clone(),
        SExpr::List(_) => panic!("expected an atom"),
    }
}

#[test]
fn parse_empty_list_is_ok() {
    let es = SExpr::parse_many("()").unwrap();
    assert_eq!(es.len(), 1);
    match &es[0] {
        SExpr::List(l) => assert!(l.is_empty()),
        SExpr::Atom(_) => panic!("expected a list"),
    }
}

#[test]
fn parse_two_atom_list() {
    let e = SExpr::parse_one("(a b)").unwrap();
    match &e {
        SExpr::List(l) => {
            assert_eq!(l.len(), 2);
            assert_eq!(atom_text(&l[0]), "a");
            assert_eq!(atom_text(&l[1]), "b");
        },
        SExpr::Atom(_) => panic!("expected a list"),
    }
}

#[test]
fn parse_single_atom() {
    let e = SExpr::parse_one("hello").unwrap();
    assert_eq!(atom_text(&e), "hello");
}

#[test]
fn parse_nested_lists() {
    let e = SExpr::parse_one("(a (b c) (d (e)))").unwrap();
    assert_eq!(e.to_text(), "(a (b c) (d (e)))");
}

#[test]
fn whitespace_is_insignificant() {
    let e = SExpr::parse_one("  ( a\n\t b )  ").unwrap();
    assert_eq!(e.to_text(), "(a b)");
}

#[test]
fn print_parse_round_trip() {
    let src = "(class Foo A B (fn f ((x int) (_ string)) bool) (private (prop y (List int))))";
    let e1 = SExpr::parse_one(src).unwrap();
    let printed = e1.to_text();
    let e2 = SExpr::parse_one(&printed).unwrap();
    assert_eq!(e2.to_text(), printed);
}

#[test]
fn round_trip_many() {
    let src = "(interface I) (class C I (ctor ()))";
    let es = SExpr::parse_many(src).unwrap();
    let printed: Vec<String> = es.iter().map(|e| e.to_text()).collect();
    let joined = printed.join(" ");
    let es2 = SExpr::parse_many(&joined).unwrap();
    assert_eq!(es.len(), es2.len());
    for (a, b) in es.iter().zip(es2.iter()) {
        assert_eq!(a.to_text(), b.to_text());
    }
}

#[test]
fn parse_unbalanced_open_fails() {
    let err = SExpr::parse_many("(a (b)").unwrap_err();
    assert_eq!(err, "Unclosed parenthesis at position 6");
}

#[test]
fn parse_stray_close_fails() {
    let err = SExpr::parse_many("a) b").unwrap_err();
    assert_eq!(err, "Unexpected closing parenthesis at position 1");
}

#[test]
fn parse_empty_input_is_no_expressions() {
    let es = SExpr::parse_many("   ").unwrap();
    assert!(es.is_empty());
}

#[test]
fn parse_one_requires_exactly_one() {
    assert!(SExpr::parse_one("a b").is_err());
    assert!(SExpr::parse_one("").is_err());
}

#[test]
fn as_atom_and_as_list() {
    let a = SExpr::parse_one("x").unwrap();
    assert_eq!(a.as_atom().unwrap(), "x");
    assert_eq!(a.as_list().unwrap_err(), "Expected a list, got x");
    let l = SExpr::parse_one("(a)").unwrap();
    assert_eq!(l.as_atom().unwrap_err(), "Expected an atom, got (a)");
    assert_eq!(l.as_list().unwrap().len(), 1);
}

#[test]
fn atom_headed_list_splits() {
    let e = SExpr::parse_one("(f x y)").unwrap();
    let (head, tail) = e.as_atom_headed_list().unwrap();
    assert_eq!(head, "f");
    assert_eq!(tail.len(), 2);
    assert_eq!(atom_text(&tail[0]), "x");
}

#[test]
fn atom_headed_list_rejects_empty_and_list_head() {
    let e = SExpr::parse_one("()").unwrap();
    assert_eq!(
        e.as_atom_headed_list().unwrap_err(),
        "Expected a non-empty list, got ()"
    );
    let e2 = SExpr::parse_one("((a) b)").unwrap();
    assert_eq!(e2.as_atom_headed_list().unwrap_err(), "Expected an atom, got (a)");
}
