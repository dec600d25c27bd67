//! Tests of the renderer and the whole pipeline.

use luml::{process, render_graph, SExpr, TopLevel};

fn build(src: &str) -> TopLevel {
    TopLevel::from_sexpr(SExpr::parse_one(src).unwrap()).unwrap()
}

#[test]
fn class_without_destructor_renders_no_destructor_line() {
    let t = build("(class Foo (ctor ()) (fn f () int))");
    let label = t.uml_node();
    assert!(!label.contains('~'));
    assert_eq!(label, "{Foo||+ Foo()\n+ f() -> int}");
}

#[test]
fn interface_label_has_empty_middle_compartment() {
    let t = build("(interface I (fn f () int))");
    assert_eq!(t.uml_node(), "{<<interface>>\nI||+ f() -> int}");
}

#[test]
fn anonymous_argument_renders_type_alone() {
    let t = build("(class X (fn f ((_ int)) bool))");
    assert_eq!(t.uml_node(), "{X||+ f(int) -> bool}");
}

#[test]
fn named_argument_renders_name_and_type() {
    let t = build("(class X (fn f ((x int) (y string)) bool))");
    assert_eq!(t.uml_node(), "{X||+ f(x: int, y: string) -> bool}");
}

#[test]
fn generic_type_renders_with_angle_brackets() {
    let t = build("(class X (prop p (List (Pair int string))))");
    assert_eq!(t.uml_node(), "{X|+ p: List<Pair<int, string>>|}");
}

#[test]
fn access_glyphs_appear_per_section() {
    let t = build("(class X (prop a int) (private (prop b int)) (protected (prop c int)))");
    assert_eq!(t.uml_node(), "{X|+ a: int\n- b: int\n# c: int|}");
}

#[test]
fn edge_to_interface_parent_is_hollow() {
    let tls = vec![build("(interface I)"), build("(class C I)")];
    let interfaces = vec!["I".to_string()];
    let edges = tls[1].uml_edges(&interfaces);
    assert_eq!(edges, vec!["I -> C [arrowtail=empty, dir=back];".to_string()]);
}

#[test]
fn edge_to_class_parent_is_solid() {
    let t = build("(class C P)");
    let interfaces: Vec<String> = Vec::new();
    let edges = t.uml_edges(&interfaces);
    assert_eq!(edges, vec!["P -> C [arrowtail=normal, dir=back];".to_string()]);
}

#[test]
fn undeclared_parent_still_gets_an_edge() {
    let t = build("(class C Missing)");
    let interfaces: Vec<String> = Vec::new();
    let edges = t.uml_edges(&interfaces);
    assert_eq!(edges.len(), 1);
    assert!(edges[0].starts_with("Missing -> C "));
}

#[test]
fn later_interface_affects_earlier_class_edge() {
    let out = process("(class C I) (interface I)").unwrap();
    assert!(out.contains("I -> C [arrowtail=empty, dir=back];"));
}

#[test]
fn graph_output_format() {
    let out = process("(interface I (fn f () int)) (class C I (ctor ()) (prop x int))").unwrap();
    let expected = "digraph {\n\tI [label=\"{<<interface>>\\nI||+ f() -> int}\",shape=\"record\"];\n\tC [label=\"{C|+ x: int|+ C()\\n}\",shape=\"record\"];\nI -> C [arrowtail=empty, dir=back];\n}\n";
    assert_eq!(out, expected);
}

#[test]
fn empty_input_gives_empty_graph() {
    assert_eq!(process("").unwrap(), "digraph {\n}\n");
}

#[test]
fn process_fails_fast_on_bad_declaration() {
    let err = process("(interface I) (class)").unwrap_err();
    assert_eq!(err, "Missing name in (class)");
}

#[test]
fn process_fails_on_parse_error() {
    assert!(process("(class Foo").is_err());
}

#[test]
fn render_graph_of_built_declarations() {
    let tls = vec![build("(class P)"), build("(class C P)")];
    let out = render_graph(&tls);
    let expected = "digraph {\n\tP [label=\"{P||}\",shape=\"record\"];\n\tC [label=\"{C||}\",shape=\"record\"];\nP -> C [arrowtail=normal, dir=back];\n}\n";
    assert_eq!(out, expected);
}
