//! A small declaration language for UML class diagrams.
//!
//! Source text is parsed into nested-list expressions, interpreted as class
//! and interface declarations, and rendered as a textual graph description.

pub mod decl;
pub mod laws;
pub mod parser;
pub mod render;
pub mod sexpr;
pub mod toks;

pub use decl::AccessModifier;
pub use decl::Arg;
pub use decl::Ctor;
pub use decl::Dtor;
pub use decl::DtorKind;
pub use decl::Method;
pub use decl::Prop;
pub use decl::TopLevel;
pub use decl::Ty;
pub use render::process;
pub use render::render_graph;
pub use sexpr::SExpr;
