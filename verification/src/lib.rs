//! A compile-time HTML template engine.
//!
//! A template mixes literal tag structure with embedded host-language
//! expressions and control directives (loops, conditionals, pattern matches,
//! bindings).  The library parses such a template from a generic token
//! stream into an abstract syntax tree, validates structural rules (void
//! elements must stay empty), and lowers the tree into an imperative
//! program over a single shared output buffer.  Literal text is HTML-escaped
//! once, while the template is compiled; every other expression is escaped
//! once, when the compiled program runs.

pub mod ast;
pub mod codegen;
pub mod escape;
pub mod html;
pub mod laws;
pub mod parser;
pub mod render;
pub mod strutil;
pub mod suffix;
pub mod token;
