//! Macro expansion, `recur` lowering and runtime-import analysis for JavaScript
//! sources written against the LJSP macro system, over an ESTree-like syntax tree.
pub mod text;
pub mod ast;
pub mod json;
pub mod marshal;
pub mod roundtrip;
pub mod recur;
pub mod runtime;
pub mod template;
pub mod expander;
pub mod sandbox;
