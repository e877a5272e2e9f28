//! Core of a cross-language binding generator: a language-agnostic
//! intermediate representation of a library's public surface (modules,
//! objects, functions, types), a path-based addressing scheme with
//! parent-aware visitors, and a section-structured template engine for
//! generated output.

pub mod error;
pub mod text;
pub mod identifier;
pub mod path;
pub mod types;
pub mod visibility;
pub mod literal;
pub mod attribute;
pub mod parameter;
pub mod function;
pub mod type_definition;
pub mod object;
pub mod import;
pub mod module;
pub mod tree;
pub mod visitor;
pub mod scope;
pub mod merge;
pub mod section;
pub mod template;
pub mod naming;
pub mod library;
pub mod file;
pub mod parser;
pub mod generator;
