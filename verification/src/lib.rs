//! A small command-oriented expression language: a parser for expressions
//! and types, and type inference built on unification of function types
//! with named parameters.

pub mod definitions;
pub mod expr;
pub mod meta_operation;
pub mod name_map;
pub mod operation;
pub mod text;
