//! A declaration compiler for a structural type language: from an explicit
//! schema description of structs and enums (fields, variants, generics and
//! attributes) it synthesizes TypeScript type declarations, and exports a
//! dependency-closed set of declarations as cross-referencing files.

pub mod attr;
pub mod compile;
pub mod error;
pub mod export;
pub mod inflection;
pub mod naming;
pub mod strutil;
pub mod ty;
