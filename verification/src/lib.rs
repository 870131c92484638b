//! Styling and reference-resolution core for a vector-image rendering
//! library: a CSS rule parser and store, a selector-matching engine over a
//! document tree, a cascade applicator, a reference classifier for
//! `href`-style strings, and a registry that resolves id references within
//! and across documents.

pub mod css;
pub mod defs;
pub mod href;
pub mod scan;
pub mod selector;
pub mod strutil;
pub mod style;
pub mod tree;
