//! Semantic core of a recipe-markup toolchain: recipe quantities and their
//! arithmetic, unit compatibility, and the association of recipe files with
//! their images inside a directory tree.
pub mod ast;
pub mod config;
pub mod convert;
pub mod display;
pub mod images;
pub mod index;
pub mod paths;
pub mod quantity;
pub mod text;
