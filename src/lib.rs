//! Compiles a nested, declarative description of launcher menus into a flat,
//! index-addressable structure that a menu driver walks at run time.
pub mod compile;
pub mod config;
pub mod digest;
pub mod document;
pub mod flatten;
pub mod icons;
pub mod parser;
pub mod resolve;
pub mod text;
