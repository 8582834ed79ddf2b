//! A single-file bundler for Lua: the entry script and every module it loads
//! through `require("path")` become one self-contained script.
//!
//! A script is read into a plain model of its top-level statements
//! ([`syntax`], [`parser`]); the load calls among them are found and checked
//! ([`visitor`], [`source`]) and resolved to paths ([`path`]); the inliner
//! puts the bundle of each loaded file in the place of the call that loads it
//! ([`require_replacer`], [`splice`], [`utils`]). The library reads no file:
//! it names the file it needs next, and is given its canonical path and its
//! text.

pub mod cli;
pub mod parser;
pub mod path;
pub mod require_replacer;
pub mod source;
pub mod splice;
pub mod syntax;
pub mod utils;
pub mod visitor;
