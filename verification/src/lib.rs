//! A front end for a small language of process definitions: token trees in,
//! a validated syntax tree or one combined diagnostic out.
//!
//! A process is a named unit of work with a typed input, a typed result and
//! a body of calls, conditionals and asynchronous and synchronous blocks.
//! [`process`] reads declarations, [`flow`] their bodies, [`condition`] the
//! conditions of `if` statements and [`call`] the calls. Two flat mapping
//! grammars share the conventions: [`response`] maps status codes to payload
//! types, [`route`] maps path patterns to handlers.
//!
//! Every grammar is a function of a token sequence and a position, and says
//! exactly what it returns: the `ensures` of each `parse` equates its result
//! with a specification function of the same tokens. Positions are plain
//! numbers, so trying a construct never moves anything: a failed attempt
//! costs nothing to undo. Problems are gathered, not thrown: a body or a
//! batch reports everything that is wrong with it in one [`diagnostic`].
//!
//! Types, paths, visibility qualifiers and literals follow Rust's own
//! grammar, which [`rust_syntax`] asks `syn` about; path patterns are
//! regular expressions, which [`pattern`] asks `regex` about.

pub mod ast;
pub mod attribute;
pub mod call;
pub mod condition;
pub mod diagnostic;
pub mod flow;
pub mod pattern;
pub mod process;
pub mod response;
pub mod route;
pub mod rust_syntax;
pub mod token;
