//! Expands nested, declarative test specifications (groups of cases with shared
//! setup, teardown, attributes, imports and return types) into flat test
//! declarations.
//!
//! Input and output are flat token sequences ([`Tok`]): a delimited group of
//! the host tokenizer appears as an `Open` token, its contents and a `Close`
//! token. The parser builds a [`Root`]; the generator folds every group's
//! properties down to its cases and emits one scope per group and one test
//! function per case.

pub mod token;
pub mod tree;
pub mod parse;
pub mod generate;
pub mod laws;

pub use token::{Delim, Tok};
pub use tree::{Name, Props, Group, Case, Node, Root};
pub use parse::{parse, Expected, ParseError, ParseErrorKind};
pub use generate::{generate, slug_name};

use vstd::prelude::*;
use token::toks_view;
use parse::parse_spec;
use generate::{render_root, root_decls};

verus! {

/// Parses a specification and expands it into test declarations; fails with
/// the parse error where the input is not a specification.
pub fn demonstrate(input: &Vec<Tok>) -> (r: Result<Vec<Tok>, ParseError>)
    ensures
        match (r, parse_spec(toks_view(input@))) {
            (Ok(out), Ok(root)) => toks_view(out@) == render_root(root_decls(root)),
            (Err(e), Err(e2)) => e@ == e2,
            _ => false,
        },
{
    match parse(input) {
        Ok(root) => Ok(generate(&root)),
        Err(e) => Err(e),
    }
}

} // verus!
