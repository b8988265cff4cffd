//! Parser and printer for the opam file format: a lexer that turns text into
//! position-tagged tokens, a recursive-descent parser that builds the syntax
//! tree, and a printer that turns the tree back into text.
use vstd::prelude::*;

use crate::lexer::{lex, lex_spec, LexErrorKind};
use crate::parser::{file_items, items_model, parse_tokens, ItemModel};
use crate::value::OpamFile;

pub mod lexer;
pub mod parser;
pub mod value;

verus! {

#[derive(Debug, Clone, PartialEq, Eq, Hash)]
pub enum OpamFileError {
    /// A character that no token can start with, or a malformed escape or
    /// integer literal, with its span.
    LexInvalidChar(char, usize, usize),
    /// The input ended inside a string literal.
    LexEof,
    /// The tokens do not form a file.
    Parse,
}

/// What parsing `s` gives: the models of the file's items, or the first error.
pub open spec fn parse_spec(s: Seq<char>) -> Result<Seq<ItemModel>, OpamFileError> {
    match lex_spec(s) {
        Err((LexErrorKind::InvalidChar(c), start, end)) => Err(
            OpamFileError::LexInvalidChar(c, start as usize, end as usize),
        ),
        Err((LexErrorKind::Eof, _, _)) => Err(OpamFileError::LexEof),
        Ok(ts) => match file_items(ts) {
            Some(its) => Ok(its),
            None => Err(OpamFileError::Parse),
        },
    }
}

/// Parses the text of an opam file. Offsets in the tree count characters.
pub fn parse(input: &str) -> (r: Result<OpamFile, OpamFileError>)
    requires
        input@.len() < usize::MAX,
    ensures
        match (r, parse_spec(input@)) {
            (Ok(f), Ok(its)) => items_model(f.file_contents@, f.file_contents@.len() as int)
                == its,
            (Err(e), Err(se)) => e == se,
            _ => false,
        },
{
    let tokens = match lex(input) {
        Ok(ts) => ts,
        Err((LexErrorKind::InvalidChar(c), start, end)) => {
            return Err(OpamFileError::LexInvalidChar(c, start, end));
        },
        Err((LexErrorKind::Eof, _, _)) => {
            return Err(OpamFileError::LexEof);
        },
    };
    match parse_tokens(&tokens) {
        Some(f) => Ok(f),
        None => Err(OpamFileError::Parse),
    }
}

} // verus!
