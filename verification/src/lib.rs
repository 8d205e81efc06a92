//! A small ahead-of-time compiler for a tiny imperative language: source
//! text in, x86-64 assembly for Linux out.
//!
//! A compilation runs three stages in a row, and stops at the first error:
//! the [`Lexer`] cuts the text into tokens, the [`Parser`] builds the program
//! tree, and the [`Compiler`] writes the assembly. Each stage is specified by
//! a function on mathematical values ([`tokenize`], [`parse_tokens`],
//! [`generated`]); [`compiled`] is their composition.

pub mod asm_generator;
pub mod compiler;
pub mod error;
pub mod lexer;
pub mod parser;
pub mod text;

pub use asm_generator::{generated, AsmGenerator, Variable};
pub use compiler::Compiler;
pub use error::{Error, ErrorKind, ErrorView, ErrorWithSource, Position};
pub use lexer::{tokenize, Lexer, Literal, Token, TokenKind};
pub use parser::{
    parse_tokens, NodeCall, NodeExpression, NodeIdentifier, NodeLet, NodeLiteral, NodeProgram,
    NodeStatement, Parser,
};
use vstd::prelude::*;

verus! {

/// A source text and the path that it was read from.
#[derive(Debug)]
pub struct Source {
    pub code: String,
    pub path: String,
}

/// What compiling `code` gives: the assembly text, or the first error of the
/// first stage that fails.
pub open spec fn compiled(code: Seq<char>) -> Result<Seq<char>, ErrorView> {
    match tokenize(code) {
        Err(error) => Err(error),
        Ok(tokens) => match parse_tokens(tokens) {
            Err(error) => Err(error),
            Ok(program) => generated(program),
        },
    }
}

/// Whether `result` is what compiling `code` gives.
pub open spec fn is_compilation_of(result: Result<String, Error>, code: Seq<char>) -> bool {
    match result {
        Ok(text) => compiled(code) == Ok::<Seq<char>, ErrorView>(text@),
        Err(error) => compiled(code) == Err::<Seq<char>, ErrorView>(error@),
    }
}

/// Compiles a source text to assembly text.
pub fn compile(source: &Source) -> (result: Result<String, Error>)
    ensures
        is_compilation_of(result, source.code@),
{
    let tokens = match Lexer::new(source.code.as_str()).parse() {
        Err(error) => {
            return Err(error);
        },
        Ok(tokens) => tokens,
    };
    let tree = match Parser::new(tokens).parse() {
        Err(error) => {
            return Err(error);
        },
        Ok(tree) => tree,
    };
    Compiler::default().compile(tree)
}

/// Determinism. Two compilations of the same text agree: either both give
/// the same assembly, character for character, or both fail with the same
/// error at the same place.
pub proof fn lemma_compile_deterministic(
    code: Seq<char>,
    first: Result<String, Error>,
    second: Result<String, Error>,
)
    requires
        is_compilation_of(first, code),
        is_compilation_of(second, code),
    ensures
        match (first, second) {
            (Ok(a), Ok(b)) => a@ == b@,
            (Err(a), Err(b)) => a@ == b@,
            _ => false,
        },
{
}

} // verus!
