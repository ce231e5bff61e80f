//! A compile-and-execute toolchain for a small Pascal-like language.
//!
//! Source bytes are scanned into tokens, parsed by recursive descent with the
//! code generator interleaved, and the resulting byte code is interpreted by a
//! stack machine.
//!
//! * [`scanner`] turns bytes into tokens and enters names into the symbol
//!   table of [`symbtab`]; [`tokens`] holds the kinds of token and the
//!   classes of byte.
//! * [`parser`] recognises the grammar and drives the generator of
//!   [`codegen`]. Every production has a model, a function from the scanner's
//!   state to the scanner's state behind the production and the bytes it
//!   emits, and the parser is proved to do what the model says.
//! * [`rvm`] runs the code; [`bytecode`] holds the instruction set that
//!   generator and machine share.
//! * [`meaning`] gives expressions their values and proves that the code
//!   which the parser emits for an expression makes the machine compute the
//!   value.
//!
//! Conventions that the two halves agree on: a word is four bytes, most
//! significant first; operands are compiled left to right, so a binary
//! instruction finds its right operand on top of the stack; `repeat` jumps
//! back with `JFALSE`, so the loop ends when its condition holds; unary minus
//! compiles to `NEG`.
pub mod bytecode;
pub mod codegen;
pub mod errors;
pub mod meaning;
pub mod parser;
pub mod rvm;
pub mod scanner;
pub mod symbtab;
pub mod text;
pub mod tokens;

use vstd::prelude::*;
use crate::parser::{spec_parse, Parser};
use crate::scanner::{lemma_new_symbols, spec_new, Scanner};

verus! {

/// What the command line asks for.
pub struct Config {
    pub filename: String,
}

impl Config {
    /// Takes the name of the source file from the arguments, of which the
    /// first is the program's own name and the second the file's.
    pub fn new(args: &[String]) -> (r: Result<Config, &'static str>)
        ensures
            args@.len() < 2 ==> r is Err && r->Err_0@ == "Not enough arguments"@,
            args@.len() >= 2 ==> r is Ok && r->Ok_0.filename@ == args@[1]@,
    {
        if args.len() < 2 {
            return Err("Not enough arguments");
        }
        let filename = args[1].clone();
        Ok(Config { filename })
    }
}

/// The code of the program that the source holds, or the first error of the
/// scanner or the parser.
pub open spec fn spec_compile(source: Seq<u8>) -> Result<Seq<u8>, Seq<char>> {
    match spec_new(source) {
        Err(e) => Err(e),
        Ok(s) => match spec_parse(s, 0, 0) {
            Err(e) => Err(e),
            Ok((_, _, code)) => Ok(code),
        },
    }
}

/// Compiles a program. The code begins at offset 0 and ends with `EXIT`.
pub fn compile(source: Vec<u8>) -> (r: Result<Vec<u8>, String>)
    ensures
        match spec_compile(source@) {
            Ok(code) => r is Ok && r->Ok_0@ == code && code.len() > 0 && code.last() == 0,
            Err(e) => r is Err && r->Err_0@ == e && e.len() > 0,
        },
{
    proof {
        if spec_new(source@) is Ok {
            lemma_new_symbols(source@);
        }
    }
    let scan = match Scanner::new(source) {
        Ok(scan) => scan,
        Err(e) => {
            return Err(e);
        },
    };
    let mut parser = Parser::new(scan);
    match parser.parse() {
        Ok(()) => {},
        Err(e) => {
            return Err(e);
        },
    }
    assert(parser.gen.code@ =~= spec_compile(source@)->Ok_0);
    Ok(parser.gen.code)
}

} // verus!
