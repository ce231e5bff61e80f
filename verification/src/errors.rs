//! The wording of diagnostics.
use vstd::prelude::*;
use vstd::string::*;
use crate::text::{append_decimal, decimal};
use crate::tokens::{Token, TokenView};

verus! {

/// What the scanner reports: the complaint, the text complained of, and
/// where it stands.
#[verifier::opaque]
pub open spec fn scanner_error_text(msg: Seq<char>, value: Seq<char>, line: nat, col: nat) -> Seq<
    char,
> {
    "Scanner Error: "@ + msg + " [ "@ + value + " ] ("@ + decimal(line) + ":"@ + decimal(col)
        + ")"@
}

/// What the parser reports: what it expected, the kind of token it found
/// instead, and where that token stands.
#[verifier::opaque]
pub open spec fn parser_error_text(expected: Seq<char>, got: TokenView) -> Seq<char> {
    "Parser Error: Expected "@ + expected + " but found "@ + got.kind.name() + " ("@ + decimal(got.line)
        + ":"@ + decimal(got.col) + ")"@
}

/// Every report of the scanner has text.
pub proof fn lemma_scanner_error_nonempty(msg: Seq<char>, value: Seq<char>, line: nat, col: nat)
    ensures
        scanner_error_text(msg, value, line, col).len() > 0,
{
    reveal(scanner_error_text);
    reveal_strlit("Scanner Error: ");
}

/// Every report of the parser has text.
pub proof fn lemma_parser_error_nonempty(expected: Seq<char>, got: TokenView)
    ensures
        parser_error_text(expected, got).len() > 0,
{
    reveal(parser_error_text);
    reveal_strlit("Parser Error: Expected ");
}

pub fn scanner_error(msg: String, value: String, lineno: usize, colno: usize) -> (s: String)
    ensures
        s@ == scanner_error_text(msg@, value@, lineno as nat, colno as nat),
        s@.len() > 0,
{
    proof {
        reveal(scanner_error_text);
        lemma_scanner_error_nonempty(msg@, value@, lineno as nat, colno as nat);
    }
    let mut s = String::from_str("Scanner Error: ");
    s.append(msg.as_str());
    s.append(" [ ");
    s.append(value.as_str());
    s.append(" ] (");
    append_decimal(&mut s, lineno);
    s.append(":");
    append_decimal(&mut s, colno);
    s.append(")");
    s
}

pub fn parser_error(expected: &str, got: Token) -> (s: String)
    ensures
        s@ == parser_error_text(expected@, got@),
        s@.len() > 0,
{
    proof {
        reveal(parser_error_text);
        lemma_parser_error_nonempty(expected@, got@);
    }
    let mut s = String::from_str("Parser Error: Expected ");
    s.append(expected);
    s.append(" but found ");
    s.append(got.token_type.to_str());
    s.append(" (");
    append_decimal(&mut s, got.src_info.0);
    s.append(":");
    append_decimal(&mut s, got.src_info.1);
    s.append(")");
    s
}

} // verus!
