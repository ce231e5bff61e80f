//! The parser: recursive descent over the tokens, with the code generator
//! interleaved. Every production emits its code as it recognises its tokens.
//!
//! Every production has a model, a function named after it with `spec_` in
//! front: from the scanner's state, and where jumps are compiled from the
//! offset of the production's first byte, to the scanner's state behind the
//! production and the bytes it emits, or to the first error. The contract
//! of a production says that it does what its model says. An error is
//! passed on by an explicit `match`, so that the contract knows which error
//! comes out.
use vstd::prelude::*;
use vstd::string::*;
use crate::bytecode::{be_bytes, be_value, lemma_be_value_of_bytes, Opcode};
use crate::codegen::rvm_gen::RvmGenerator;
use crate::codegen::{patched, CodeGenerator};
use crate::errors::{parser_error, parser_error_text};
use crate::scanner::{
    lemma_get_token_progress, lemma_get_token_symbols, measure, spec_get_token, symbols_ok, table_ok, table_wf, token_ok, view_wf, Scanner, ScannerView,
};
use crate::symbtab::{ident_count, idents_before, lemma_idents_before_monotonic, promote_all};
use crate::text::{parse_u32, word_value};
use crate::tokens::{Token, TokenType, TokenView};

verus! {

/// What a production leaves: the scanner after its tokens, and the code it
/// emitted; or the first error.
pub type Emitted = Result<(ScannerView, Seq<u8>), Seq<char>>;

/// What a declaration leaves: the scanner after its tokens, and the next
/// free address of the data segment; or the first error.
pub type Declared = Result<(ScannerView, u32), Seq<char>>;

/// What a production gives where a recursion would not come nearer to the
/// end of the file. Every token read brings the scanner nearer, so a parser
/// that is in order never reports it: every error that one reports has
/// text.
pub open spec fn stalled() -> Seq<char> {
    Seq::empty()
}

/// The error for an unexpected token, unless the current token is of the
/// expected kind.
pub open spec fn spec_check_tok(s: ScannerView, kind: TokenType) -> Result<(), Seq<char>> {
    if s.cur.kind != kind {
        Err(parser_error_text(kind.name(), s.cur))
    } else {
        Ok(())
    }
}

/// The scanner after the current token, which must be of the given kind.
pub open spec fn spec_match_tok(s: ScannerView, kind: TokenType) -> Result<ScannerView, Seq<char>> {
    if s.cur.kind != kind {
        Err(parser_error_text(kind.name(), s.cur))
    } else {
        spec_get_token(s)
    }
}

/// The code that pushes a word.
pub open spec fn push_word(v: u32) -> Seq<u8> {
    seq![Opcode::Push.byte()] + be_bytes(v)
}

/// One instruction without operand.
pub open spec fn single(op: Opcode) -> Seq<u8> {
    seq![op.byte()]
}

/// The code that turns the index on the stack into the address of the
/// element: `base + (index - lo) * 4`.
pub open spec fn element_address_code(base: u32, lo: u32) -> Seq<u8> {
    let shift = if lo != 0 {
        push_word(lo) + single(Opcode::Sub)
    } else {
        Seq::<u8>::empty()
    };
    shift + push_word(4) + single(Opcode::Mult) + push_word(base) + single(Opcode::Add)
}

/// The operators of an expression: `+`, `-` and `or`.
pub open spec fn is_add_op(kind: TokenType) -> bool {
    kind == TokenType::OpPlus || kind == TokenType::OpMinus || kind == TokenType::OpOr
}

/// The operators of a term: `*`, `/`, `and` and the six comparisons, which
/// bind as tightly as `*`.
pub open spec fn is_mul_op(kind: TokenType) -> bool {
    kind == TokenType::OpMult || kind == TokenType::OpDivi || kind == TokenType::OpAnd || kind
        == TokenType::OpEqual || kind == TokenType::OpNEqual || kind == TokenType::OpLessThan
        || kind == TokenType::OpLessThanEql || kind == TokenType::OpGreatThan || kind
        == TokenType::OpGreatThanEql
}

/// What the parser expects where a factor must begin.
pub open spec fn factor_expected() -> Seq<char> {
    "TK_INTLIT, TK_IDENT, TK_MINUS, or TK_LPAREN"@
}

/// What the parser expects of a literal that 32 bits cannot hold.
pub open spec fn word_expected() -> Seq<char> {
    "TK_INTLIT below 4294967296"@
}

/// factor → literal | variable | array `[` expression `]` | `-` factor
///        | `(` expression `)`
///
/// A literal is pushed; a variable's address is pushed and loaded from; an
/// array's index is computed, turned into the element's address and loaded
/// from; a negated factor is followed by `NEG`; parentheses add nothing.
pub open spec fn spec_factor(s: ScannerView) -> Emitted
    decreases measure(s), 0nat,
{
    match s.cur.kind {
        TokenType::IntLit => match word_value(s.cur.lexeme) {
            None => Err(parser_error_text(word_expected(), s.cur)),
            Some(v) => match spec_match_tok(s, TokenType::IntLit) {
                Err(e) => Err(e),
                Ok(s1) => Ok((s1, push_word(v))),
            },
        },
        TokenType::AVar => match spec_match_tok(s, TokenType::AVar) {
            Err(e) => Err(e),
            Ok(s1) => Ok((s1, push_word(s.cur.addr->Some_0) + single(Opcode::Load))),
        },
        TokenType::AnArrayVar => match spec_match_tok(s, TokenType::AnArrayVar) {
            Err(e) => Err(e),
            Ok(s1) => match spec_match_tok(s1, TokenType::LBrack) {
                Err(e) => Err(e),
                Ok(s2) => if measure(s2) < measure(s) {
                    match spec_expression(s2) {
                        Err(e) => Err(e),
                        Ok((s3, index)) => match spec_match_tok(s3, TokenType::RBrack) {
                            Err(e) => Err(e),
                            Ok(s4) => Ok(
                                (
                                    s4,
                                    index + element_address_code(
                                        s.cur.addr->Some_0,
                                        s.cur.low->Some_0,
                                    ) + single(Opcode::Load),
                                ),
                            ),
                        },
                    }
                } else {
                    Err(stalled())
                },
            },
        },
        TokenType::OpMinus => match spec_match_tok(s, TokenType::OpMinus) {
            Err(e) => Err(e),
            Ok(s1) => if measure(s1) < measure(s) {
                match spec_factor(s1) {
                    Err(e) => Err(e),
                    Ok((s2, code)) => Ok((s2, code + single(Opcode::Neg))),
                }
            } else {
                Err(stalled())
            },
        },
        TokenType::LParen => match spec_match_tok(s, TokenType::LParen) {
            Err(e) => Err(e),
            Ok(s1) => if measure(s1) < measure(s) {
                match spec_expression(s1) {
                    Err(e) => Err(e),
                    Ok((s2, code)) => match spec_match_tok(s2, TokenType::RParen) {
                        Err(e) => Err(e),
                        Ok(s3) => Ok((s3, code)),
                    },
                }
            } else {
                Err(stalled())
            },
        },
        _ => Err(parser_error_text(factor_expected(), s.cur)),
    }
}

/// The rest of a term after the factors whose code is `code`: as long as an
/// operator of a term follows, the next factor and then the operator's
/// instruction are emitted, so the operators associate to the left.
pub open spec fn spec_term_rest(s: ScannerView, code: Seq<u8>) -> Emitted
    decreases measure(s), 1nat,
{
    if is_mul_op(s.cur.kind) {
        match spec_match_tok(s, s.cur.kind) {
            Err(e) => Err(e),
            Ok(s1) => if measure(s1) < measure(s) {
                match spec_factor(s1) {
                    Err(e) => Err(e),
                    Ok((s2, right)) => if measure(s2) < measure(s) {
                        spec_term_rest(s2, code + right + single(s.cur.kind.opcode()->Some_0))
                    } else {
                        Err(stalled())
                    },
                }
            } else {
                Err(stalled())
            },
        }
    } else {
        Ok((s, code))
    }
}

/// term → factor (operator factor)*
pub open spec fn spec_term(s: ScannerView) -> Emitted
    decreases measure(s), 2nat,
{
    match spec_factor(s) {
        Err(e) => Err(e),
        Ok((s1, code)) => if measure(s1) <= measure(s) {
            spec_term_rest(s1, code)
        } else {
            Err(stalled())
        },
    }
}

/// The rest of an expression after the terms whose code is `code`.
pub open spec fn spec_expression_rest(s: ScannerView, code: Seq<u8>) -> Emitted
    decreases measure(s), 3nat,
{
    if is_add_op(s.cur.kind) {
        match spec_match_tok(s, s.cur.kind) {
            Err(e) => Err(e),
            Ok(s1) => if measure(s1) < measure(s) {
                match spec_term(s1) {
                    Err(e) => Err(e),
                    Ok((s2, right)) => if measure(s2) < measure(s) {
                        spec_expression_rest(
                            s2,
                            code + right + single(s.cur.kind.opcode()->Some_0),
                        )
                    } else {
                        Err(stalled())
                    },
                }
            } else {
                Err(stalled())
            },
        }
    } else {
        Ok((s, code))
    }
}

/// expression → term (operator term)*
///
/// The code leaves the expression's value as the top word of the stack.
pub open spec fn spec_expression(s: ScannerView) -> Emitted
    decreases measure(s), 4nat,
{
    match spec_term(s) {
        Err(e) => Err(e),
        Ok((s1, code)) => if measure(s1) <= measure(s) {
            spec_expression_rest(s1, code)
        } else {
            Err(stalled())
        },
    }
}

/// assignment → variable `:=` expression
///
/// The variable's address is pushed, the value computed, and `STORE` takes
/// the value and then the address.
#[verifier::opaque]
pub open spec fn spec_assign_st(s: ScannerView) -> Emitted {
    match spec_match_tok(s, TokenType::AVar) {
        Err(e) => Err(e),
        Ok(s1) => match spec_match_tok(s1, TokenType::OpAssign) {
            Err(e) => Err(e),
            Ok(s2) => match spec_expression(s2) {
                Err(e) => Err(e),
                Ok((s3, value)) => Ok(
                    (s3, push_word(s.cur.addr->Some_0) + value + single(Opcode::Store)),
                ),
            },
        },
    }
}

/// assignment → array `[` expression `]` `:=` expression
///
/// The index is computed and turned into the element's address, the value
/// is computed, and `STORE` takes the value and then the address.
#[verifier::opaque]
pub open spec fn spec_assign_array_st(s: ScannerView) -> Emitted {
    match spec_match_tok(s, TokenType::AnArrayVar) {
        Err(e) => Err(e),
        Ok(s1) => match spec_match_tok(s1, TokenType::LBrack) {
            Err(e) => Err(e),
            Ok(s2) => match spec_expression(s2) {
                Err(e) => Err(e),
                Ok((s3, index)) => match spec_match_tok(s3, TokenType::RBrack) {
                    Err(e) => Err(e),
                    Ok(s4) => match spec_match_tok(s4, TokenType::OpAssign) {
                        Err(e) => Err(e),
                        Ok(s5) => match spec_expression(s5) {
                            Err(e) => Err(e),
                            Ok((s6, value)) => Ok(
                                (
                                    s6,
                                    index + element_address_code(
                                        s.cur.addr->Some_0,
                                        s.cur.low->Some_0,
                                    ) + value + single(Opcode::Store),
                                ),
                            ),
                        },
                    },
                },
            },
        },
    }
}

/// write → `write` `(` expression `)`
#[verifier::opaque]
pub open spec fn spec_write_st(s: ScannerView) -> Emitted {
    match spec_match_tok(s, TokenType::Write) {
        Err(e) => Err(e),
        Ok(s1) => match spec_match_tok(s1, TokenType::LParen) {
            Err(e) => Err(e),
            Ok(s2) => match spec_expression(s2) {
                Err(e) => Err(e),
                Ok((s3, value)) => match spec_match_tok(s3, TokenType::RParen) {
                    Err(e) => Err(e),
                    Ok(s4) => Ok((s4, value + single(Opcode::Write))),
                },
            },
        },
    }
}

/// The code of a loop that runs its body until the condition holds: the
/// body, the condition, and a jump back to the body's first byte at `ip`
/// that is taken while the condition is zero.
pub open spec fn repeat_code(ip: int, body: Seq<u8>, cond: Seq<u8>) -> Seq<u8> {
    body + cond + push_word(ip as u32) + single(Opcode::JFalse)
}

/// The code of a loop that runs its body while the condition holds: the
/// condition at `ip`, a jump behind the loop that is taken when the
/// condition is zero, the body, and a jump back to the condition.
pub open spec fn while_code(ip: int, cond: Seq<u8>, body: Seq<u8>) -> Seq<u8> {
    let after = ip + cond.len() + 6 + body.len() + 6;
    cond + push_word(after as u32) + single(Opcode::JFalse) + body + push_word(ip as u32) + single(
        Opcode::Jmp,
    )
}

/// The code of a conditional without alternative: the condition at `ip`, a
/// jump behind the statement that is taken when the condition is zero, and
/// the body.
pub open spec fn if_code(ip: int, cond: Seq<u8>, then_code: Seq<u8>) -> Seq<u8> {
    let end = ip + cond.len() + 6 + then_code.len();
    cond + push_word(end as u32) + single(Opcode::JFalse) + then_code
}

/// The code of a conditional with alternative: the condition at `ip`, a
/// jump to the alternative that is taken when the condition is zero, the
/// body, a jump behind the statement, and the alternative.
pub open spec fn if_else_code(
    ip: int,
    cond: Seq<u8>,
    then_code: Seq<u8>,
    else_code: Seq<u8>,
) -> Seq<u8> {
    let else_ip = ip + cond.len() + 6 + then_code.len() + 6;
    let end = else_ip + else_code.len();
    cond + push_word(else_ip as u32) + single(Opcode::JFalse) + then_code + push_word(end as u32)
        + single(Opcode::Jmp) + else_code
}

/// repeat → `repeat` statements `until` expression
pub open spec fn spec_repeat_st(s: ScannerView, ip: int) -> Emitted
    decreases measure(s), 0nat,
{
    match spec_match_tok(s, TokenType::Repeat) {
        Err(e) => Err(e),
        Ok(s1) => if measure(s1) < measure(s) {
            match spec_stats(s1, ip) {
                Err(e) => Err(e),
                Ok((s2, body)) => match spec_match_tok(s2, TokenType::Until) {
                    Err(e) => Err(e),
                    Ok(s3) => match spec_expression(s3) {
                        Err(e) => Err(e),
                        Ok((s4, cond)) => Ok((s4, repeat_code(ip, body, cond))),
                    },
                },
            }
        } else {
            Err(stalled())
        },
    }
}

/// while → `while` expression `do` block
pub open spec fn spec_while_st(s: ScannerView, ip: int) -> Emitted
    decreases measure(s), 0nat,
{
    match spec_match_tok(s, TokenType::While) {
        Err(e) => Err(e),
        Ok(s1) => match spec_expression(s1) {
            Err(e) => Err(e),
            Ok((s2, cond)) => match spec_match_tok(s2, TokenType::Do) {
                Err(e) => Err(e),
                Ok(s3) => if measure(s3) < measure(s) {
                    match spec_begin_st(s3, ip + cond.len() + 6) {
                        Err(e) => Err(e),
                        Ok((s4, body)) => Ok((s4, while_code(ip, cond, body))),
                    }
                } else {
                    Err(stalled())
                },
            },
        },
    }
}

/// if → `if` expression `then` block (`else` block)?
pub open spec fn spec_if_st(s: ScannerView, ip: int) -> Emitted
    decreases measure(s), 0nat,
{
    match spec_match_tok(s, TokenType::If) {
        Err(e) => Err(e),
        Ok(s1) => match spec_expression(s1) {
            Err(e) => Err(e),
            Ok((s2, cond)) => match spec_match_tok(s2, TokenType::Then) {
                Err(e) => Err(e),
                Ok(s3) => if measure(s3) < measure(s) {
                    match spec_begin_st(s3, ip + cond.len() + 6) {
                        Err(e) => Err(e),
                        Ok((s4, then_code)) => if s4.cur.kind == TokenType::Else {
                            match spec_match_tok(s4, TokenType::Else) {
                                Err(e) => Err(e),
                                Ok(s5) => if measure(s5) < measure(s) {
                                    match spec_begin_st(
                                        s5,
                                        ip + cond.len() + 6 + then_code.len() + 6,
                                    ) {
                                        Err(e) => Err(e),
                                        Ok((s6, else_code)) => Ok(
                                            (s6, if_else_code(ip, cond, then_code, else_code)),
                                        ),
                                    }
                                } else {
                                    Err(stalled())
                                },
                            }
                        } else {
                            Ok((s4, if_code(ip, cond, then_code)))
                        },
                    }
                } else {
                    Err(stalled())
                },
            },
        },
    }
}

/// block → `begin` statements `end`
pub open spec fn spec_begin_st(s: ScannerView, ip: int) -> Emitted
    decreases measure(s), 0nat,
{
    match spec_match_tok(s, TokenType::Begin) {
        Err(e) => Err(e),
        Ok(s1) => if measure(s1) < measure(s) {
            match spec_stats(s1, ip) {
                Err(e) => Err(e),
                Ok((s2, code)) => match spec_match_tok(s2, TokenType::End) {
                    Err(e) => Err(e),
                    Ok(s3) => Ok((s3, code)),
                },
            }
        } else {
            Err(stalled())
        },
    }
}

/// The statement that begins with the current token, compiled for the
/// offset `ip`; `None` where no statement begins with it.
pub open spec fn spec_statement(s: ScannerView, ip: int) -> Option<Emitted>
    decreases measure(s), 1nat,
{
    match s.cur.kind {
        TokenType::AVar => Some(spec_assign_st(s)),
        TokenType::AnArrayVar => Some(spec_assign_array_st(s)),
        TokenType::Repeat => Some(spec_repeat_st(s, ip)),
        TokenType::While => Some(spec_while_st(s, ip)),
        TokenType::If => Some(spec_if_st(s, ip)),
        TokenType::Write => Some(spec_write_st(s)),
        _ => None,
    }
}

/// statements → ε | statement `;` statements
///
/// The code of the statements, one after another, the first at `ip`.
pub open spec fn spec_stats(s: ScannerView, ip: int) -> Emitted
    decreases measure(s), 2nat,
{
    match spec_statement(s, ip) {
        None => Ok((s, Seq::empty())),
        Some(Err(e)) => Err(e),
        Some(Ok((s1, first))) => match spec_match_tok(s1, TokenType::Semi) {
            Err(e) => Err(e),
            Ok(s2) => if measure(s2) < measure(s) {
                match spec_stats(s2, ip + first.len()) {
                    Err(e) => Err(e),
                    Ok((s3, rest)) => Ok((s3, first + rest)),
                }
            } else {
                Err(stalled())
            },
        },
    }
}

/// What follows a statement: `;` and the further statements.
pub open spec fn spec_stats_tail(s: ScannerView, ip: int) -> Emitted {
    match spec_match_tok(s, TokenType::Semi) {
        Err(e) => Err(e),
        Ok(s1) => spec_stats(s1, ip),
    }
}

/// What the parser expects of an array's upper bound.
pub open spec fn bound_expected() -> Seq<char> {
    "TK_INTLIT not below the lower bound"@
}

/// What the parser expects of the storage that a declaration asks for.
pub open spec fn storage_expected() -> Seq<char> {
    "storage within 4294967296 bytes"@
}

/// The value of the literal that is the current token.
#[verifier::opaque]
pub open spec fn spec_bound(s: ScannerView) -> Result<u32, Seq<char>> {
    if s.cur.kind != TokenType::IntLit {
        Err(parser_error_text(TokenType::IntLit.name(), s.cur))
    } else {
        match word_value(s.cur.lexeme) {
            None => Err(parser_error_text(word_expected(), s.cur)),
            Some(v) => Ok(v),
        }
    }
}

/// The declared names get their storage: every plain identifier of the
/// table is promoted to `kind` and given `elements` words of the data
/// segment, the oldest at `top` and each further one behind the one before.
#[verifier::opaque]
pub open spec fn spec_allocate(
    s: ScannerView,
    top: u32,
    kind: TokenType,
    elements: int,
    range: Option<(u32, u32)>,
) -> Declared {
    let size = 4 * elements;
    let total = ident_count(s.table) * size;
    if size > u32::MAX || top + total > u32::MAX {
        Err(parser_error_text(storage_expected(), s.cur))
    } else {
        Ok(
            (
                ScannerView { table: promote_all(s.table, kind, top, size as u32, range), ..s },
                (top + total) as u32,
            ),
        )
    }
}

/// names → identifier (`,` names)?
pub open spec fn spec_namelist(s: ScannerView) -> Result<ScannerView, Seq<char>>
    decreases measure(s),
{
    match spec_match_tok(s, TokenType::Ident) {
        Err(e) => Err(e),
        Ok(s1) => if s1.cur.kind == TokenType::Comma {
            match spec_match_tok(s1, TokenType::Comma) {
                Err(e) => Err(e),
                Ok(s2) => if measure(s2) < measure(s) {
                    spec_namelist(s2)
                } else {
                    Err(stalled())
                },
            }
        } else {
            Ok(s1)
        },
    }
}

/// What follows a name: `,` and further names, or nothing.
pub open spec fn spec_namelist_tail(s: ScannerView) -> Result<ScannerView, Seq<char>> {
    if s.cur.kind == TokenType::Comma {
        match spec_match_tok(s, TokenType::Comma) {
            Err(e) => Err(e),
            Ok(s1) => spec_namelist(s1),
        }
    } else {
        Ok(s)
    }
}

/// type → `integer` | `array` `[` literal `..` literal `]` `of` type
///
/// `integer` gives every declared name one word. An array type gives every
/// declared name one word for each index from the lower bound to the upper
/// bound; the type of the elements is read after that.
pub open spec fn spec_decl_type(s: ScannerView, top: u32) -> Declared
    decreases measure(s),
{
    if s.cur.kind == TokenType::Array {
        match spec_match_tok(s, TokenType::Array) {
            Err(e) => Err(e),
            Ok(s1) => match spec_match_tok(s1, TokenType::LBrack) {
                Err(e) => Err(e),
                Ok(s2) => match spec_bound(s2) {
                    Err(e) => Err(e),
                    Ok(lo) => match spec_match_tok(s2, TokenType::IntLit) {
                        Err(e) => Err(e),
                        Ok(s3) => match spec_match_tok(s3, TokenType::Range) {
                            Err(e) => Err(e),
                            Ok(s4) => match spec_bound(s4) {
                                Err(e) => Err(e),
                                Ok(hi) => if hi < lo {
                                    Err(parser_error_text(bound_expected(), s4.cur))
                                } else {
                                    match spec_match_tok(s4, TokenType::IntLit) {
                                        Err(e) => Err(e),
                                        Ok(s5) => match spec_match_tok(s5, TokenType::RBrack) {
                                            Err(e) => Err(e),
                                            Ok(s6) => match spec_match_tok(s6, TokenType::Of) {
                                                Err(e) => Err(e),
                                                Ok(s7) => match spec_allocate(
                                                    s7,
                                                    top,
                                                    TokenType::AnArrayVar,
                                                    hi - lo + 1,
                                                    Some((lo, hi)),
                                                ) {
                                                    Err(e) => Err(e),
                                                    Ok((s8, top8)) => if measure(s8) < measure(s) {
                                                        spec_decl_type(s8, top8)
                                                    } else {
                                                        Err(stalled())
                                                    },
                                                },
                                            },
                                        },
                                    }
                                },
                            },
                        },
                    },
                },
            },
        }
    } else {
        match spec_match_tok(s, TokenType::Integer) {
            Err(e) => Err(e),
            Ok(s1) => spec_allocate(s1, top, TokenType::AVar, 1, None),
        }
    }
}

/// declarations → ε | `var` names `:` type (`;` declarations)?
pub open spec fn spec_decls(s: ScannerView, top: u32) -> Declared
    decreases measure(s),
{
    if s.cur.kind == TokenType::Var {
        match spec_match_tok(s, TokenType::Var) {
            Err(e) => Err(e),
            Ok(s1) => match spec_namelist(s1) {
                Err(e) => Err(e),
                Ok(s2) => match spec_match_tok(s2, TokenType::Colon) {
                    Err(e) => Err(e),
                    Ok(s3) => match spec_decl_type(s3, top) {
                        Err(e) => Err(e),
                        Ok((s4, top4)) => if s4.cur.kind == TokenType::Semi {
                            match spec_match_tok(s4, TokenType::Semi) {
                                Err(e) => Err(e),
                                Ok(s5) => if measure(s5) < measure(s) {
                                    spec_decls(s5, top4)
                                } else {
                                    Err(stalled())
                                },
                            }
                        } else {
                            Ok((s4, top4))
                        },
                    },
                },
            },
        }
    } else {
        Ok((s, top))
    }
}

/// What follows a declaration: `;` and further declarations, or nothing.
pub open spec fn spec_decl_tail(s: ScannerView, top: u32) -> Declared {
    if s.cur.kind == TokenType::Semi {
        match spec_match_tok(s, TokenType::Semi) {
            Err(e) => Err(e),
            Ok(s1) => spec_decls(s1, top),
        }
    } else {
        Ok((s, top))
    }
}

/// What a whole program leaves: the scanner at the end of the file, the
/// next free address of the data segment, and the code.
pub type Compiled = Result<(ScannerView, u32, Seq<u8>), Seq<char>>;

/// program → declarations block `.` end of file
///
/// The code is that of the block, the first byte at `ip`, and a final
/// `EXIT`.
pub open spec fn spec_parse(s: ScannerView, top: u32, ip: int) -> Compiled {
    match spec_decls(s, top) {
        Err(e) => Err(e),
        Ok((s1, top1)) => match spec_begin_st(s1, ip) {
            Err(e) => Err(e),
            Ok((s2, code)) => match spec_match_tok(s2, TokenType::Dot) {
                Err(e) => Err(e),
                Ok(s3) => match spec_match_tok(s3, TokenType::Eof) {
                    Err(e) => Err(e),
                    Ok(s4) => Ok((s4, top1, code + single(Opcode::Exit))),
                },
            },
        },
    }
}

/// Filling a hole replaces the four bytes that were reserved.
pub proof fn lemma_patched(before: Seq<u8>, hole: u32, behind: Seq<u8>, value: u32)
    ensures
        patched(before + be_bytes(hole) + behind, before.len() as int, value) == before + be_bytes(
            value,
        ) + behind,
{
    let code = before + be_bytes(hole) + behind;
    assert(patched(code, before.len() as int, value) =~= before + be_bytes(value) + behind);
}

/// The code of a `while` loop is what its pieces give, emitted in order with
/// a hole for the way out, once the hole has been filled with the offset
/// behind the loop.
proof fn lemma_while_assembled(base: Seq<u8>, cond: Seq<u8>, body: Seq<u8>, unpatched: Seq<u8>)
    requires
        unpatched == base + cond + push_word(0) + single(Opcode::JFalse) + body + push_word(
            base.len() as u32,
        ) + single(Opcode::Jmp),
    ensures
        patched(unpatched, (base.len() + cond.len() + 1) as int, unpatched.len() as u32) == base
            + while_code(base.len() as int, cond, body),
{
    let before = base + cond + single(Opcode::Push);
    let behind = single(Opcode::JFalse) + body + push_word(base.len() as u32) + single(Opcode::Jmp);
    assert(unpatched =~= before + be_bytes(0) + behind);
    lemma_patched(before, 0, behind, unpatched.len() as u32);
    assert(before + be_bytes(unpatched.len() as u32) + behind =~= base + while_code(
        base.len() as int,
        cond,
        body,
    ));
}

/// The code of an `if` without `else` is what its pieces give, once the
/// hole has been filled with the offset behind the statement.
proof fn lemma_if_assembled(base: Seq<u8>, cond: Seq<u8>, then_code: Seq<u8>, unpatched: Seq<u8>)
    requires
        unpatched == base + cond + push_word(0) + single(Opcode::JFalse) + then_code,
    ensures
        patched(unpatched, (base.len() + cond.len() + 1) as int, unpatched.len() as u32) == base + if_code(
            base.len() as int,
            cond,
            then_code,
        ),
{
    let before = base + cond + single(Opcode::Push);
    let behind = single(Opcode::JFalse) + then_code;
    assert(unpatched =~= before + be_bytes(0) + behind);
    lemma_patched(before, 0, behind, unpatched.len() as u32);
    assert(before + be_bytes(unpatched.len() as u32) + behind =~= base + if_code(
        base.len() as int,
        cond,
        then_code,
    ));
}

/// The code of an `if` with `else` is what its pieces give, once the first
/// hole has been filled with the offset of the alternative and the second
/// with the offset behind the statement.
proof fn lemma_if_else_assembled(
    base: Seq<u8>,
    cond: Seq<u8>,
    then_code: Seq<u8>,
    else_code: Seq<u8>,
    unpatched: Seq<u8>,
    once: Seq<u8>,
    unpatched2: Seq<u8>,
)
    requires
        unpatched == base + cond + push_word(0) + single(Opcode::JFalse) + then_code + push_word(0)
            + single(Opcode::Jmp),
        once == patched(unpatched, (base.len() + cond.len() + 1) as int, unpatched.len() as u32),
        unpatched2 == once + else_code,
    ensures
        patched(
            unpatched2,
            (base.len() + cond.len() + 6 + then_code.len() + 1) as int,
            unpatched2.len() as u32,
        ) == base + if_else_code(base.len() as int, cond, then_code, else_code),
{
    let before = base + cond + single(Opcode::Push);
    let behind = single(Opcode::JFalse) + then_code + push_word(0) + single(Opcode::Jmp);
    assert(unpatched =~= before + be_bytes(0) + behind);
    lemma_patched(before, 0, behind, unpatched.len() as u32);
    let before2 = before + be_bytes(unpatched.len() as u32) + single(Opcode::JFalse) + then_code
        + single(Opcode::Push);
    let behind2 = single(Opcode::Jmp) + else_code;
    assert(unpatched2 =~= before2 + be_bytes(0) + behind2);
    lemma_patched(before2, 0, behind2, unpatched2.len() as u32);
    assert(before2 + be_bytes(unpatched2.len() as u32) + behind2 =~= base + if_else_code(
        base.len() as int,
        cond,
        then_code,
        else_code,
    ));
}

/// Allocation keeps the tokens in order: the promoted names lie between the
/// old and the new top of the data segment, at multiples of four.
pub proof fn lemma_allocate_symbols(
    s: ScannerView,
    top: u32,
    kind: TokenType,
    elements: int,
    range: Option<(u32, u32)>,
)
    requires
        symbols_ok(s, top),
        top % 4 == 0,
        spec_allocate(s, top, kind, elements, range) is Ok,
        kind == TokenType::AVar && range is None && elements == 1 || kind == TokenType::AnArrayVar
            && (range matches Some(b) && b.0 <= b.1 && elements == b.1 - b.0 + 1),
    ensures
        symbols_ok(
            spec_allocate(s, top, kind, elements, range)->Ok_0.0,
            spec_allocate(s, top, kind, elements, range)->Ok_0.1,
        ),
        spec_allocate(s, top, kind, elements, range)->Ok_0.1 % 4 == 0,
        top <= spec_allocate(s, top, kind, elements, range)->Ok_0.1,
        measure(spec_allocate(s, top, kind, elements, range)->Ok_0.0) == measure(s),
        view_wf(s) ==> view_wf(spec_allocate(s, top, kind, elements, range)->Ok_0.0),
{
    reveal(table_ok);
    reveal(spec_allocate);
    reveal(table_wf);
    let size = 4 * elements;
    let count = ident_count(s.table) as int;
    let after = spec_allocate(s, top, kind, elements, range)->Ok_0.0;
    let top1 = spec_allocate(s, top, kind, elements, range)->Ok_0.1;
    assert(count * size == 4 * (count * elements)) by (nonlinear_arith)
        requires
            size == 4 * elements,
    ;
    assert(0 <= count * size) by (nonlinear_arith)
        requires
            0 <= count,
            0 <= size,
    ;
    assert forall|i: int| 0 <= i < after.table.len() implies token_ok(
        #[trigger] after.table[i].1,
        top1,
    ) by {
        assert(token_ok(s.table[i].1, top));
        if s.table[i].1.kind == TokenType::Ident {
            let before = idents_before(s.table, i) as int;
            lemma_idents_before_monotonic(s.table, i + 1, s.table.len() as int);
            assert(before + 1 <= count);
            assert((before + 1) * size <= count * size) by (nonlinear_arith)
                requires
                    before + 1 <= count,
                    0 <= size,
            ;
            assert((before + 1) * size == before * size + size) by (nonlinear_arith);
            assert(before * size == 4 * (before * elements)) by (nonlinear_arith)
                requires
                    size == 4 * elements,
            ;
            assert(0 <= before * size) by (nonlinear_arith)
                requires
                    0 <= before,
                    0 <= size,
            ;
        }
    }
}

/// A compiled program ends with `EXIT`.
pub proof fn lemma_program_ends_with_exit(s: ScannerView, top: u32, ip: int)
    requires
        spec_parse(s, top, ip) is Ok,
    ensures
        spec_parse(s, top, ip)->Ok_0.2.len() > 0,
        spec_parse(s, top, ip)->Ok_0.2.last() == Opcode::Exit.byte(),
{
}

/// Parentheses add nothing: a parenthesised expression compiles to the
/// bytes of the expression between the parentheses.
pub proof fn lemma_parentheses_add_nothing(s: ScannerView)
    requires
        s.cur.kind == TokenType::LParen,
        spec_factor(s) is Ok,
    ensures
        spec_match_tok(s, TokenType::LParen) is Ok,
        spec_expression(spec_match_tok(s, TokenType::LParen)->Ok_0) is Ok,
        spec_factor(s)->Ok_0.1 == spec_expression(spec_match_tok(s, TokenType::LParen)->Ok_0)->Ok_0.1,
        spec_match_tok(
            spec_expression(spec_match_tok(s, TokenType::LParen)->Ok_0)->Ok_0.0,
            TokenType::RParen,
        ) == Ok::<ScannerView, Seq<char>>(spec_factor(s)->Ok_0.0),
{
}

/// The operands of a binary operator are compiled in the order in which
/// they are written: the code of the left operand, the code of the right
/// operand, then the operator's instruction.
pub proof fn lemma_operands_in_order(s: ScannerView, left: Seq<u8>)
    requires
        is_add_op(s.cur.kind),
        spec_expression_rest(s, left) is Ok,
    ensures
        spec_match_tok(s, s.cur.kind) is Ok,
        spec_term(spec_match_tok(s, s.cur.kind)->Ok_0) is Ok,
        spec_expression_rest(s, left) == spec_expression_rest(
            spec_term(spec_match_tok(s, s.cur.kind)->Ok_0)->Ok_0.0,
            left + spec_term(spec_match_tok(s, s.cur.kind)->Ok_0)->Ok_0.1 + single(
                s.cur.kind.opcode()->Some_0,
            ),
        ),
{
}

/// The word at `at` in the code.
pub open spec fn word_at(code: Seq<u8>, at: int) -> u32
    recommends
        0 <= at,
        at + 4 <= code.len(),
{
    be_value(code.subrange(at, at + 4))
}

/// In the code of a `while` loop at `ip`, the hole behind the condition
/// holds the offset of the first byte behind the loop, and the last word
/// holds the offset of the condition: both lie in the code buffer.
pub proof fn lemma_while_targets(ip: int, cond: Seq<u8>, body: Seq<u8>)
    requires
        0 <= ip,
        ip + while_code(ip, cond, body).len() <= u32::MAX,
    ensures
        while_code(ip, cond, body).len() == cond.len() + 6 + body.len() + 6,
        word_at(while_code(ip, cond, body), cond.len() as int + 1) == ip + while_code(
            ip,
            cond,
            body,
        ).len(),
        word_at(while_code(ip, cond, body), cond.len() as int + 6 + body.len() as int + 1) == ip,
{
    let code = while_code(ip, cond, body);
    let c = cond.len() as int;
    let b = body.len() as int;
    let after = (ip + c + 6 + b + 6) as u32;
    assert(code.subrange(c + 1, c + 5) =~= be_bytes(after));
    assert(code.subrange(c + 6 + b + 1, c + 6 + b + 5) =~= be_bytes(ip as u32));
    lemma_be_value_of_bytes(after);
    lemma_be_value_of_bytes(ip as u32);
}

/// In the code of an `if` without `else` at `ip`, the hole behind the
/// condition holds the offset of the first byte behind the statement.
pub proof fn lemma_if_targets(ip: int, cond: Seq<u8>, then_code: Seq<u8>)
    requires
        0 <= ip,
        ip + if_code(ip, cond, then_code).len() <= u32::MAX,
    ensures
        if_code(ip, cond, then_code).len() == cond.len() + 6 + then_code.len(),
        word_at(if_code(ip, cond, then_code), cond.len() as int + 1) == ip + if_code(
            ip,
            cond,
            then_code,
        ).len(),
{
    let code = if_code(ip, cond, then_code);
    let c = cond.len() as int;
    let end = (ip + c + 6 + then_code.len()) as u32;
    assert(code.subrange(c + 1, c + 5) =~= be_bytes(end));
    lemma_be_value_of_bytes(end);
}

/// In the code of an `if` with `else` at `ip`, the hole behind the condition
/// holds the offset of the alternative, and the hole behind the block holds
/// the offset of the first byte behind the statement.
pub proof fn lemma_if_else_targets(
    ip: int,
    cond: Seq<u8>,
    then_code: Seq<u8>,
    else_code: Seq<u8>,
)
    requires
        0 <= ip,
        ip + if_else_code(ip, cond, then_code, else_code).len() <= u32::MAX,
    ensures
        if_else_code(ip, cond, then_code, else_code).len() == cond.len() + 6 + then_code.len() + 6
            + else_code.len(),
        word_at(if_else_code(ip, cond, then_code, else_code), cond.len() as int + 1) == ip
            + cond.len() + 6 + then_code.len() + 6,
        word_at(
            if_else_code(ip, cond, then_code, else_code),
            cond.len() as int + 6 + then_code.len() as int + 1,
        ) == ip + if_else_code(ip, cond, then_code, else_code).len(),
{
    let code = if_else_code(ip, cond, then_code, else_code);
    let c = cond.len() as int;
    let t = then_code.len() as int;
    let else_ip = (ip + c + 6 + t + 6) as u32;
    let end = (else_ip + else_code.len()) as u32;
    assert(code.subrange(c + 1, c + 5) =~= be_bytes(else_ip));
    assert(code.subrange(c + 6 + t + 1, c + 6 + t + 5) =~= be_bytes(end));
    lemma_be_value_of_bytes(else_ip);
    lemma_be_value_of_bytes(end);
}

/// The parser: it owns the scanner, and the generator that it drives.
pub struct Parser {
    pub scan: Scanner,
    pub gen: RvmGenerator,
}

/// How a production that emits code changed the parser: on success the
/// scanner stands behind the production's tokens, the code has grown by
/// what the production emits and by no more than eight bytes for every
/// token read, and nothing was allocated.
pub open spec fn emits(before: Parser, after: Parser, r: Result<(), String>, want: Emitted) -> bool {
    match want {
        Ok((s, code)) => {
            &&& r is Ok
            &&& after.wf()
            &&& after.scan@ == s
            &&& after.gen.code@ == before.gen.code@ + code
            &&& after.gen.data_addr == before.gen.data_addr
            &&& after.gen.code@.len() + 8 * measure(after.scan@) <= before.gen.code@.len() + 8
                * measure(before.scan@)
        },
        Err(e) => r is Err && r->Err_0@ == e && e.len() > 0,
    }
}

/// How a declaration changed the parser: on success the scanner stands
/// behind the declaration's tokens, storage is allocated up to the new top
/// of the data segment, and no code was emitted.
pub open spec fn declares(before: Parser, after: Parser, r: Result<(), String>, want: Declared) -> bool {
    match want {
        Ok((s, top)) => {
            &&& r is Ok
            &&& after.wf()
            &&& after.scan@ == s
            &&& after.gen.code@ == before.gen.code@
            &&& after.gen.data_addr == top
            &&& measure(after.scan@) <= measure(before.scan@)
        },
        Err(e) => r is Err && r->Err_0@ == e && e.len() > 0,
    }
}

/// How a production that only reads tokens changed the parser: on success
/// the scanner stands behind the production's tokens.
pub open spec fn scans(
    before: Parser,
    after: Parser,
    r: Result<(), String>,
    want: Result<ScannerView, Seq<char>>,
) -> bool {
    match want {
        Ok(s) => {
            &&& r is Ok
            &&& after.wf()
            &&& after.scan@ == s
            &&& after.gen == before.gen
            &&& measure(after.scan@) <= measure(before.scan@)
        },
        Err(e) => r is Err && r->Err_0@ == e && e.len() > 0,
    }
}

impl Parser {
    /// The parser's invariant: scanner and generator are in order, the
    /// variables lie in the allocated part of the data segment, which ends
    /// at a multiple of four, and the code will stay below 4 GiB however
    /// the rest of the source reads.
    pub open spec fn wf(&self) -> bool {
        &&& self.scan.wf()
        &&& self.gen.wf()
        &&& symbols_ok(self.scan@, self.gen.data_addr)
        &&& self.gen.data_addr % 4 == 0
        &&& self.gen.code@.len() + 8 * measure(self.scan@) <= u32::MAX
    }

    /// A parser over the scanner's tokens with a generator that has emitted
    /// nothing.
    pub fn new(scan: Scanner) -> (p: Parser)
        requires
            scan.wf(),
            symbols_ok(scan@, 0),
        ensures
            p.wf(),
            p.scan == scan,
            p.gen.code@ == Seq::<u8>::empty(),
            p.gen.data_addr == 0,
    {
        Parser { scan, gen: RvmGenerator::new() }
    }

    // === HELPERS ================================================================================
    /// Tells whether the current token is of the given kind.
    fn check_tok(&self, tok: TokenType) -> (r: Result<(), String>)
        ensures
            match spec_check_tok(self.scan@, tok) {
                Ok(()) => r is Ok,
                Err(e) => r is Err && r->Err_0@ == e && e.len() > 0,
            },
    {
        if tok != self.scan.cur_token.token_type {
            let errmsg = parser_error(tok.to_str(), self.scan.cur_token.clone());
            Err(errmsg)
        } else {
            Ok(())
        }
    }

    /// Passes the current token, which must be of the given kind.
    fn match_tok(&mut self, tok: TokenType) -> (r: Result<(), String>)
        requires
            old(self).wf(),
        ensures
            match spec_match_tok(old(self).scan@, tok) {
                Ok(s) => {
                    &&& r is Ok
                    &&& final(self).wf()
                    &&& final(self).scan@ == s
                    &&& measure(s) <= measure(old(self).scan@)
                    &&& tok != TokenType::Eof ==> measure(s) < measure(old(self).scan@)
                },
                Err(e) => r is Err && r->Err_0@ == e && e.len() > 0,
            },
            final(self).gen == old(self).gen,
    {
        match self.check_tok(tok) {
            Ok(()) => {},
            Err(e) => {
                return Err(e);
            },
        }
        proof {
            if spec_get_token(self.scan@) is Ok {
                lemma_get_token_symbols(self.scan@, self.gen.data_addr);
            }
        }
        self.scan.get_token()
    }

    /// Emits the instruction that pushes a word.
    fn push(&mut self, value: u32)
        requires
            old(self).gen.wf(),
        ensures
            final(self).gen.wf(),
            final(self).gen.code@ == old(self).gen.code@ + push_word(value),
            final(self).gen.data_addr == old(self).gen.data_addr,
            final(self).scan == old(self).scan,
    {
        self.gen.op(Opcode::Push);
        self.gen.data(value);
        assert(self.gen.code@ =~= old(self).gen.code@ + push_word(value));
    }

    /// Emits an instruction without operand.
    fn emit(&mut self, opcode: Opcode)
        requires
            old(self).gen.wf(),
        ensures
            final(self).gen.wf(),
            final(self).gen.code@ == old(self).gen.code@ + single(opcode),
            final(self).gen.data_addr == old(self).gen.data_addr,
            final(self).scan == old(self).scan,
    {
        self.gen.op(opcode);
        assert(self.gen.code@ =~= old(self).gen.code@ + single(opcode));
    }

    /// Emits the code that turns the index on the stack into the address
    /// of the array's element.
    fn element_address(&mut self, base: u32, lo: u32)
        requires
            old(self).gen.wf(),
        ensures
            final(self).gen.wf(),
            final(self).gen.code@ == old(self).gen.code@ + element_address_code(base, lo),
            element_address_code(base, lo).len() <= 18,
            final(self).gen.data_addr == old(self).gen.data_addr,
            final(self).scan == old(self).scan,
    {
        if lo != 0 {
            self.push(lo);
            self.emit(Opcode::Sub);
        }
        self.push(4);  // the size of an element
        self.emit(Opcode::Mult);
        self.push(base);
        self.emit(Opcode::Add);
        assert(self.gen.code@ =~= old(self).gen.code@ + element_address_code(base, lo));
    }

    /// Compiles a program: declarations, the block, `.` and the end of the
    /// file. The code ends with `EXIT`, and the cursor stands behind it.
    pub fn parse(&mut self) -> (r: Result<(), String>)
        requires
            old(self).wf(),
        ensures
            match spec_parse(old(self).scan@, old(self).gen.data_addr, old(self).gen.i_ptr as int) {
                Ok((s, top, code)) => {
                    &&& r is Ok
                    &&& final(self).wf()
                    &&& final(self).scan@ == s
                    &&& final(self).gen.data_addr == top
                    &&& final(self).gen.code@ == old(self).gen.code@ + code
                    &&& final(self).gen.code@.last() == Opcode::Exit.byte()
                    &&& final(self).gen.i_ptr == final(self).gen.code@.len()
                },
                Err(e) => r is Err && r->Err_0@ == e && e.len() > 0,
            },
    {
        match self.decls() {
            Ok(()) => {},
            Err(e) => {
                return Err(e);
            },
        }
        let ghost s1 = self.scan@;
        match self.body() {
            Ok(()) => {},
            Err(e) => {
                return Err(e);
            },
        }
        match self.match_tok(TokenType::Dot) {
            Ok(()) => {},
            Err(e) => {
                return Err(e);
            },
        }
        match self.match_tok(TokenType::Eof) {
            Ok(()) => {},
            Err(e) => {
                return Err(e);
            },
        }
        self.emit(Opcode::Exit);
        proof {
            let code = spec_begin_st(s1, old(self).gen.i_ptr as int)->Ok_0.1;
            assert(self.gen.code@ =~= old(self).gen.code@ + (code + single(Opcode::Exit)));
        }
        Ok(())
    }

    // === GRAMMAR PRODUCTIONS ====================================================================
    /// Reads the declarations and allocates the variables.
    fn decls(&mut self) -> (r: Result<(), String>)
        requires
            old(self).wf(),
        ensures
            declares(
                *old(self),
                *final(self),
                r,
                spec_decls(old(self).scan@, old(self).gen.data_addr),
            ),
        decreases measure(old(self).scan@),
    {
        if self.scan.cur_token.token_type == TokenType::Var {
            match self.match_tok(TokenType::Var) {
                Ok(()) => {},
                Err(e) => {
                    return Err(e);
                },
            }
            match self.namelist() {
                Ok(()) => {},
                Err(e) => {
                    return Err(e);
                },
            }
            match self.match_tok(TokenType::Colon) {
                Ok(()) => {},
                Err(e) => {
                    return Err(e);
                },
            }
            match self.decl_type() {
                Ok(()) => {},
                Err(e) => {
                    return Err(e);
                },
            }
            proof {
                if spec_match_tok(self.scan@, TokenType::Semi) is Ok {
                    lemma_get_token_progress(self.scan@);
                }
            }
            self.decl_tail()
        } else {
            Ok(())
        }
    }

    /// Reads the names of a declaration; the scanner enters them into the table.
    fn namelist(&mut self) -> (r: Result<(), String>)
        requires
            old(self).wf(),
        ensures
            scans(*old(self), *final(self), r, spec_namelist(old(self).scan@)),
        decreases measure(old(self).scan@),
    {
        match self.match_tok(TokenType::Ident) {
            Ok(()) => {},
            Err(e) => {
                return Err(e);
            },
        }
        proof {
            if spec_match_tok(self.scan@, TokenType::Comma) is Ok {
                lemma_get_token_progress(self.scan@);
            }
        }
        self.namelist_tail()
    }

    /// Reads the further names of a declaration, if any.
    fn namelist_tail(&mut self) -> (r: Result<(), String>)
        requires
            old(self).wf(),
        ensures
            scans(*old(self), *final(self), r, spec_namelist_tail(old(self).scan@)),
        decreases measure(old(self).scan@),
    {
        if self.scan.cur_token.token_type == TokenType::Comma {
            match self.match_tok(TokenType::Comma) {
                Ok(()) => {},
                Err(e) => {
                    return Err(e);
                },
            }
            self.namelist()
        } else {
            Ok(())
        }
    }

    /// The value of the literal that is the current token.
    fn bound(&self) -> (r: Result<u32, String>)
        ensures
            match spec_bound(self.scan@) {
                Ok(v) => r == Ok::<u32, String>(v),
                Err(e) => r is Err && r->Err_0@ == e && e.len() > 0,
            },
    {
        proof {
            reveal(spec_bound);
        }
        match self.check_tok(TokenType::IntLit) {
            Ok(()) => {},
            Err(e) => {
                return Err(e);
            },
        }
        match parse_u32(self.scan.cur_token.token_value.as_str()) {
            None => Err(parser_error("TK_INTLIT below 4294967296", self.scan.cur_token.clone())),
            Some(v) => Ok(v),
        }
    }

    /// Gives every declared name `elements` words of the data segment.
    fn allocate(&mut self, ttype: TokenType, elements: u64, range: Option<(u32, u32)>) -> (r: Result<
        (),
        String,
    >)
        requires
            old(self).wf(),
            ttype == TokenType::AVar && range is None && elements == 1 || ttype
                == TokenType::AnArrayVar && (range matches Some(b) && b.0 <= b.1 && elements == b.1
                - b.0 + 1),
        ensures
            declares(
                *old(self),
                *final(self),
                r,
                spec_allocate(
                    old(self).scan@,
                    old(self).gen.data_addr,
                    ttype,
                    elements as int,
                    range,
                ),
            ),
    {
        proof {
            reveal(spec_allocate);
        }
        let count = self.scan.symbol_table.count_idents();
        let size: u64 = 4 * elements;
        let room: u64 = (u32::MAX - self.gen.data_addr) as u64;
        if size > u32::MAX as u64 || count as u64 > room / size {
            proof {
                if size <= u32::MAX {
                    let c = count as int;
                    let q = (room / size) as int;
                    assert(c * size >= (q + 1) * size) by (nonlinear_arith)
                        requires
                            c >= q + 1,
                            size > 0,
                    ;
                    assert((q + 1) * size > room) by (nonlinear_arith)
                        requires
                            q == room as int / size as int,
                            size > 0,
                    ;
                }
            }
            return Err(parser_error("storage within 4294967296 bytes", self.scan.cur_token.clone()));
        }
        proof {
            let c = count as int;
            let q = (room / size) as int;
            assert(c * size <= q * size) by (nonlinear_arith)
                requires
                    0 <= c <= q,
                    size > 0,
            ;
            assert(q * size <= room) by (nonlinear_arith)
                requires
                    q == room as int / size as int,
                    size > 0,
                    room >= 0,
            ;
            lemma_allocate_symbols(self.scan@, self.gen.data_addr, ttype, elements as int, range);
        }
        let stride = size as u32;
        let promoted = match range {
            Some(b) => self.scan.symbol_table.set_idents_to_arr(
                ttype,
                self.gen.data_addr,
                stride,
                b.0,
                b.1,
            ),
            None => self.scan.symbol_table.set_idents_to(ttype, self.gen.data_addr, stride),
        };
        assert(promoted * stride == count * size) by (nonlinear_arith)
            requires
                promoted == count,
                stride == size,
        ;
        self.gen.data_addr = self.gen.data_addr + promoted * stride;
        Ok(())
    }

    /// Reads the type of a declaration and allocates the declared names.
    fn decl_type(&mut self) -> (r: Result<(), String>)
        requires
            old(self).wf(),
        ensures
            declares(
                *old(self),
                *final(self),
                r,
                spec_decl_type(old(self).scan@, old(self).gen.data_addr),
            ),
        decreases measure(old(self).scan@),
    {
        match self.scan.cur_token.token_type {
            TokenType::Array => {
                match self.match_tok(TokenType::Array) {
                    Ok(()) => {},
                    Err(e) => {
                        return Err(e);
                    },
                }
                match self.match_tok(TokenType::LBrack) {
                    Ok(()) => {},
                    Err(e) => {
                        return Err(e);
                    },
                }
                let lo = match self.bound() {
                    Ok(v) => v,
                    Err(e) => {
                        return Err(e);
                    },
                };
                match self.match_tok(TokenType::IntLit) {
                    Ok(()) => {},
                    Err(e) => {
                        return Err(e);
                    },
                }
                match self.match_tok(TokenType::Range) {
                    Ok(()) => {},
                    Err(e) => {
                        return Err(e);
                    },
                }
                let hi = match self.bound() {
                    Ok(v) => v,
                    Err(e) => {
                        return Err(e);
                    },
                };
                if hi < lo {
                    return Err(
                        parser_error(
                            "TK_INTLIT not below the lower bound",
                            self.scan.cur_token.clone(),
                        ),
                    );
                }
                match self.match_tok(TokenType::IntLit) {
                    Ok(()) => {},
                    Err(e) => {
                        return Err(e);
                    },
                }
                match self.match_tok(TokenType::RBrack) {
                    Ok(()) => {},
                    Err(e) => {
                        return Err(e);
                    },
                }
                match self.match_tok(TokenType::Of) {
                    Ok(()) => {},
                    Err(e) => {
                        return Err(e);
                    },
                }
                let elements: u64 = (hi - lo) as u64 + 1;
                match self.allocate(TokenType::AnArrayVar, elements, Some((lo, hi))) {
                    Ok(()) => {},
                    Err(e) => {
                        return Err(e);
                    },
                }
                // The type of the elements.
                self.decl_type()
            },
            _ => {
                match self.match_tok(TokenType::Integer) {
                    Ok(()) => {},
                    Err(e) => {
                        return Err(e);
                    },
                }
                self.allocate(TokenType::AVar, 1, None)
            },
        }
    }

    /// Reads the further declarations, if any.
    fn decl_tail(&mut self) -> (r: Result<(), String>)
        requires
            old(self).wf(),
        ensures
            declares(
                *old(self),
                *final(self),
                r,
                spec_decl_tail(old(self).scan@, old(self).gen.data_addr),
            ),
        decreases measure(old(self).scan@),
    {
        if self.scan.cur_token.token_type == TokenType::Semi {
            match self.match_tok(TokenType::Semi) {
                Ok(()) => {},
                Err(e) => {
                    return Err(e);
                },
            }
            self.decls()
        } else {
            Ok(())
        }
    }

    /// Emits the push of a word that is not known yet, and returns the
    /// offset of the word: the hole to fill later.
    fn reserve(&mut self) -> (hole: usize)
        requires
            old(self).gen.wf(),
        ensures
            final(self).gen.wf(),
            final(self).gen.code@ == old(self).gen.code@ + push_word(0),
            hole == old(self).gen.code@.len() + 1,
            final(self).gen.data_addr == old(self).gen.data_addr,
            final(self).scan == old(self).scan,
    {
        self.gen.op(Opcode::Push);
        let hole = self.gen.i_ptr;
        self.gen.data(0);
        assert(self.gen.code@ =~= old(self).gen.code@ + push_word(0));
        hole
    }

    /// Fills the hole with the offset of the next byte to emit: the cursor
    /// goes back to the hole, the word is written, and the cursor returns.
    fn backpatch(&mut self, hole: usize)
        requires
            old(self).gen.wf(),
            hole + 4 <= old(self).gen.code@.len(),
            old(self).gen.code@.len() <= u32::MAX,
        ensures
            final(self).gen.wf(),
            final(self).gen.code@ == patched(
                old(self).gen.code@,
                hole as int,
                old(self).gen.code@.len() as u32,
            ),
            final(self).gen.data_addr == old(self).gen.data_addr,
            final(self).scan == old(self).scan,
    {
        let save = self.gen.i_ptr;
        self.gen.i_ptr = hole;
        self.gen.fill(save as u32);
        self.gen.i_ptr = save;
    }

    // === STATEMENT HANDLERS =====================================================================
    /// Compiles the block of a program.
    fn body(&mut self) -> (r: Result<(), String>)
        requires
            old(self).wf(),
        ensures
            emits(
                *old(self),
                *final(self),
                r,
                spec_begin_st(old(self).scan@, old(self).gen.i_ptr as int),
            ),
        decreases measure(old(self).scan@), 1nat,
    {
        self.begin_st()
    }

    /// Compiles statements, each followed by `;`, as long as one begins.
    fn stats(&mut self) -> (r: Result<(), String>)
        requires
            old(self).wf(),
        ensures
            emits(*old(self), *final(self), r, spec_stats(old(self).scan@, old(self).gen.i_ptr as int)),
        decreases measure(old(self).scan@), 2nat,
    {
        match self.statement() {
            None => {
                assert(self.gen.code@ =~= old(self).gen.code@ + Seq::<u8>::empty());
                return Ok(());
            },
            Some(Err(e)) => {
                return Err(e);
            },
            Some(Ok(())) => {},
        }
        let ghost first_code = spec_statement(old(self).scan@, old(self).gen.i_ptr as int)->Some_0->Ok_0.1;
        let ghost s1 = self.scan@;
        let ghost ip1 = self.gen.i_ptr as int;
        proof {
            if spec_match_tok(s1, TokenType::Semi) is Ok {
                lemma_get_token_progress(s1);
            }
        }
        match self.stats_tail() {
            Ok(()) => {},
            Err(e) => {
                return Err(e);
            },
        }
        proof {
            let rest = spec_stats_tail(s1, ip1)->Ok_0.1;
            assert(self.gen.code@ =~= old(self).gen.code@ + (first_code + rest));
        }
        Ok(())
    }

    /// Compiles the statement that begins with the current token; `None`
    /// where no statement begins with it.
    fn statement(&mut self) -> (r: Option<Result<(), String>>)
        requires
            old(self).wf(),
        ensures
            match spec_statement(old(self).scan@, old(self).gen.i_ptr as int) {
                None => r is None && *final(self) == *old(self),
                Some(want) => r is Some && emits(*old(self), *final(self), r->Some_0, want),
            },
        decreases measure(old(self).scan@), 1nat,
    {
        match self.scan.cur_token.token_type {
            TokenType::AVar => Some(self.assign_st()),
            TokenType::AnArrayVar => Some(self.assign_array_st()),
            TokenType::Repeat => Some(self.repeat_st()),
            TokenType::While => Some(self.while_st()),
            TokenType::If => Some(self.if_st()),
            TokenType::Write => Some(self.write_st()),
            _ => None,
        }
    }

    /// Passes the `;` behind a statement and compiles the statements that follow.
    fn stats_tail(&mut self) -> (r: Result<(), String>)
        requires
            old(self).wf(),
        ensures
            emits(
                *old(self),
                *final(self),
                r,
                spec_stats_tail(old(self).scan@, old(self).gen.i_ptr as int),
            ),
        decreases measure(old(self).scan@), 0nat,
    {
        match self.match_tok(TokenType::Semi) {
            Ok(()) => {},
            Err(e) => {
                return Err(e);
            },
        }
        self.stats()
    }

    /// Compiles a block: `begin`, statements, `end`.
    fn begin_st(&mut self) -> (r: Result<(), String>)
        requires
            old(self).wf(),
        ensures
            emits(
                *old(self),
                *final(self),
                r,
                spec_begin_st(old(self).scan@, old(self).gen.i_ptr as int),
            ),
        decreases measure(old(self).scan@), 0nat,
    {
        match self.match_tok(TokenType::Begin) {
            Ok(()) => {},
            Err(e) => {
                return Err(e);
            },
        }
        match self.stats() {
            Ok(()) => {},
            Err(e) => {
                return Err(e);
            },
        }
        match self.match_tok(TokenType::End) {
            Ok(()) => {},
            Err(e) => {
                return Err(e);
            },
        }
        Ok(())
    }

    /// Compiles an assignment to a variable.
    fn assign_st(&mut self) -> (r: Result<(), String>)
        requires
            old(self).wf(),
        ensures
            emits(*old(self), *final(self), r, spec_assign_st(old(self).scan@)),
    {
        proof {
            reveal(spec_assign_st);
        }
        let cur_token = self.scan.cur_token.clone();  // the variable
        match self.match_tok(TokenType::AVar) {
            Ok(()) => {},
            Err(e) => {
                return Err(e);
            },
        }
        self.push(cur_token.token_addr.unwrap());
        match self.match_tok(TokenType::OpAssign) {
            Ok(()) => {},
            Err(e) => {
                return Err(e);
            },
        }
        let ghost s2 = self.scan@;
        match self.expression() {
            Ok(()) => {},
            Err(e) => {
                return Err(e);
            },
        }
        self.emit(Opcode::Store);
        proof {
            let value = spec_expression(s2)->Ok_0.1;
            assert(self.gen.code@ =~= old(self).gen.code@ + (push_word(cur_token@.addr->Some_0)
                + value + single(Opcode::Store)));
        }
        Ok(())
    }

    /// Compiles an assignment to an element of an array.
    fn assign_array_st(&mut self) -> (r: Result<(), String>)
        requires
            old(self).wf(),
        ensures
            emits(*old(self), *final(self), r, spec_assign_array_st(old(self).scan@)),
    {
        proof {
            reveal(spec_assign_array_st);
        }
        let arr_token = self.scan.cur_token.clone();  // the array
        match self.match_tok(TokenType::AnArrayVar) {
            Ok(()) => {},
            Err(e) => {
                return Err(e);
            },
        }
        match self.match_tok(TokenType::LBrack) {
            Ok(()) => {},
            Err(e) => {
                return Err(e);
            },
        }
        let ghost s2 = self.scan@;
        match self.expression() {
            Ok(()) => {},
            Err(e) => {
                return Err(e);
            },
        }
        match self.match_tok(TokenType::RBrack) {
            Ok(()) => {},
            Err(e) => {
                return Err(e);
            },
        }
        match self.match_tok(TokenType::OpAssign) {
            Ok(()) => {},
            Err(e) => {
                return Err(e);
            },
        }
        // Turn the index on the stack into the address of the element.
        self.element_address(arr_token.token_addr.unwrap(), arr_token.low.unwrap());
        let ghost s5 = self.scan@;
        match self.expression() {
            Ok(()) => {},
            Err(e) => {
                return Err(e);
            },
        }
        self.emit(Opcode::Store);
        proof {
            let index = spec_expression(s2)->Ok_0.1;
            let value = spec_expression(s5)->Ok_0.1;
            assert(self.gen.code@ =~= old(self).gen.code@ + (index + element_address_code(
                arr_token@.addr->Some_0,
                arr_token@.low->Some_0,
            ) + value + single(Opcode::Store)));
        }
        Ok(())
    }

    /// Compiles a `repeat` loop, which jumps back to its first statement until its
    /// condition holds.
    fn repeat_st(&mut self) -> (r: Result<(), String>)
        requires
            old(self).wf(),
        ensures
            emits(
                *old(self),
                *final(self),
                r,
                spec_repeat_st(old(self).scan@, old(self).gen.i_ptr as int),
            ),
        decreases measure(old(self).scan@), 0nat,
    {
        match self.match_tok(TokenType::Repeat) {
            Ok(()) => {},
            Err(e) => {
                return Err(e);
            },
        }
        let label = self.gen.i_ptr;
        let ghost s1 = self.scan@;
        match self.stats() {
            Ok(()) => {},
            Err(e) => {
                return Err(e);
            },
        }
        match self.match_tok(TokenType::Until) {
            Ok(()) => {},
            Err(e) => {
                return Err(e);
            },
        }
        let ghost s3 = self.scan@;
        match self.expression() {
            Ok(()) => {},
            Err(e) => {
                return Err(e);
            },
        }
        // Back to the first statement unless the condition holds.
        self.push(label as u32);
        self.emit(Opcode::JFalse);
        proof {
            let body = spec_stats(s1, label as int)->Ok_0.1;
            let cond = spec_expression(s3)->Ok_0.1;
            assert(self.gen.code@ =~= old(self).gen.code@ + repeat_code(label as int, body, cond));
        }
        Ok(())
    }

    /// Compiles a `while` loop, which leaves through a hole that is filled once
    /// the end of the loop is known.
    fn while_st(&mut self) -> (r: Result<(), String>)
        requires
            old(self).wf(),
        ensures
            emits(
                *old(self),
                *final(self),
                r,
                spec_while_st(old(self).scan@, old(self).gen.i_ptr as int),
            ),
        decreases measure(old(self).scan@), 0nat,
    {
        match self.match_tok(TokenType::While) {
            Ok(()) => {},
            Err(e) => {
                return Err(e);
            },
        }
        let label = self.gen.i_ptr;
        let ghost s1 = self.scan@;
        match self.expression() {
            Ok(()) => {},
            Err(e) => {
                return Err(e);
            },
        }
        match self.match_tok(TokenType::Do) {
            Ok(()) => {},
            Err(e) => {
                return Err(e);
            },
        }
        // Leave the loop when the condition fails: where to is filled in below.
        let hole = self.reserve();
        self.emit(Opcode::JFalse);
        let ghost s3 = self.scan@;
        let ghost body_ip = self.gen.i_ptr as int;
        match self.begin_st() {
            Ok(()) => {},
            Err(e) => {
                return Err(e);
            },
        }
        self.push(label as u32);
        self.emit(Opcode::Jmp);
        let ghost unpatched = self.gen.code@;
        self.backpatch(hole);
        proof {
            let cond = spec_expression(s1)->Ok_0.1;
            let body = spec_begin_st(s3, body_ip)->Ok_0.1;
            lemma_while_assembled(old(self).gen.code@, cond, body, unpatched);
        }
        Ok(())
    }

    /// Compiles a conditional, with one hole for the jump over the block and,
    /// where there is an alternative, one for the jump over that.
    #[verifier::rlimit(60)]
    fn if_st(&mut self) -> (r: Result<(), String>)
        requires
            old(self).wf(),
        ensures
            emits(*old(self), *final(self), r, spec_if_st(old(self).scan@, old(self).gen.i_ptr as int)),
        decreases measure(old(self).scan@), 0nat,
    {
        let ghost base = old(self).gen.code@;
        let ghost ip = old(self).gen.i_ptr as int;
        match self.match_tok(TokenType::If) {
            Ok(()) => {},
            Err(e) => {
                return Err(e);
            },
        }
        let ghost s1 = self.scan@;
        match self.expression() {
            Ok(()) => {},
            Err(e) => {
                return Err(e);
            },
        }
        let ghost cond = spec_expression(s1)->Ok_0.1;
        // Skip the block when the condition fails: where to is filled in below.
        let hole = self.reserve();
        self.emit(Opcode::JFalse);
        match self.match_tok(TokenType::Then) {
            Ok(()) => {},
            Err(e) => {
                return Err(e);
            },
        }
        let ghost s3 = self.scan@;
        let ghost then_ip = self.gen.i_ptr as int;
        match self.begin_st() {
            Ok(()) => {},
            Err(e) => {
                return Err(e);
            },
        }
        let ghost then_code = spec_begin_st(s3, then_ip)->Ok_0.1;
        if self.scan.cur_token.token_type == TokenType::Else {
            // Skip the alternative after the block: where to is filled in below.
            let hole2 = self.reserve();
            self.emit(Opcode::Jmp);
            let ghost unpatched = self.gen.code@;
            // The condition's jump leads to the alternative.
            self.backpatch(hole);
            let ghost else_ip = self.gen.i_ptr as int;
            let ghost once = self.gen.code@;
            match self.match_tok(TokenType::Else) {
                Ok(()) => {},
                Err(e) => {
                    return Err(e);
                },
            }
            let ghost s5 = self.scan@;
            match self.begin_st() {
                Ok(()) => {},
                Err(e) => {
                    return Err(e);
                },
            }
            let ghost unpatched2 = self.gen.code@;
            self.backpatch(hole2);
            proof {
                let else_code = spec_begin_st(s5, else_ip)->Ok_0.1;
                lemma_if_else_assembled(base, cond, then_code, else_code, unpatched, once, unpatched2);
            }
        } else {
            let ghost unpatched = self.gen.code@;
            // The condition's jump leads behind the statement.
            self.backpatch(hole);
            proof {
                lemma_if_assembled(base, cond, then_code, unpatched);
            }
        }
        Ok(())
    }

    /// Compiles a `write`.
    fn write_st(&mut self) -> (r: Result<(), String>)
        requires
            old(self).wf(),
        ensures
            emits(*old(self), *final(self), r, spec_write_st(old(self).scan@)),
    {
        proof {
            reveal(spec_write_st);
        }
        match self.match_tok(TokenType::Write) {
            Ok(()) => {},
            Err(e) => {
                return Err(e);
            },
        }
        match self.match_tok(TokenType::LParen) {
            Ok(()) => {},
            Err(e) => {
                return Err(e);
            },
        }
        let ghost s2 = self.scan@;
        match self.expression() {
            Ok(()) => {},
            Err(e) => {
                return Err(e);
            },
        }
        match self.match_tok(TokenType::RParen) {
            Ok(()) => {},
            Err(e) => {
                return Err(e);
            },
        }
        self.emit(Opcode::Write);
        proof {
            let value = spec_expression(s2)->Ok_0.1;
            assert(self.gen.code@ =~= old(self).gen.code@ + (value + single(Opcode::Write)));
        }
        Ok(())
    }

    // === EXPRESSION PARSERS =====================================================================
    /// Compiles a factor.
    fn factor(&mut self) -> (r: Result<(), String>)
        requires
            old(self).wf(),
        ensures
            emits(*old(self), *final(self), r, spec_factor(old(self).scan@)),
        decreases measure(old(self).scan@), 0nat,
    {
        let tok = self.scan.cur_token.clone();
        match tok.token_type {
            TokenType::IntLit => {
                match parse_u32(tok.token_value.as_str()) {
                    None => {
                        return Err(parser_error("TK_INTLIT below 4294967296", tok));
                    },
                    Some(value) => {
                        match self.match_tok(TokenType::IntLit) {
                            Ok(()) => {},
                            Err(e) => {
                                return Err(e);
                            },
                        }
                        // Push the literal.
                        self.push(value);
                    },
                }
            },
            TokenType::AVar => {
                match self.match_tok(TokenType::AVar) {
                    Ok(()) => {},
                    Err(e) => {
                        return Err(e);
                    },
                }
                // Push the variable's address, then load from it.
                self.push(tok.token_addr.unwrap());
                self.emit(Opcode::Load);
                assert(self.gen.code@ =~= old(self).gen.code@ + (push_word(tok@.addr->Some_0)
                    + single(Opcode::Load)));
            },
            TokenType::AnArrayVar => {
                match self.match_tok(TokenType::AnArrayVar) {
                    Ok(()) => {},
                    Err(e) => {
                        return Err(e);
                    },
                }
                match self.match_tok(TokenType::LBrack) {
                    Ok(()) => {},
                    Err(e) => {
                        return Err(e);
                    },
                }
                let ghost s2 = self.scan@;
                match self.expression() {
                    Ok(()) => {},
                    Err(e) => {
                        return Err(e);
                    },
                }  // the index
                let ghost index = spec_expression(s2)->Ok_0.1;
                match self.match_tok(TokenType::RBrack) {
                    Ok(()) => {},
                    Err(e) => {
                        return Err(e);
                    },
                }
                self.element_address(tok.token_addr.unwrap(), tok.low.unwrap());
                self.emit(Opcode::Load);
                assert(self.gen.code@ =~= old(self).gen.code@ + (index + element_address_code(
                    tok@.addr->Some_0,
                    tok@.low->Some_0,
                ) + single(Opcode::Load)));
            },
            TokenType::OpMinus => {
                match self.match_tok(TokenType::OpMinus) {
                    Ok(()) => {},
                    Err(e) => {
                        return Err(e);
                    },
                }
                let ghost s1 = self.scan@;
                match self.factor() {
                    Ok(()) => {},
                    Err(e) => {
                        return Err(e);
                    },
                }
                self.emit(Opcode::Neg);
                assert(self.gen.code@ =~= old(self).gen.code@ + (spec_factor(s1)->Ok_0.1 + single(
                    Opcode::Neg,
                )));
            },
            TokenType::LParen => {
                match self.match_tok(TokenType::LParen) {
                    Ok(()) => {},
                    Err(e) => {
                        return Err(e);
                    },
                }
                match self.expression() {
                    Ok(()) => {},
                    Err(e) => {
                        return Err(e);
                    },
                }
                match self.match_tok(TokenType::RParen) {
                    Ok(()) => {},
                    Err(e) => {
                        return Err(e);
                    },
                }
            },
            _ => {
                let errmsg = parser_error("TK_INTLIT, TK_IDENT, TK_MINUS, or TK_LPAREN", tok);
                return Err(errmsg);
            },
        };
        Ok(())
    }

    /// Compiles a term.
    fn term(&mut self) -> (r: Result<(), String>)
        requires
            old(self).wf(),
        ensures
            emits(*old(self), *final(self), r, spec_term(old(self).scan@)),
        decreases measure(old(self).scan@), 2nat,
    {
        match self.factor() {
            Ok(()) => {},
            Err(e) => {
                return Err(e);
            },
        }
        let ghost want = spec_term(old(self).scan@);
        let ghost base = old(self).gen.code@;
        let ghost mut done = spec_factor(old(self).scan@)->Ok_0.1;
        while is_mul(self.scan.cur_token.token_type)
            invariant
                self.wf(),
                self.gen.code@ == base + done,
                self.gen.data_addr == old(self).gen.data_addr,
                want == spec_term(old(self).scan@),
                spec_term_rest(self.scan@, done) == want,
                self.gen.code@.len() + 8 * measure(self.scan@) <= base.len() + 8 * measure(
                    old(self).scan@,
                ),
            decreases measure(self.scan@),
        {
            let tok = self.scan.cur_token.clone();
            let ghost s = self.scan@;
            match self.match_tok(tok.token_type) {
                Ok(()) => {},
                Err(e) => {
                    return Err(e);
                },
            }
            let ghost s1 = self.scan@;
            match self.factor() {
                Ok(()) => {},
                Err(e) => {
                    return Err(e);
                },
            }
            self.emit(tok.to_op().unwrap());
            proof {
                let next = done + spec_factor(s1)->Ok_0.1 + single(s.cur.kind.opcode()->Some_0);
                assert(self.gen.code@ =~= base + next);
                done = next;
            }
        }
        Ok(())
    }

    /// Compiles an expression: its code leaves the value on top of the stack.
    fn expression(&mut self) -> (r: Result<(), String>)
        requires
            old(self).wf(),
        ensures
            emits(*old(self), *final(self), r, spec_expression(old(self).scan@)),
        decreases measure(old(self).scan@), 4nat,
    {
        match self.term() {
            Ok(()) => {},
            Err(e) => {
                return Err(e);
            },
        }
        let ghost want = spec_expression(old(self).scan@);
        let ghost base = old(self).gen.code@;
        let ghost mut done = spec_term(old(self).scan@)->Ok_0.1;
        while is_add(self.scan.cur_token.token_type)
            invariant
                self.wf(),
                self.gen.code@ == base + done,
                self.gen.data_addr == old(self).gen.data_addr,
                want == spec_expression(old(self).scan@),
                spec_expression_rest(self.scan@, done) == want,
                self.gen.code@.len() + 8 * measure(self.scan@) <= base.len() + 8 * measure(
                    old(self).scan@,
                ),
            decreases measure(self.scan@),
        {
            let tok = self.scan.cur_token.clone();
            let ghost s = self.scan@;
            match self.match_tok(tok.token_type) {
                Ok(()) => {},
                Err(e) => {
                    return Err(e);
                },
            }
            let ghost s1 = self.scan@;
            match self.term() {
                Ok(()) => {},
                Err(e) => {
                    return Err(e);
                },
            }
            self.emit(tok.to_op().unwrap());
            proof {
                let next = done + spec_term(s1)->Ok_0.1 + single(s.cur.kind.opcode()->Some_0);
                assert(self.gen.code@ =~= base + next);
                done = next;
            }
        }
        Ok(())
    }
}

/// Tells whether a token of this kind is an operator of a term.
fn is_mul(kind: TokenType) -> (r: bool)
    ensures
        r == is_mul_op(kind),
{
    match kind {
        TokenType::OpMult | TokenType::OpDivi | TokenType::OpAnd | TokenType::OpEqual => true,
        TokenType::OpNEqual | TokenType::OpLessThan | TokenType::OpLessThanEql => true,
        TokenType::OpGreatThan | TokenType::OpGreatThanEql => true,
        _ => false,
    }
}

/// Tells whether a token of this kind is an operator of an expression.
fn is_add(kind: TokenType) -> (r: bool)
    ensures
        r == is_add_op(kind),
{
    match kind {
        TokenType::OpPlus | TokenType::OpMinus | TokenType::OpOr => true,
        _ => false,
    }
}

} // verus!
