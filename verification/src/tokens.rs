//! Tokens, token kinds and the classification of source bytes.
use vstd::prelude::*;
use crate::bytecode::Opcode;

verus! {

/// The kinds of token.
#[derive(Debug, Hash, PartialEq, Eq, Clone, Copy, Structural)]
pub enum TokenType {
    /// The scanner's state before the first token.
    Null,
    Eof,
    // Keywords
    Begin,
    End,
    Var,
    Integer,
    Array,
    Of,
    Write,
    Repeat,
    Until,
    While,
    Do,
    If,
    Then,
    Else,
    // Operators
    OpPlus,
    OpMult,
    OpMinus,
    OpDivi,
    OpAssign,
    OpEqual,
    OpNEqual,
    OpLessThan,
    OpLessThanEql,
    OpGreatThan,
    OpGreatThanEql,
    OpAnd,
    OpOr,
    // Constants
    IntLit,
    RealLit,
    // Identifiers: plain before a declaration is processed, promoted after
    Ident,
    AVar,
    AnArrayVar,
    // Delimiters
    LParen,
    RParen,
    LBrack,
    RBrack,
    Semi,
    Colon,
    Comma,
    Dot,
    Range,
}

impl TokenType {
    /// The name under which diagnostics mention the kind.
    pub open spec fn name(self) -> Seq<char> {
        match self {
            TokenType::Null => "TK_NULL"@,
            TokenType::Eof => "TK_EOF"@,
            TokenType::Begin => "TK_BEGIN"@,
            TokenType::End => "TK_END"@,
            TokenType::Var => "TK_VAR"@,
            TokenType::Integer => "TK_INTEGER"@,
            TokenType::Array => "TK_ARRAY"@,
            TokenType::Of => "TK_OF"@,
            TokenType::Write => "TK_WRITE"@,
            TokenType::Repeat => "TK_REPEAT"@,
            TokenType::Until => "TK_UNTIL"@,
            TokenType::While => "TK_WHILE"@,
            TokenType::Do => "TK_DO"@,
            TokenType::If => "TK_IF"@,
            TokenType::Then => "TK_THEN"@,
            TokenType::Else => "TK_ELSE"@,
            TokenType::OpPlus => "TK_PLUS"@,
            TokenType::OpMult => "TK_MULT"@,
            TokenType::OpMinus => "TK_MINUS"@,
            TokenType::OpDivi => "TK_DIVI"@,
            TokenType::OpAssign => "TK_ASSIGN"@,
            TokenType::OpEqual => "TK_EQUAL"@,
            TokenType::OpNEqual => "TK_NEQUAL"@,
            TokenType::OpLessThan => "TK_LESS"@,
            TokenType::OpLessThanEql => "TK_LESSEQL"@,
            TokenType::OpGreatThan => "TK_GREAT"@,
            TokenType::OpGreatThanEql => "TK_GREATEQL"@,
            TokenType::OpAnd => "TK_AND"@,
            TokenType::OpOr => "TK_OR"@,
            TokenType::IntLit => "TK_INTLIT"@,
            TokenType::RealLit => "TK_REALLIT"@,
            TokenType::Ident => "TK_IDENT"@,
            TokenType::AVar => "TK_AVAR"@,
            TokenType::AnArrayVar => "TK_ARRAYVAR"@,
            TokenType::LParen => "TK_LPAREN"@,
            TokenType::RParen => "TK_RPAREN"@,
            TokenType::LBrack => "TK_LBRACK"@,
            TokenType::RBrack => "TK_RBRACK"@,
            TokenType::Semi => "TK_SEMICOL"@,
            TokenType::Colon => "TK_COLON"@,
            TokenType::Comma => "TK_COMMA"@,
            TokenType::Dot => "TK_DOT"@,
            TokenType::Range => "TK_RANGE"@,
        }
    }

    /// The instruction that a binary operator compiles to; `None` for every
    /// other kind.
    pub open spec fn opcode(self) -> Option<Opcode> {
        match self {
            TokenType::OpPlus => Some(Opcode::Add),
            TokenType::OpMinus => Some(Opcode::Sub),
            TokenType::OpMult => Some(Opcode::Mult),
            TokenType::OpDivi => Some(Opcode::Divi),
            TokenType::OpEqual => Some(Opcode::Equal),
            TokenType::OpNEqual => Some(Opcode::NEqual),
            TokenType::OpLessThan => Some(Opcode::Lt),
            TokenType::OpLessThanEql => Some(Opcode::Lte),
            TokenType::OpGreatThan => Some(Opcode::Gt),
            TokenType::OpGreatThanEql => Some(Opcode::Gte),
            TokenType::OpAnd => Some(Opcode::And),
            TokenType::OpOr => Some(Opcode::Or),
            _ => None,
        }
    }

    pub fn to_str(&self) -> (s: &'static str)
        ensures
            s@ == self.name(),
    {
        match *self {
            TokenType::Null => "TK_NULL",
            TokenType::Eof => "TK_EOF",
            TokenType::Begin => "TK_BEGIN",
            TokenType::End => "TK_END",
            TokenType::Var => "TK_VAR",
            TokenType::Integer => "TK_INTEGER",
            TokenType::Array => "TK_ARRAY",
            TokenType::Of => "TK_OF",
            TokenType::Write => "TK_WRITE",
            TokenType::Repeat => "TK_REPEAT",
            TokenType::Until => "TK_UNTIL",
            TokenType::While => "TK_WHILE",
            TokenType::Do => "TK_DO",
            TokenType::If => "TK_IF",
            TokenType::Then => "TK_THEN",
            TokenType::Else => "TK_ELSE",
            TokenType::OpPlus => "TK_PLUS",
            TokenType::OpMult => "TK_MULT",
            TokenType::OpMinus => "TK_MINUS",
            TokenType::OpDivi => "TK_DIVI",
            TokenType::OpAssign => "TK_ASSIGN",
            TokenType::OpEqual => "TK_EQUAL",
            TokenType::OpNEqual => "TK_NEQUAL",
            TokenType::OpLessThan => "TK_LESS",
            TokenType::OpLessThanEql => "TK_LESSEQL",
            TokenType::OpGreatThan => "TK_GREAT",
            TokenType::OpGreatThanEql => "TK_GREATEQL",
            TokenType::OpAnd => "TK_AND",
            TokenType::OpOr => "TK_OR",
            TokenType::IntLit => "TK_INTLIT",
            TokenType::RealLit => "TK_REALLIT",
            TokenType::Ident => "TK_IDENT",
            TokenType::AVar => "TK_AVAR",
            TokenType::AnArrayVar => "TK_ARRAYVAR",
            TokenType::LParen => "TK_LPAREN",
            TokenType::RParen => "TK_RPAREN",
            TokenType::LBrack => "TK_LBRACK",
            TokenType::RBrack => "TK_RBRACK",
            TokenType::Semi => "TK_SEMICOL",
            TokenType::Colon => "TK_COLON",
            TokenType::Comma => "TK_COMMA",
            TokenType::Dot => "TK_DOT",
            TokenType::Range => "TK_RANGE",
        }
    }
}

/// What a token is, as plain values.
pub struct TokenView {
    pub kind: TokenType,
    pub lexeme: Seq<char>,
    pub line: nat,
    pub col: nat,
    pub addr: Option<u32>,
    pub low: Option<u32>,
    pub high: Option<u32>,
}

/// A token: its kind, its text, where it began (line, column), and, once a
/// declaration has promoted it, its address in the data segment and, for an
/// array, its inclusive index range.
#[derive(Debug)]
pub struct Token {
    pub token_type: TokenType,
    pub token_value: String,
    pub src_info: (usize, usize),
    pub token_addr: Option<u32>,
    pub low: Option<u32>,
    pub high: Option<u32>,
}

impl View for Token {
    type V = TokenView;

    open spec fn view(&self) -> TokenView {
        TokenView {
            kind: self.token_type,
            lexeme: self.token_value@,
            line: self.src_info.0 as nat,
            col: self.src_info.1 as nat,
            addr: self.token_addr,
            low: self.low,
            high: self.high,
        }
    }
}

impl Clone for Token {
    fn clone(&self) -> (res: Self)
        ensures
            res == *self,
    {
        Token {
            token_type: self.token_type,
            token_value: self.token_value.clone(),
            src_info: self.src_info,
            token_addr: self.token_addr,
            low: self.low,
            high: self.high,
        }
    }
}

impl Token {
    /// A token that no declaration has touched.
    pub fn new(token_type: TokenType, token_value: String, src_info: (usize, usize)) -> (t: Token)
        ensures
            t@ == (TokenView {
                kind: token_type,
                lexeme: token_value@,
                line: src_info.0 as nat,
                col: src_info.1 as nat,
                addr: None,
                low: None,
                high: None,
            }),
    {
        Token { token_type, token_value, src_info, token_addr: None, low: None, high: None }
    }

    /// The instruction that the token compiles to when it is a binary
    /// operator.
    pub fn to_op(&self) -> (op: Option<Opcode>)
        ensures
            op == self.token_type.opcode(),
    {
        match self.token_type {
            TokenType::OpPlus => Some(Opcode::Add),
            TokenType::OpMinus => Some(Opcode::Sub),
            TokenType::OpMult => Some(Opcode::Mult),
            TokenType::OpDivi => Some(Opcode::Divi),
            TokenType::OpEqual => Some(Opcode::Equal),
            TokenType::OpNEqual => Some(Opcode::NEqual),
            TokenType::OpLessThan => Some(Opcode::Lt),
            TokenType::OpLessThanEql => Some(Opcode::Lte),
            TokenType::OpGreatThan => Some(Opcode::Gt),
            TokenType::OpGreatThanEql => Some(Opcode::Gte),
            TokenType::OpAnd => Some(Opcode::And),
            TokenType::OpOr => Some(Opcode::Or),
            _ => None,
        }
    }
}

/// The classes of source byte.
#[derive(Debug, Copy, Clone, PartialEq, Eq, Structural)]
pub enum CharGroup {
    INVLD,
    WHITE,
    PUNCT,
    DIGIT,
    ALPHA,
}

/// A decimal digit.
pub open spec fn is_digit(b: u8) -> bool {
    0x30 <= b <= 0x39
}

/// A letter of either case.
pub open spec fn is_alpha(b: u8) -> bool {
    0x41 <= b <= 0x5a || 0x61 <= b <= 0x7a
}

/// A space or a control byte below it.
pub open spec fn is_white(b: u8) -> bool {
    b <= 0x20
}

/// One of the bytes that operators and delimiters are made of:
/// ``( ) * + , - . / : ; < = > [ ] ` { }``.
pub open spec fn is_punct(b: u8) -> bool {
    0x28 <= b <= 0x2f || 0x3a <= b <= 0x3e || b == 0x5b || b == 0x5d || b == 0x60 || b == 0x7b
        || b == 0x7d
}

/// The class of a byte: every byte that is no blank, digit, letter or
/// punctuation mark is invalid, so every byte from 128 on is.
pub open spec fn char_group(b: u8) -> CharGroup {
    if is_white(b) {
        CharGroup::WHITE
    } else if is_digit(b) {
        CharGroup::DIGIT
    } else if is_alpha(b) {
        CharGroup::ALPHA
    } else if is_punct(b) {
        CharGroup::PUNCT
    } else {
        CharGroup::INVLD
    }
}

/// Looks the class of a byte up in the table of the 128 ASCII codes.
pub fn get_char_group(value: u8) -> (g: CharGroup)
    ensures
        g == char_group(value),
{
    let charmap: [CharGroup; 128] = [
        CharGroup::WHITE, CharGroup::WHITE, CharGroup::WHITE, CharGroup::WHITE,
        CharGroup::WHITE, CharGroup::WHITE, CharGroup::WHITE, CharGroup::WHITE,
        CharGroup::WHITE, CharGroup::WHITE, CharGroup::WHITE, CharGroup::WHITE,
        CharGroup::WHITE, CharGroup::WHITE, CharGroup::WHITE, CharGroup::WHITE,
        CharGroup::WHITE, CharGroup::WHITE, CharGroup::WHITE, CharGroup::WHITE,
        CharGroup::WHITE, CharGroup::WHITE, CharGroup::WHITE, CharGroup::WHITE,
        CharGroup::WHITE, CharGroup::WHITE, CharGroup::WHITE, CharGroup::WHITE,
        CharGroup::WHITE, CharGroup::WHITE, CharGroup::WHITE, CharGroup::WHITE,
        CharGroup::WHITE,  // space
        CharGroup::INVLD,  // !
        CharGroup::INVLD,  // "
        CharGroup::INVLD,  // #
        CharGroup::INVLD,  // $
        CharGroup::INVLD,  // %
        CharGroup::INVLD,  // &
        CharGroup::INVLD,  // '
        CharGroup::PUNCT,  // (
        CharGroup::PUNCT,  // )
        CharGroup::PUNCT,  // *
        CharGroup::PUNCT,  // +
        CharGroup::PUNCT,  // ,
        CharGroup::PUNCT,  // -
        CharGroup::PUNCT,  // .
        CharGroup::PUNCT,  // /
        CharGroup::DIGIT, CharGroup::DIGIT, CharGroup::DIGIT, CharGroup::DIGIT, CharGroup::DIGIT,
        CharGroup::DIGIT, CharGroup::DIGIT, CharGroup::DIGIT, CharGroup::DIGIT, CharGroup::DIGIT,
        CharGroup::PUNCT,  // :
        CharGroup::PUNCT,  // ;
        CharGroup::PUNCT,  // <
        CharGroup::PUNCT,  // =
        CharGroup::PUNCT,  // >
        CharGroup::INVLD,  // ?
        CharGroup::INVLD,  // @
        CharGroup::ALPHA, CharGroup::ALPHA, CharGroup::ALPHA, CharGroup::ALPHA, CharGroup::ALPHA,
        CharGroup::ALPHA, CharGroup::ALPHA, CharGroup::ALPHA, CharGroup::ALPHA, CharGroup::ALPHA,
        CharGroup::ALPHA, CharGroup::ALPHA, CharGroup::ALPHA, CharGroup::ALPHA, CharGroup::ALPHA,
        CharGroup::ALPHA, CharGroup::ALPHA, CharGroup::ALPHA, CharGroup::ALPHA, CharGroup::ALPHA,
        CharGroup::ALPHA, CharGroup::ALPHA, CharGroup::ALPHA, CharGroup::ALPHA, CharGroup::ALPHA,
        CharGroup::ALPHA,
        CharGroup::PUNCT,  // [
        CharGroup::INVLD,  // \
        CharGroup::PUNCT,  // ]
        CharGroup::INVLD,  // ^
        CharGroup::INVLD,  // _
        CharGroup::PUNCT,  // `
        CharGroup::ALPHA, CharGroup::ALPHA, CharGroup::ALPHA, CharGroup::ALPHA, CharGroup::ALPHA,
        CharGroup::ALPHA, CharGroup::ALPHA, CharGroup::ALPHA, CharGroup::ALPHA, CharGroup::ALPHA,
        CharGroup::ALPHA, CharGroup::ALPHA, CharGroup::ALPHA, CharGroup::ALPHA, CharGroup::ALPHA,
        CharGroup::ALPHA, CharGroup::ALPHA, CharGroup::ALPHA, CharGroup::ALPHA, CharGroup::ALPHA,
        CharGroup::ALPHA, CharGroup::ALPHA, CharGroup::ALPHA, CharGroup::ALPHA, CharGroup::ALPHA,
        CharGroup::ALPHA,
        CharGroup::PUNCT,  // {
        CharGroup::INVLD,  // |
        CharGroup::PUNCT,  // }
        CharGroup::INVLD,  // ~
        CharGroup::INVLD,  // DEL
    ];
    if value < 128 {
        charmap[value as usize]
    } else {
        CharGroup::INVLD
    }
}

} // verus!
