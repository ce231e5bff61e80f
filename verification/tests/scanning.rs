use rascal::bytecode::Opcode;
use rascal::errors::{parser_error, scanner_error};
use rascal::scanner::Scanner;
use rascal::text::{append_decimal, parse_u32, string_of_bytes};
use rascal::tokens::{get_char_group, CharGroup, Token, TokenType};

/// The kinds and lexemes of all tokens of the source, the end of the file
/// included.
fn tokens_of(source: &str) -> Vec<(TokenType, String)> {
    let mut scanner = Scanner::new(source.as_bytes().to_vec()).expect("the first token scans");
    let mut tokens = vec![];
    loop {
        let token = scanner.cur_token.clone();
        tokens.push((token.token_type, token.token_value));
        if token.token_type == TokenType::Eof {
            return tokens;
        }
        scanner.get_token().expect("the next token scans");
    }
}

fn kinds_of(source: &str) -> Vec<TokenType> {
    tokens_of(source).into_iter().map(|t| t.0).collect()
}

#[test]
fn bytes_have_their_classes() {
    for b in 0..=32u8 {
        assert_eq!(get_char_group(b), CharGroup::WHITE);
    }
    for b in b"!\"#$%&'?@\\^_|~" {
        assert_eq!(get_char_group(*b), CharGroup::INVLD);
    }
    for b in b"()*+,-./:;<=>[]`{}" {
        assert_eq!(get_char_group(*b), CharGroup::PUNCT);
    }
    for b in b'0'..=b'9' {
        assert_eq!(get_char_group(b), CharGroup::DIGIT);
    }
    for b in (b'a'..=b'z').chain(b'A'..=b'Z') {
        assert_eq!(get_char_group(b), CharGroup::ALPHA);
    }
    for b in 127..=255u8 {
        assert_eq!(get_char_group(b), CharGroup::INVLD);
    }
}

#[test]
fn kinds_have_their_names() {
    assert_eq!(TokenType::Null.to_str(), "TK_NULL");
    assert_eq!(TokenType::Eof.to_str(), "TK_EOF");
    assert_eq!(TokenType::Begin.to_str(), "TK_BEGIN");
    assert_eq!(TokenType::End.to_str(), "TK_END");
    assert_eq!(TokenType::OpPlus.to_str(), "TK_PLUS");
    assert_eq!(TokenType::OpMinus.to_str(), "TK_MINUS");
    assert_eq!(TokenType::OpMult.to_str(), "TK_MULT");
    assert_eq!(TokenType::OpDivi.to_str(), "TK_DIVI");
    assert_eq!(TokenType::IntLit.to_str(), "TK_INTLIT");
    assert_eq!(TokenType::RealLit.to_str(), "TK_REALLIT");
    assert_eq!(TokenType::Ident.to_str(), "TK_IDENT");
    assert_eq!(TokenType::LParen.to_str(), "TK_LPAREN");
    assert_eq!(TokenType::RParen.to_str(), "TK_RPAREN");
    assert_eq!(TokenType::Semi.to_str(), "TK_SEMICOL");
    assert_eq!(TokenType::AVar.to_str(), "TK_AVAR");
    assert_eq!(TokenType::AnArrayVar.to_str(), "TK_ARRAYVAR");
    assert_eq!(TokenType::Range.to_str(), "TK_RANGE");
}

#[test]
fn operators_have_their_instructions() {
    let token = |kind| Token::new(kind, String::from("x"), (1, 1));
    assert_eq!(token(TokenType::OpPlus).to_op(), Some(Opcode::Add));
    assert_eq!(token(TokenType::OpMinus).to_op(), Some(Opcode::Sub));
    assert_eq!(token(TokenType::OpMult).to_op(), Some(Opcode::Mult));
    assert_eq!(token(TokenType::OpDivi).to_op(), Some(Opcode::Divi));
    assert_eq!(token(TokenType::OpEqual).to_op(), Some(Opcode::Equal));
    assert_eq!(token(TokenType::OpNEqual).to_op(), Some(Opcode::NEqual));
    assert_eq!(token(TokenType::OpLessThan).to_op(), Some(Opcode::Lt));
    assert_eq!(token(TokenType::OpLessThanEql).to_op(), Some(Opcode::Lte));
    assert_eq!(token(TokenType::OpGreatThan).to_op(), Some(Opcode::Gt));
    assert_eq!(token(TokenType::OpGreatThanEql).to_op(), Some(Opcode::Gte));
    assert_eq!(token(TokenType::OpAnd).to_op(), Some(Opcode::And));
    assert_eq!(token(TokenType::OpOr).to_op(), Some(Opcode::Or));
    assert_eq!(token(TokenType::Semi).to_op(), None);
    assert_eq!(token(TokenType::Eof).to_op(), None);
}

#[test]
fn new_token_has_no_address() {
    let token = Token::new(TokenType::Ident, String::from("x"), (3, 4));
    assert_eq!(token.token_type, TokenType::Ident);
    assert_eq!(token.token_value, "x");
    assert_eq!(token.src_info, (3, 4));
    assert_eq!(token.token_addr, None);
    assert_eq!(token.low, None);
    assert_eq!(token.high, None);
}

#[test]
fn strings_are_made_of_bytes() {
    assert_eq!(string_of_bytes(b"begin"), "begin");
    assert_eq!(string_of_bytes(b""), "");
    assert_eq!(string_of_bytes(&[0xe9]), "\u{e9}");
}

#[test]
fn numbers_are_written_in_decimal() {
    let decimal = |n: usize| {
        let mut s = String::from("n=");
        append_decimal(&mut s, n);
        s
    };
    assert_eq!(decimal(0), "n=0");
    assert_eq!(decimal(7), "n=7");
    assert_eq!(decimal(10), "n=10");
    assert_eq!(decimal(4096), "n=4096");
    assert_eq!(decimal(1234567890), "n=1234567890");
}

#[test]
fn numbers_are_read_in_decimal() {
    assert_eq!(parse_u32("0"), Some(0));
    assert_eq!(parse_u32("007"), Some(7));
    assert_eq!(parse_u32("4294967295"), Some(4294967295));
    assert_eq!(parse_u32("4294967296"), None);
    assert_eq!(parse_u32("99999999999999999999999"), None);
    assert_eq!(parse_u32(""), None);
    assert_eq!(parse_u32("12a"), None);
    assert_eq!(parse_u32("-1"), None);
    assert_eq!(parse_u32("1.5"), None);
    assert_eq!(parse_u32("\u{661}"), None);
}

#[test]
fn diagnostics_have_their_wording() {
    assert_eq!(
        scanner_error(String::from("Illegal character"), String::from("?"), 3, 14),
        "Scanner Error: Illegal character [ ? ] (3:14)"
    );
    assert_eq!(
        parser_error("TK_SEMICOL", Token::new(TokenType::End, String::from("end"), (12, 1))),
        "Parser Error: Expected TK_SEMICOL but found TK_END (12:1)"
    );
}

#[test]
fn scans_keywords_names_and_numbers() {
    assert_eq!(
        tokens_of("begin x1 := 42 end.\n"),
        vec![
            (TokenType::Begin, String::from("begin")),
            (TokenType::Ident, String::from("x1")),
            (TokenType::OpAssign, String::from(":=")),
            (TokenType::IntLit, String::from("42")),
            (TokenType::End, String::from("end")),
            (TokenType::Dot, String::from(".")),
            (TokenType::Eof, String::from("#")),
        ]
    );
}

#[test]
fn scans_every_keyword() {
    assert_eq!(
        kinds_of("begin end var integer array of write repeat until while do if then else and or \n"),
        vec![
            TokenType::Begin,
            TokenType::End,
            TokenType::Var,
            TokenType::Integer,
            TokenType::Array,
            TokenType::Of,
            TokenType::Write,
            TokenType::Repeat,
            TokenType::Until,
            TokenType::While,
            TokenType::Do,
            TokenType::If,
            TokenType::Then,
            TokenType::Else,
            TokenType::OpAnd,
            TokenType::OpOr,
            TokenType::Eof,
        ]
    );
    assert_eq!(kinds_of("Begin beginning \n"), vec![TokenType::Ident, TokenType::Ident, TokenType::Eof]);
}

#[test]
fn scans_every_symbol() {
    assert_eq!(
        kinds_of(":= = <> < <= > >= + - * / ( ) [ ] ; : , . .. \n"),
        vec![
            TokenType::OpAssign,
            TokenType::OpEqual,
            TokenType::OpNEqual,
            TokenType::OpLessThan,
            TokenType::OpLessThanEql,
            TokenType::OpGreatThan,
            TokenType::OpGreatThanEql,
            TokenType::OpPlus,
            TokenType::OpMinus,
            TokenType::OpMult,
            TokenType::OpDivi,
            TokenType::LParen,
            TokenType::RParen,
            TokenType::LBrack,
            TokenType::RBrack,
            TokenType::Semi,
            TokenType::Colon,
            TokenType::Comma,
            TokenType::Dot,
            TokenType::Range,
            TokenType::Eof,
        ]
    );
}

#[test]
fn semicolon_stands_alone() {
    assert_eq!(
        kinds_of("x); ;; \n"),
        vec![
            TokenType::Ident,
            TokenType::RParen,
            TokenType::Semi,
            TokenType::Semi,
            TokenType::Semi,
            TokenType::Eof,
        ]
    );
}

#[test]
fn semicolon_that_leads_takes_what_follows() {
    let mut scanner = Scanner::new(b"x ;) \n".to_vec()).unwrap();
    assert_eq!(
        scanner.get_token(),
        Err(String::from("Scanner Error: Invalid operator or symbol [ ;) ] (1:3)"))
    );
}

#[test]
fn point_belongs_to_a_number_only_before_a_digit() {
    assert_eq!(
        tokens_of("1.5 1..3 7. 1.2.3 \n"),
        vec![
            (TokenType::RealLit, String::from("1.5")),
            (TokenType::IntLit, String::from("1")),
            (TokenType::Range, String::from("..")),
            (TokenType::IntLit, String::from("3")),
            (TokenType::IntLit, String::from("7")),
            (TokenType::Dot, String::from(".")),
            (TokenType::RealLit, String::from("1.2")),
            (TokenType::Dot, String::from(".")),
            (TokenType::IntLit, String::from("3")),
            (TokenType::Eof, String::from("#")),
        ]
    );
}

#[test]
fn tokens_know_where_they_began() {
    let mut scanner = Scanner::new(b"begin\n  x := 10;\r\nend.\n".to_vec()).unwrap();
    let mut places = vec![scanner.cur_token.src_info];
    while scanner.cur_token.token_type != TokenType::Eof {
        scanner.get_token().unwrap();
        places.push(scanner.cur_token.src_info);
    }
    // a carriage return and a line feed count as a line each
    assert_eq!(
        places,
        vec![(1, 1), (2, 3), (2, 5), (2, 8), (2, 10), (4, 1), (4, 4), (4, 5)]
    );
}

#[test]
fn last_byte_is_the_sentinel() {
    assert_eq!(kinds_of("x"), vec![TokenType::Eof]);
    assert_eq!(kinds_of("xy"), vec![TokenType::Ident, TokenType::Eof]);
    assert_eq!(tokens_of("end.."), vec![
        (TokenType::End, String::from("end")),
        (TokenType::Dot, String::from(".")),
        (TokenType::Eof, String::from("#")),
    ]);
    assert_eq!(tokens_of("12345")[0], (TokenType::IntLit, String::from("1234")));
}

#[test]
fn end_of_file_repeats() {
    let mut scanner = Scanner::new(b"x \n".to_vec()).unwrap();
    scanner.get_token().unwrap();
    assert_eq!(scanner.cur_token.token_type, TokenType::Eof);
    assert_eq!(scanner.cur_token.token_value, "#");
    scanner.get_token().unwrap();
    assert_eq!(scanner.cur_token.token_type, TokenType::Eof);
}

#[test]
fn names_enter_the_table_once() {
    let mut scanner = Scanner::new(b"x y x begin \n".to_vec()).unwrap();
    assert_eq!(scanner.symbol_table.table.len(), 1);
    scanner.get_token().unwrap();
    scanner.get_token().unwrap();
    // the table's token is the one that was seen first
    assert_eq!(scanner.cur_token.token_value, "x");
    assert_eq!(scanner.cur_token.src_info, (1, 1));
    scanner.get_token().unwrap();
    assert_eq!(scanner.cur_token.token_type, TokenType::Begin);
    let keys: Vec<&str> = scanner.symbol_table.table.iter().map(|e| e.0.as_str()).collect();
    assert_eq!(keys, vec!["x", "y"]);
}

#[test]
fn promoted_name_scans_as_variable() {
    let mut scanner = Scanner::new(b"x x \n".to_vec()).unwrap();
    let n = scanner.symbol_table.set_idents_to(TokenType::AVar, 8, 4);
    assert_eq!(n, 1);
    scanner.get_token().unwrap();
    assert_eq!(scanner.cur_token.token_type, TokenType::AVar);
    assert_eq!(scanner.cur_token.token_addr, Some(8));
}

#[test]
fn refuses_illegal_bytes() {
    assert_eq!(
        Scanner::new(b"  ?\n".to_vec()).err(),
        Some(String::from("Scanner Error: Illegal character [ ? ] (1:3)"))
    );
    assert_eq!(
        Scanner::new(vec![b'\n', 0xe9, b'\n']).err(),
        Some(String::from("Scanner Error: Illegal character [ \u{e9} ] (2:1)"))
    );
    let mut scanner = Scanner::new(b"x_y \n".to_vec()).unwrap();
    assert_eq!(
        scanner.get_token(),
        Err(String::from("Scanner Error: Illegal character [ _ ] (1:2)"))
    );
}

#[test]
fn refuses_unknown_symbols() {
    assert_eq!(
        Scanner::new(b"=> \n".to_vec()).err(),
        Some(String::from("Scanner Error: Invalid operator or symbol [ => ] (1:1)"))
    );
    assert_eq!(
        Scanner::new(b"{ \n".to_vec()).err(),
        Some(String::from("Scanner Error: Invalid operator or symbol [ { ] (1:1)"))
    );
}

#[test]
fn refuses_empty_and_oversized_sources() {
    assert_eq!(Scanner::new(vec![]).err(), Some(String::from("Err: Empty source file.")));
    assert_eq!(
        Scanner::new(vec![b' '; 0x800_0001]).err(),
        Some(String::from("Err: Source file too large."))
    );
    assert!(Scanner::new(vec![b' '; 0x800_0000]).is_ok());
}
