use rascal::bytecode::Opcode;
use rascal::codegen::rvm_gen::RvmGenerator;
use rascal::codegen::CodeGenerator;
use rascal::parser::Parser;
use rascal::scanner::Scanner;
use rascal::symbtab::SymbTab;
use rascal::tokens::{Token, TokenType};
use rascal::Config;

fn ident(name: &str) -> Token {
    Token::new(TokenType::Ident, String::from(name), (1, 1))
}

fn entry<'a>(table: &'a SymbTab, name: &str) -> &'a Token {
    &table.table.iter().find(|e| e.0 == name).expect("the name has an entry").1
}

#[test]
fn config_takes_the_second_argument() {
    let args = vec![String::from("rascal"), String::from("prog.pas"), String::from("more")];
    assert_eq!(Config::new(&args).ok().map(|c| c.filename), Some(String::from("prog.pas")));
}

#[test]
fn config_needs_a_file_name() {
    assert_eq!(Config::new(&[String::from("rascal")]).err(), Some("Not enough arguments"));
    assert_eq!(Config::new(&[]).err(), Some("Not enough arguments"));
}

#[test]
fn table_of_tokens_keeps_the_later_of_two() {
    let mut second = ident("x");
    second.src_info = (9, 9);
    let table = SymbTab::new(vec![ident("x"), ident("y"), second]);
    assert_eq!(table.table.len(), 2);
    assert_eq!(entry(&table, "x").src_info, (9, 9));
    assert_eq!(table.table[0].0, "x");
    assert_eq!(table.table[1].0, "y");
}

#[test]
fn add_keeps_what_is_there() {
    let mut table = SymbTab::new(vec![]);
    table.add(ident("x"));
    let mut again = ident("x");
    again.token_type = TokenType::AVar;
    table.add(again);
    assert_eq!(table.table.len(), 1);
    assert_eq!(entry(&table, "x").token_type, TokenType::Ident);
    table.add(ident("y"));
    assert_eq!(table.table.len(), 2);
}

#[test]
fn get_returns_the_table_s_token() {
    let mut table = SymbTab::new(vec![ident("x"), ident("y")]);
    table.set_idents_to(TokenType::AVar, 0, 4);
    let mut probe = ident("y");
    probe.src_info = (5, 5);
    let found = table.get(probe);
    assert_eq!(found.token_type, TokenType::AVar);
    assert_eq!(found.token_addr, Some(4));
    assert_eq!(found.src_info, (1, 1));
    assert_eq!(table.get_addr(&ident("x")), Some(0));
    assert_eq!(table.get_addr(&ident("y")), Some(4));
}

#[test]
fn set_entry_overwrites_or_inserts() {
    let mut table = SymbTab::new(vec![ident("x")]);
    let mut new = ident("x");
    new.token_addr = Some(12);
    table.set_entry(&ident("x"), &new);
    assert_eq!(table.table.len(), 1);
    assert_eq!(table.get_addr(&ident("x")), Some(12));
    table.set_entry(&ident("z"), &new);
    assert_eq!(table.table.len(), 2);
    // the key stays that of the first token
    assert_eq!(table.table[1].0, "z");
    assert_eq!(table.table[1].1.token_value, "x");
    assert_eq!(table.get_addr(&ident("z")), Some(12));
}

#[test]
fn promotion_gives_successive_addresses_to_plain_identifiers() {
    let mut table = SymbTab::new(vec![ident("a"), ident("b")]);
    assert_eq!(table.count_idents(), 2);
    assert_eq!(table.set_idents_to(TokenType::AVar, 8, 4), 2);
    table.add(ident("c"));
    table.add(ident("d"));
    assert_eq!(table.count_idents(), 2);
    assert_eq!(table.set_idents_to_arr(TokenType::AnArrayVar, 16, 12, 1, 3), 2);
    assert_eq!(table.count_idents(), 0);
    assert_eq!(table.set_idents_to(TokenType::AVar, 40, 4), 0);
    let a = entry(&table, "a");
    assert_eq!((a.token_type, a.token_addr, a.low, a.high), (TokenType::AVar, Some(8), None, None));
    let b = entry(&table, "b");
    assert_eq!((b.token_type, b.token_addr), (TokenType::AVar, Some(12)));
    let c = entry(&table, "c");
    assert_eq!(
        (c.token_type, c.token_addr, c.low, c.high),
        (TokenType::AnArrayVar, Some(16), Some(1), Some(3))
    );
    let d = entry(&table, "d");
    assert_eq!(
        (d.token_type, d.token_addr, d.low, d.high),
        (TokenType::AnArrayVar, Some(28), Some(1), Some(3))
    );
}

#[test]
fn generator_appends_and_patches() {
    let mut gen = RvmGenerator::new();
    assert_eq!((gen.i_ptr, gen.data_addr, gen.code.len()), (0, 0, 0));
    gen.op(Opcode::Push);
    assert_eq!(gen.i_ptr, 1);
    gen.data(0);
    assert_eq!(gen.i_ptr, 5);
    gen.op(Opcode::JFalse);
    gen.op(Opcode::Exit);
    assert_eq!(gen.code, vec![0x01, 0, 0, 0, 0, 0x31, 0x00]);
    // back to the hole, fill it, and return
    let save = gen.i_ptr;
    gen.i_ptr = 1;
    gen.fill(0x0a0b_0c0d);
    assert_eq!(gen.i_ptr, 1);
    gen.i_ptr = save;
    assert_eq!(gen.code, vec![0x01, 0x0a, 0x0b, 0x0c, 0x0d, 0x31, 0x00]);
    assert_eq!(gen.i_ptr, gen.code.len());
}

#[test]
fn parser_leaves_cursor_at_the_end_and_allocates() {
    let scan = Scanner::new(
        b"var a, b: integer; var c: array[5..9] of integer; begin a := 1; end.\n".to_vec(),
    )
    .unwrap();
    let mut parser = Parser::new(scan);
    assert_eq!(parser.parse(), Ok(()));
    assert_eq!(parser.gen.i_ptr, parser.gen.code.len());
    assert_eq!(parser.gen.code.last(), Some(&0x00));
    assert_eq!(parser.gen.data_addr, 28);
    assert_eq!(parser.scan.cur_token.token_type, TokenType::Eof);
    let c = entry(&parser.scan.symbol_table, "c");
    assert_eq!(
        (c.token_type, c.token_addr, c.low, c.high),
        (TokenType::AnArrayVar, Some(8), Some(5), Some(9))
    );
}

#[test]
fn parser_reports_the_first_error() {
    let scan = Scanner::new(b"begin write(1) write(2) end.\n".to_vec()).unwrap();
    let mut parser = Parser::new(scan);
    assert_eq!(
        parser.parse(),
        Err(String::from("Parser Error: Expected TK_SEMICOL but found TK_WRITE (1:16)"))
    );
}
