//! The scanner: it turns source bytes into tokens, one at a time, and enters
//! the identifiers it meets into the symbol table.
//!
//! The last byte of the source is a sentinel: the scanner reports the end of
//! the file when it reaches that byte and never reads it as part of a token.
use vstd::prelude::*;
use vstd::string::*;
use crate::errors::{lemma_scanner_error_nonempty, scanner_error, scanner_error_text};
use crate::symbtab::{has_key, lemma_push_has_key, lookup, unique_keys, Entries, SymbTab};
use crate::text::{all_ascii, bytes_spell, string_of_bytes, text_of};
use crate::tokens::{
    char_group, get_char_group, is_alpha, is_digit, is_punct, CharGroup, Token, TokenType, TokenView,
};

verus! {

/// The longest source that the scanner accepts, in bytes.
pub const MAX_SOURCE_LEN: usize = 0x800_0000;

/// What a scanner is, as plain values: the source, the offset of the next
/// byte to read, the current token, the line and column of the next byte,
/// and the symbol table.
pub struct ScannerView {
    pub src: Seq<u8>,
    pub pos: int,
    pub cur: TokenView,
    pub line: nat,
    pub col: nat,
    pub table: Entries,
}

/// The offset of the sentinel byte.
pub open spec fn limit(src: Seq<u8>) -> int {
    src.len() - 1
}

/// A token as the scanner makes it, before any declaration touches it.
pub open spec fn plain(kind: TokenType, lexeme: Seq<char>, line: nat, col: nat) -> TokenView {
    TokenView { kind, lexeme, line, col, addr: None, low: None, high: None }
}

/// Where the number that begins at or before `pos` ends, and whether it holds
/// a decimal point. Digits belong to it, and so does one point that a digit
/// follows.
pub open spec fn number_end(src: Seq<u8>, pos: int, seen_dot: bool) -> (int, bool)
    decreases limit(src) - pos,
{
    if pos < 0 || pos >= limit(src) {
        (pos, seen_dot)
    } else if is_digit(src[pos]) {
        number_end(src, pos + 1, seen_dot)
    } else if src[pos] == 0x2e && !seen_dot && pos + 1 < limit(src) && is_digit(src[pos + 1]) {
        number_end(src, pos + 1, true)
    } else {
        (pos, seen_dot)
    }
}

/// Where the run of letters and digits at `pos` ends.
pub open spec fn ident_end(src: Seq<u8>, pos: int) -> int
    decreases limit(src) - pos,
{
    if pos < 0 || pos >= limit(src) {
        pos
    } else if is_alpha(src[pos]) || is_digit(src[pos]) {
        ident_end(src, pos + 1)
    } else {
        pos
    }
}

/// Where the run of punctuation that began at `start` ends. A semicolon
/// ends the run before it unless it is the run's first byte.
pub open spec fn symbol_end(src: Seq<u8>, start: int, pos: int) -> int
    decreases limit(src) - pos,
{
    if pos < 0 || pos >= limit(src) {
        pos
    } else if is_punct(src[pos]) && !(pos > start && src[pos] == 0x3b) {
        symbol_end(src, start, pos + 1)
    } else {
        pos
    }
}

/// The kind of a reserved word; `None` for any other text.
pub open spec fn keyword(lexeme: Seq<char>) -> Option<TokenType> {
    if lexeme == "begin"@ {
        Some(TokenType::Begin)
    } else if lexeme == "end"@ {
        Some(TokenType::End)
    } else if lexeme == "var"@ {
        Some(TokenType::Var)
    } else if lexeme == "integer"@ {
        Some(TokenType::Integer)
    } else if lexeme == "array"@ {
        Some(TokenType::Array)
    } else if lexeme == "write"@ {
        Some(TokenType::Write)
    } else if lexeme == "repeat"@ {
        Some(TokenType::Repeat)
    } else if lexeme == "until"@ {
        Some(TokenType::Until)
    } else if lexeme == "while"@ {
        Some(TokenType::While)
    } else if lexeme == "do"@ {
        Some(TokenType::Do)
    } else if lexeme == "of"@ {
        Some(TokenType::Of)
    } else if lexeme == "if"@ {
        Some(TokenType::If)
    } else if lexeme == "then"@ {
        Some(TokenType::Then)
    } else if lexeme == "else"@ {
        Some(TokenType::Else)
    } else if lexeme == "and"@ {
        Some(TokenType::OpAnd)
    } else if lexeme == "or"@ {
        Some(TokenType::OpOr)
    } else {
        None
    }
}

/// The kind of an operator or delimiter; `None` for any other text.
pub open spec fn symbol(lexeme: Seq<char>) -> Option<TokenType> {
    if lexeme == ":="@ {
        Some(TokenType::OpAssign)
    } else if lexeme == "="@ {
        Some(TokenType::OpEqual)
    } else if lexeme == "<>"@ {
        Some(TokenType::OpNEqual)
    } else if lexeme == "<"@ {
        Some(TokenType::OpLessThan)
    } else if lexeme == "<="@ {
        Some(TokenType::OpLessThanEql)
    } else if lexeme == ">"@ {
        Some(TokenType::OpGreatThan)
    } else if lexeme == ">="@ {
        Some(TokenType::OpGreatThanEql)
    } else if lexeme == "+"@ {
        Some(TokenType::OpPlus)
    } else if lexeme == "-"@ {
        Some(TokenType::OpMinus)
    } else if lexeme == "*"@ {
        Some(TokenType::OpMult)
    } else if lexeme == "/"@ {
        Some(TokenType::OpDivi)
    } else if lexeme == "("@ {
        Some(TokenType::LParen)
    } else if lexeme == ")"@ {
        Some(TokenType::RParen)
    } else if lexeme == "["@ {
        Some(TokenType::LBrack)
    } else if lexeme == "]"@ {
        Some(TokenType::RBrack)
    } else if lexeme == ";"@ {
        Some(TokenType::Semi)
    } else if lexeme == ":"@ {
        Some(TokenType::Colon)
    } else if lexeme == ","@ {
        Some(TokenType::Comma)
    } else if lexeme == "."@ {
        Some(TokenType::Dot)
    } else if lexeme == ".."@ {
        Some(TokenType::Range)
    } else {
        None
    }
}

/// The scanner after it has read the token that ends at `end`.
pub open spec fn advanced(s: ScannerView, end: int, cur: TokenView) -> ScannerView {
    ScannerView { pos: end, col: (s.col + (end - s.pos)) as nat, cur, ..s }
}

/// The scanner after it has read a name: a name that the table does not
/// know is entered as a plain identifier, and the current token is what the
/// table holds under the name.
pub open spec fn after_name(s: ScannerView, end: int, lexeme: Seq<char>) -> ScannerView {
    let table = if has_key(s.table, lexeme) {
        s.table
    } else {
        s.table.push((lexeme, plain(TokenType::Ident, lexeme, s.line, s.col)))
    };
    ScannerView { table, ..advanced(s, end, lookup(table, lexeme)) }
}

/// The scanner after it has passed the blank at its offset: a line feed or a
/// carriage return begins a new line.
pub open spec fn after_blank(s: ScannerView) -> ScannerView {
    if s.src[s.pos] == 10 || s.src[s.pos] == 13 {
        ScannerView { pos: s.pos + 1, line: s.line + 1, col: 1, ..s }
    } else {
        ScannerView { pos: s.pos + 1, col: s.col + 1, ..s }
    }
}

/// The scanner after it has read the next token, or the error that the
/// bytes at its offset give.
#[verifier::opaque]
pub open spec fn spec_get_token(s: ScannerView) -> Result<ScannerView, Seq<char>>
    decreases limit(s.src) - s.pos,
{
    if s.src.len() == 0 {
        Err("Err: Empty source file."@)
    } else if s.pos < 0 || s.pos >= limit(s.src) {
        Ok(ScannerView { cur: plain(TokenType::Eof, "#"@, s.line, s.col), ..s })
    } else {
        match char_group(s.src[s.pos]) {
            CharGroup::DIGIT => {
                let (end, dotted) = number_end(s.src, s.pos, false);
                let kind = if dotted {
                    TokenType::RealLit
                } else {
                    TokenType::IntLit
                };
                Ok(advanced(s, end, plain(kind, text_of(s.src.subrange(s.pos, end)), s.line, s.col)))
            },
            CharGroup::ALPHA => {
                let end = ident_end(s.src, s.pos);
                let lexeme = text_of(s.src.subrange(s.pos, end));
                match keyword(lexeme) {
                    Some(kind) => Ok(advanced(s, end, plain(kind, lexeme, s.line, s.col))),
                    None => Ok(after_name(s, end, lexeme)),
                }
            },
            CharGroup::PUNCT => {
                let end = symbol_end(s.src, s.pos, s.pos);
                let lexeme = text_of(s.src.subrange(s.pos, end));
                match symbol(lexeme) {
                    Some(kind) => Ok(advanced(s, end, plain(kind, lexeme, s.line, s.col))),
                    None => Err(
                        scanner_error_text("Invalid operator or symbol"@, lexeme, s.line, s.col),
                    ),
                }
            },
            CharGroup::WHITE => spec_get_token(after_blank(s)),
            CharGroup::INVLD => Err(
                scanner_error_text(
                    "Illegal character"@,
                    seq![s.src[s.pos] as char],
                    s.line,
                    s.col,
                ),
            ),
        }
    }
}

/// A scanner over the given source that has read nothing yet.
pub open spec fn initial(src: Seq<u8>) -> ScannerView {
    ScannerView {
        src,
        pos: 0,
        cur: plain(TokenType::Null, Seq::empty(), 0, 0),
        line: 1,
        col: 1,
        table: Seq::empty(),
    }
}

/// A scanner over the given source with its first token read, or the reason
/// why there is none.
pub open spec fn spec_new(src: Seq<u8>) -> Result<ScannerView, Seq<char>> {
    if src.len() > MAX_SOURCE_LEN {
        Err("Err: Source file too large."@)
    } else {
        spec_get_token(initial(src))
    }
}

/// The scanner's invariant: the source has its sentinel and is not too
/// long, the offset lies at or before the sentinel, line and column count
/// from 1 the bytes that were read, the current token began somewhere unless
/// no token was read yet, and the table is in order.
pub open spec fn view_wf(s: ScannerView) -> bool {
    &&& 1 <= s.src.len() <= MAX_SOURCE_LEN
    &&& 0 <= s.pos <= limit(s.src)
    &&& 1 <= s.line <= s.pos + 1
    &&& 1 <= s.col <= s.pos + 1
    &&& s.cur.kind == TokenType::Null || placed(s.cur)
    &&& table_wf(s.table)
}

/// A token that began somewhere in the source: lines and columns count
/// from 1.
pub open spec fn placed(t: TokenView) -> bool {
    t.line >= 1 && t.col >= 1
}

/// The table's invariant: no key occurs twice, and every token is recorded
/// under its lexeme and began somewhere in the source.
#[verifier::opaque]
pub open spec fn table_wf(t: Entries) -> bool {
    &&& unique_keys(t)
    &&& forall|i: int|
        0 <= i < t.len() ==> (#[trigger] t[i]).0 == t[i].1.lexeme && placed(t[i].1) && is_name(
            t[i].1.kind,
        )
}

/// The kinds of the tokens that the table holds: identifiers, plain or
/// promoted.
pub open spec fn is_name(kind: TokenType) -> bool {
    kind == TokenType::Ident || kind == TokenType::AVar || kind == TokenType::AnArrayVar
}

/// The bytes from `from` up to `to` are digits.
pub open spec fn digits_only(src: Seq<u8>, from: int, to: int) -> bool {
    forall|i: int| from <= i < to ==> is_digit(#[trigger] src[i])
}

/// The bytes from `from` up to `to` are digits but for exactly one point.
pub open spec fn one_point(src: Seq<u8>, from: int, to: int) -> bool {
    exists|k: int|
        from <= k < to && #[trigger] src[k] == 0x2e && digits_only(src, from, k) && digits_only(
            src,
            k + 1,
            to,
        )
}

/// A text of at least one digit and nothing else.
pub open spec fn is_integer_text(lexeme: Seq<char>) -> bool {
    lexeme.len() > 0 && forall|i: int| 0 <= i < lexeme.len() ==> '0' <= #[trigger] lexeme[i] <= '9'
}

/// A text of digits but for exactly one point, which stands before a digit.
pub open spec fn is_real_text(lexeme: Seq<char>) -> bool {
    exists|k: int|
        0 <= k < lexeme.len() - 1 && #[trigger] lexeme[k] == '.' && forall|i: int|
            0 <= i < lexeme.len() && i != k ==> '0' <= #[trigger] lexeme[i] <= '9'
}

/// A variable's token has its address, a multiple of four, and its storage
/// ends at or before `top`; an array's token has its bounds in order.
pub open spec fn token_ok(t: TokenView, top: u32) -> bool {
    &&& t.kind == TokenType::AVar ==> (t.addr matches Some(a) && a % 4 == 0 && a + 4 <= top)
    &&& t.kind == TokenType::AnArrayVar ==> (t.addr matches Some(a) && t.low matches Some(lo)
        && t.high matches Some(hi) && lo <= hi && a % 4 == 0 && a + 4 * (hi - lo + 1) <= top)
}

/// Every token of the table is in order for a data segment that is
/// allocated up to `top`.
#[verifier::opaque]
pub open spec fn table_ok(t: Entries, top: u32) -> bool {
    forall|i: int| 0 <= i < t.len() ==> token_ok(#[trigger] t[i].1, top)
}

/// The current token and every token of the table are in order for a data
/// segment that is allocated up to `top`.
pub open spec fn symbols_ok(s: ScannerView, top: u32) -> bool {
    token_ok(s.cur, top) && table_ok(s.table, top)
}

/// What is left to do: it falls with every token read, until the end of the
/// file is the current token.
pub open spec fn measure(s: ScannerView) -> nat {
    if s.cur.kind == TokenType::Eof {
        (2 * (limit(s.src) - s.pos)) as nat
    } else {
        (2 * (limit(s.src) - s.pos) + 1) as nat
    }
}

/// A number ends at or before the sentinel.
pub proof fn lemma_number_end(src: Seq<u8>, pos: int, seen_dot: bool)
    requires
        0 <= pos <= limit(src),
    ensures
        pos <= number_end(src, pos, seen_dot).0 <= limit(src),
        pos < limit(src) && is_digit(src[pos]) ==> pos < number_end(src, pos, seen_dot).0,
    decreases limit(src) - pos,
{
    if pos < limit(src) {
        if is_digit(src[pos]) {
            lemma_number_end(src, pos + 1, seen_dot);
        } else if src[pos] == 0x2e && !seen_dot && pos + 1 < limit(src) && is_digit(src[pos + 1]) {
            lemma_number_end(src, pos + 1, true);
        }
    }
}

/// A name ends at or before the sentinel.
pub proof fn lemma_ident_end(src: Seq<u8>, pos: int)
    requires
        0 <= pos <= limit(src),
    ensures
        pos <= ident_end(src, pos) <= limit(src),
        pos < limit(src) && is_alpha(src[pos]) ==> pos < ident_end(src, pos),
    decreases limit(src) - pos,
{
    if pos < limit(src) && (is_alpha(src[pos]) || is_digit(src[pos])) {
        lemma_ident_end(src, pos + 1);
    }
}

/// A run of punctuation ends at or before the sentinel.
pub proof fn lemma_symbol_end(src: Seq<u8>, start: int, pos: int)
    requires
        0 <= start <= pos <= limit(src),
    ensures
        pos <= symbol_end(src, start, pos) <= limit(src),
        pos == start && pos < limit(src) && is_punct(src[pos]) ==> pos < symbol_end(
            src,
            start,
            pos,
        ),
    decreases limit(src) - pos,
{
    if pos < limit(src) && is_punct(src[pos]) && !(pos > start && src[pos] == 0x3b) {
        lemma_symbol_end(src, start, pos + 1);
    }
}

/// A number is made of digits, but for one point where it has one; and the
/// point is not its last byte.
pub proof fn lemma_number_shape(src: Seq<u8>, pos: int, seen_dot: bool)
    requires
        0 <= pos <= limit(src),
    ensures
        ({
            let (end, dotted) = number_end(src, pos, seen_dot);
            if dotted && !seen_dot {
                one_point(src, pos, end) && is_digit(src[end - 1])
            } else {
                digits_only(src, pos, end) && dotted == seen_dot
            }
        }),
    decreases limit(src) - pos,
{
    let (end, dotted) = number_end(src, pos, seen_dot);
    if pos < limit(src) {
        if is_digit(src[pos]) {
            lemma_number_shape(src, pos + 1, seen_dot);
            lemma_number_end(src, pos + 1, seen_dot);
            if dotted && !seen_dot {
                let k = choose|k: int|
                    pos + 1 <= k < end && #[trigger] src[k] == 0x2e && digits_only(src, pos + 1, k)
                        && digits_only(src, k + 1, end);
                assert(digits_only(src, pos, k));
            }
        } else if src[pos] == 0x2e && !seen_dot && pos + 1 < limit(src) && is_digit(src[pos + 1]) {
            lemma_number_shape(src, pos + 1, true);
            lemma_number_end(src, pos + 1, true);
            assert(digits_only(src, pos, pos));
            assert(src[pos] == 0x2e && digits_only(src, pos + 1, end));
        }
    }
}

/// The token of a whole number is made of digits, and the token of a number
/// with a fraction is made of digits and exactly one point.
pub proof fn lemma_literal_tokens(s: ScannerView)
    requires
        view_wf(s),
        spec_get_token(s) is Ok,
    ensures
        spec_get_token(s)->Ok_0.cur.kind == TokenType::IntLit ==> is_integer_text(
            spec_get_token(s)->Ok_0.cur.lexeme,
        ),
        spec_get_token(s)->Ok_0.cur.kind == TokenType::RealLit ==> is_real_text(
            spec_get_token(s)->Ok_0.cur.lexeme,
        ),
    decreases limit(s.src) - s.pos,
{
    reveal_with_fuel(spec_get_token, 2);
    if s.pos < limit(s.src) {
        match char_group(s.src[s.pos]) {
            CharGroup::DIGIT => {
                let (end, dotted) = number_end(s.src, s.pos, false);
                lemma_number_end(s.src, s.pos, false);
                lemma_number_shape(s.src, s.pos, false);
                let lexeme = text_of(s.src.subrange(s.pos, end));
                if dotted {
                    let k = choose|k: int|
                        s.pos <= k < end && #[trigger] s.src[k] == 0x2e && digits_only(
                            s.src,
                            s.pos,
                            k,
                        ) && digits_only(s.src, k + 1, end);
                    assert(k < end - 1);
                    assert(lexeme[k - s.pos] == '.');
                    assert forall|i: int| 0 <= i < lexeme.len() && i != k - s.pos implies '0'
                        <= #[trigger] lexeme[i] <= '9' by {
                        assert(is_digit(s.src[s.pos + i]));
                    }
                } else {
                    assert forall|i: int| 0 <= i < lexeme.len() implies '0' <= #[trigger] lexeme[i]
                        <= '9' by {
                        assert(is_digit(s.src[s.pos + i]));
                    }
                }
            },
            CharGroup::ALPHA => {
                lemma_ident_end(s.src, s.pos);
                let end = ident_end(s.src, s.pos);
                let lexeme = text_of(s.src.subrange(s.pos, end));
                lemma_after_name_table(s, lexeme);
                lemma_keyword_kinds(lexeme);
            },
            CharGroup::PUNCT => {
                let end = symbol_end(s.src, s.pos, s.pos);
                lemma_symbol_kinds(text_of(s.src.subrange(s.pos, end)));
            },
            CharGroup::WHITE => {
                lemma_get_token_progress(after_blank(s));
                lemma_literal_tokens(after_blank(s));
            },
            CharGroup::INVLD => {},
        }
    }
}

/// No reserved word is a literal.
proof fn lemma_keyword_kinds(lexeme: Seq<char>)
    ensures
        keyword(lexeme) matches Some(kind) ==> kind != TokenType::IntLit && kind
            != TokenType::RealLit,
{
}

/// No operator or delimiter is a literal.
proof fn lemma_symbol_kinds(lexeme: Seq<char>)
    ensures
        symbol(lexeme) matches Some(kind) ==> kind != TokenType::IntLit && kind
            != TokenType::RealLit,
{
}

/// Entering a name keeps the table in order, and the token found under the
/// name began somewhere.
pub proof fn lemma_after_name_table(s: ScannerView, lexeme: Seq<char>)
    requires
        table_wf(s.table),
        s.line >= 1,
        s.col >= 1,
    ensures
        ({
            let token = plain(TokenType::Ident, lexeme, s.line, s.col);
            let table = if has_key(s.table, lexeme) {
                s.table
            } else {
                s.table.push((lexeme, token))
            };
            table_wf(table) && has_key(table, lexeme) && placed(lookup(table, lexeme)) && is_name(
                lookup(table, lexeme).kind,
            )
        }),
{
    reveal(table_wf);
    let token = plain(TokenType::Ident, lexeme, s.line, s.col);
    if has_key(s.table, lexeme) {
        crate::symbtab::lemma_position_is_first(s.table, lexeme);
    } else {
        lemma_push_has_key(s.table, lexeme, token);
        crate::symbtab::lemma_put_unique(s.table, lexeme, token);
        let table = s.table.push((lexeme, token));
        assert forall|i: int| 0 <= i < table.len() implies (#[trigger] table[i]).0
            == table[i].1.lexeme && placed(table[i].1) && is_name(table[i].1.kind) by {
            if i < s.table.len() {
                assert(s.table[i].0 == s.table[i].1.lexeme);
            }
        }
    }
}

/// Reading a token keeps the scanner's invariant and the source, and brings
/// the scanner nearer to the end of the file unless it was there already.
pub proof fn lemma_get_token_progress(s: ScannerView)
    requires
        view_wf(s),
        spec_get_token(s) is Ok,
    ensures
        view_wf(spec_get_token(s)->Ok_0),
        spec_get_token(s)->Ok_0.src == s.src,
        measure(spec_get_token(s)->Ok_0) <= measure(s),
        s.cur.kind != TokenType::Eof ==> measure(spec_get_token(s)->Ok_0) < measure(s),
    decreases limit(s.src) - s.pos,
{
    reveal_with_fuel(spec_get_token, 2);
    if s.pos < limit(s.src) {
        match char_group(s.src[s.pos]) {
            CharGroup::DIGIT => {
                lemma_number_end(s.src, s.pos, false);
            },
            CharGroup::ALPHA => {
                lemma_ident_end(s.src, s.pos);
                let end = ident_end(s.src, s.pos);
                lemma_after_name_table(s, text_of(s.src.subrange(s.pos, end)));
            },
            CharGroup::PUNCT => {
                lemma_symbol_end(s.src, s.pos, s.pos);
            },
            CharGroup::WHITE => {
                lemma_get_token_progress(after_blank(s));
            },
            CharGroup::INVLD => {},
        }
    }
}

/// Reading a token leaves the tokens in order.
pub proof fn lemma_get_token_symbols(s: ScannerView, top: u32)
    requires
        symbols_ok(s, top),
        spec_get_token(s) is Ok,
    ensures
        symbols_ok(spec_get_token(s)->Ok_0, top),
    decreases limit(s.src) - s.pos,
{
    reveal_with_fuel(spec_get_token, 2);
    reveal(table_ok);
    if s.src.len() > 0 && 0 <= s.pos < limit(s.src) {
        match char_group(s.src[s.pos]) {
            CharGroup::ALPHA => {
                let end = ident_end(s.src, s.pos);
                let lexeme = text_of(s.src.subrange(s.pos, end));
                if keyword(lexeme) is None {
                    let t = after_name(s, end, lexeme);
                    if has_key(s.table, lexeme) {
                        crate::symbtab::lemma_position_is_first(s.table, lexeme);
                    } else {
                        lemma_push_has_key(
                            s.table,
                            lexeme,
                            plain(TokenType::Ident, lexeme, s.line, s.col),
                        );
                    }
                    assert forall|i: int| 0 <= i < t.table.len() implies token_ok(
                        #[trigger] t.table[i].1,
                        top,
                    ) by {
                        if i < s.table.len() {
                            assert(token_ok(s.table[i].1, top));
                        }
                    }
                }
            },
            CharGroup::WHITE => {
                lemma_get_token_symbols(after_blank(s), top);
            },
            _ => {},
        }
    }
}

/// Every error of the scanner has text.
pub proof fn lemma_get_token_error(s: ScannerView)
    ensures
        spec_get_token(s) matches Err(e) ==> e.len() > 0,
    decreases limit(s.src) - s.pos,
{
    reveal_with_fuel(spec_get_token, 2);
    reveal_strlit("Err: Empty source file.");
    if s.src.len() > 0 && 0 <= s.pos < limit(s.src) {
        match char_group(s.src[s.pos]) {
            CharGroup::PUNCT => {
                let end = symbol_end(s.src, s.pos, s.pos);
                lemma_scanner_error_nonempty(
                    "Invalid operator or symbol"@,
                    text_of(s.src.subrange(s.pos, end)),
                    s.line,
                    s.col,
                );
            },
            CharGroup::WHITE => {
                lemma_get_token_error(after_blank(s));
            },
            CharGroup::INVLD => {
                lemma_scanner_error_nonempty(
                    "Illegal character"@,
                    seq![s.src[s.pos] as char],
                    s.line,
                    s.col,
                );
            },
            _ => {},
        }
    }
}

/// Every error of a new scanner has text.
pub proof fn lemma_new_error(src: Seq<u8>)
    ensures
        spec_new(src) matches Err(e) ==> e.len() > 0,
{
    reveal_strlit("Err: Source file too large.");
    lemma_get_token_error(initial(src));
}

/// A scanner that has just read its first token holds no variable.
pub proof fn lemma_new_symbols(src: Seq<u8>)
    requires
        spec_new(src) is Ok,
    ensures
        symbols_ok(spec_new(src)->Ok_0, 0),
{
    reveal(table_ok);
    lemma_get_token_symbols(initial(src), 0);
}

/// The scanner.
pub struct Scanner {
    pub src_code: Vec<u8>,
    pub src_length: usize,
    pub scan_ptr: usize,
    pub cur_token: Token,
    pub line_num: usize,
    pub col_num: usize,
    pub symbol_table: SymbTab,
}

impl View for Scanner {
    type V = ScannerView;

    open spec fn view(&self) -> ScannerView {
        ScannerView {
            src: self.src_code@,
            pos: self.scan_ptr as int,
            cur: self.cur_token@,
            line: self.line_num as nat,
            col: self.col_num as nat,
            table: self.symbol_table@,
        }
    }
}

/// The kind of a reserved word.
fn keyword_kind(lexeme: &[u8]) -> (k: Option<TokenType>)
    requires
        all_ascii(lexeme@),
    ensures
        k == keyword(text_of(lexeme@)),
{
    if bytes_spell(lexeme, "begin") {
        Some(TokenType::Begin)
    } else if bytes_spell(lexeme, "end") {
        Some(TokenType::End)
    } else if bytes_spell(lexeme, "var") {
        Some(TokenType::Var)
    } else if bytes_spell(lexeme, "integer") {
        Some(TokenType::Integer)
    } else if bytes_spell(lexeme, "array") {
        Some(TokenType::Array)
    } else if bytes_spell(lexeme, "write") {
        Some(TokenType::Write)
    } else if bytes_spell(lexeme, "repeat") {
        Some(TokenType::Repeat)
    } else if bytes_spell(lexeme, "until") {
        Some(TokenType::Until)
    } else if bytes_spell(lexeme, "while") {
        Some(TokenType::While)
    } else if bytes_spell(lexeme, "do") {
        Some(TokenType::Do)
    } else if bytes_spell(lexeme, "of") {
        Some(TokenType::Of)
    } else if bytes_spell(lexeme, "if") {
        Some(TokenType::If)
    } else if bytes_spell(lexeme, "then") {
        Some(TokenType::Then)
    } else if bytes_spell(lexeme, "else") {
        Some(TokenType::Else)
    } else if bytes_spell(lexeme, "and") {
        Some(TokenType::OpAnd)
    } else if bytes_spell(lexeme, "or") {
        Some(TokenType::OpOr)
    } else {
        None
    }
}

/// The kind of an operator or delimiter.
fn symbol_kind(lexeme: &[u8]) -> (k: Option<TokenType>)
    requires
        all_ascii(lexeme@),
    ensures
        k == symbol(text_of(lexeme@)),
{
    if bytes_spell(lexeme, ":=") {
        Some(TokenType::OpAssign)
    } else if bytes_spell(lexeme, "=") {
        Some(TokenType::OpEqual)
    } else if bytes_spell(lexeme, "<>") {
        Some(TokenType::OpNEqual)
    } else if bytes_spell(lexeme, "<") {
        Some(TokenType::OpLessThan)
    } else if bytes_spell(lexeme, "<=") {
        Some(TokenType::OpLessThanEql)
    } else if bytes_spell(lexeme, ">") {
        Some(TokenType::OpGreatThan)
    } else if bytes_spell(lexeme, ">=") {
        Some(TokenType::OpGreatThanEql)
    } else if bytes_spell(lexeme, "+") {
        Some(TokenType::OpPlus)
    } else if bytes_spell(lexeme, "-") {
        Some(TokenType::OpMinus)
    } else if bytes_spell(lexeme, "*") {
        Some(TokenType::OpMult)
    } else if bytes_spell(lexeme, "/") {
        Some(TokenType::OpDivi)
    } else if bytes_spell(lexeme, "(") {
        Some(TokenType::LParen)
    } else if bytes_spell(lexeme, ")") {
        Some(TokenType::RParen)
    } else if bytes_spell(lexeme, "[") {
        Some(TokenType::LBrack)
    } else if bytes_spell(lexeme, "]") {
        Some(TokenType::RBrack)
    } else if bytes_spell(lexeme, ";") {
        Some(TokenType::Semi)
    } else if bytes_spell(lexeme, ":") {
        Some(TokenType::Colon)
    } else if bytes_spell(lexeme, ",") {
        Some(TokenType::Comma)
    } else if bytes_spell(lexeme, ".") {
        Some(TokenType::Dot)
    } else if bytes_spell(lexeme, "..") {
        Some(TokenType::Range)
    } else {
        None
    }
}

impl Scanner {
    /// The scanner's invariant: the recorded length is that of the source,
    /// and the plain values are in order.
    pub open spec fn wf(&self) -> bool {
        self.src_length == self.src_code@.len() && view_wf(self@)
    }

    /// A scanner over `src_code` with the first token read. An empty source
    /// and one of more than `MAX_SOURCE_LEN` bytes are refused.
    pub fn new(src_code: Vec<u8>) -> (r: Result<Scanner, String>)
        ensures
            match spec_new(src_code@) {
                Ok(v) => r is Ok && r->Ok_0@ == v && r->Ok_0.wf(),
                Err(e) => r is Err && r->Err_0@ == e && e.len() > 0,
            },
    {
        proof {
            reveal_with_fuel(spec_get_token, 2);
            lemma_new_error(src_code@);
        }
        let len = src_code.len();
        if len > MAX_SOURCE_LEN {
            return Err(String::from_str("Err: Source file too large."));
        }
        if len == 0 {
            return Err(String::from_str("Err: Empty source file."));
        }
        let mut res = Scanner {
            src_code,
            src_length: len,
            scan_ptr: 0,
            cur_token: Token::new(TokenType::Null, String::new(), (0, 0)),
            line_num: 1,
            col_num: 1,
            symbol_table: SymbTab::new(Vec::new()),
        };
        assert(res@ =~= initial(src_code@)) by {
            assert(res.symbol_table@ =~= Seq::empty());
        }
        assert(table_wf(res@.table)) by {
            reveal(table_wf);
        }
        match res.get_token() {
            Ok(()) => Ok(res),
            Err(e) => Err(e),
        }
    }

    /// Reads the next token into `cur_token`. At the end of the file the
    /// token is the end-of-file token, however often this is called.
    pub fn get_token(&mut self) -> (r: Result<(), String>)
        requires
            old(self).wf(),
        ensures
            final(self).wf(),
            match spec_get_token(old(self)@) {
                Ok(v) => r is Ok && final(self)@ == v,
                Err(e) => r is Err && r->Err_0@ == e && e.len() > 0,
            },
            r is Ok ==> measure(final(self)@) <= measure(old(self)@),
            r is Ok && old(self)@.cur.kind != TokenType::Eof ==> measure(final(self)@) < measure(
                old(self)@,
            ),
    {
        proof {
            reveal_with_fuel(spec_get_token, 2);
            lemma_get_token_error(old(self)@);
            if spec_get_token(old(self)@) is Ok {
                lemma_get_token_progress(old(self)@);
            }
        }
        while self.scan_ptr < self.src_length - 1 && get_char_group(self.get_char())
            == CharGroup::WHITE
            invariant
                self.wf(),
                spec_get_token(self@) == spec_get_token(old(self)@),
            decreases limit(self@.src) - self@.pos,
        {
            let c = self.get_char();
            assert(self@.src[self@.pos] == c);
            assert(spec_get_token(self@) == spec_get_token(after_blank(self@))) by {
                reveal_with_fuel(spec_get_token, 2);
            }
            if c == 10 || c == 13 {
                self.line_num = self.line_num + 1;
                self.col_num = 0;
            }
            self.scan_ptr = self.scan_ptr + 1;
            self.col_num = self.col_num + 1;
        }
        let token = match self.check_eof() {
            Some(eof) => eof,
            None => {
                let first_char = get_char_group(self.get_char());
                match first_char {
                    CharGroup::DIGIT => self.get_num_lit(),
                    CharGroup::ALPHA => self.get_identifier(),
                    CharGroup::PUNCT => {
                        match self.get_symb() {
                            Ok(token) => token,
                            Err(e) => {
                                return Err(e);
                            },
                        }
                    },
                    CharGroup::WHITE => {
                        // the loop above has passed every blank
                        return Ok(());
                    },
                    CharGroup::INVLD => {
                        let mut one: Vec<u8> = Vec::new();
                        one.push(self.get_char());
                        let character = string_of_bytes(one.as_slice());
                        assert(character@ =~= seq![self@.src[self@.pos] as char]);
                        let errmsg = scanner_error(
                            String::from_str("Illegal character"),
                            character,
                            self.line_num,
                            self.col_num,
                        );
                        return Err(errmsg);
                    },
                }
            },
        };
        self.cur_token = token;
        Ok(())
    }

    /// The byte at the offset.
    fn get_char(&self) -> (c: u8)
        requires
            self.wf(),
        ensures
            c == self@.src[self@.pos],
    {
        self.src_code[self.scan_ptr]
    }

    /// The end-of-file token, when the offset has reached the sentinel.
    fn check_eof(&self) -> (eof: Option<Token>)
        requires
            self.wf(),
        ensures
            self@.pos >= limit(self@.src) ==> eof is Some && eof->Some_0@ == plain(
                TokenType::Eof,
                "#"@,
                self@.line,
                self@.col,
            ),
            self@.pos < limit(self@.src) ==> eof is None,
    {
        if self.scan_ptr == self.src_length - 1 {
            Some(Token::new(TokenType::Eof, String::from_str("#"), (self.line_num, self.col_num)))
        } else {
            None
        }
    }

    /// Reads the number at the offset.
    fn get_num_lit(&mut self) -> (token: Token)
        requires
            old(self).wf(),
            old(self)@.pos < limit(old(self)@.src),
            is_digit(old(self)@.src[old(self)@.pos]),
        ensures
            final(self).wf(),
            spec_get_token(old(self)@) == Ok::<ScannerView, Seq<char>>(
                ScannerView { cur: token@, ..final(self)@ },
            ),
            final(self)@.cur == old(self)@.cur,
    {
        proof {
            reveal_with_fuel(spec_get_token, 2);
        }
        let mut value: Vec<u8> = Vec::new();
        let mut dotted = false;
        let mut going = true;
        let cnum = self.col_num;
        let ghost start = self@.pos;
        let ghost src = self@.src;
        while going
            invariant
                self.wf(),
                self@ == (ScannerView {
                    pos: self@.pos,
                    col: (old(self)@.col + (self@.pos - start)) as nat,
                    ..old(self)@
                }),
                src == self@.src,
                start == old(self)@.pos,
                start <= self@.pos,
                value@ == src.subrange(start, self@.pos),
                all_ascii(value@),
                number_end(src, start, false) == number_end(src, self@.pos, dotted),
                !going ==> number_end(src, self@.pos, dotted) == (self@.pos, dotted),
            decreases limit(src) - self@.pos + if going { 1int } else { 0int },
        {
            if self.scan_ptr >= self.src_length - 1 {
                going = false;
            } else {
                let c = self.get_char();
                let digit = get_char_group(c) == CharGroup::DIGIT;
                let point = c == 46 && !dotted && self.scan_ptr + 1 < self.src_length - 1
                    && get_char_group(self.src_code[self.scan_ptr + 1]) == CharGroup::DIGIT;
                if digit || point {
                    if point && !digit {
                        dotted = true;
                    }
                    value.push(c);
                    self.scan_ptr = self.scan_ptr + 1;
                    self.col_num = self.col_num + 1;
                    assert(value@ =~= src.subrange(start, self@.pos));
                } else {
                    going = false;
                }
            }
        }
        let ttype = if dotted {
            TokenType::RealLit
        } else {
            TokenType::IntLit
        };
        let value_str = string_of_bytes(value.as_slice());
        Token::new(ttype, value_str, (self.line_num, cnum))
    }

    /// Reads the name at the offset: a reserved word, or an identifier,
    /// which is entered into the symbol table unless it is there, and for
    /// which the table's token is returned.
    fn get_identifier(&mut self) -> (token: Token)
        requires
            old(self).wf(),
            old(self)@.pos < limit(old(self)@.src),
            is_alpha(old(self)@.src[old(self)@.pos]),
        ensures
            final(self).wf(),
            spec_get_token(old(self)@) == Ok::<ScannerView, Seq<char>>(
                ScannerView { cur: token@, ..final(self)@ },
            ),
            final(self)@.cur == old(self)@.cur,
    {
        proof {
            reveal_with_fuel(spec_get_token, 2);
        }
        let mut value: Vec<u8> = Vec::new();
        let mut going = true;
        let cnum = self.col_num;
        let ghost start = self@.pos;
        let ghost src = self@.src;
        while going
            invariant
                self.wf(),
                self@ == (ScannerView {
                    pos: self@.pos,
                    col: (old(self)@.col + (self@.pos - start)) as nat,
                    ..old(self)@
                }),
                src == self@.src,
                start == old(self)@.pos,
                start <= self@.pos,
                value@ == src.subrange(start, self@.pos),
                all_ascii(value@),
                ident_end(src, start) == ident_end(src, self@.pos),
                !going ==> ident_end(src, self@.pos) == self@.pos,
            decreases limit(src) - self@.pos + if going { 1int } else { 0int },
        {
            if self.scan_ptr >= self.src_length - 1 {
                going = false;
            } else {
                let c = self.get_char();
                let group = get_char_group(c);
                if group == CharGroup::ALPHA || group == CharGroup::DIGIT {
                    value.push(c);
                    self.scan_ptr = self.scan_ptr + 1;
                    self.col_num = self.col_num + 1;
                    assert(value@ =~= src.subrange(start, self@.pos));
                } else {
                    going = false;
                }
            }
        }
        let kind = keyword_kind(value.as_slice());
        let value_str = string_of_bytes(value.as_slice());
        match kind {
            Some(ttype) => self.make_tok(ttype, value_str, cnum),
            None => {
                let ident_token = self.make_tok(TokenType::Ident, value_str, cnum);
                // Only a name that the table does not know yet is entered.
                self.symbol_table.add(ident_token.clone());
                // The table's token shows what declarations have made of the name.
                proof {
                    lemma_after_name_table(old(self)@, ident_token@.lexeme);
                }
                self.symbol_table.get(ident_token)
            },
        }
    }

    /// Reads the operator or delimiter at the offset.
    fn get_symb(&mut self) -> (r: Result<Token, String>)
        requires
            old(self).wf(),
            old(self)@.pos < limit(old(self)@.src),
            is_punct(old(self)@.src[old(self)@.pos]),
        ensures
            final(self).wf(),
            match r {
                Ok(token) => spec_get_token(old(self)@) == Ok::<ScannerView, Seq<char>>(
                    ScannerView { cur: token@, ..final(self)@ },
                ),
                Err(e) => spec_get_token(old(self)@) == Err::<ScannerView, Seq<char>>(e@),
            },
            final(self)@.cur == old(self)@.cur,
    {
        proof {
            reveal_with_fuel(spec_get_token, 2);
        }
        let mut value: Vec<u8> = Vec::new();
        let mut going = true;
        let cnum = self.col_num;
        let ghost start = self@.pos;
        let ghost src = self@.src;
        while going
            invariant
                self.wf(),
                self@ == (ScannerView {
                    pos: self@.pos,
                    col: (old(self)@.col + (self@.pos - start)) as nat,
                    ..old(self)@
                }),
                src == self@.src,
                start == old(self)@.pos,
                start <= self@.pos,
                value@ == src.subrange(start, self@.pos),
                all_ascii(value@),
                symbol_end(src, start, start) == symbol_end(src, start, self@.pos),
                !going ==> symbol_end(src, start, self@.pos) == self@.pos,
            decreases limit(src) - self@.pos + if going { 1int } else { 0int },
        {
            if self.scan_ptr >= self.src_length - 1 {
                going = false;
            } else {
                let c = self.get_char();
                // A semicolon stands alone: it never joins a token that has begun.
                let alone = value.len() > 0 && c == 59;
                if get_char_group(c) == CharGroup::PUNCT && !alone {
                    value.push(c);
                    self.scan_ptr = self.scan_ptr + 1;
                    self.col_num = self.col_num + 1;
                    assert(value@ =~= src.subrange(start, self@.pos));
                } else {
                    going = false;
                }
            }
        }
        let kind = symbol_kind(value.as_slice());
        let value_str = string_of_bytes(value.as_slice());
        match kind {
            Some(ttype) => Ok(self.make_tok(ttype, value_str, cnum)),
            None => {
                let errmsg = scanner_error(
                    String::from_str("Invalid operator or symbol"),
                    value_str,
                    self.line_num,
                    cnum,
                );
                Err(errmsg)
            },
        }
    }

    /// A token that began on the current line at column `col`.
    fn make_tok(&self, tt: TokenType, value: String, col: usize) -> (token: Token)
        ensures
            token@ == plain(tt, value@, self@.line, col as nat),
    {
        Token::new(tt, value, (self.line_num, col))
    }
}

} // verus!
