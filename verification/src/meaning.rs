//! What expressions mean: the value of an expression, and the proof that
//! the code of the expression makes the machine compute it.
use vstd::prelude::*;
use crate::bytecode::{be_bytes, be_value, lemma_be_value_of_bytes, Opcode};
use crate::parser::{
    element_address_code, if_code, if_else_code, is_add_op, is_mul_op, push_word, repeat_code,
    single, spec_assign_st, spec_expression, spec_expression_rest, spec_factor, spec_match_tok,
    spec_term, spec_term_rest, spec_write_st, while_code,
};
use crate::rvm::{
    binary_result, dropped, negated, second_word, spec_binary, spec_jump, spec_load, spec_push,
    spec_run,
    spec_step, spec_store, spec_unary, spec_write, stored, top_word, MachineView, Step,
    DATA_SIZE, STACK_SIZE,
};
use crate::scanner::{lemma_get_token_symbols, measure, symbols_ok, token_ok, ScannerView};
use crate::tokens::{TokenType, TokenView};

verus! {

/// An expression, with its variables resolved to their addresses.
pub enum Expr {
    /// A literal.
    Literal(u32),
    /// The variable at an address.
    Scalar(u32),
    /// The element of the array at `base`, with lower bound `lo`, at an index.
    Element { base: u32, lo: u32, index: Box<Expr> },
    /// The negative of an expression.
    Negated(Box<Expr>),
    /// A binary operator between a left and a right expression.
    Binary(Opcode, Box<Expr>, Box<Expr>),
}

/// Every operator in the expression is a binary instruction.
pub open spec fn well_formed(e: Expr) -> bool
    decreases e,
{
    match e {
        Expr::Literal(_) => true,
        Expr::Scalar(_) => true,
        Expr::Element { base, lo, index } => well_formed(*index),
        Expr::Negated(inner) => well_formed(*inner),
        Expr::Binary(op, left, right) => op.is_binary() && well_formed(*left) && well_formed(
            *right,
        ),
    }
}

/// The code of an expression: operands from left to right, then the
/// operator.
pub open spec fn code_of(e: Expr) -> Seq<u8>
    decreases e,
{
    match e {
        Expr::Literal(v) => push_word(v),
        Expr::Scalar(addr) => push_word(addr) + single(Opcode::Load),
        Expr::Element { base, lo, index } => code_of(*index) + element_address_code(base, lo)
            + single(Opcode::Load),
        Expr::Negated(inner) => code_of(*inner) + single(Opcode::Neg),
        Expr::Binary(op, left, right) => code_of(*left) + code_of(*right) + single(op),
    }
}

/// The word of the data segment at an address, if the segment has it.
pub open spec fn word_of(data: Seq<u8>, addr: u32) -> Option<u32> {
    if addr + 4 <= data.len() {
        Some(be_value(data.subrange(addr as int, addr + 4)))
    } else {
        None
    }
}

/// The address of the element at `index`: the index less the lower bound,
/// times four, plus the base, each modulo 2^32.
pub open spec fn element_address(base: u32, lo: u32, index: u32) -> u32 {
    let shifted = if lo != 0 {
        binary_result(Opcode::Sub, lo, index)
    } else {
        index
    };
    binary_result(Opcode::Add, base, binary_result(Opcode::Mult, 4, shifted))
}

/// The value of an expression over a data segment; `None` where the
/// expression divides by zero or reads outside the segment.
pub open spec fn value_of(e: Expr, data: Seq<u8>) -> Option<u32>
    decreases e,
{
    match e {
        Expr::Literal(v) => Some(v),
        Expr::Scalar(addr) => word_of(data, addr),
        Expr::Element { base, lo, index } => match value_of(*index, data) {
            Some(i) => word_of(data, element_address(base, lo, i)),
            None => None,
        },
        Expr::Negated(inner) => match value_of(*inner, data) {
            Some(v) => Some(negated(v)),
            None => None,
        },
        Expr::Binary(op, left, right) => match (value_of(*left, data), value_of(*right, data)) {
            (Some(l), Some(r)) => if op == Opcode::Divi && r == 0 {
                None
            } else {
                Some(binary_result(op, r, l))
            },
            _ => None,
        },
    }
}

/// The bytes of stack that the code of an expression needs.
pub open spec fn stack_need(e: Expr) -> nat
    decreases e,
{
    match e {
        Expr::Literal(_) => 4,
        Expr::Scalar(_) => 4,
        Expr::Element { base, lo, index } => if stack_need(*index) > 8 {
            stack_need(*index)
        } else {
            8
        },
        Expr::Negated(inner) => stack_need(*inner),
        Expr::Binary(op, left, right) => if stack_need(*left) > 4 + stack_need(*right) {
            stack_need(*left)
        } else {
            4 + stack_need(*right)
        },
    }
}

/// The machine after `n` instructions.
pub open spec fn steps(m: MachineView, n: nat) -> MachineView
    decreases n,
{
    if n == 0 {
        m
    } else {
        steps(spec_step(m).0, (n - 1) as nat)
    }
}

/// The next `n` instructions neither write nor halt nor fail.
pub open spec fn quiet(m: MachineView, n: nat) -> bool
    decreases n,
{
    n == 0 || (spec_step(m).1 == Step::Running && quiet(spec_step(m).0, (n - 1) as nat))
}

/// The code of the machine holds the given bytes at the program counter.
pub open spec fn fits(m: MachineView, code: Seq<u8>) -> bool {
    &&& 0 <= m.ip
    &&& m.ip + code.len() <= m.code.len()
    &&& m.code.subrange(m.ip, m.ip + code.len()) == code
}

/// The machine with `value` pushed and the program counter moved on by
/// `len` bytes.
pub open spec fn pushed(m: MachineView, len: int, value: u32) -> MachineView {
    MachineView { stack: m.stack + be_bytes(value), ip: m.ip + len, ..m }
}

/// Quiet instructions after quiet instructions are quiet, and lead where the
/// second lot leads from where the first lot led.
pub proof fn lemma_steps_add(m: MachineView, a: nat, b: nat)
    requires
        quiet(m, a),
        quiet(steps(m, a), b),
    ensures
        quiet(m, a + b),
        steps(m, a + b) == steps(steps(m, a), b),
    decreases a,
{
    if a > 0 {
        lemma_steps_add(spec_step(m).0, (a - 1) as nat, b);
    }
}

/// Code that begins with two pieces holds the first at the program counter
/// and the second behind it.
pub proof fn lemma_fits_split(m: MachineView, first: Seq<u8>, second: Seq<u8>)
    requires
        fits(m, first + second),
    ensures
        fits(m, first),
        forall|n: MachineView| #[trigger]
            fits(n, second) <== n.code == m.code && n.ip == m.ip + first.len(),
{
    let both = first + second;
    assert(m.code.subrange(m.ip, m.ip + first.len()) =~= both.subrange(0, first.len() as int));
    assert(both.subrange(0, first.len() as int) =~= first);
    assert(m.code.subrange(m.ip + first.len(), m.ip + both.len()) =~= both.subrange(
        first.len() as int,
        both.len() as int,
    ));
    assert(both.subrange(first.len() as int, both.len() as int) =~= second);
}

/// `PUSH` with room on the stack pushes its operand.
pub proof fn lemma_push_step(m: MachineView, v: u32)
    requires
        fits(m, push_word(v)),
        m.stack.len() + 4 <= STACK_SIZE - 1,
    ensures
        spec_step(m) == (pushed(m, 5, v), Step::Running),
{
    reveal(spec_step);
    reveal(spec_push);
    let code = push_word(v);
    assert(m.code[m.ip] == code[0]);
    assert(m.code.subrange(m.ip + 1, m.ip + 5) =~= code.subrange(1, 5));
    assert(code.subrange(1, 5) =~= be_bytes(v));
}

/// The top word of a stack on which a word was pushed is that word, and the
/// stack below is what it was.
pub proof fn lemma_top_of_pushed(stack: Seq<u8>, v: u32)
    ensures
        (stack + be_bytes(v)).len() == stack.len() + 4,
        top_word(stack + be_bytes(v)) == v,
        dropped(stack + be_bytes(v), 4) == stack,
{
    let s = stack + be_bytes(v);
    assert(s.subrange(s.len() - 4, s.len() as int) =~= be_bytes(v));
    assert(dropped(s, 4) =~= stack);
    lemma_be_value_of_bytes(v);
}

/// Of two words pushed, the second is the top word and the first the word
/// below it.
pub proof fn lemma_top_two(stack: Seq<u8>, below: u32, top: u32)
    ensures
        (stack + be_bytes(below) + be_bytes(top)).len() == stack.len() + 8,
        top_word(stack + be_bytes(below) + be_bytes(top)) == top,
        second_word(stack + be_bytes(below) + be_bytes(top)) == below,
        dropped(stack + be_bytes(below) + be_bytes(top), 8) == stack,
{
    let s = stack + be_bytes(below) + be_bytes(top);
    assert(s.subrange(s.len() - 4, s.len() as int) =~= be_bytes(top));
    assert(s.subrange(s.len() - 8, s.len() - 4) =~= be_bytes(below));
    assert(dropped(s, 8) =~= stack);
    lemma_be_value_of_bytes(top);
    lemma_be_value_of_bytes(below);
}

/// A binary instruction replaces the two words on top by its result.
pub proof fn lemma_binary_step(m: MachineView, base: MachineView, op: Opcode, l: u32, r: u32)
    requires
        op.is_binary(),
        fits(m, single(op)),
        m.stack == base.stack + be_bytes(l) + be_bytes(r),
        !(op == Opcode::Divi && r == 0),
    ensures
        spec_step(m) == (
            MachineView {
                stack: base.stack + be_bytes(binary_result(op, r, l)),
                ip: m.ip + 1,
                ..m
            },
            Step::Running,
        ),
{
    reveal(spec_step);
    reveal(spec_binary);
    assert(m.code[m.ip] == single(op)[0]);
    lemma_top_two(base.stack, l, r);
    crate::bytecode::lemma_opcode_round_trip(op, 0);
}

/// `NEG` replaces the word on top by its negative.
pub proof fn lemma_neg_step(m: MachineView, base: MachineView, v: u32)
    requires
        fits(m, single(Opcode::Neg)),
        m.stack == base.stack + be_bytes(v),
    ensures
        spec_step(m) == (
            MachineView { stack: base.stack + be_bytes(negated(v)), ip: m.ip + 1, ..m },
            Step::Running,
        ),
{
    reveal(spec_step);
    reveal(spec_unary);
    assert(m.code[m.ip] == single(Opcode::Neg)[0]);
    lemma_top_of_pushed(base.stack, v);
}

/// `LOAD` replaces the address on top by the word stored there.
pub proof fn lemma_load_step(m: MachineView, base: MachineView, addr: u32)
    requires
        fits(m, single(Opcode::Load)),
        m.stack == base.stack + be_bytes(addr),
        word_of(m.data, addr) is Some,
    ensures
        spec_step(m) == (
            MachineView {
                stack: base.stack + be_bytes(word_of(m.data, addr)->Some_0),
                ip: m.ip + 1,
                ..m
            },
            Step::Running,
        ),
{
    reveal(spec_step);
    reveal(spec_load);
    assert(m.code[m.ip] == single(Opcode::Load)[0]);
    lemma_top_of_pushed(base.stack, addr);
    let word = m.data.subrange(addr as int, addr + 4);
    crate::bytecode::lemma_be_bytes_of_value(word);
}

/// One quiet instruction that leads to `after`.
proof fn lemma_one_step(m: MachineView, after: MachineView)
    requires
        spec_step(m) == (after, Step::Running),
    ensures
        quiet(m, 1),
        steps(m, 1) == after,
{
    assert(quiet(spec_step(m).0, 0));
    assert(steps(spec_step(m).0, 0) == spec_step(m).0);
}

/// The code for the address of an element turns the index on top of the
/// stack into the address of the element, in `n` quiet instructions.
pub proof fn lemma_element_address_code(m: MachineView, below: MachineView, base: u32, lo: u32, index: u32) -> (n: nat)
    requires
        fits(m, element_address_code(base, lo)),
        m.stack == below.stack + be_bytes(index),
        below.stack.len() + 8 <= STACK_SIZE - 1,
    ensures
        quiet(m, n),
        steps(m, n) == (MachineView {
            stack: below.stack + be_bytes(element_address(base, lo, index)),
            ip: m.ip + element_address_code(base, lo).len(),
            ..m
        }),
{
    lemma_top_of_pushed(below.stack, index);
    let shift = if lo != 0 {
        push_word(lo) + single(Opcode::Sub)
    } else {
        Seq::<u8>::empty()
    };
    let scale = push_word(4) + single(Opcode::Mult);
    let offset = push_word(base) + single(Opcode::Add);
    assert(element_address_code(base, lo) =~= shift + (scale + offset));
    lemma_fits_split(m, shift, scale + offset);
    let shifted = if lo != 0 {
        binary_result(Opcode::Sub, lo, index)
    } else {
        index
    };
    // the index less the lower bound
    let m1 = MachineView { stack: below.stack + be_bytes(shifted), ip: m.ip + shift.len(), ..m };
    let n1: nat = if lo != 0 {
        2
    } else {
        0
    };
    if lo != 0 {
        lemma_fits_split(m, push_word(lo), single(Opcode::Sub));
        lemma_push_step(m, lo);
        let pushed_lo = pushed(m, 5, lo);
        lemma_one_step(m, pushed_lo);
        lemma_binary_step(pushed_lo, below, Opcode::Sub, index, lo);
        lemma_one_step(pushed_lo, m1);
        lemma_steps_add(m, 1, 1);
    } else {
        assert(m1 == m);
    }
    assert(quiet(m, n1) && steps(m, n1) == m1);
    // times four
    lemma_top_of_pushed(below.stack, shifted);
    lemma_fits_split(m1, scale, offset);
    lemma_fits_split(m1, push_word(4), single(Opcode::Mult));
    lemma_push_step(m1, 4);
    let pushed_four = pushed(m1, 5, 4);
    lemma_one_step(m1, pushed_four);
    let scaled = binary_result(Opcode::Mult, 4, shifted);
    let m2 = MachineView { stack: below.stack + be_bytes(scaled), ip: m1.ip + 6, ..m };
    lemma_binary_step(pushed_four, below, Opcode::Mult, shifted, 4);
    lemma_one_step(pushed_four, m2);
    lemma_steps_add(m1, 1, 1);
    lemma_steps_add(m, n1, 2);
    // plus the base
    lemma_top_of_pushed(below.stack, scaled);
    lemma_fits_split(m2, push_word(base), single(Opcode::Add));
    lemma_push_step(m2, base);
    let pushed_base = pushed(m2, 5, base);
    lemma_one_step(m2, pushed_base);
    let m3 = MachineView {
        stack: below.stack + be_bytes(element_address(base, lo, index)),
        ip: m2.ip + 6,
        ..m
    };
    lemma_binary_step(pushed_base, below, Opcode::Add, scaled, base);
    lemma_one_step(pushed_base, m3);
    lemma_steps_add(m2, 1, 1);
    lemma_steps_add(m, n1 + 2, 2);
    n1 + 4
}

/// The code of an expression computes its value: where the expression has
/// a value and the stack has room, the machine executes the code in `n`
/// instructions that neither write nor fail, and then stands behind the
/// code with the value pushed and everything else as it was.
pub proof fn lemma_expression_value(e: Expr, m: MachineView) -> (n: nat)
    requires
        well_formed(e),
        fits(m, code_of(e)),
        value_of(e, m.data) is Some,
        m.stack.len() + stack_need(e) <= STACK_SIZE - 1,
    ensures
        quiet(m, n),
        steps(m, n) == pushed(m, code_of(e).len() as int, value_of(e, m.data)->Some_0),
    decreases e,
{
    match e {
        Expr::Literal(v) => {
            lemma_push_step(m, v);
            lemma_one_step(m, pushed(m, 5, v));
            1
        },
        Expr::Scalar(addr) => {
            lemma_fits_split(m, push_word(addr), single(Opcode::Load));
            lemma_push_step(m, addr);
            let m1 = pushed(m, 5, addr);
            lemma_one_step(m, m1);
            lemma_load_step(m1, m, addr);
            lemma_one_step(m1, pushed(m, 6, word_of(m.data, addr)->Some_0));
            lemma_steps_add(m, 1, 1);
            2
        },
        Expr::Element { base, lo, index } => {
            let first = code_of(*index);
            let address = element_address_code(base, lo);
            let i = value_of(*index, m.data)->Some_0;
            let addr = element_address(base, lo, i);
            assert(code_of(e) =~= first + (address + single(Opcode::Load)));
            lemma_fits_split(m, first, address + single(Opcode::Load));
            let n1 = lemma_expression_value(*index, m);
            let m1 = pushed(m, first.len() as int, i);
            lemma_fits_split(m1, address, single(Opcode::Load));
            let n2 = lemma_element_address_code(m1, m, base, lo, i);
            let m2 = MachineView {
                stack: m.stack + be_bytes(addr),
                ip: m1.ip + address.len(),
                ..m
            };
            lemma_steps_add(m, n1, n2);
            lemma_load_step(m2, m, addr);
            lemma_one_step(m2, pushed(m, code_of(e).len() as int, word_of(m.data, addr)->Some_0));
            lemma_steps_add(m, n1 + n2, 1);
            n1 + n2 + 1
        },
        Expr::Negated(inner) => {
            let first = code_of(*inner);
            let v = value_of(*inner, m.data)->Some_0;
            lemma_fits_split(m, first, single(Opcode::Neg));
            let n1 = lemma_expression_value(*inner, m);
            let m1 = pushed(m, first.len() as int, v);
            lemma_neg_step(m1, m, v);
            lemma_one_step(m1, pushed(m, code_of(e).len() as int, negated(v)));
            lemma_steps_add(m, n1, 1);
            n1 + 1
        },
        Expr::Binary(op, left, right) => {
            let first = code_of(*left);
            let second = code_of(*right);
            let l = value_of(*left, m.data)->Some_0;
            let r = value_of(*right, m.data)->Some_0;
            assert(code_of(e) =~= first + (second + single(op)));
            lemma_fits_split(m, first, second + single(op));
            let n1 = lemma_expression_value(*left, m);
            let m1 = pushed(m, first.len() as int, l);
            lemma_fits_split(m1, second, single(op));
            let n2 = lemma_expression_value(*right, m1);
            let m2 = pushed(m1, second.len() as int, r);
            lemma_steps_add(m, n1, n2);
            lemma_binary_step(m2, m, op, l, r);
            lemma_one_step(m2, pushed(m, code_of(e).len() as int, binary_result(op, r, l)));
            lemma_steps_add(m, n1 + n2, 1);
            n1 + n2 + 1
        },
    }
}

/// A sum has the value it has with its operands exchanged, and so have a
/// product, a test for equality and a connective.
pub proof fn lemma_sum_commutes(op: Opcode, left: Expr, right: Expr, data: Seq<u8>)
    requires
        op == Opcode::Add || op == Opcode::Mult || op == Opcode::Equal || op == Opcode::NEqual
            || op == Opcode::And || op == Opcode::Or,
    ensures
        value_of(Expr::Binary(op, Box::new(left), Box::new(right)), data) == value_of(
            Expr::Binary(op, Box::new(right), Box::new(left)),
            data,
        ),
{
    if value_of(left, data) is Some && value_of(right, data) is Some {
        crate::rvm::lemma_operand_order(
            value_of(left, data)->Some_0,
            value_of(right, data)->Some_0,
        );
        crate::rvm::lemma_operand_order(
            value_of(right, data)->Some_0,
            value_of(left, data)->Some_0,
        );
    }
}

/// The variables of the expression lie in a data segment that is allocated
/// up to `top`: every address is a multiple of four, and the word of every
/// scalar variable ends at or before `top`.
pub open spec fn variables_ok(e: Expr, top: u32) -> bool
    decreases e,
{
    match e {
        Expr::Literal(_) => true,
        Expr::Scalar(addr) => addr % 4 == 0 && addr + 4 <= top,
        Expr::Element { base, lo, index } => base % 4 == 0 && base < top && variables_ok(
            *index,
            top,
        ),
        Expr::Negated(inner) => variables_ok(*inner, top),
        Expr::Binary(op, left, right) => variables_ok(*left, top) && variables_ok(*right, top),
    }
}

/// Passing a token leaves the tokens in order.
proof fn lemma_match_symbols(s: ScannerView, kind: TokenType, top: u32)
    requires
        symbols_ok(s, top),
        spec_match_tok(s, kind) is Ok,
    ensures
        symbols_ok(spec_match_tok(s, kind)->Ok_0, top),
{
    lemma_get_token_symbols(s, top);
}

/// The code that the parser emits for a factor is the code of an
/// expression, whose variables lie in the allocated part of the data
/// segment.
pub proof fn lemma_factor_code(s: ScannerView, top: u32) -> (e: Expr)
    requires
        symbols_ok(s, top),
        spec_factor(s) is Ok,
    ensures
        well_formed(e),
        variables_ok(e, top),
        spec_factor(s)->Ok_0.1 == code_of(e),
        symbols_ok(spec_factor(s)->Ok_0.0, top),
    decreases measure(s), 0nat,
{
    match s.cur.kind {
        TokenType::IntLit => {
            lemma_match_symbols(s, TokenType::IntLit, top);
            Expr::Literal(crate::text::word_value(s.cur.lexeme)->Some_0)
        },
        TokenType::AVar => {
            lemma_match_symbols(s, TokenType::AVar, top);
            Expr::Scalar(s.cur.addr->Some_0)
        },
        TokenType::AnArrayVar => {
            lemma_match_symbols(s, TokenType::AnArrayVar, top);
            let s1 = spec_match_tok(s, TokenType::AnArrayVar)->Ok_0;
            lemma_match_symbols(s1, TokenType::LBrack, top);
            let s2 = spec_match_tok(s1, TokenType::LBrack)->Ok_0;
            let index = lemma_expression_code(s2, top);
            lemma_match_symbols(spec_expression(s2)->Ok_0.0, TokenType::RBrack, top);
            Expr::Element { base: s.cur.addr->Some_0, lo: s.cur.low->Some_0, index: Box::new(index) }
        },
        TokenType::OpMinus => {
            lemma_match_symbols(s, TokenType::OpMinus, top);
            let s1 = spec_match_tok(s, TokenType::OpMinus)->Ok_0;
            let inner = lemma_factor_code(s1, top);
            Expr::Negated(Box::new(inner))
        },
        TokenType::LParen => {
            lemma_match_symbols(s, TokenType::LParen, top);
            let s1 = spec_match_tok(s, TokenType::LParen)->Ok_0;
            let inner = lemma_expression_code(s1, top);
            lemma_match_symbols(spec_expression(s1)->Ok_0.0, TokenType::RParen, top);
            inner
        },
        _ => Expr::Literal(0),
    }
}

/// The code that the parser emits for the rest of a term, behind the code
/// of an expression, is the code of an expression.
pub proof fn lemma_term_rest_code(s: ScannerView, left: Expr, top: u32) -> (e: Expr)
    requires
        symbols_ok(s, top),
        well_formed(left),
        variables_ok(left, top),
        spec_term_rest(s, code_of(left)) is Ok,
    ensures
        well_formed(e),
        variables_ok(e, top),
        spec_term_rest(s, code_of(left))->Ok_0.1 == code_of(e),
        symbols_ok(spec_term_rest(s, code_of(left))->Ok_0.0, top),
    decreases measure(s), 1nat,
{
    if is_mul_op(s.cur.kind) {
        lemma_match_symbols(s, s.cur.kind, top);
        let s1 = spec_match_tok(s, s.cur.kind)->Ok_0;
        let right = lemma_factor_code(s1, top);
        let both = Expr::Binary(s.cur.kind.opcode()->Some_0, Box::new(left), Box::new(right));
        lemma_term_rest_code(spec_factor(s1)->Ok_0.0, both, top)
    } else {
        left
    }
}

/// The code that the parser emits for a term is the code of an expression.
pub proof fn lemma_term_code(s: ScannerView, top: u32) -> (e: Expr)
    requires
        symbols_ok(s, top),
        spec_term(s) is Ok,
    ensures
        well_formed(e),
        variables_ok(e, top),
        spec_term(s)->Ok_0.1 == code_of(e),
        symbols_ok(spec_term(s)->Ok_0.0, top),
    decreases measure(s), 2nat,
{
    let first = lemma_factor_code(s, top);
    lemma_term_rest_code(spec_factor(s)->Ok_0.0, first, top)
}

/// The code that the parser emits for the rest of an expression, behind the
/// code of an expression, is the code of an expression.
pub proof fn lemma_expression_rest_code(s: ScannerView, left: Expr, top: u32) -> (e: Expr)
    requires
        symbols_ok(s, top),
        well_formed(left),
        variables_ok(left, top),
        spec_expression_rest(s, code_of(left)) is Ok,
    ensures
        well_formed(e),
        variables_ok(e, top),
        spec_expression_rest(s, code_of(left))->Ok_0.1 == code_of(e),
        symbols_ok(spec_expression_rest(s, code_of(left))->Ok_0.0, top),
    decreases measure(s), 3nat,
{
    if is_add_op(s.cur.kind) {
        lemma_match_symbols(s, s.cur.kind, top);
        let s1 = spec_match_tok(s, s.cur.kind)->Ok_0;
        let right = lemma_term_code(s1, top);
        let both = Expr::Binary(s.cur.kind.opcode()->Some_0, Box::new(left), Box::new(right));
        lemma_expression_rest_code(spec_term(s1)->Ok_0.0, both, top)
    } else {
        left
    }
}

/// The code that the parser emits for an expression is the code of an
/// expression whose variables lie in the allocated part of the data
/// segment: so the machine computes the expression's value with it.
pub proof fn lemma_expression_code(s: ScannerView, top: u32) -> (e: Expr)
    requires
        symbols_ok(s, top),
        spec_expression(s) is Ok,
    ensures
        well_formed(e),
        variables_ok(e, top),
        spec_expression(s)->Ok_0.1 == code_of(e),
        symbols_ok(spec_expression(s)->Ok_0.0, top),
    decreases measure(s), 4nat,
{
    let first = lemma_term_code(s, top);
    lemma_expression_rest_code(spec_term(s)->Ok_0.0, first, top)
}

/// Quiet instructions write nothing: a run that begins with them goes on
/// from where they lead, with the output as it was.
pub proof fn lemma_quiet_run(m: MachineView, n: nat, fuel: nat, output: Seq<u32>)
    requires
        quiet(m, n),
    ensures
        spec_run(m, n + fuel, output) == spec_run(steps(m, n), fuel, output),
    decreases n,
{
    if n > 0 {
        lemma_quiet_run(spec_step(m).0, (n - 1) as nat, fuel, output);
    }
}

/// A sum computes the same whichever operand is compiled first: where the
/// sum has a value and the stack has room for either order, the code of
/// `left + right` and the code of `right + left` both run without writing
/// or failing, and leave the same stack and the same data behind. The same
/// holds of a product, a test for equality and a connective.
pub proof fn lemma_exchanged_operands_compute_the_same(
    op: Opcode,
    left: Expr,
    right: Expr,
    m1: MachineView,
    m2: MachineView,
) -> (n: (nat, nat))
    requires
        op == Opcode::Add || op == Opcode::Mult || op == Opcode::Equal || op == Opcode::NEqual
            || op == Opcode::And || op == Opcode::Or,
        well_formed(left),
        well_formed(right),
        fits(m1, code_of(Expr::Binary(op, Box::new(left), Box::new(right)))),
        fits(m2, code_of(Expr::Binary(op, Box::new(right), Box::new(left)))),
        m1.data == m2.data,
        m1.stack == m2.stack,
        value_of(Expr::Binary(op, Box::new(left), Box::new(right)), m1.data) is Some,
        m1.stack.len() + stack_need(Expr::Binary(op, Box::new(left), Box::new(right)))
            <= STACK_SIZE - 1,
        m1.stack.len() + stack_need(Expr::Binary(op, Box::new(right), Box::new(left)))
            <= STACK_SIZE - 1,
    ensures
        quiet(m1, n.0),
        quiet(m2, n.1),
        steps(m1, n.0).stack == steps(m2, n.1).stack,
        steps(m1, n.0).data == steps(m2, n.1).data,
        steps(m1, n.0).stack == m1.stack + be_bytes(
            value_of(Expr::Binary(op, Box::new(left), Box::new(right)), m1.data)->Some_0,
        ),
{
    let sum = Expr::Binary(op, Box::new(left), Box::new(right));
    let exchanged = Expr::Binary(op, Box::new(right), Box::new(left));
    lemma_sum_commutes(op, left, right, m1.data);
    let a = lemma_expression_value(sum, m1);
    let b = lemma_expression_value(exchanged, m2);
    (a, b)
}

/// A multiple of four stays one when it is taken modulo 2^32.
proof fn lemma_wrapped_multiple_of_four(p: int)
    requires
        p >= 0,
        p % 4 == 0,
    ensures
        (p % 0x1_0000_0000) % 4 == 0,
{
    let q = p / 0x1_0000_0000;
    let r = p % 0x1_0000_0000;
    let k = p / 4;
    assert(p == 0x1_0000_0000 * q + r);
    assert(p == 4 * k);
    assert(r == 4 * (k - 0x4000_0000 * q));
}

/// The address of an element is a multiple of four whatever the index, and
/// for an index within the bounds the element lies in the array's storage.
pub proof fn lemma_element_address_aligned(base: u32, lo: u32, hi: u32, index: u32, top: u32)
    requires
        base % 4 == 0,
    ensures
        element_address(base, lo, index) % 4 == 0,
        lo <= index <= hi && base + 4 * (hi - lo + 1) <= top ==> base <= element_address(
            base,
            lo,
            index,
        ) && element_address(base, lo, index) + 4 <= top,
{
    let shifted = if lo != 0 {
        binary_result(Opcode::Sub, lo, index)
    } else {
        index
    };
    let scaled = binary_result(Opcode::Mult, 4, shifted);
    lemma_wrapped_multiple_of_four(4 * shifted);
    assert(scaled % 4 == 0);
    lemma_wrapped_multiple_of_four(base + scaled);
    if lo <= index <= hi && base + 4 * (hi - lo + 1) <= top {
        crate::rvm::lemma_element_address(base, lo, hi, index, top);
    }
}

/// The machine reads and stores only words that lie in the data segment:
/// a `LOAD` or a `STORE` that the machine carries out addresses a word that
/// ends at or before the end of the segment.
pub proof fn lemma_access_in_segment(m: MachineView)
    requires
        m.data.len() == DATA_SIZE,
    ensures
        spec_load(m).1 == Step::Running ==> top_word(m.stack) + 4 <= DATA_SIZE,
        spec_store(m).1 == Step::Running ==> second_word(m.stack) + 4 <= DATA_SIZE,
{
    reveal(spec_load);
    reveal(spec_store);
}

/// Where the declared storage fits into the data segment, the word of a
/// scalar variable lies in the segment at a multiple of four; the address
/// that the machine computes for an element of an array is a multiple of
/// four whatever the index, and for an index within the array's bounds the
/// element lies in the segment.
pub proof fn lemma_variable_addresses(t: TokenView, top: u32, index: u32)
    requires
        token_ok(t, top),
        top <= DATA_SIZE,
    ensures
        t.kind == TokenType::AVar ==> t.addr->Some_0 % 4 == 0 && t.addr->Some_0 + 4 <= DATA_SIZE,
        t.kind == TokenType::AnArrayVar ==> element_address(
            t.addr->Some_0,
            t.low->Some_0,
            index,
        ) % 4 == 0,
        t.kind == TokenType::AnArrayVar && t.low->Some_0 <= index <= t.high->Some_0
            ==> element_address(t.addr->Some_0, t.low->Some_0, index) + 4 <= DATA_SIZE,
{
    if t.kind == TokenType::AnArrayVar {
        lemma_element_address_aligned(
            t.addr->Some_0,
            t.low->Some_0,
            t.high->Some_0,
            index,
            top,
        );
    }
}

/// `STORE` takes the value on top and the address below it off the stack
/// and stores the value at the address.
pub proof fn lemma_store_step(m: MachineView, base: MachineView, addr: u32, v: u32)
    requires
        fits(m, single(Opcode::Store)),
        m.stack == base.stack + be_bytes(addr) + be_bytes(v),
        addr + 4 <= m.data.len(),
    ensures
        spec_step(m) == (
            MachineView {
                data: stored(m.data, addr as int, v),
                stack: base.stack,
                ip: m.ip + 1,
                ..m
            },
            Step::Running,
        ),
{
    reveal(spec_step);
    reveal(spec_store);
    assert(m.code[m.ip] == single(Opcode::Store)[0]);
    lemma_top_two(base.stack, addr, v);
}

/// `WRITE` takes the word on top off the stack and writes it.
pub proof fn lemma_write_step(m: MachineView, base: MachineView, v: u32)
    requires
        fits(m, single(Opcode::Write)),
        m.stack == base.stack + be_bytes(v),
    ensures
        spec_step(m) == (MachineView { stack: base.stack, ip: m.ip + 1, ..m }, Step::Wrote(v)),
{
    reveal(spec_step);
    reveal(spec_write);
    assert(m.code[m.ip] == single(Opcode::Write)[0]);
    lemma_top_of_pushed(base.stack, v);
}

/// An assignment stores the value of its expression in the variable: where
/// the expression `e`, whose code the parser emitted for the right side, has
/// a value and the stack has room, the machine executes the code of the
/// assignment in `n` instructions that neither write nor fail, and then the
/// variable's word, which lies in the data segment at a multiple of four,
/// holds the value, and the stack is as it was.
pub proof fn lemma_assignment_stores(s: ScannerView, top: u32, e: Expr, m: MachineView) -> (n: nat)
    requires
        symbols_ok(s, top),
        top <= DATA_SIZE,
        m.data.len() == DATA_SIZE,
        spec_assign_st(s) is Ok,
        fits(m, spec_assign_st(s)->Ok_0.1),
        well_formed(e),
        spec_assign_st(s)->Ok_0.1 == push_word(s.cur.addr->Some_0) + code_of(e) + single(
            Opcode::Store,
        ),
        value_of(e, m.data) is Some,
        m.stack.len() + 4 + stack_need(e) <= STACK_SIZE - 1,
    ensures
        s.cur.addr->Some_0 % 4 == 0,
        s.cur.addr->Some_0 + 4 <= DATA_SIZE,
        quiet(m, n),
        steps(m, n) == (MachineView {
            data: stored(m.data, s.cur.addr->Some_0 as int, value_of(e, m.data)->Some_0),
            ip: m.ip + spec_assign_st(s)->Ok_0.1.len(),
            ..m
        }),
{
    reveal(spec_assign_st);
    let addr = s.cur.addr->Some_0;
    let v = value_of(e, m.data)->Some_0;
    let code = spec_assign_st(s)->Ok_0.1;
    assert(code =~= push_word(addr) + (code_of(e) + single(Opcode::Store)));
    lemma_fits_split(m, push_word(addr), code_of(e) + single(Opcode::Store));
    lemma_push_step(m, addr);
    let m1 = pushed(m, 5, addr);
    lemma_one_step(m, m1);
    lemma_fits_split(m1, code_of(e), single(Opcode::Store));
    let n1 = lemma_expression_value(e, m1);
    let m2 = pushed(m1, code_of(e).len() as int, v);
    lemma_steps_add(m, 1, n1);
    lemma_store_step(m2, m, addr, v);
    let m3 = MachineView { data: stored(m.data, addr as int, v), ip: m.ip + code.len(), ..m };
    lemma_one_step(m2, m3);
    lemma_steps_add(m, 1 + n1, 1);
    n1 + 2
}

/// A `write` writes the value of its expression: where the expression `e`,
/// whose code the parser emitted for the argument, has a value and the
/// stack has room, the machine executes the code of the expression in `n`
/// instructions that neither write nor fail, and the next instruction
/// writes the value and leaves the stack as it was.
pub proof fn lemma_write_writes(s: ScannerView, e: Expr, m: MachineView) -> (n: nat)
    requires
        spec_write_st(s) is Ok,
        fits(m, spec_write_st(s)->Ok_0.1),
        well_formed(e),
        spec_write_st(s)->Ok_0.1 == code_of(e) + single(Opcode::Write),
        value_of(e, m.data) is Some,
        m.stack.len() + stack_need(e) <= STACK_SIZE - 1,
    ensures
        quiet(m, n),
        spec_step(steps(m, n)) == (
            MachineView { ip: m.ip + spec_write_st(s)->Ok_0.1.len(), ..m },
            Step::Wrote(value_of(e, m.data)->Some_0),
        ),
{
    let v = value_of(e, m.data)->Some_0;
    lemma_fits_split(m, code_of(e), single(Opcode::Write));
    let n = lemma_expression_value(e, m);
    lemma_write_step(pushed(m, code_of(e).len() as int, v), m, v);
    n
}

/// A variable that was never assigned to has the value 0: the data segment
/// is zero when the machine starts.
pub proof fn lemma_unassigned_variable_is_zero(code: Seq<u8>, addr: u32)
    requires
        addr + 4 <= DATA_SIZE,
    ensures
        value_of(Expr::Scalar(addr), crate::rvm::fresh(code).data) == Some(0u32),
{
    let data = crate::rvm::fresh(code).data;
    assert(data.subrange(addr as int, addr + 4) =~= be_bytes(0));
    lemma_be_value_of_bytes(0);
}

/// `JFALSE` takes the address on top and the condition below it off the
/// stack, and goes on at the address when the condition is zero, else at the
/// next instruction.
pub proof fn lemma_jfalse_step(m: MachineView, base: MachineView, cond: u32, addr: u32)
    requires
        fits(m, single(Opcode::JFalse)),
        m.stack == base.stack + be_bytes(cond) + be_bytes(addr),
    ensures
        spec_step(m) == (
            MachineView {
                stack: base.stack,
                ip: if cond == 0 {
                    addr as int
                } else {
                    m.ip + 1
                },
                ..m
            },
            Step::Running,
        ),
{
    reveal(spec_step);
    reveal(spec_jump);
    assert(m.code[m.ip] == single(Opcode::JFalse)[0]);
    lemma_top_two(base.stack, cond, addr);
}

/// `JMP` takes the address on top off the stack and goes on there.
pub proof fn lemma_jmp_step(m: MachineView, base: MachineView, addr: u32)
    requires
        fits(m, single(Opcode::Jmp)),
        m.stack == base.stack + be_bytes(addr),
    ensures
        spec_step(m) == (MachineView { stack: base.stack, ip: addr as int, ..m }, Step::Running),
{
    reveal(spec_step);
    reveal(spec_jump);
    assert(m.code[m.ip] == single(Opcode::Jmp)[0]);
    lemma_top_of_pushed(base.stack, addr);
}

/// The bytes of stack that a test of the condition `e` needs: room for the
/// condition and, above its value, for the address to jump to.
pub open spec fn test_need(e: Expr) -> nat {
    if stack_need(e) > 8 {
        stack_need(e)
    } else {
        8
    }
}

/// A condition followed by a jump on its failure: where the condition `e`
/// has a value and the stack has room, the machine goes on at `target` when
/// the value is zero and behind the jump when it is not, in `n` instructions
/// that neither write nor fail, and everything but the program counter is as
/// it was.
pub proof fn lemma_test(m: MachineView, e: Expr, target: u32) -> (n: nat)
    requires
        well_formed(e),
        fits(m, code_of(e) + push_word(target) + single(Opcode::JFalse)),
        value_of(e, m.data) is Some,
        m.stack.len() + test_need(e) <= STACK_SIZE - 1,
    ensures
        quiet(m, n),
        steps(m, n) == (MachineView {
            ip: if value_of(e, m.data)->Some_0 == 0 {
                target as int
            } else {
                m.ip + code_of(e).len() + 6
            },
            ..m
        }),
{
    let cond = code_of(e);
    let v = value_of(e, m.data)->Some_0;
    assert(cond + push_word(target) + single(Opcode::JFalse) =~= cond + (push_word(target)
        + single(Opcode::JFalse)));
    lemma_fits_split(m, cond, push_word(target) + single(Opcode::JFalse));
    let n1 = lemma_expression_value(e, m);
    let m1 = pushed(m, cond.len() as int, v);
    lemma_top_of_pushed(m.stack, v);
    lemma_fits_split(m1, push_word(target), single(Opcode::JFalse));
    lemma_push_step(m1, target);
    let m2 = pushed(m1, 5, target);
    lemma_one_step(m1, m2);
    lemma_steps_add(m, n1, 1);
    lemma_jfalse_step(m2, m, v, target);
    let m3 = MachineView {
        ip: if v == 0 {
            target as int
        } else {
            m.ip + cond.len() + 6
        },
        ..m
    };
    lemma_one_step(m2, m3);
    lemma_steps_add(m, n1 + 1, 1);
    n1 + 2
}

/// A jump to a known address: the machine goes on at `target` in two
/// instructions, and everything but the program counter is as it was.
pub proof fn lemma_goto(m: MachineView, target: u32)
    requires
        fits(m, push_word(target) + single(Opcode::Jmp)),
        m.stack.len() + 4 <= STACK_SIZE - 1,
    ensures
        quiet(m, 2),
        steps(m, 2) == (MachineView { ip: target as int, ..m }),
{
    lemma_fits_split(m, push_word(target), single(Opcode::Jmp));
    lemma_push_step(m, target);
    let m1 = pushed(m, 5, target);
    lemma_one_step(m, m1);
    lemma_jmp_step(m1, m, target);
    lemma_one_step(m1, MachineView { ip: target as int, ..m });
    lemma_steps_add(m, 1, 1);
}

/// A `while` loop tests its condition first: the machine goes on at the
/// body when the condition holds and behind the loop when it does not.
pub proof fn lemma_while_tests(m: MachineView, e: Expr, body: Seq<u8>) -> (n: nat)
    requires
        well_formed(e),
        fits(m, while_code(m.ip, code_of(e), body)),
        m.ip + while_code(m.ip, code_of(e), body).len() <= u32::MAX,
        value_of(e, m.data) is Some,
        m.stack.len() + test_need(e) <= STACK_SIZE - 1,
    ensures
        quiet(m, n),
        steps(m, n) == (MachineView {
            ip: if value_of(e, m.data)->Some_0 == 0 {
                m.ip + while_code(m.ip, code_of(e), body).len()
            } else {
                m.ip + code_of(e).len() + 6
            },
            ..m
        }),
{
    let cond = code_of(e);
    let after = (m.ip + cond.len() + 6 + body.len() + 6) as u32;
    let test = cond + push_word(after) + single(Opcode::JFalse);
    let rest = body + push_word(m.ip as u32) + single(Opcode::Jmp);
    assert(while_code(m.ip, cond, body) =~= test + rest);
    lemma_fits_split(m, test, rest);
    lemma_test(m, e, after)
}

/// At the end of its body a `while` loop goes back to its condition.
pub proof fn lemma_while_returns(m: MachineView, start: int, cond: Seq<u8>, body: Seq<u8>)
    requires
        0 <= start,
        start + while_code(start, cond, body).len() <= u32::MAX,
        m.ip == start + cond.len() + 6 + body.len(),
        fits(MachineView { ip: start, ..m }, while_code(start, cond, body)),
        m.stack.len() + 4 <= STACK_SIZE - 1,
    ensures
        quiet(m, 2),
        steps(m, 2) == (MachineView { ip: start, ..m }),
{
    let first = cond + push_word((start + cond.len() + 6 + body.len() + 6) as u32) + single(
        Opcode::JFalse,
    ) + body;
    let back = push_word(start as u32) + single(Opcode::Jmp);
    assert(while_code(start, cond, body) =~= first + back);
    lemma_fits_split(MachineView { ip: start, ..m }, first, back);
    lemma_goto(m, start as u32);
}

/// A loop whose condition is `1=0` never runs its body: the machine goes
/// from the loop's first byte to the first byte behind it, and everything
/// but the program counter is as it was.
pub proof fn lemma_while_false_runs_never(m: MachineView, body: Seq<u8>) -> (n: nat)
    requires
        fits(m, while_code(m.ip, code_of(never()), body)),
        m.ip + while_code(m.ip, code_of(never()), body).len() <= u32::MAX,
        m.stack.len() + 8 <= STACK_SIZE - 1,
    ensures
        quiet(m, n),
        steps(m, n) == (MachineView {
            ip: m.ip + while_code(m.ip, code_of(never()), body).len(),
            ..m
        }),
{
    lemma_constant_conditions(m.data);
    lemma_while_tests(m, never(), body)
}

/// `1=0` is zero and `1=1` is one, whatever the data segment holds.
pub proof fn lemma_constant_conditions(data: Seq<u8>)
    ensures
        well_formed(never()),
        well_formed(always()),
        value_of(never(), data) == Some(0u32),
        value_of(always(), data) == Some(1u32),
        test_need(never()) == 8,
        test_need(always()) == 8,
{
    reveal_with_fuel(well_formed, 3);
    reveal_with_fuel(value_of, 3);
    reveal_with_fuel(stack_need, 3);
}

/// The condition `1=0`.
pub open spec fn never() -> Expr {
    Expr::Binary(Opcode::Equal, Box::new(Expr::Literal(1)), Box::new(Expr::Literal(0)))
}

/// The condition `1=1`.
pub open spec fn always() -> Expr {
    Expr::Binary(Opcode::Equal, Box::new(Expr::Literal(1)), Box::new(Expr::Literal(1)))
}

/// A `repeat` loop tests its condition behind its body: the machine goes
/// on behind the loop when the condition holds and back to the body when it
/// does not.
pub proof fn lemma_repeat_tests(m: MachineView, start: int, body: Seq<u8>, e: Expr) -> (n: nat)
    requires
        well_formed(e),
        0 <= start <= u32::MAX,
        m.ip == start + body.len(),
        fits(MachineView { ip: start, ..m }, repeat_code(start, body, code_of(e))),
        value_of(e, m.data) is Some,
        m.stack.len() + test_need(e) <= STACK_SIZE - 1,
    ensures
        quiet(m, n),
        steps(m, n) == (MachineView {
            ip: if value_of(e, m.data)->Some_0 == 0 {
                start
            } else {
                start + repeat_code(start, body, code_of(e)).len()
            },
            ..m
        }),
{
    let test = code_of(e) + push_word(start as u32) + single(Opcode::JFalse);
    assert(repeat_code(start, body, code_of(e)) =~= body + test);
    lemma_fits_split(MachineView { ip: start, ..m }, body, test);
    lemma_test(m, e, start as u32)
}

/// A loop that repeats until `1=1` runs its body once: behind the body the
/// machine goes on behind the loop, and everything but the program counter
/// is as it was.
pub proof fn lemma_repeat_until_true_runs_once(m: MachineView, start: int, body: Seq<u8>) -> (n:
    nat)
    requires
        0 <= start <= u32::MAX,
        m.ip == start + body.len(),
        fits(MachineView { ip: start, ..m }, repeat_code(start, body, code_of(always()))),
        m.stack.len() + 8 <= STACK_SIZE - 1,
    ensures
        quiet(m, n),
        steps(m, n) == (MachineView {
            ip: start + repeat_code(start, body, code_of(always())).len(),
            ..m
        }),
{
    lemma_constant_conditions(m.data);
    lemma_repeat_tests(m, start, body, always())
}

/// An `if` without `else` tests its condition: the machine goes on at the
/// block when the condition holds and behind the statement when it does
/// not.
pub proof fn lemma_if_tests(m: MachineView, e: Expr, then_code: Seq<u8>) -> (n: nat)
    requires
        well_formed(e),
        fits(m, if_code(m.ip, code_of(e), then_code)),
        m.ip + if_code(m.ip, code_of(e), then_code).len() <= u32::MAX,
        value_of(e, m.data) is Some,
        m.stack.len() + test_need(e) <= STACK_SIZE - 1,
    ensures
        quiet(m, n),
        steps(m, n) == (MachineView {
            ip: if value_of(e, m.data)->Some_0 == 0 {
                m.ip + if_code(m.ip, code_of(e), then_code).len()
            } else {
                m.ip + code_of(e).len() + 6
            },
            ..m
        }),
{
    let cond = code_of(e);
    let end = (m.ip + cond.len() + 6 + then_code.len()) as u32;
    let test = cond + push_word(end) + single(Opcode::JFalse);
    assert(if_code(m.ip, cond, then_code) =~= test + then_code);
    lemma_fits_split(m, test, then_code);
    lemma_test(m, e, end)
}

/// An `if` with `else` tests its condition: the machine goes on at the
/// block when the condition holds and at the alternative when it does not.
pub proof fn lemma_if_else_tests(
    m: MachineView,
    e: Expr,
    then_code: Seq<u8>,
    else_code: Seq<u8>,
) -> (n: nat)
    requires
        well_formed(e),
        fits(m, if_else_code(m.ip, code_of(e), then_code, else_code)),
        m.ip + if_else_code(m.ip, code_of(e), then_code, else_code).len() <= u32::MAX,
        value_of(e, m.data) is Some,
        m.stack.len() + test_need(e) <= STACK_SIZE - 1,
    ensures
        quiet(m, n),
        steps(m, n) == (MachineView {
            ip: if value_of(e, m.data)->Some_0 == 0 {
                m.ip + code_of(e).len() + 6 + then_code.len() + 6
            } else {
                m.ip + code_of(e).len() + 6
            },
            ..m
        }),
{
    let cond = code_of(e);
    let else_ip = (m.ip + cond.len() + 6 + then_code.len() + 6) as u32;
    let end = (else_ip + else_code.len()) as u32;
    let test = cond + push_word(else_ip) + single(Opcode::JFalse);
    let rest = then_code + push_word(end) + single(Opcode::Jmp) + else_code;
    assert(if_else_code(m.ip, cond, then_code, else_code) =~= test + rest);
    lemma_fits_split(m, test, rest);
    lemma_test(m, e, else_ip)
}

/// Behind its block an `if` with `else` goes on behind the statement: the
/// alternative is skipped.
pub proof fn lemma_if_else_skips_alternative(
    m: MachineView,
    start: int,
    cond: Seq<u8>,
    then_code: Seq<u8>,
    else_code: Seq<u8>,
)
    requires
        0 <= start,
        start + if_else_code(start, cond, then_code, else_code).len() <= u32::MAX,
        m.ip == start + cond.len() + 6 + then_code.len(),
        fits(MachineView { ip: start, ..m }, if_else_code(start, cond, then_code, else_code)),
        m.stack.len() + 4 <= STACK_SIZE - 1,
    ensures
        quiet(m, 2),
        steps(m, 2) == (MachineView {
            ip: start + if_else_code(start, cond, then_code, else_code).len(),
            ..m
        }),
{
    let else_ip = (start + cond.len() + 6 + then_code.len() + 6) as u32;
    let end = (else_ip + else_code.len()) as u32;
    let first = cond + push_word(else_ip) + single(Opcode::JFalse) + then_code;
    let jump = push_word(end) + single(Opcode::Jmp);
    assert(if_else_code(start, cond, then_code, else_code) =~= first + (jump + else_code));
    lemma_fits_split(MachineView { ip: start, ..m }, first, jump + else_code);
    let at_jump = MachineView { ip: start + first.len(), ..m };
    assert(at_jump == m);
    lemma_fits_split(m, jump, else_code);
    lemma_goto(m, end);
}

} // verus!
