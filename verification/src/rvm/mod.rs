//! The stack machine that runs the generated code.
//!
//! The machine has three regions: the code, which it only reads, a data
//! segment, zero at the start, and an evaluation stack of bytes. A word is
//! four bytes, most significant first, in the code, in the data segment and
//! on the stack alike.
//!
//! Binary instructions take the right operand from the top of the stack and
//! the left operand from below it: the code of `l - r` pushes `l`, then `r`,
//! and `SUB` leaves `l - r`; `LT` leaves 1 when `l < r`.
use vstd::prelude::*;
use crate::bytecode::{
    be_bytes, be_value, lemma_be_value_of_bytes, read_be_u32, u32_to_be, Opcode,
};

verus! {

/// The size of the data segment, in bytes.
pub const DATA_SIZE: usize = 256;

/// The size of the evaluation stack, in bytes. The first byte is never used.
pub const STACK_SIZE: usize = 256;

/// Why the machine cannot go on.
#[derive(Debug, Clone, Copy, PartialEq, Eq, Structural)]
pub enum RvmError {
    /// The byte at the program counter is no instruction.
    IllegalInstruction,
    /// The program counter, or the operand of a `PUSH`, lies outside the code.
    CodeOutOfRange,
    /// The stack has no room for what the instruction pushes.
    StackOverflow,
    /// The stack holds less than the instruction pops.
    StackUnderflow,
    /// The instruction addresses a word outside the data segment.
    DataOutOfRange,
    /// The divisor is zero.
    DivisionByZero,
}

/// What one instruction did.
#[derive(Debug, Clone, Copy, PartialEq, Eq, Structural)]
pub enum Step {
    /// The machine went on to the next instruction.
    Running,
    /// The machine wrote a number and went on.
    Wrote(u32),
    /// The instruction was `EXIT`.
    Halted,
    /// The machine cannot execute the instruction.
    Failed(RvmError),
}

/// How a run ended.
#[derive(Debug, Clone, Copy, PartialEq, Eq, Structural)]
pub enum End {
    /// The machine reached `EXIT`.
    Halted,
    /// The machine could not execute an instruction.
    Failed(RvmError),
    /// The machine was stopped after the number of instructions allowed.
    OutOfFuel,
}

/// What a run gave: the numbers written, in order, and how the run ended.
#[derive(Debug)]
pub struct Outcome {
    pub output: Vec<u32>,
    pub end: End,
}

/// What a machine is, as plain values: the code, the data segment, the bytes
/// on the stack, oldest first, and the program counter.
pub struct MachineView {
    pub code: Seq<u8>,
    pub data: Seq<u8>,
    pub stack: Seq<u8>,
    pub ip: int,
}

/// The word on top of the stack.
pub open spec fn top_word(stack: Seq<u8>) -> u32
    recommends
        stack.len() >= 4,
{
    be_value(stack.subrange(stack.len() - 4, stack.len() as int))
}

/// The word below the top word.
pub open spec fn second_word(stack: Seq<u8>) -> u32
    recommends
        stack.len() >= 8,
{
    be_value(stack.subrange(stack.len() - 8, stack.len() - 4))
}

/// The stack without its top `n` bytes.
pub open spec fn dropped(stack: Seq<u8>, n: int) -> Seq<u8>
    recommends
        0 <= n <= stack.len(),
{
    stack.take(stack.len() - n)
}

/// A truth value as a word.
pub open spec fn truth(b: bool) -> u32 {
    if b {
        1
    } else {
        0
    }
}

/// What a binary instruction leaves for the right operand `a`, which was on
/// top of the stack, and the left operand `b`, which was below it.
/// Arithmetic is modulo 2^32; a comparison leaves 1 or 0.
pub open spec fn binary_result(op: Opcode, a: u32, b: u32) -> u32
    recommends
        op.is_binary(),
        op == Opcode::Divi ==> a != 0,
{
    match op {
        Opcode::Add => ((a + b) % 0x1_0000_0000) as u32,
        Opcode::Sub => ((b - a) % 0x1_0000_0000) as u32,
        Opcode::Mult => ((a * b) % 0x1_0000_0000) as u32,
        Opcode::Divi => (b / a) as u32,
        Opcode::Equal => truth(a == b),
        Opcode::NEqual => truth(a != b),
        Opcode::And => truth(a != 0 && b != 0),
        Opcode::Or => truth(a != 0 || b != 0),
        Opcode::Lt => truth(b < a),
        Opcode::Lte => truth(b <= a),
        Opcode::Gt => truth(b > a),
        Opcode::Gte => truth(b >= a),
        _ => 0,
    }
}

/// What `NEG` leaves: the negative modulo 2^32.
pub open spec fn negated(a: u32) -> u32 {
    ((0 - a) % 0x1_0000_0000) as u32
}

/// The machine that stays as it is, with the reason why.
pub open spec fn failed(m: MachineView, e: RvmError) -> (MachineView, Step) {
    (m, Step::Failed(e))
}

/// `PUSH`: the four bytes behind the instruction go onto the stack.
#[verifier::opaque]
pub open spec fn spec_push(m: MachineView) -> (MachineView, Step) {
    if m.ip + 5 > m.code.len() {
        failed(m, RvmError::CodeOutOfRange)
    } else if m.stack.len() + 4 > STACK_SIZE - 1 {
        failed(m, RvmError::StackOverflow)
    } else {
        (
            MachineView {
                stack: m.stack + m.code.subrange(m.ip + 1, m.ip + 5),
                ip: m.ip + 5,
                ..m
            },
            Step::Running,
        )
    }
}

/// `POP`: the top byte leaves the stack.
#[verifier::opaque]
pub open spec fn spec_pop(m: MachineView) -> (MachineView, Step) {
    if m.stack.len() < 1 {
        failed(m, RvmError::StackUnderflow)
    } else {
        (MachineView { stack: dropped(m.stack, 1), ip: m.ip + 1, ..m }, Step::Running)
    }
}

/// The data segment with the word at `addr` replaced.
pub open spec fn stored(data: Seq<u8>, addr: int, value: u32) -> Seq<u8>
    recommends
        0 <= addr,
        addr + 4 <= data.len(),
{
    data.subrange(0, addr) + be_bytes(value) + data.subrange(addr + 4, data.len() as int)
}

/// `STORE`: the value on top and the address below it leave the stack, and
/// the value becomes the word at the address.
#[verifier::opaque]
pub open spec fn spec_store(m: MachineView) -> (MachineView, Step) {
    if m.stack.len() < 8 {
        failed(m, RvmError::StackUnderflow)
    } else if second_word(m.stack) + 4 > m.data.len() {
        failed(m, RvmError::DataOutOfRange)
    } else {
        (
            MachineView {
                data: stored(m.data, second_word(m.stack) as int, top_word(m.stack)),
                stack: dropped(m.stack, 8),
                ip: m.ip + 1,
                ..m
            },
            Step::Running,
        )
    }
}

/// `LOAD`: the word at the address on top of the stack replaces the address.
#[verifier::opaque]
pub open spec fn spec_load(m: MachineView) -> (MachineView, Step) {
    if m.stack.len() < 4 {
        failed(m, RvmError::StackUnderflow)
    } else if top_word(m.stack) + 4 > m.data.len() {
        failed(m, RvmError::DataOutOfRange)
    } else {
        (
            MachineView {
                stack: dropped(m.stack, 4) + m.data.subrange(
                    top_word(m.stack) as int,
                    top_word(m.stack) + 4,
                ),
                ip: m.ip + 1,
                ..m
            },
            Step::Running,
        )
    }
}

/// A binary instruction: its result replaces the two top words.
#[verifier::opaque]
pub open spec fn spec_binary(m: MachineView, op: Opcode) -> (MachineView, Step) {
    if m.stack.len() < 8 {
        failed(m, RvmError::StackUnderflow)
    } else if op == Opcode::Divi && top_word(m.stack) == 0 {
        failed(m, RvmError::DivisionByZero)
    } else {
        (
            MachineView {
                stack: dropped(m.stack, 8) + be_bytes(
                    binary_result(op, top_word(m.stack), second_word(m.stack)),
                ),
                ip: m.ip + 1,
                ..m
            },
            Step::Running,
        )
    }
}

/// `NEG`: the negative of the top word replaces it.
#[verifier::opaque]
pub open spec fn spec_unary(m: MachineView) -> (MachineView, Step) {
    if m.stack.len() < 4 {
        failed(m, RvmError::StackUnderflow)
    } else {
        (
            MachineView {
                stack: dropped(m.stack, 4) + be_bytes(negated(top_word(m.stack))),
                ip: m.ip + 1,
                ..m
            },
            Step::Running,
        )
    }
}

/// `WRITE`: the top word leaves the stack and is written.
#[verifier::opaque]
pub open spec fn spec_write(m: MachineView) -> (MachineView, Step) {
    if m.stack.len() < 4 {
        failed(m, RvmError::StackUnderflow)
    } else {
        (
            MachineView { stack: dropped(m.stack, 4), ip: m.ip + 1, ..m },
            Step::Wrote(top_word(m.stack)),
        )
    }
}

/// `JTRUE` and `JFALSE`: the address on top and the condition below it leave
/// the stack, and the machine goes on at the address when the condition is
/// not zero (`JTRUE`) or zero (`JFALSE`), else at the next instruction.
/// `JMP`: the address leaves the stack and the machine goes on there.
#[verifier::opaque]
pub open spec fn spec_jump(m: MachineView, op: Opcode) -> (MachineView, Step) {
    if op == Opcode::Jmp {
        if m.stack.len() < 4 {
            failed(m, RvmError::StackUnderflow)
        } else {
            (
                MachineView { stack: dropped(m.stack, 4), ip: top_word(m.stack) as int, ..m },
                Step::Running,
            )
        }
    } else if m.stack.len() < 8 {
        failed(m, RvmError::StackUnderflow)
    } else {
        let taken = if op == Opcode::JTrue {
            second_word(m.stack) != 0
        } else {
            second_word(m.stack) == 0
        };
        (
            MachineView {
                stack: dropped(m.stack, 8),
                ip: if taken {
                    top_word(m.stack) as int
                } else {
                    m.ip + 1
                },
                ..m
            },
            Step::Running,
        )
    }
}

/// One instruction: the machine after it and what it did. A machine that
/// halts or fails stays as it is.
#[verifier::opaque]
pub open spec fn spec_step(m: MachineView) -> (MachineView, Step) {
    if m.ip < 0 || m.ip >= m.code.len() {
        failed(m, RvmError::CodeOutOfRange)
    } else {
        match Opcode::of_byte(m.code[m.ip]) {
            None => failed(m, RvmError::IllegalInstruction),
            Some(op) => match op {
                Opcode::Exit => (m, Step::Halted),
                Opcode::Push => spec_push(m),
                Opcode::Pop => spec_pop(m),
                Opcode::Store => spec_store(m),
                Opcode::Load => spec_load(m),
                Opcode::Neg => spec_unary(m),
                Opcode::Write => spec_write(m),
                Opcode::JTrue | Opcode::JFalse | Opcode::Jmp => spec_jump(m, op),
                _ => spec_binary(m, op),
            },
        }
    }
}

/// A machine that halts or fails stays as it is.
pub proof fn lemma_stopped_machine_stays(m: MachineView)
    ensures
        spec_step(m).1 is Halted || spec_step(m).1 is Failed ==> spec_step(m).0 == m,
{
    reveal(spec_step);
    reveal(spec_push);
    reveal(spec_pop);
    reveal(spec_store);
    reveal(spec_load);
    reveal(spec_binary);
    reveal(spec_unary);
    reveal(spec_write);
    reveal(spec_jump);
}

/// A binary instruction takes four bytes off the stack, and `NEG` leaves the
/// height of the stack as it is.
pub proof fn lemma_arithmetic_stack_effect(m: MachineView, op: Opcode)
    requires
        op.is_binary(),
    ensures
        spec_binary(m, op).1 == Step::Running ==> spec_binary(m, op).0.stack.len() == m.stack.len()
            - 4,
        spec_binary(m, op).1 != Step::Running ==> spec_binary(m, op).0 == m,
        spec_unary(m).1 == Step::Running ==> spec_unary(m).0.stack.len() == m.stack.len(),
        spec_unary(m).1 != Step::Running ==> spec_unary(m).0 == m,
{
    reveal(spec_binary);
    reveal(spec_unary);
}

/// The sum and the product do not depend on the order of the operands, nor
/// do the tests for equality and the connectives. The difference and the
/// quotient do: they are those of the left operand, which lies deeper, by
/// the right operand, which lies on top.
pub proof fn lemma_operand_order(a: u32, b: u32)
    ensures
        binary_result(Opcode::Add, a, b) == binary_result(Opcode::Add, b, a),
        binary_result(Opcode::Mult, a, b) == binary_result(Opcode::Mult, b, a),
        binary_result(Opcode::Equal, a, b) == binary_result(Opcode::Equal, b, a),
        binary_result(Opcode::NEqual, a, b) == binary_result(Opcode::NEqual, b, a),
        binary_result(Opcode::And, a, b) == binary_result(Opcode::And, b, a),
        binary_result(Opcode::Or, a, b) == binary_result(Opcode::Or, b, a),
        a <= b ==> binary_result(Opcode::Sub, a, b) == b - a,
        a != 0 ==> binary_result(Opcode::Divi, a, b) == b / a,
        binary_result(Opcode::Lt, a, b) == binary_result(Opcode::Gt, b, a),
        binary_result(Opcode::Lte, a, b) == binary_result(Opcode::Gte, b, a),
{
    assert(a * b == b * a) by (nonlinear_arith);
    if a != 0 {
        assert(0 <= b / a <= b) by (nonlinear_arith)
            requires
                a > 0,
                b >= 0,
        ;
    }
}

/// `ADD` gives the same machine whichever of its operands lies on top.
pub proof fn lemma_add_commutes(m: MachineView, n: MachineView)
    requires
        m.stack.len() >= 8,
        n == (MachineView {
            stack: dropped(m.stack, 8) + be_bytes(top_word(m.stack)) + be_bytes(
                second_word(m.stack),
            ),
            ..m
        }),
    ensures
        spec_binary(n, Opcode::Add) == spec_binary(m, Opcode::Add),
{
    reveal(spec_binary);
    let a = top_word(m.stack);
    let b = second_word(m.stack);
    let rest = dropped(m.stack, 8);
    assert(n.stack.subrange(n.stack.len() - 4, n.stack.len() as int) =~= be_bytes(b));
    assert(n.stack.subrange(n.stack.len() - 8, n.stack.len() - 4) =~= be_bytes(a));
    lemma_be_value_of_bytes(a);
    lemma_be_value_of_bytes(b);
    assert(dropped(n.stack, 8) =~= rest);
    lemma_operand_order(a, b);
}

/// A word that was never stored to reads as zero: in a machine whose data
/// segment is as at the start, `LOAD` from any address in the segment
/// leaves 0 on top of the stack.
pub proof fn lemma_fresh_load_is_zero(m: MachineView)
    requires
        m.data == fresh(m.code).data,
        m.stack.len() >= 4,
        top_word(m.stack) + 4 <= DATA_SIZE,
    ensures
        spec_load(m).1 == Step::Running,
        top_word(spec_load(m).0.stack) == 0,
        spec_load(m).0.stack.len() == m.stack.len(),
        spec_load(m).0.data == m.data,
{
    reveal(spec_load);
    let after = spec_load(m).0.stack;
    assert(after.subrange(after.len() - 4, after.len() as int) =~= be_bytes(0));
    lemma_be_value_of_bytes(0);
}

/// The address that the machine computes for an element of an array: the
/// index less the lower bound, times four, plus the array's address, each
/// modulo 2^32. For an index within the bounds it is a multiple of four and
/// the element lies within the array's storage.
pub proof fn lemma_element_address(base: u32, lo: u32, hi: u32, index: u32, top: u32)
    requires
        lo <= index <= hi,
        base % 4 == 0,
        base + 4 * (hi - lo + 1) <= top,
    ensures
        ({
            let shifted = if lo != 0 {
                binary_result(Opcode::Sub, lo, index)
            } else {
                index
            };
            let scaled = binary_result(Opcode::Mult, 4, shifted);
            let addr = binary_result(Opcode::Add, base, scaled);
            &&& addr == base + 4 * (index - lo)
            &&& addr % 4 == 0
            &&& base <= addr
            &&& addr + 4 <= top
        }),
{
    let shifted = index - lo;
    assert(0 <= 4 * shifted < 0x1_0000_0000);
    assert((4 * shifted) % 0x1_0000_0000 == 4 * shifted);
    assert((base + 4 * shifted) % 0x1_0000_0000 == base + 4 * shifted);
}

/// At most `fuel` instructions: the machine after them, the numbers written
/// behind those in `output`, and how the run ended.
pub open spec fn spec_run(m: MachineView, fuel: nat, output: Seq<u32>) -> (
    MachineView,
    Seq<u32>,
    End,
)
    decreases fuel,
{
    if fuel == 0 {
        (m, output, End::OutOfFuel)
    } else {
        match spec_step(m).1 {
            Step::Running => spec_run(spec_step(m).0, (fuel - 1) as nat, output),
            Step::Wrote(v) => spec_run(spec_step(m).0, (fuel - 1) as nat, output.push(v)),
            Step::Halted => (m, output, End::Halted),
            Step::Failed(e) => (m, output, End::Failed(e)),
        }
    }
}

/// A machine that is about to run the given code: the data segment is zero,
/// the stack is empty, and the program counter is at the first byte.
pub open spec fn fresh(code: Seq<u8>) -> MachineView {
    MachineView { code, data: Seq::new(DATA_SIZE as nat, |i: int| 0u8), stack: Seq::empty(), ip: 0 }
}

/// Arithmetic that wraps around is arithmetic modulo 2^32.
proof fn lemma_wrapping(a: u32, b: u32)
    ensures
        vstd::wrapping::u32_specs::wrapping_add(a, b) == binary_result(Opcode::Add, a, b),
        vstd::wrapping::u32_specs::wrapping_sub(b, a) == binary_result(Opcode::Sub, a, b),
        vstd::wrapping::u32_specs::wrapping_mul(a, b) == binary_result(Opcode::Mult, a, b),
        vstd::wrapping::u32_specs::wrapping_sub(0, a) == negated(a),
{
    assert(a as nat * b as nat == a * b) by (nonlinear_arith);
}

/// The evaluation stack: bytes in a region of fixed size. `sp` is the index
/// of the top byte, and 0 while the stack is empty.
pub struct RvmStack {
    stack: Vec<u8>,
    pub sp: usize,
}

impl View for RvmStack {
    type V = Seq<u8>;

    /// The bytes on the stack, oldest first.
    closed spec fn view(&self) -> Seq<u8> {
        self.stack@.subrange(1, self.sp + 1)
    }
}

impl RvmStack {
    /// The stack pointer lies in the region.
    pub closed spec fn wf(&self) -> bool {
        self.sp < self.stack@.len() <= usize::MAX
    }

    /// The number of bytes that the stack can hold: one less than the
    /// region has, since the first byte is never used.
    pub closed spec fn room(&self) -> nat {
        (self.stack@.len() - 1) as nat
    }

    /// An empty stack in a region of `siz` bytes, each of them `val`. The
    /// region has at least the one byte that is never used.
    pub fn new(val: u8, siz: usize) -> (s: RvmStack)
        ensures
            s.wf(),
            s@ == Seq::<u8>::empty(),
            s.room() == if siz == 0 {
                0
            } else {
                siz - 1
            },
    {
        let mut stack: Vec<u8> = Vec::new();
        stack.push(val);
        let mut i: usize = 1;
        while i < siz
            invariant
                1 <= i,
                i <= siz || (siz == 0 && i == 1),
                stack@.len() == i,
            decreases siz - i,
        {
            stack.push(val);
            i = i + 1;
        }
        let s = RvmStack { stack, sp: 0 };
        assert(s@ =~= Seq::<u8>::empty());
        s
    }

    /// The number of bytes on the stack.
    pub fn depth(&self) -> (n: usize)
        requires
            self.wf(),
        ensures
            n == self@.len(),
    {
        self.sp
    }

    /// Puts a byte on top.
    pub fn push(&mut self, byte: u8)
        requires
            old(self).wf(),
            old(self)@.len() < old(self).room(),
        ensures
            final(self).wf(),
            final(self)@ == old(self)@.push(byte),
            final(self).room() == old(self).room(),
    {
        self.sp = self.sp + 1;
        self.stack.set(self.sp, byte);
        assert(self@ =~= old(self)@.push(byte));
    }

    /// The top `num` bytes, oldest first, which stay on the stack.
    pub fn peek(&self, num: usize) -> (top: Vec<u8>)
        requires
            self.wf(),
            num <= self@.len(),
        ensures
            top@ == self@.subrange(self@.len() - num, self@.len() as int),
    {
        let start = self.sp - num + 1;
        let mut top: Vec<u8> = Vec::new();
        let mut i: usize = 0;
        while i < num
            invariant
                self.wf(),
                num <= self.sp,
                start == self.sp - num + 1,
                i <= num,
                top@ == self.stack@.subrange(start as int, start + i),
            decreases num - i,
        {
            top.push(self.stack[start + i]);
            i = i + 1;
            assert(top@ =~= self.stack@.subrange(start as int, start + i));
        }
        assert(top@ =~= self@.subrange(self@.len() - num, self@.len() as int));
        top
    }

    /// Takes the top `num` bytes off the stack and returns them, oldest
    /// first.
    pub fn pop(&mut self, num: usize) -> (top: Vec<u8>)
        requires
            old(self).wf(),
            num <= old(self)@.len(),
        ensures
            final(self).wf(),
            top@ == old(self)@.subrange(old(self)@.len() - num, old(self)@.len() as int),
            final(self)@ == dropped(old(self)@, num as int),
            final(self).room() == old(self).room(),
    {
        let top = self.peek(num);
        self.sp = self.sp - num;
        assert(self@ =~= dropped(old(self)@, num as int));
        top
    }
}

/// The stack machine.
pub struct RvmMachine {
    code: Vec<u8>,
    data: Vec<u8>,
    stack: RvmStack,
    ip: usize,
}

impl View for RvmMachine {
    type V = MachineView;

    closed spec fn view(&self) -> MachineView {
        MachineView { code: self.code@, data: self.data@, stack: self.stack@, ip: self.ip as int }
    }
}

impl RvmMachine {
    /// The machine's invariant: the regions have their sizes.
    pub closed spec fn wf(&self) -> bool {
        &&& self.stack.wf()
        &&& self.stack.room() == STACK_SIZE - 1
        &&& self.data@.len() == DATA_SIZE
        &&& self.code@.len() <= usize::MAX
    }

    /// A machine that is about to run the given code.
    pub fn new(code: Vec<u8>) -> (m: RvmMachine)
        ensures
            m.wf(),
            m@ == fresh(code@),
    {
        let mut data: Vec<u8> = Vec::new();
        let mut i: usize = 0;
        while i < DATA_SIZE
            invariant
                i <= DATA_SIZE,
                data@.len() == i,
                forall|j: int| 0 <= j < i ==> data@[j] == 0,
            decreases DATA_SIZE - i,
        {
            data.push(0);
            i = i + 1;
        }
        assert(code.len() <= usize::MAX);
        let m = RvmMachine { code, data, stack: RvmStack::new(0, STACK_SIZE), ip: 0 };
        assert(m@.data =~= fresh(code@).data);
        m
    }

    /// The program counter.
    pub fn ip(&self) -> (ip: usize)
        ensures
            ip == self@.ip,
    {
        self.ip
    }

    /// The bytes on the stack, oldest first.
    pub fn stack_bytes(&self) -> (bytes: Vec<u8>)
        requires
            self.wf(),
        ensures
            bytes@ == self@.stack,
    {
        let n = self.stack.depth();
        let bytes = self.stack.peek(n);
        assert(bytes@ =~= self@.stack);
        bytes
    }

    /// Runs the code until `EXIT` or until an instruction cannot be
    /// executed, but no more than 2^64 - 1 instructions.
    pub fn exec(&mut self) -> (r: Outcome)
        requires
            old(self).wf(),
        ensures
            final(self).wf(),
            (final(self)@, r.output@, r.end) == spec_run(old(self)@, u64::MAX as nat, Seq::empty()),
    {
        self.run(u64::MAX)
    }

    /// Runs at most `fuel` instructions.
    pub fn run(&mut self, fuel: u64) -> (r: Outcome)
        requires
            old(self).wf(),
        ensures
            final(self).wf(),
            (final(self)@, r.output@, r.end) == spec_run(old(self)@, fuel as nat, Seq::empty()),
    {
        let mut output: Vec<u32> = Vec::new();
        let mut left = fuel;
        let mut end = End::OutOfFuel;
        let mut running = true;
        let ghost want = spec_run(old(self)@, fuel as nat, Seq::empty());
        while running && left > 0
            invariant
                self.wf(),
                running ==> end == End::OutOfFuel && spec_run(self@, left as nat, output@) == want,
                !running ==> want == (self@, output@, end),
            decreases left + if running { 1int } else { 0int },
        {
            let ghost before = self@;
            proof {
                lemma_stopped_machine_stays(before);
            }
            assert(spec_run(before, left as nat, output@) == match spec_step(before).1 {
                Step::Running => spec_run(spec_step(before).0, (left - 1) as nat, output@),
                Step::Wrote(v) => spec_run(spec_step(before).0, (left - 1) as nat, output@.push(v)),
                Step::Halted => (before, output@, End::Halted),
                Step::Failed(e) => (before, output@, End::Failed(e)),
            });
            match self.step() {
                Step::Running => {
                    left = left - 1;
                },
                Step::Wrote(value) => {
                    output.push(value);
                    left = left - 1;
                },
                Step::Halted => {
                    end = End::Halted;
                    running = false;
                },
                Step::Failed(e) => {
                    end = End::Failed(e);
                    running = false;
                },
            }
        }
        Outcome { output, end }
    }

    /// Executes the instruction at the program counter.
    pub fn step(&mut self) -> (r: Step)
        requires
            old(self).wf(),
        ensures
            final(self).wf(),
            (final(self)@, r) == spec_step(old(self)@),
    {
        proof {
            reveal(spec_step);
        }
        if self.ip >= self.code.len() {
            return Step::Failed(RvmError::CodeOutOfRange);
        }
        let opcode = self.code[self.ip];
        match Opcode::decode(opcode) {
            None => Step::Failed(RvmError::IllegalInstruction),
            Some(op) => match op {
                Opcode::Exit => Step::Halted,
                Opcode::Push => self.push_immediate(),
                Opcode::Pop => self.pop_byte(),
                Opcode::Store => self.store(),
                Opcode::Load => self.load(),
                Opcode::Add | Opcode::Sub | Opcode::Mult | Opcode::Divi => self.do_u32_binary(op),
                Opcode::Neg => self.do_u32_unary(),
                Opcode::Write => self.write_top(),
                Opcode::JTrue | Opcode::JFalse | Opcode::Jmp => self.jmps(op),
                Opcode::Equal | Opcode::NEqual | Opcode::And | Opcode::Or => self.do_bool_binary(op),
                Opcode::Lt | Opcode::Lte | Opcode::Gt | Opcode::Gte => self.do_bool_binary(op),
            },
        }
    }

    /// Puts a word on the stack.
    fn push_word(&mut self, value: u32)
        requires
            old(self).wf(),
            old(self)@.stack.len() + 4 <= STACK_SIZE - 1,
        ensures
            final(self).wf(),
            final(self)@ == (MachineView {
                stack: old(self)@.stack + be_bytes(value),
                ..old(self)@
            }),
    {
        let bytes = u32_to_be(value);
        self.stack.push(bytes[0]);
        self.stack.push(bytes[1]);
        self.stack.push(bytes[2]);
        self.stack.push(bytes[3]);
        assert(self@.stack =~= old(self)@.stack + be_bytes(value));
    }

    /// The top word of the stack, which stays there.
    fn top(&self) -> (value: u32)
        requires
            self.wf(),
            self@.stack.len() >= 4,
        ensures
            value == top_word(self@.stack),
    {
        let bytes = self.stack.peek(4);
        assert(bytes@.subrange(0, 4) =~= bytes@);
        read_be_u32(bytes.as_slice())
    }

    /// The word below the top word, which stays there.
    fn second(&self) -> (value: u32)
        requires
            self.wf(),
            self@.stack.len() >= 8,
        ensures
            value == second_word(self@.stack),
    {
        let bytes = self.stack.peek(8);
        assert(bytes@.subrange(0, 4) =~= self@.stack.subrange(
            self@.stack.len() - 8,
            self@.stack.len() - 4,
        ));
        read_be_u32(bytes.as_slice())
    }

    fn push_immediate(&mut self) -> (r: Step)
        requires
            old(self).wf(),
            old(self)@.ip < old(self)@.code.len(),
        ensures
            final(self).wf(),
            (final(self)@, r) == spec_push(old(self)@),
    {
        proof {
            reveal(spec_push);
        }
        if self.code.len() - self.ip < 5 {
            return Step::Failed(RvmError::CodeOutOfRange);
        }
        if self.stack.depth() + 4 > STACK_SIZE - 1 {
            return Step::Failed(RvmError::StackOverflow);
        }
        self.stack.push(self.code[self.ip + 1]);
        self.stack.push(self.code[self.ip + 2]);
        self.stack.push(self.code[self.ip + 3]);
        self.stack.push(self.code[self.ip + 4]);
        self.ip = self.ip + 5;
        assert(self@.stack =~= old(self)@.stack + old(self)@.code.subrange(
            old(self)@.ip + 1,
            old(self)@.ip + 5,
        ));
        Step::Running
    }

    fn pop_byte(&mut self) -> (r: Step)
        requires
            old(self).wf(),
            old(self)@.ip < old(self)@.code.len(),
        ensures
            final(self).wf(),
            (final(self)@, r) == spec_pop(old(self)@),
    {
        proof {
            reveal(spec_pop);
        }
        if self.stack.depth() < 1 {
            return Step::Failed(RvmError::StackUnderflow);
        }
        self.stack.pop(1);
        self.ip = self.ip + 1;
        Step::Running
    }

    fn write_top(&mut self) -> (r: Step)
        requires
            old(self).wf(),
            old(self)@.ip < old(self)@.code.len(),
        ensures
            final(self).wf(),
            (final(self)@, r) == spec_write(old(self)@),
    {
        proof {
            reveal(spec_write);
        }
        if self.stack.depth() < 4 {
            return Step::Failed(RvmError::StackUnderflow);
        }
        let a = self.top();
        self.stack.pop(4);
        self.ip = self.ip + 1;
        Step::Wrote(a)
    }

    fn do_u32_unary(&mut self) -> (r: Step)
        requires
            old(self).wf(),
            old(self)@.ip < old(self)@.code.len(),
        ensures
            final(self).wf(),
            (final(self)@, r) == spec_unary(old(self)@),
    {
        proof {
            reveal(spec_unary);
        }
        if self.stack.depth() < 4 {
            return Step::Failed(RvmError::StackUnderflow);
        }
        let a = self.top();
        self.stack.pop(4);
        proof {
            lemma_wrapping(a, 0);
        }
        self.push_word(0u32.wrapping_sub(a));
        self.ip = self.ip + 1;
        Step::Running
    }

    fn do_u32_binary(&mut self, op: Opcode) -> (r: Step)
        requires
            old(self).wf(),
            old(self)@.ip < old(self)@.code.len(),
            op == Opcode::Add || op == Opcode::Sub || op == Opcode::Mult || op == Opcode::Divi,
        ensures
            final(self).wf(),
            (final(self)@, r) == spec_binary(old(self)@, op),
    {
        proof {
            reveal(spec_binary);
        }
        if self.stack.depth() < 8 {
            return Step::Failed(RvmError::StackUnderflow);
        }
        let a = self.top();
        let b = self.second();
        if let Opcode::Divi = op {
            if a == 0 {
                return Step::Failed(RvmError::DivisionByZero);
            }
        }
        let result = match op {
            Opcode::Add => a.wrapping_add(b),
            Opcode::Sub => b.wrapping_sub(a),
            Opcode::Mult => a.wrapping_mul(b),
            _ => b / a,
        };
        proof {
            lemma_wrapping(a, b);
        }
        self.stack.pop(8);
        self.push_word(result);
        self.ip = self.ip + 1;
        Step::Running
    }

    fn do_bool_binary(&mut self, op: Opcode) -> (r: Step)
        requires
            old(self).wf(),
            old(self)@.ip < old(self)@.code.len(),
            op == Opcode::Equal || op == Opcode::NEqual || op == Opcode::And || op == Opcode::Or
                || op == Opcode::Lt || op == Opcode::Lte || op == Opcode::Gt || op == Opcode::Gte,
        ensures
            final(self).wf(),
            (final(self)@, r) == spec_binary(old(self)@, op),
    {
        proof {
            reveal(spec_binary);
        }
        if self.stack.depth() < 8 {
            return Step::Failed(RvmError::StackUnderflow);
        }
        let a = self.top();
        let b = self.second();
        let holds = match op {
            Opcode::Equal => a == b,
            Opcode::NEqual => a != b,
            Opcode::And => a != 0 && b != 0,
            Opcode::Or => a != 0 || b != 0,
            Opcode::Lt => b < a,
            Opcode::Lte => b <= a,
            Opcode::Gt => b > a,
            _ => b >= a,
        };
        self.stack.pop(8);
        if holds {
            self.push_word(1);
        } else {
            self.push_word(0);
        }
        self.ip = self.ip + 1;
        Step::Running
    }

    fn store(&mut self) -> (r: Step)
        requires
            old(self).wf(),
            old(self)@.ip < old(self)@.code.len(),
        ensures
            final(self).wf(),
            (final(self)@, r) == spec_store(old(self)@),
    {
        proof {
            reveal(spec_store);
        }
        if self.stack.depth() < 8 {
            return Step::Failed(RvmError::StackUnderflow);
        }
        let value = self.top();
        let address = self.second();
        if address as usize > DATA_SIZE - 4 {
            return Step::Failed(RvmError::DataOutOfRange);
        }
        let val_bytes = u32_to_be(value);
        let at = address as usize;
        self.data.set(at, val_bytes[0]);
        self.data.set(at + 1, val_bytes[1]);
        self.data.set(at + 2, val_bytes[2]);
        self.data.set(at + 3, val_bytes[3]);
        self.stack.pop(8);
        self.ip = self.ip + 1;
        assert(self@.data =~= stored(old(self)@.data, address as int, value));
        Step::Running
    }

    fn load(&mut self) -> (r: Step)
        requires
            old(self).wf(),
            old(self)@.ip < old(self)@.code.len(),
        ensures
            final(self).wf(),
            (final(self)@, r) == spec_load(old(self)@),
    {
        proof {
            reveal(spec_load);
        }
        if self.stack.depth() < 4 {
            return Step::Failed(RvmError::StackUnderflow);
        }
        let address = self.top();
        if address as usize > DATA_SIZE - 4 {
            return Step::Failed(RvmError::DataOutOfRange);
        }
        let at = address as usize;
        self.stack.pop(4);
        self.stack.push(self.data[at]);
        self.stack.push(self.data[at + 1]);
        self.stack.push(self.data[at + 2]);
        self.stack.push(self.data[at + 3]);
        self.ip = self.ip + 1;
        assert(self@.stack =~= dropped(old(self)@.stack, 4) + old(self)@.data.subrange(
            address as int,
            address + 4,
        ));
        Step::Running
    }

    fn jmps(&mut self, op: Opcode) -> (r: Step)
        requires
            old(self).wf(),
            old(self)@.ip < old(self)@.code.len(),
            op == Opcode::JTrue || op == Opcode::JFalse || op == Opcode::Jmp,
        ensures
            final(self).wf(),
            (final(self)@, r) == spec_jump(old(self)@, op),
    {
        proof {
            reveal(spec_jump);
        }
        let check = match op {
            Opcode::Jmp => false,
            _ => true,
        };
        if self.stack.depth() < 4 || (check && self.stack.depth() < 8) {
            return Step::Failed(RvmError::StackUnderflow);
        }
        let addr = self.top();
        let taken = if check {
            let val = self.second();
            self.stack.pop(8);
            match op {
                Opcode::JTrue => val != 0,
                _ => val == 0,
            }
        } else {
            self.stack.pop(4);
            true
        };
        if taken {
            self.ip = addr as usize;
        } else {
            self.ip = self.ip + 1;
        }
        Step::Running
    }
}

} // verus!
