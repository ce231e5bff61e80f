//! The instruction set and the byte layout that the code generator and the
//! stack machine share.
use vstd::prelude::*;

verus! {

/// One instruction of the stack machine. Only `Push` has an operand: the
/// word behind its byte. The binary instructions take their right operand
/// from the top of the stack and their left operand from below it.
#[derive(Debug, Clone, Copy, PartialEq, Eq, Structural)]
pub enum Opcode {
    /// Stops the machine.
    Exit,
    /// Pushes the word behind the instruction.
    Push,
    /// Takes one byte off the stack.
    Pop,
    /// Takes a value and, below it, an address, and stores the value there.
    Store,
    /// Replaces the address on top by the word stored there.
    Load,
    /// Left plus right, modulo 2^32.
    Add,
    /// Left minus right, modulo 2^32.
    Sub,
    /// Left times right, modulo 2^32.
    Mult,
    /// Left divided by right, rounded down.
    Divi,
    /// Replaces the top word by its negative, modulo 2^32.
    Neg,
    /// Takes the top word and writes it.
    Write,
    /// Takes an address and, below it, a condition, and goes on at the
    /// address when the condition is not zero.
    JTrue,
    /// Takes an address and, below it, a condition, and goes on at the
    /// address when the condition is zero.
    JFalse,
    /// Takes an address and goes on there.
    Jmp,
    /// 1 when left and right are equal, else 0.
    Equal,
    /// 1 when left and right differ, else 0.
    NEqual,
    /// 1 when neither left nor right is zero, else 0.
    And,
    /// 1 when left or right is not zero, else 0.
    Or,
    /// 1 when left is less than right, else 0.
    Lt,
    /// 1 when left is at most right, else 0.
    Lte,
    /// 1 when left is greater than right, else 0.
    Gt,
    /// 1 when left is at least right, else 0.
    Gte,
}

impl Opcode {
    /// The byte that stands for the instruction in the code buffer.
    pub open spec fn byte(self) -> u8 {
        match self {
            Opcode::Exit => 0x00,
            Opcode::Push => 0x01,
            Opcode::Pop => 0x02,
            Opcode::Store => 0x03,
            Opcode::Load => 0x04,
            Opcode::Add => 0x10,
            Opcode::Sub => 0x11,
            Opcode::Mult => 0x12,
            Opcode::Divi => 0x13,
            Opcode::Neg => 0x14,
            Opcode::Write => 0x20,
            Opcode::JTrue => 0x30,
            Opcode::JFalse => 0x31,
            Opcode::Jmp => 0x32,
            Opcode::Equal => 0x40,
            Opcode::NEqual => 0x41,
            Opcode::And => 0x42,
            Opcode::Or => 0x43,
            Opcode::Lt => 0x44,
            Opcode::Lte => 0x45,
            Opcode::Gt => 0x46,
            Opcode::Gte => 0x47,
        }
    }

    /// The instruction that a byte stands for, if any.
    pub open spec fn of_byte(b: u8) -> Option<Opcode> {
        if b == 0x00 {
            Some(Opcode::Exit)
        } else if b == 0x01 {
            Some(Opcode::Push)
        } else if b == 0x02 {
            Some(Opcode::Pop)
        } else if b == 0x03 {
            Some(Opcode::Store)
        } else if b == 0x04 {
            Some(Opcode::Load)
        } else if b == 0x10 {
            Some(Opcode::Add)
        } else if b == 0x11 {
            Some(Opcode::Sub)
        } else if b == 0x12 {
            Some(Opcode::Mult)
        } else if b == 0x13 {
            Some(Opcode::Divi)
        } else if b == 0x14 {
            Some(Opcode::Neg)
        } else if b == 0x20 {
            Some(Opcode::Write)
        } else if b == 0x30 {
            Some(Opcode::JTrue)
        } else if b == 0x31 {
            Some(Opcode::JFalse)
        } else if b == 0x32 {
            Some(Opcode::Jmp)
        } else if b == 0x40 {
            Some(Opcode::Equal)
        } else if b == 0x41 {
            Some(Opcode::NEqual)
        } else if b == 0x42 {
            Some(Opcode::And)
        } else if b == 0x43 {
            Some(Opcode::Or)
        } else if b == 0x44 {
            Some(Opcode::Lt)
        } else if b == 0x45 {
            Some(Opcode::Lte)
        } else if b == 0x46 {
            Some(Opcode::Gt)
        } else if b == 0x47 {
            Some(Opcode::Gte)
        } else {
            None
        }
    }

    /// True for the instructions that replace two stack words by one.
    pub open spec fn is_binary(self) -> bool {
        match self {
            Opcode::Add | Opcode::Sub | Opcode::Mult | Opcode::Divi => true,
            Opcode::Equal | Opcode::NEqual | Opcode::And | Opcode::Or => true,
            Opcode::Lt | Opcode::Lte | Opcode::Gt | Opcode::Gte => true,
            _ => false,
        }
    }

    pub fn encode(self) -> (b: u8)
        ensures
            b == self.byte(),
    {
        match self {
            Opcode::Exit => 0x00,
            Opcode::Push => 0x01,
            Opcode::Pop => 0x02,
            Opcode::Store => 0x03,
            Opcode::Load => 0x04,
            Opcode::Add => 0x10,
            Opcode::Sub => 0x11,
            Opcode::Mult => 0x12,
            Opcode::Divi => 0x13,
            Opcode::Neg => 0x14,
            Opcode::Write => 0x20,
            Opcode::JTrue => 0x30,
            Opcode::JFalse => 0x31,
            Opcode::Jmp => 0x32,
            Opcode::Equal => 0x40,
            Opcode::NEqual => 0x41,
            Opcode::And => 0x42,
            Opcode::Or => 0x43,
            Opcode::Lt => 0x44,
            Opcode::Lte => 0x45,
            Opcode::Gt => 0x46,
            Opcode::Gte => 0x47,
        }
    }

    pub fn decode(b: u8) -> (r: Option<Opcode>)
        ensures
            r == Opcode::of_byte(b),
    {
        match b {
            0x00 => Some(Opcode::Exit),
            0x01 => Some(Opcode::Push),
            0x02 => Some(Opcode::Pop),
            0x03 => Some(Opcode::Store),
            0x04 => Some(Opcode::Load),
            0x10 => Some(Opcode::Add),
            0x11 => Some(Opcode::Sub),
            0x12 => Some(Opcode::Mult),
            0x13 => Some(Opcode::Divi),
            0x14 => Some(Opcode::Neg),
            0x20 => Some(Opcode::Write),
            0x30 => Some(Opcode::JTrue),
            0x31 => Some(Opcode::JFalse),
            0x32 => Some(Opcode::Jmp),
            0x40 => Some(Opcode::Equal),
            0x41 => Some(Opcode::NEqual),
            0x42 => Some(Opcode::And),
            0x43 => Some(Opcode::Or),
            0x44 => Some(Opcode::Lt),
            0x45 => Some(Opcode::Lte),
            0x46 => Some(Opcode::Gt),
            0x47 => Some(Opcode::Gte),
            _ => None,
        }
    }
}

/// Decoding undoes encoding, and only instruction bytes decode.
pub proof fn lemma_opcode_round_trip(op: Opcode, b: u8)
    ensures
        Opcode::of_byte(op.byte()) == Some(op),
        Opcode::of_byte(b) matches Some(o) ==> o.byte() == b,
{
}

/// The four bytes of a word, most significant first.
pub open spec fn be_bytes(v: u32) -> Seq<u8> {
    seq![
        (v / 0x100_0000) as u8,
        ((v / 0x1_0000) % 0x100) as u8,
        ((v / 0x100) % 0x100) as u8,
        (v % 0x100) as u8,
    ]
}

/// The word that four bytes spell, most significant first.
pub open spec fn be_value(b: Seq<u8>) -> u32
    recommends
        b.len() == 4,
{
    (b[0] * 0x100_0000 + b[1] * 0x1_0000 + b[2] * 0x100 + b[3]) as u32
}

/// Four bytes, weighted by their places, split back into the bytes.
proof fn lemma_places(b0: int, b1: int, b2: int, b3: int)
    requires
        0 <= b0 < 0x100,
        0 <= b1 < 0x100,
        0 <= b2 < 0x100,
        0 <= b3 < 0x100,
    ensures
        ({
            let v = b0 * 0x100_0000 + b1 * 0x1_0000 + b2 * 0x100 + b3;
            &&& 0 <= v <= u32::MAX
            &&& v / 0x100_0000 == b0
            &&& (v / 0x1_0000) % 0x100 == b1
            &&& (v / 0x100) % 0x100 == b2
            &&& v % 0x100 == b3
        }),
{
    let v = b0 * 0x100_0000 + b1 * 0x1_0000 + b2 * 0x100 + b3;
    assert(v / 0x100 == b0 * 0x1_0000 + b1 * 0x100 + b2);
    assert(v / 0x1_0000 == b0 * 0x100 + b1);
}

/// Encoding a word and reading it back gives the word.
pub proof fn lemma_be_value_of_bytes(v: u32)
    ensures
        be_bytes(v).len() == 4,
        be_value(be_bytes(v)) == v,
{
    let q2 = v / 0x100;
    let q1 = v / 0x1_0000;
    assert(q1 == q2 / 0x100);
    assert(v / 0x100_0000 == q1 / 0x100);
}

/// Reading four bytes and encoding the word gives the bytes.
pub proof fn lemma_be_bytes_of_value(b: Seq<u8>)
    requires
        b.len() == 4,
    ensures
        be_bytes(be_value(b)) == b,
{
    lemma_places(b[0] as int, b[1] as int, b[2] as int, b[3] as int);
    assert(be_bytes(be_value(b)) =~= b);
}

/// Splits a word into its four bytes, most significant first.
pub fn u32_to_be(v: u32) -> (r: [u8; 4])
    ensures
        r@ == be_bytes(v),
{
    let r = [
        (v / 0x100_0000) as u8,
        ((v / 0x1_0000) % 0x100) as u8,
        ((v / 0x100) % 0x100) as u8,
        (v % 0x100) as u8,
    ];
    assert(r@ =~= be_bytes(v));
    r
}

/// Reads the word that the first four bytes of `input` spell.
pub fn read_be_u32(input: &[u8]) -> (v: u32)
    requires
        input@.len() >= 4,
    ensures
        v == be_value(input@.subrange(0, 4)),
{
    let b0: u32 = input[0] as u32;
    let b1: u32 = input[1] as u32;
    let b2: u32 = input[2] as u32;
    let b3: u32 = input[3] as u32;
    b0 * 0x100_0000 + b1 * 0x1_0000 + b2 * 0x100 + b3
}

} // verus!
