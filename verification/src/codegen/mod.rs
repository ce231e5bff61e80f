//! Code generation: what a generator of byte code offers to the parser.
pub mod rvm_gen;

use vstd::prelude::*;
use crate::bytecode::{be_bytes, Opcode};

verus! {

/// The code with the four bytes at `at` replaced by the bytes of `value`.
pub open spec fn patched(code: Seq<u8>, at: int, value: u32) -> Seq<u8>
    recommends
        0 <= at,
        at + 4 <= code.len(),
{
    code.subrange(0, at) + be_bytes(value) + code.subrange(at + 4, code.len() as int)
}

/// A generator of byte code. Its write cursor stands at the end of the code
/// except while a hole that was left earlier is being filled.
pub trait CodeGenerator {
    /// The code emitted so far.
    spec fn emitted(&self) -> Seq<u8>;

    /// The write cursor, an offset into the code.
    spec fn cursor(&self) -> int;

    /// Appends the byte of an instruction.
    fn op(&mut self, opcode: Opcode)
        requires
            old(self).cursor() == old(self).emitted().len(),
        ensures
            final(self).emitted() == old(self).emitted().push(opcode.byte()),
            final(self).cursor() == old(self).cursor() + 1,
    ;

    /// Appends the four bytes of a word, most significant first.
    fn data(&mut self, value: u32)
        requires
            old(self).cursor() == old(self).emitted().len(),
        ensures
            final(self).emitted() == old(self).emitted() + be_bytes(value),
            final(self).cursor() == old(self).cursor() + 4,
    ;

    /// Overwrites the four bytes at the cursor with the bytes of a word, most
    /// significant first. The cursor stays where it is.
    fn fill(&mut self, value: u32)
        requires
            0 <= old(self).cursor(),
            old(self).cursor() + 4 <= old(self).emitted().len(),
        ensures
            final(self).emitted() == patched(old(self).emitted(), old(self).cursor(), value),
            final(self).cursor() == old(self).cursor(),
    ;
}

} // verus!
