//! The generator of code for the stack machine.
use vstd::prelude::*;
use crate::bytecode::{be_bytes, u32_to_be, Opcode};
use crate::codegen::{patched, CodeGenerator};

verus! {

/// The code buffer with its write cursor, and the next free address of the
/// data segment.
pub struct RvmGenerator {
    pub i_ptr: usize,
    pub data_addr: u32,
    pub code: Vec<u8>,
}

impl RvmGenerator {
    /// A generator that has emitted nothing and allocated nothing.
    pub fn new() -> (g: RvmGenerator)
        ensures
            g.i_ptr == 0,
            g.data_addr == 0,
            g.code@ == Seq::<u8>::empty(),
            g.wf(),
    {
        RvmGenerator { i_ptr: 0, data_addr: 0, code: Vec::new() }
    }

    /// The cursor stands at the end of the code.
    pub open spec fn wf(&self) -> bool {
        self.i_ptr == self.code@.len()
    }
}

impl CodeGenerator for RvmGenerator {
    open spec fn emitted(&self) -> Seq<u8> {
        self.code@
    }

    open spec fn cursor(&self) -> int {
        self.i_ptr as int
    }

    fn op(&mut self, opcode: Opcode)
        ensures
            final(self).data_addr == old(self).data_addr,
    {
        self.code.push(opcode.encode());
        self.i_ptr = self.code.len();
    }

    fn data(&mut self, value: u32)
        ensures
            final(self).data_addr == old(self).data_addr,
    {
        let value_bytes = u32_to_be(value);
        self.code.push(value_bytes[0]);
        self.code.push(value_bytes[1]);
        self.code.push(value_bytes[2]);
        self.code.push(value_bytes[3]);
        self.i_ptr = self.code.len();
        assert(self.code@ =~= old(self).code@ + be_bytes(value));
    }

    fn fill(&mut self, value: u32)
        ensures
            final(self).data_addr == old(self).data_addr,
    {
        let value_bytes = u32_to_be(value);
        let at = self.i_ptr;
        assert(at + 4 <= self.code.len());
        self.code.set(at, value_bytes[0]);
        self.code.set(at + 1, value_bytes[1]);
        self.code.set(at + 2, value_bytes[2]);
        self.code.set(at + 3, value_bytes[3]);
        assert(self.code@ =~= patched(old(self).code@, old(self).i_ptr as int, value));
    }
}

} // verus!
