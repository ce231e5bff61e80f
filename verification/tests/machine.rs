use rascal::bytecode::{read_be_u32, u32_to_be, Opcode};
use rascal::rvm::{End, RvmError, RvmMachine, RvmStack, Step};

fn run(code: Vec<u8>) -> (Vec<u32>, End, Vec<u8>) {
    let mut machine = RvmMachine::new(code);
    let outcome = machine.run(10_000);
    (outcome.output, outcome.end, machine.stack_bytes())
}

#[test]
fn opcodes_have_their_bytes() {
    let table = [
        (Opcode::Exit, 0x00),
        (Opcode::Push, 0x01),
        (Opcode::Pop, 0x02),
        (Opcode::Store, 0x03),
        (Opcode::Load, 0x04),
        (Opcode::Add, 0x10),
        (Opcode::Sub, 0x11),
        (Opcode::Mult, 0x12),
        (Opcode::Divi, 0x13),
        (Opcode::Neg, 0x14),
        (Opcode::Write, 0x20),
        (Opcode::JTrue, 0x30),
        (Opcode::JFalse, 0x31),
        (Opcode::Jmp, 0x32),
        (Opcode::Equal, 0x40),
        (Opcode::NEqual, 0x41),
        (Opcode::And, 0x42),
        (Opcode::Or, 0x43),
        (Opcode::Lt, 0x44),
        (Opcode::Lte, 0x45),
        (Opcode::Gt, 0x46),
        (Opcode::Gte, 0x47),
    ];
    for (op, byte) in table {
        assert_eq!(op.encode(), byte);
        assert_eq!(Opcode::decode(byte), Some(op));
    }
    assert_eq!(Opcode::decode(0x05), None);
    assert_eq!(Opcode::decode(0x15), None);
    assert_eq!(Opcode::decode(0xff), None);
}

#[test]
fn words_are_big_endian() {
    assert_eq!(u32_to_be(0x0102_0304), [1, 2, 3, 4]);
    assert_eq!(u32_to_be(0), [0, 0, 0, 0]);
    assert_eq!(u32_to_be(u32::MAX), [255, 255, 255, 255]);
    assert_eq!(read_be_u32(&[1, 2, 3, 4]), 0x0102_0304);
    assert_eq!(read_be_u32(&[0, 0, 1, 0, 9, 9]), 256);
}

#[test]
fn stack_pushes_and_pops_bytes() {
    let mut stack = RvmStack::new(0, 8);
    assert_eq!(stack.depth(), 0);
    stack.push(1);
    stack.push(2);
    stack.push(3);
    assert_eq!(stack.depth(), 3);
    assert_eq!(stack.sp, 3);
    assert_eq!(stack.peek(2), vec![2, 3]);
    assert_eq!(stack.pop(2), vec![2, 3]);
    assert_eq!(stack.depth(), 1);
    assert_eq!(stack.pop(1), vec![1]);
    assert_eq!(stack.pop(0), Vec::<u8>::new());
}

#[test]
fn stack_holds_one_byte_less_than_its_region() {
    let mut stack = RvmStack::new(7, 4);
    stack.push(1);
    stack.push(2);
    stack.push(3);
    assert_eq!(stack.depth(), 3);
}

#[test]
fn fresh_machine_starts_at_zero_with_empty_stack() {
    let machine = RvmMachine::new(vec![0x00]);
    assert_eq!(machine.ip(), 0);
    assert_eq!(machine.stack_bytes(), Vec::<u8>::new());
}

#[test]
fn exit_halts_and_leaves_the_machine() {
    let mut machine = RvmMachine::new(vec![0x00, 0x20]);
    assert_eq!(machine.step(), Step::Halted);
    assert_eq!(machine.ip(), 0);
    assert_eq!(machine.step(), Step::Halted);
}

#[test]
fn push_moves_the_operand_to_the_stack() {
    let mut machine = RvmMachine::new(vec![0x01, 1, 2, 3, 4, 0x00]);
    assert_eq!(machine.step(), Step::Running);
    assert_eq!(machine.ip(), 5);
    assert_eq!(machine.stack_bytes(), vec![1, 2, 3, 4]);
}

#[test]
fn pop_takes_one_byte() {
    let (_, end, stack) = run(vec![0x01, 1, 2, 3, 4, 0x02, 0x00]);
    assert_eq!(end, End::Halted);
    assert_eq!(stack, vec![1, 2, 3]);
}

#[test]
fn write_takes_the_top_word() {
    let mut machine = RvmMachine::new(vec![0x01, 0, 0, 1, 0, 0x20, 0x00]);
    assert_eq!(machine.step(), Step::Running);
    assert_eq!(machine.step(), Step::Wrote(256));
    assert_eq!(machine.stack_bytes(), Vec::<u8>::new());
    assert_eq!(machine.step(), Step::Halted);
}

#[test]
fn store_then_load_gives_the_value_back() {
    // push 8; push 77; store; push 8; load; write
    let code = vec![
        0x01, 0, 0, 0, 8, 0x01, 0, 0, 0, 77, 0x03, 0x01, 0, 0, 0, 8, 0x04, 0x20, 0x00,
    ];
    let (output, end, stack) = run(code);
    assert_eq!(output, vec![77]);
    assert_eq!(end, End::Halted);
    assert_eq!(stack, Vec::<u8>::new());
}

#[test]
fn load_from_untouched_data_is_zero() {
    let (output, end, _) = run(vec![0x01, 0, 0, 0, 252, 0x04, 0x20, 0x00]);
    assert_eq!(output, vec![0]);
    assert_eq!(end, End::Halted);
}

#[test]
fn binary_operations_take_the_left_operand_from_below() {
    let apply = |op: u8, left: u32, right: u32| {
        let mut code = vec![0x01];
        code.extend_from_slice(&left.to_be_bytes());
        code.push(0x01);
        code.extend_from_slice(&right.to_be_bytes());
        code.push(op);
        code.push(0x20);
        code.push(0x00);
        let (output, end, stack) = run(code);
        assert_eq!(end, End::Halted);
        assert_eq!(stack, Vec::<u8>::new());
        output[0]
    };
    assert_eq!(apply(0x10, 7, 2), 9);
    assert_eq!(apply(0x11, 7, 2), 5);
    assert_eq!(apply(0x11, 2, 7), 4294967291);
    assert_eq!(apply(0x12, 7, 2), 14);
    assert_eq!(apply(0x13, 7, 2), 3);
    assert_eq!(apply(0x13, 2, 7), 0);
    assert_eq!(apply(0x40, 7, 7), 1);
    assert_eq!(apply(0x40, 7, 2), 0);
    assert_eq!(apply(0x41, 7, 2), 1);
    assert_eq!(apply(0x42, 7, 0), 0);
    assert_eq!(apply(0x42, 7, 2), 1);
    assert_eq!(apply(0x43, 0, 0), 0);
    assert_eq!(apply(0x43, 0, 2), 1);
    assert_eq!(apply(0x44, 2, 7), 1);
    assert_eq!(apply(0x44, 7, 2), 0);
    assert_eq!(apply(0x45, 7, 7), 1);
    assert_eq!(apply(0x45, 7, 2), 0);
    assert_eq!(apply(0x46, 7, 2), 1);
    assert_eq!(apply(0x46, 2, 7), 0);
    assert_eq!(apply(0x47, 7, 7), 1);
    assert_eq!(apply(0x47, 2, 7), 0);
}

#[test]
fn binary_operation_lowers_the_stack_by_a_word() {
    let mut machine = RvmMachine::new(vec![0x01, 0, 0, 0, 1, 0x01, 0, 0, 0, 2, 0x10, 0x00]);
    machine.step();
    machine.step();
    assert_eq!(machine.stack_bytes().len(), 8);
    assert_eq!(machine.step(), Step::Running);
    assert_eq!(machine.stack_bytes(), vec![0, 0, 0, 3]);
}

#[test]
fn neg_keeps_the_height_of_the_stack() {
    let mut machine = RvmMachine::new(vec![0x01, 0, 0, 0, 1, 0x14, 0x00]);
    machine.step();
    assert_eq!(machine.step(), Step::Running);
    assert_eq!(machine.stack_bytes(), vec![255, 255, 255, 255]);
}

#[test]
fn jumps_go_to_the_address_on_top() {
    // push 1; push 17; jtrue; write-less filler; at 17: push 5; write; exit
    let taken = vec![
        0x01, 0, 0, 0, 1, 0x01, 0, 0, 0, 17, 0x30, 0x01, 0, 0, 0, 9, 0x20, 0x01, 0, 0, 0, 5,
        0x20, 0x00,
    ];
    assert_eq!(run(taken).0, vec![5]);
    let not_taken = vec![
        0x01, 0, 0, 0, 0, 0x01, 0, 0, 0, 17, 0x30, 0x01, 0, 0, 0, 9, 0x20, 0x01, 0, 0, 0, 5,
        0x20, 0x00,
    ];
    assert_eq!(run(not_taken).0, vec![9, 5]);
    let on_false = vec![
        0x01, 0, 0, 0, 0, 0x01, 0, 0, 0, 17, 0x31, 0x01, 0, 0, 0, 9, 0x20, 0x01, 0, 0, 0, 5,
        0x20, 0x00,
    ];
    assert_eq!(run(on_false).0, vec![5]);
    let always = vec![0x01, 0, 0, 0, 12, 0x32, 0x01, 0, 0, 0, 9, 0x20, 0x01, 0, 0, 0, 5, 0x20, 0x00];
    assert_eq!(run(always).0, vec![5]);
}

#[test]
fn jump_to_the_first_byte_is_allowed() {
    // write is skipped the second time round: push 0; load; jtrue-exit...; store 1; jmp 0
    let code = vec![
        0x01, 0, 0, 0, 0, 0x04, // load word 0
        0x01, 0, 0, 0, 29, 0x30, // leave when it is set
        0x01, 0, 0, 0, 0, 0x01, 0, 0, 0, 1, 0x03, // set it
        0x01, 0, 0, 0, 0, 0x32, // back to 0
        0x00,
    ];
    let mut machine = RvmMachine::new(code);
    let outcome = machine.run(100);
    assert_eq!(outcome.end, End::Halted);
    assert_eq!(machine.ip(), 29);
}

#[test]
fn unknown_instruction_stops_the_machine() {
    let mut machine = RvmMachine::new(vec![0x05]);
    assert_eq!(machine.step(), Step::Failed(RvmError::IllegalInstruction));
    assert_eq!(machine.ip(), 0);
    assert_eq!(run(vec![0x99]).1, End::Failed(RvmError::IllegalInstruction));
}

#[test]
fn running_off_the_code_stops_the_machine() {
    assert_eq!(run(vec![]).1, End::Failed(RvmError::CodeOutOfRange));
    assert_eq!(run(vec![0x01, 0, 0, 0, 1]).1, End::Failed(RvmError::CodeOutOfRange));
    assert_eq!(run(vec![0x01, 0, 0]).1, End::Failed(RvmError::CodeOutOfRange));
    assert_eq!(run(vec![0x01, 0, 0, 0, 200, 0x32]).1, End::Failed(RvmError::CodeOutOfRange));
}

#[test]
fn popping_an_empty_stack_stops_the_machine() {
    for op in [0x02u8, 0x03, 0x04, 0x10, 0x14, 0x20, 0x30, 0x31, 0x32, 0x40] {
        assert_eq!(run(vec![op, 0x00]).1, End::Failed(RvmError::StackUnderflow));
    }
    // one word is not enough for two operands
    assert_eq!(run(vec![0x01, 0, 0, 0, 1, 0x10]).1, End::Failed(RvmError::StackUnderflow));
}

#[test]
fn failed_instruction_leaves_the_stack() {
    let (_, end, stack) = run(vec![0x01, 0, 0, 0, 1, 0x10]);
    assert_eq!(end, End::Failed(RvmError::StackUnderflow));
    assert_eq!(stack, vec![0, 0, 0, 1]);
    let (_, end, stack) = run(vec![0x01, 0, 0, 0, 1, 0x01, 0, 0, 0, 0, 0x13]);
    assert_eq!(end, End::Failed(RvmError::DivisionByZero));
    assert_eq!(stack, vec![0, 0, 0, 1, 0, 0, 0, 0]);
}

#[test]
fn full_stack_stops_the_machine() {
    // push 1; push 0; jmp: pushes a word each time round
    let code = vec![0x01, 0, 0, 0, 1, 0x01, 0, 0, 0, 0, 0x32];
    let (_, end, stack) = run(code);
    assert_eq!(end, End::Failed(RvmError::StackOverflow));
    assert_eq!(stack.len(), 252);
}

#[test]
fn addresses_outside_the_data_segment_stop_the_machine() {
    assert_eq!(run(vec![0x01, 0, 0, 0, 253, 0x04]).1, End::Failed(RvmError::DataOutOfRange));
    assert_eq!(run(vec![0x01, 0, 0, 1, 0, 0x04]).1, End::Failed(RvmError::DataOutOfRange));
    assert_eq!(
        run(vec![0x01, 0, 0, 1, 0, 0x01, 0, 0, 0, 1, 0x03]).1,
        End::Failed(RvmError::DataOutOfRange)
    );
    assert_eq!(
        run(vec![0x01, 0, 0, 0, 252, 0x01, 0, 0, 0, 1, 0x03, 0x00]).1,
        End::Halted
    );
}

#[test]
fn no_fuel_no_step() {
    let mut machine = RvmMachine::new(vec![0x01, 0, 0, 0, 1, 0x00]);
    let outcome = machine.run(0);
    assert_eq!(outcome.end, End::OutOfFuel);
    assert_eq!(machine.ip(), 0);
    let outcome = machine.run(1);
    assert_eq!(outcome.end, End::OutOfFuel);
    assert_eq!(machine.ip(), 5);
    let outcome = machine.run(1);
    assert_eq!(outcome.end, End::Halted);
}
