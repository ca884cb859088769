//! Execution scenarios: literal programs assembled, decoded and run
//! against a fresh register file, with the expected `st0` at termination
//! and the expected register contents.

use aluvm::codec::{compile, EncodeError};
use aluvm::data::{lib_id, Blob, LibHash, Value};
use aluvm::exec::run;
use aluvm::instr::{Arithmetics, ArithmeticOp, BitwiseOp, BytesOp, CmpOp, ControlFlowOp, Instr, PutOp};
use aluvm::regid::Reg8;
use aluvm::regid::{Reg, Reg32, RegA};
use aluvm::registers::Registers;

fn lib0() -> LibHash {
    LibHash { bytes: [0u8; 32] }
}

fn val(bytes: Vec<u8>) -> Value {
    Value::with(bytes)
}

fn run_program(instrs: Vec<Instr>, regs: &mut Registers) -> bool {
    let blob = compile(&instrs).expect("compiles");
    run(&blob.bytes, &lib0(), regs)
}

fn a_reg(regs: &Registers, f: RegA, i: u8) -> Option<Vec<u8>> {
    regs.get(Reg::A(f), Reg32::with(i)).map(|v| v.bytes)
}

#[test]
fn succ_terminates_true() {
    let mut regs = Registers::new();
    let r = run_program(vec![Instr::ControlFlow(ControlFlowOp::Succ)], &mut regs);
    assert!(r);
}

#[test]
fn fail_terminates_false() {
    let mut regs = Registers::new();
    let r = run_program(vec![Instr::ControlFlow(ControlFlowOp::Fail)], &mut regs);
    assert!(!r);
}

#[test]
fn self_jump_exhausts_cycles() {
    // a jump to offset zero loops until the cycle counter is exhausted,
    // which terminates the program with a cleared status.
    let mut regs = Registers::new();
    let r = run_program(vec![Instr::ControlFlow(ControlFlowOp::Jmp(0))], &mut regs);
    assert!(!r);
    assert_eq!(regs.cy0, 0xFFFF);
}

#[test]
fn add_and_compare() {
    // 5 + 3 computed into the second slot equals a pre-set 8.
    let unchecked = Arithmetics::IntUnchecked { signed: false };
    let mut regs = Registers::new();
    let r = run_program(
        vec![
            Instr::Put(PutOp::PutA(RegA::A8, Reg32::with(0), val(vec![0x05]))),
            Instr::Put(PutOp::PutA(RegA::A8, Reg32::with(1), val(vec![0x03]))),
            Instr::Put(PutOp::PutA(RegA::A8, Reg32::with(2), val(vec![0x08]))),
            Instr::Arithmetic(ArithmeticOp::Add(unchecked, RegA::A8, Reg32::with(0), Reg32::with(1))),
            Instr::Cmp(CmpOp::EqA(RegA::A8, Reg32::with(1), RegA::A8, Reg32::with(2))),
        ],
        &mut regs,
    );
    assert!(r);
    assert_eq!(a_reg(&regs, RegA::A8, 1), Some(vec![0x08]));
}

#[test]
fn unchecked_step_wraps() {
    let unchecked = Arithmetics::IntUnchecked { signed: false };
    let mut regs = Registers::new();
    let r = run_program(
        vec![
            Instr::Put(PutOp::PutA(RegA::A8, Reg32::with(0), val(vec![0xFF]))),
            Instr::Arithmetic(ArithmeticOp::Stp(true, unchecked, RegA::A8, Reg32::with(0), 1)),
        ],
        &mut regs,
    );
    assert!(r);
    let got = a_reg(&regs, RegA::A8, 0).unwrap();
    assert_eq!(le_val(&got), 0);
}

#[test]
fn checked_step_fails_on_overflow() {
    let checked = Arithmetics::IntChecked { signed: false };
    let mut regs = Registers::new();
    let r = run_program(
        vec![
            Instr::Put(PutOp::PutA(RegA::A8, Reg32::with(0), val(vec![0xFF]))),
            Instr::Arithmetic(ArithmeticOp::Stp(true, checked, RegA::A8, Reg32::with(0), 1)),
        ],
        &mut regs,
    );
    assert!(!r);
}

#[test]
fn routine_and_ret() {
    // the routine jumps over the body to the return, which pops the site
    // of the instruction after the routine call and lands on the success.
    let mut regs = Registers::new();
    let r = run_program(
        vec![
            Instr::ControlFlow(ControlFlowOp::Routine(5)),
            Instr::ControlFlow(ControlFlowOp::Succ),
            Instr::ControlFlow(ControlFlowOp::Fail),
            Instr::ControlFlow(ControlFlowOp::Ret),
        ],
        &mut regs,
    );
    assert!(r);
}

#[test]
fn zero_initializes_all_zero() {
    let mut regs = Registers::new();
    let r = run_program(vec![Instr::Put(PutOp::ZeroA(RegA::A32, Reg32::with(4)))], &mut regs);
    assert!(r);
    assert_eq!(a_reg(&regs, RegA::A32, 4), Some(vec![0, 0, 0, 0]));
}

#[test]
fn clear_makes_absent() {
    let mut regs = Registers::new();
    let r = run_program(
        vec![
            Instr::Put(PutOp::PutA(RegA::A8, Reg32::with(0), val(vec![0x11]))),
            Instr::Put(PutOp::ClA(RegA::A8, Reg32::with(0))),
        ],
        &mut regs,
    );
    assert!(r);
    assert_eq!(a_reg(&regs, RegA::A8, 0), None);
}

#[test]
fn put_if_never_overwrites() {
    let mut regs = Registers::new();
    let r = run_program(
        vec![
            Instr::Put(PutOp::PutA(RegA::A8, Reg32::with(0), val(vec![0x11]))),
            Instr::Put(PutOp::PutIfA(RegA::A8, Reg32::with(0), val(vec![0x22]))),
            Instr::Put(PutOp::PutIfA(RegA::A8, Reg32::with(1), val(vec![0x33]))),
        ],
        &mut regs,
    );
    assert!(r);
    assert_eq!(a_reg(&regs, RegA::A8, 0), Some(vec![0x11]));
    assert_eq!(a_reg(&regs, RegA::A8, 1), Some(vec![0x33]));
}

#[test]
fn unchecked_multiplication_wraps() {
    let unchecked = Arithmetics::IntUnchecked { signed: false };
    let mut regs = Registers::new();
    let r = run_program(
        vec![
            Instr::Put(PutOp::PutA(RegA::A8, Reg32::with(0), val(vec![16]))),
            Instr::Put(PutOp::PutA(RegA::A8, Reg32::with(1), val(vec![17]))),
            Instr::Arithmetic(ArithmeticOp::Mul(unchecked, RegA::A8, Reg32::with(0), Reg32::with(1))),
        ],
        &mut regs,
    );
    assert!(r);
    // 16 * 17 is 272, which wraps to 16 in an 8-bit register.
    assert_eq!(le_val(&a_reg(&regs, RegA::A8, 1).unwrap()), 16);
}

#[test]
fn division_and_remainder() {
    let checked = Arithmetics::IntChecked { signed: false };
    let mut regs = Registers::new();
    let r = run_program(
        vec![
            Instr::Put(PutOp::PutA(RegA::A8, Reg32::with(0), val(vec![7]))),
            Instr::Put(PutOp::PutA(RegA::A8, Reg32::with(1), val(vec![2]))),
            Instr::Arithmetic(ArithmeticOp::Div(checked, RegA::A8, Reg32::with(0), Reg32::with(1))),
        ],
        &mut regs,
    );
    assert!(r);
    assert_eq!(le_val(&a_reg(&regs, RegA::A8, 1).unwrap()), 3);

    let mut regs = Registers::new();
    let r = run_program(
        vec![
            Instr::Put(PutOp::PutA(RegA::A8, Reg32::with(0), val(vec![7]))),
            Instr::Put(PutOp::PutA(RegA::A8, Reg32::with(1), val(vec![3]))),
            Instr::Arithmetic(ArithmeticOp::Mod(
                RegA::A8,
                Reg32::with(0),
                RegA::A8,
                Reg32::with(1),
                RegA::A16,
                Reg32::with(2),
            )),
        ],
        &mut regs,
    );
    assert!(r);
    assert_eq!(le_val(&a_reg(&regs, RegA::A16, 2).unwrap()), 1);
}

#[test]
fn division_by_zero_fails() {
    let checked = Arithmetics::IntChecked { signed: false };
    let mut regs = Registers::new();
    let r = run_program(
        vec![
            Instr::Put(PutOp::PutA(RegA::A8, Reg32::with(0), val(vec![7]))),
            Instr::Put(PutOp::PutA(RegA::A8, Reg32::with(1), val(vec![0]))),
            Instr::Arithmetic(ArithmeticOp::Div(checked, RegA::A8, Reg32::with(0), Reg32::with(1))),
        ],
        &mut regs,
    );
    assert!(!r);
}

#[test]
fn float_modes_fail_fast() {
    let mut regs = Registers::new();
    let r = run_program(
        vec![
            Instr::Put(PutOp::PutA(RegA::A8, Reg32::with(0), val(vec![1]))),
            Instr::Put(PutOp::PutA(RegA::A8, Reg32::with(1), val(vec![1]))),
            Instr::Arithmetic(ArithmeticOp::Add(
                Arithmetics::Float,
                RegA::A8,
                Reg32::with(0),
                Reg32::with(1),
            )),
        ],
        &mut regs,
    );
    assert!(!r);
}

#[test]
fn greater_than_and_status_moves() {
    let mut regs = Registers::new();
    let r = run_program(
        vec![
            Instr::Put(PutOp::PutA(RegA::A16, Reg32::with(0), val(vec![0x10, 0x00]))),
            Instr::Put(PutOp::PutA(RegA::A16, Reg32::with(1), val(vec![0x0F, 0x00]))),
            Instr::Cmp(CmpOp::Gt(RegA::A16, Reg32::with(0), RegA::A16, Reg32::with(1))),
            // move the status into a8[0], then read it back into the status.
            Instr::Cmp(CmpOp::A2St),
            Instr::Cmp(CmpOp::St2A),
        ],
        &mut regs,
    );
    assert!(r);
    assert_eq!(a_reg(&regs, RegA::A8, 0), Some(vec![1]));
}

#[test]
fn bit_length_and_popcount() {
    let mut regs = Registers::new();
    let r = run_program(
        vec![
            Instr::Put(PutOp::PutA(RegA::A16, Reg32::with(3), val(vec![0x03, 0x01]))),
            Instr::Cmp(CmpOp::Len(RegA::A16, Reg32::with(3))),
        ],
        &mut regs,
    );
    assert!(r);
    // 0x0103 has its highest set bit at position nine.
    assert_eq!(le_val(&a_reg(&regs, RegA::A16, 0).unwrap()), 9);

    let mut regs = Registers::new();
    let r = run_program(
        vec![
            Instr::Put(PutOp::PutA(RegA::A16, Reg32::with(3), val(vec![0x03, 0x01]))),
            Instr::Cmp(CmpOp::Cnt(RegA::A16, Reg32::with(3))),
        ],
        &mut regs,
    );
    assert!(r);
    assert_eq!(le_val(&a_reg(&regs, RegA::A16, 0).unwrap()), 3);
}

#[test]
fn library_identity_is_the_digest() {
    // the content address of empty bytecode is the well-known digest of
    // the empty byte string.
    let id = lib_id(&vec![]);
    let expected: [u8; 32] = [
        0xe3, 0xb0, 0xc4, 0x42, 0x98, 0xfc, 0x1c, 0x14, 0x9a, 0xfb, 0xf4, 0xc8, 0x99, 0x6f, 0xb9,
        0x24, 0x27, 0xae, 0x41, 0xe4, 0x64, 0x9b, 0x93, 0x4c, 0xa4, 0x95, 0x99, 0x1b, 0x78, 0x52,
        0xb8, 0x55,
    ];
    assert_eq!(id.bytes, expected);
    // a digest of other bytes differs.
    let other = lib_id(&vec![0x01]);
    assert_ne!(other.bytes, expected);
}

fn le_val(bytes: &Vec<u8>) -> u64 {
    let mut acc: u64 = 0;
    let mut shift: u32 = 0;
    for b in bytes {
        if shift < 64 {
            acc |= (*b as u64) << shift;
        }
        shift += 8;
    }
    acc
}

#[test]
fn bitwise_logic() {
    let mut regs = Registers::new();
    let r = run_program(
        vec![
            Instr::Put(PutOp::PutA(RegA::A8, Reg32::with(0), val(vec![0b1100]))),
            Instr::Put(PutOp::PutA(RegA::A8, Reg32::with(1), val(vec![0b1010]))),
            Instr::Bitwise(BitwiseOp::And(RegA::A8, Reg32::with(0), Reg32::with(1), Reg8::with(2))),
            Instr::Bitwise(BitwiseOp::Or(RegA::A8, Reg32::with(0), Reg32::with(1), Reg8::with(3))),
            Instr::Bitwise(BitwiseOp::Xor(RegA::A8, Reg32::with(0), Reg32::with(1), Reg8::with(4))),
            Instr::Bitwise(BitwiseOp::Not(RegA::A8, Reg32::with(0))),
        ],
        &mut regs,
    );
    assert!(r);
    assert_eq!(a_reg(&regs, RegA::A8, 2), Some(vec![0b1000]));
    assert_eq!(a_reg(&regs, RegA::A8, 3), Some(vec![0b1110]));
    assert_eq!(a_reg(&regs, RegA::A8, 4), Some(vec![0b0110]));
    assert_eq!(a_reg(&regs, RegA::A8, 0), Some(vec![0b1111_0011]));
}

#[test]
fn bitwise_shifts() {
    let mut regs = Registers::new();
    let r = run_program(
        vec![
            Instr::Put(PutOp::PutA(RegA::A8, Reg32::with(0), val(vec![0b1001_0001]))),
            // the shift amount lives in the 8-bit bank.
            Instr::Put(PutOp::PutA(RegA::A8, Reg32::with(1), val(vec![2]))),
            Instr::Bitwise(BitwiseOp::Shl(RegA::A8, Reg32::with(0), Reg32::with(1), Reg8::with(2))),
            Instr::Bitwise(BitwiseOp::Shr(RegA::A8, Reg32::with(0), Reg32::with(1), Reg8::with(3))),
            Instr::Bitwise(BitwiseOp::Scl(RegA::A8, Reg32::with(0), Reg32::with(1), Reg8::with(4))),
            Instr::Bitwise(BitwiseOp::Scr(RegA::A8, Reg32::with(0), Reg32::with(1), Reg8::with(5))),
        ],
        &mut regs,
    );
    assert!(r);
    // a plain left shift drops the high bits; the cyclic ones carry them
    // around.
    assert_eq!(le_val(&a_reg(&regs, RegA::A8, 2).unwrap()), 0b0100_0100);
    assert_eq!(le_val(&a_reg(&regs, RegA::A8, 3).unwrap()), 0b0010_0100);
    assert_eq!(le_val(&a_reg(&regs, RegA::A8, 4).unwrap()), 0b0100_0110);
    assert_eq!(le_val(&a_reg(&regs, RegA::A8, 5).unwrap()), 0b0110_0100);
}

#[test]
fn routine_leaves_call_depth_alone() {
    // a subroutine call counts a cycle and pushes the return site; the
    // call-depth counter belongs to external calls alone.
    let mut regs = Registers::new();
    let r = run_program(
        vec![
            Instr::ControlFlow(ControlFlowOp::Routine(5)),
            Instr::ControlFlow(ControlFlowOp::Succ),
            Instr::ControlFlow(ControlFlowOp::Fail),
            Instr::ControlFlow(ControlFlowOp::Ret),
        ],
        &mut regs,
    );
    assert!(r);
    assert_eq!(regs.cp0, 0);
}

#[test]
fn oversized_programs_are_too_many_instructions() {
    // 30,000 jumps of three bytes need more than the 16-bit address space.
    let mut prog = Vec::new();
    for _ in 0..30000 {
        prog.push(Instr::ControlFlow(ControlFlowOp::Jmp(0)));
    }
    let r = compile(&prog);
    assert!(matches!(r, Err(EncodeError::TooManyInstructions(30000))));
}

#[test]
fn string_bank_operations() {
    let mut regs = Registers::new();
    let r = run_program(
        vec![
            Instr::Bytes(BytesOp::Put(0, Blob::with(vec![1, 2, 2, 3]))),
            Instr::Bytes(BytesOp::Put(1, Blob::with(vec![9]))),
            Instr::Bytes(BytesOp::Mov(0, 2)),
            Instr::Bytes(BytesOp::Swp(1, 2)),
            Instr::Bytes(BytesOp::Join(1, 2, 3)),
            Instr::Bytes(BytesOp::Count(0, 2)),
        ],
        &mut regs,
    );
    assert!(r);
    // the swap left the single byte in the third slot and the copied
    // string in the second.
    assert_eq!(regs.get_s(2).map(|b| b.bytes), Some(vec![9]));
    assert_eq!(regs.get_s(1).map(|b| b.bytes), Some(vec![1, 2, 2, 3]));
    assert_eq!(regs.get_s(3).map(|b| b.bytes), Some(vec![1, 2, 2, 3, 9]));
    // the byte 2 occurs twice in the first string.
    assert_eq!(le_val(&a_reg(&regs, RegA::A16, 0).unwrap()), 2);
}

#[test]
fn string_length_into_a16() {
    let mut regs = Registers::new();
    let r = run_program(
        vec![
            Instr::Bytes(BytesOp::Put(5, Blob::with(vec![7; 300]))),
            Instr::Bytes(BytesOp::LenS(5)),
        ],
        &mut regs,
    );
    assert!(r);
    assert_eq!(le_val(&a_reg(&regs, RegA::A16, 0).unwrap()), 300);
}

#[test]
fn open_string_operations_fail_fast() {
    let mut regs = Registers::new();
    let r = run_program(
        vec![
            Instr::Bytes(BytesOp::Put(0, Blob::with(vec![1, 2, 3]))),
            Instr::Bytes(BytesOp::Fill(0, 0, 2, 0xAA)),
        ],
        &mut regs,
    );
    assert!(!r);
}
