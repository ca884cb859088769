//! Round trips of the bytecode codec: every implemented category encodes
//! and decodes back to itself, byte strings re-encode byte-exactly, and
//! byte counts match the encoded lengths.

use aluvm::codec::{compile, disassemble, DecodeError, EncodeError};
use aluvm::data::{Blob, LibHash, LibSite, Value};
use aluvm::instr::{
    Arithmetics, ArithmeticOp, BitwiseOp, BytesOp, CmpOp, ControlFlowOp, Instr, MoveOp, NumType,
    PutOp,
};
use aluvm::regid::{Reg32, Reg8, RegA, RegR};

fn rt(instrs: Vec<Instr>) {
    let blob = compile(&instrs).expect("compiles");
    let back = disassemble(&blob.bytes).expect("decodes");
    assert_eq!(instrs, back);
    let again = compile(&back).expect("compiles again");
    assert_eq!(blob.bytes, again.bytes);
}

fn val(bytes: Vec<u8>) -> Value {
    Value::with(bytes)
}

#[test]
fn control_flow_round_trip() {
    let site = LibSite::with(0x1234, LibHash { bytes: [7u8; 32] });
    rt(vec![
        Instr::ControlFlow(ControlFlowOp::Fail),
        Instr::ControlFlow(ControlFlowOp::Succ),
        Instr::ControlFlow(ControlFlowOp::Jmp(0xBEEF)),
        Instr::ControlFlow(ControlFlowOp::Jif(0x0001)),
        Instr::ControlFlow(ControlFlowOp::Routine(0x00FF)),
        Instr::ControlFlow(ControlFlowOp::Call(site)),
        Instr::ControlFlow(ControlFlowOp::Exec(site)),
        Instr::ControlFlow(ControlFlowOp::Ret),
    ]);
}

#[test]
fn put_round_trip() {
    rt(vec![
        Instr::Put(PutOp::ZeroA(RegA::A16, Reg32::with(3))),
        Instr::Put(PutOp::ZeroR(RegR::R256, Reg32::with(31))),
        Instr::Put(PutOp::ClA(RegA::A512, Reg32::with(0))),
        Instr::Put(PutOp::ClR(RegR::R8192, Reg32::with(15))),
        Instr::Put(PutOp::PutA(RegA::A8, Reg32::with(1), val(vec![0xAB]))),
        Instr::Put(PutOp::PutA(RegA::A32, Reg32::with(2), val(vec![1, 2, 3, 4]))),
        Instr::Put(PutOp::PutA(RegA::AP, Reg32::with(4), val(vec![9, 8, 7]))),
        Instr::Put(PutOp::PutR(RegR::R128, Reg32::with(5), val(vec![0xFF; 16]))),
        Instr::Put(PutOp::PutIfA(RegA::A8, Reg32::with(6), val(vec![0x01]))),
        Instr::Put(PutOp::PutIfR(RegR::R160, Reg32::with(7), val(vec![0x55; 20]))),
    ]);
}

#[test]
fn move_round_trip() {
    rt(vec![
        Instr::Move(MoveOp::SwpA(RegA::A8, Reg32::with(0), RegA::A64, Reg32::with(9))),
        Instr::Move(MoveOp::SwpR(RegR::R128, Reg32::with(1), RegR::R512, Reg32::with(2))),
        Instr::Move(MoveOp::SwpAR(RegA::A256, Reg32::with(3), RegR::R256, Reg32::with(4))),
        Instr::Move(MoveOp::AMov(RegA::A8, RegA::A16, NumType::Unsigned)),
        Instr::Move(MoveOp::AMov(RegA::A512, RegA::AP, NumType::Float52)),
        Instr::Move(MoveOp::MovA(RegA::A8, Reg32::with(5), RegA::A8, Reg32::with(6))),
        Instr::Move(MoveOp::MovR(RegR::R4096, Reg32::with(7), RegR::R8192, Reg32::with(8))),
        Instr::Move(MoveOp::MovAR(RegA::A128, Reg32::with(9), RegR::R128, Reg32::with(10))),
        Instr::Move(MoveOp::MovRA(RegR::R160, Reg32::with(11), RegA::A256, Reg32::with(12))),
    ]);
}

#[test]
fn cmp_round_trip() {
    rt(vec![
        Instr::Cmp(CmpOp::Gt(RegA::A8, Reg32::with(0), RegA::A8, Reg32::with(1))),
        Instr::Cmp(CmpOp::Lt(RegR::R128, Reg32::with(2), RegR::R128, Reg32::with(3))),
        Instr::Cmp(CmpOp::EqA(RegA::AP, Reg32::with(4), RegA::A16, Reg32::with(5))),
        Instr::Cmp(CmpOp::EqR(RegR::R2048, Reg32::with(6), RegR::R4096, Reg32::with(7))),
        Instr::Cmp(CmpOp::Len(RegA::A64, Reg32::with(8))),
        Instr::Cmp(CmpOp::Cnt(RegA::A32, Reg32::with(9))),
        Instr::Cmp(CmpOp::St2A),
        Instr::Cmp(CmpOp::A2St),
    ]);
}

#[test]
fn arithmetic_round_trip() {
    let unchecked = Arithmetics::IntUnchecked { signed: false };
    let checked = Arithmetics::IntChecked { signed: true };
    rt(vec![
        Instr::Arithmetic(ArithmeticOp::Neg(RegA::A8, Reg32::with(0))),
        Instr::Arithmetic(ArithmeticOp::Stp(true, unchecked, RegA::A8, Reg32::with(1), 15)),
        Instr::Arithmetic(ArithmeticOp::Stp(false, checked, RegA::A16, Reg32::with(2), 7)),
        Instr::Arithmetic(ArithmeticOp::Add(unchecked, RegA::A8, Reg32::with(3), Reg32::with(4))),
        Instr::Arithmetic(ArithmeticOp::Sub(Arithmetics::Float, RegA::A32, Reg32::with(5), Reg32::with(6))),
        Instr::Arithmetic(ArithmeticOp::Mul(Arithmetics::FloatArbitraryPrecision, RegA::A64, Reg32::with(7), Reg32::with(8))),
        Instr::Arithmetic(ArithmeticOp::Div(Arithmetics::IntArbitraryPrecision { signed: false }, RegA::A128, Reg32::with(9), Reg32::with(10))),
        Instr::Arithmetic(ArithmeticOp::Mod(RegA::A8, Reg32::with(11), RegA::A16, Reg32::with(12), RegA::A32, Reg32::with(13))),
        Instr::Arithmetic(ArithmeticOp::Abs(RegA::A256, Reg32::with(14))),
    ]);
}

#[test]
fn bitwise_round_trip() {
    rt(vec![
        Instr::Bitwise(BitwiseOp::And(RegA::A8, Reg32::with(0), Reg32::with(1), Reg8::with(2))),
        Instr::Bitwise(BitwiseOp::Or(RegA::A16, Reg32::with(3), Reg32::with(4), Reg8::with(5))),
        Instr::Bitwise(BitwiseOp::Xor(RegA::A32, Reg32::with(6), Reg32::with(7), Reg8::with(0))),
        Instr::Bitwise(BitwiseOp::Not(RegA::A64, Reg32::with(8))),
        Instr::Bitwise(BitwiseOp::Shl(RegA::A128, Reg32::with(9), Reg32::with(10), Reg8::with(1))),
        Instr::Bitwise(BitwiseOp::Shr(RegA::A256, Reg32::with(11), Reg32::with(12), Reg8::with(3))),
        Instr::Bitwise(BitwiseOp::Scl(RegA::A512, Reg32::with(13), Reg32::with(14), Reg8::with(6))),
        Instr::Bitwise(BitwiseOp::Scr(RegA::AP, Reg32::with(15), Reg32::with(16), Reg8::with(7))),
    ]);
}

#[test]
fn nop_round_trip() {
    rt(vec![Instr::Nop, Instr::ControlFlow(ControlFlowOp::Succ), Instr::Nop]);
}

#[test]
fn exact_byte_strings() {
    let blob = compile(&vec![Instr::ControlFlow(ControlFlowOp::Succ)]).unwrap();
    assert_eq!(blob.bytes, vec![0x01]);
    let blob = compile(&vec![Instr::ControlFlow(ControlFlowOp::Jmp(0x0102))]).unwrap();
    assert_eq!(blob.bytes, vec![0x02, 0x02, 0x01]);
    // family tag in the low 3 bits, slot index in the high 5.
    let blob = compile(&vec![Instr::Put(PutOp::ZeroA(RegA::A16, Reg32::with(3)))]).unwrap();
    assert_eq!(blob.bytes, vec![0x08, 0x01 + 3 * 8]);
    // an A8 assignment carries exactly one payload byte.
    let blob = compile(&vec![Instr::Put(PutOp::PutA(RegA::A8, Reg32::with(0), val(vec![0x05])))])
        .unwrap();
    assert_eq!(blob.bytes, vec![0x0C, 0x00, 0x05]);
    // an AP assignment carries a 16-bit length prefix.
    let blob = compile(&vec![Instr::Put(PutOp::PutA(RegA::AP, Reg32::with(0), val(vec![0x09, 0x08])))])
        .unwrap();
    assert_eq!(blob.bytes, vec![0x0C, 0x07, 0x02, 0x00, 0x09, 0x08]);
    let blob = compile(&vec![Instr::Nop]).unwrap();
    assert_eq!(blob.bytes, vec![0xFF]);
}

#[test]
fn byte_count_matches_encoded_length() {
    let site = LibSite::with(1, LibHash { bytes: [0u8; 32] });
    let samples = vec![
        Instr::ControlFlow(ControlFlowOp::Fail),
        Instr::ControlFlow(ControlFlowOp::Call(site)),
        Instr::Put(PutOp::PutA(RegA::A64, Reg32::with(2), val(vec![0; 8]))),
        Instr::Put(PutOp::PutA(RegA::AP, Reg32::with(2), val(vec![1, 2, 3]))),
        Instr::Move(MoveOp::AMov(RegA::A8, RegA::A16, NumType::Signed)),
        Instr::Cmp(CmpOp::Len(RegA::A8, Reg32::with(0))),
        Instr::Arithmetic(ArithmeticOp::Mod(
            RegA::A8,
            Reg32::with(0),
            RegA::A8,
            Reg32::with(1),
            RegA::A8,
            Reg32::with(2),
        )),
        Instr::Bitwise(BitwiseOp::Not(RegA::A8, Reg32::with(0))),
        Instr::Bytes(BytesOp::Put(0, Blob::with(vec![1, 2, 3]))),
        Instr::Bytes(BytesOp::Del(0, 1, 2)),
        Instr::Bytes(BytesOp::Transl(0, 1, 2, 3)),
        Instr::Nop,
    ];
    for i in samples {
        let blob = compile(&vec![i.clone()]).unwrap();
        assert_eq!(blob.bytes.len(), i.byte_count() as usize);
        assert_eq!(i.len(), i.byte_count());
    }
}

#[test]
fn bytes_round_trip() {
    rt(vec![
        Instr::Bytes(BytesOp::Put(7, Blob::with(vec![0xDE, 0xAD, 0xBE, 0xEF]))),
        Instr::Bytes(BytesOp::Mov(1, 2)),
        Instr::Bytes(BytesOp::Swp(3, 4)),
        Instr::Bytes(BytesOp::Fill(5, 0x0010, 0x0020, 0xAA)),
        Instr::Bytes(BytesOp::LenS(6)),
        Instr::Bytes(BytesOp::Count(7, 0x55)),
        Instr::Bytes(BytesOp::Cmp(8, 9)),
        Instr::Bytes(BytesOp::Comm(10, 11)),
        Instr::Bytes(BytesOp::Find(12, 13)),
        Instr::Bytes(BytesOp::Join(14, 15, 16)),
        Instr::Bytes(BytesOp::Split(17, 0x1234, 18, 19)),
        Instr::Bytes(BytesOp::Ins(20, 21, 0x4321)),
        Instr::Bytes(BytesOp::Del(22, 0x0001, 0x0002)),
        Instr::Bytes(BytesOp::Transl(23, 0x0003, 0x0004, 24)),
    ]);
}

#[test]
fn bytes_exact_byte_strings() {
    // a stored blob carries its register index, then a 16-bit length
    // prefix and the bytes themselves.
    let blob = compile(&vec![Instr::Bytes(BytesOp::Put(7, Blob::with(vec![0xAB, 0xCD])))])
        .unwrap();
    assert_eq!(blob.bytes, vec![0x30, 0x07, 0x02, 0x00, 0xAB, 0xCD]);
    let blob = compile(&vec![Instr::Bytes(BytesOp::Del(3, 0x0102, 0x0304))]).unwrap();
    assert_eq!(blob.bytes, vec![0x3E, 0x03, 0x02, 0x01, 0x04, 0x03]);
}

#[test]
fn unsupported_categories_do_not_encode() {
    let r = compile(&vec![Instr::Bytes(BytesOp::ExtrA(
        RegA::A8,
        Reg32::with(0),
        1,
        0x0002,
    ))]);
    assert!(matches!(r, Err(EncodeError::UnsupportedInstruction(_))));
    let r = compile(&vec![Instr::Digest(aluvm::instr::DigestOp::Sha2(
        Reg32::with(0),
        Reg32::with(1),
        Reg32::with(2),
        false,
    ))]);
    assert!(matches!(r, Err(EncodeError::UnsupportedInstruction(_))));
}

#[test]
fn unassigned_opcodes_do_not_decode() {
    let r = disassemble(&vec![0x42]);
    assert!(matches!(r, Err(DecodeError::UnsupportedInstruction(0x42))));
    let r = disassemble(&vec![0x80]);
    assert!(matches!(r, Err(DecodeError::UnsupportedInstruction(0x80))));
    // the string extraction opcodes have no representable layout.
    let r = disassemble(&vec![0x39]);
    assert!(matches!(r, Err(DecodeError::UnsupportedInstruction(0x39))));
    let r = disassemble(&vec![0x3A]);
    assert!(matches!(r, Err(DecodeError::UnsupportedInstruction(0x3A))));
}

#[test]
fn truncated_bytecode_does_not_decode() {
    // a jump needs a 16-bit offset after the opcode.
    let r = disassemble(&vec![0x02, 0x00]);
    assert!(matches!(r, Err(DecodeError::Cursor(_))));
}

#[test]
fn opcode_ranges_are_disjoint() {
    // each instruction's opcode stays inside its own category window.
    let cf = ControlFlowOp::instr_range();
    let put = PutOp::instr_range();
    let mv = MoveOp::instr_range();
    let cmp = CmpOp::instr_range();
    let ar = ArithmeticOp::instr_range();
    let bw = BitwiseOp::instr_range();
    let by = BytesOp::instr_range();
    assert!(cf.1 < put.0 && put.1 < mv.0 && mv.0 <= mv.1 && mv.1 < cmp.0);
    assert!(cmp.1 < ar.0 && ar.1 < bw.0 && bw.1 < by.0);
    assert_eq!(Instr::ControlFlow(ControlFlowOp::Ret).instr_byte(), 0x07);
    assert_eq!(Instr::Nop.instr_byte(), 0xFF);
}
