//! Bytecode codec: the exact byte string of every instruction, a spec-level
//! parser, streaming readers and writers over the cursor, and the round-trip
//! laws — decoding an encoding gives the instruction back, and re-encoding a
//! decoded byte range reproduces it byte for byte.

use vstd::prelude::*;
use crate::cursor::{Cursor, CursorError};
use crate::data::{le_nat, zeros, Blob, LibHash, LibSite, Value, MAX_VALUE_BYTES};
use crate::instr::{
    Arithmetics, ArithmeticOp, BitwiseOp, BytesOp, CmpOp, ControlFlowOp, ControlFlowOpV,
    BytesOpV, Curve25519Op, DigestOp, Instr, InstrV, MoveOp, NumType, PutOp, PutOpV, SiteV,
    INSTR_A2ST, INSTR_CMP, INSTR_COMM, INSTR_COUNT, INSTR_DEL, INSTR_EXTRA, INSTR_EXTRR, INSTR_FILL,
    INSTR_FIND, INSTR_INS, INSTR_JOIN, INSTR_LENS, INSTR_MOVS, INSTR_SPLIT, INSTR_SWPS,
    INSTR_ABS, INSTR_ADD, INSTR_AMOV, INSTR_AND, INSTR_CALL, INSTR_CLA, INSTR_CLR, INSTR_CNT,
    INSTR_DIV, INSTR_EQA, INSTR_EQR, INSTR_EXEC, INSTR_FAIL, INSTR_GT, INSTR_JIF, INSTR_JMP,
    INSTR_LEN, INSTR_LT, INSTR_MOD, INSTR_MOVA, INSTR_MOVAR, INSTR_MOVR, INSTR_MOVRA, INSTR_MUL,
    INSTR_NEG, INSTR_NOP, INSTR_NOT, INSTR_OR, INSTR_PUT, INSTR_PUTA, INSTR_PUTIFA, INSTR_PUTIFR,
    INSTR_PUTR, INSTR_RET, INSTR_RIPEMD, INSTR_ROUTINE, INSTR_SCL, INSTR_SCR, INSTR_SECP_GEN,
    INSTR_SECP_NEG, INSTR_SHA2, INSTR_SHL, INSTR_SHR, INSTR_STP, INSTR_ST2A, INSTR_SUB,
    INSTR_SUCC, INSTR_SWPA, INSTR_SWPAR, INSTR_SWPR, INSTR_TRANSL, INSTR_XOR, INSTR_ZEROA,
    INSTR_ZEROR, INSTR_ED_GEN, INSTR_ED_NEG, SecpOp,
};
use crate::regid::{Reg, Reg32, Reg8, RegA, RegR};

verus! {

/// Errors decoding bytecode.
#[derive(Clone, Copy, PartialEq, Eq, Structural, Debug)]
pub enum DecodeError {
    /// A cursor error.
    Cursor(CursorError),
    /// The opcode byte is not assigned to a decodable instruction.
    UnsupportedInstruction(u8),
}

/// Errors encoding instructions.
#[derive(Clone, Copy, PartialEq, Eq, Structural, Debug)]
pub enum EncodeError {
    /// The number of instructions exceeds the limit of 2^16.
    TooManyInstructions(usize),
    /// A cursor error.
    Cursor(CursorError),
    /// The instruction's category has no byte layout in this codec.
    UnsupportedInstruction(u8),
}

/// The low 3 bits of a byte.
pub open spec fn f3(b: u8) -> u8 {
    (b as int % 8) as u8
}

/// The high 5 bits of a byte.
pub open spec fn f5(b: u8) -> u8 {
    (b as int / 8) as u8
}

/// One byte holding a 3-bit field and a 5-bit field, low bits first.
pub open spec fn pk35(a: u8, b: u8) -> u8 {
    (a + b * 8) as u8
}

/// One byte holding a 5-bit field and a 3-bit field, low bits first.
pub open spec fn pk53(a: u8, b: u8) -> u8 {
    (a + b * 32) as u8
}

/// One byte holding a 4-bit, a 1-bit and a 3-bit field, low bits first.
pub open spec fn pk413(a: u8, b: u8, c: u8) -> u8 {
    (a + b * 16 + c * 32) as u8
}

/// One byte holding two 3-bit fields and a 2-bit field, low bits first.
pub open spec fn pk332(a: u8, b: u8, c: u8) -> u8 {
    (a + b * 8 + c * 64) as u8
}

/// A 16-bit word as two little-endian bytes.
pub open spec fn le16(x: u16) -> Seq<u8> {
    seq![(x as int % 256) as u8, (x as int / 256) as u8]
}

/// The 16-bit word held by two little-endian bytes.
pub open spec fn rd16(s: Seq<u8>, p: int) -> u16 {
    (s[p] + 256 * s[p + 1]) as u16
}

/// Packing a 3-bit and a 5-bit field gives a byte the fields come back out
/// of.
pub proof fn lemma_pk35(a: u8, b: u8)
    requires
        a < 8,
        b < 32,
    ensures
        pk35(a, b) < 256,
        f3(pk35(a, b)) == a,
        f5(pk35(a, b)) == b,
{
    vstd::arithmetic::div_mod::lemma_fundamental_div_mod_converse(
        a + b * 8,
        8,
        b as int,
        a as int,
    );
}

/// Packing a 5-bit and a 3-bit field gives a byte the fields come back out
/// of.
pub proof fn lemma_pk53(a: u8, b: u8)
    requires
        a < 32,
        b < 8,
    ensures
        pk53(a, b) < 256,
        (pk53(a, b) as int % 32) as u8 == a,
        (pk53(a, b) as int / 32) as u8 == b,
{
    vstd::arithmetic::div_mod::lemma_fundamental_div_mod_converse(
        a + b * 32,
        32,
        b as int,
        a as int,
    );
}

/// Packing a 4-bit, a 1-bit and a 3-bit field gives a byte the fields come
/// back out of.
pub proof fn lemma_pk413(a: u8, b: u8, c: u8)
    requires
        a < 16,
        b < 2,
        c < 8,
    ensures
        pk413(a, b, c) < 256,
        (pk413(a, b, c) as int % 16) as u8 == a,
        ((pk413(a, b, c) as int / 16) % 2) as u8 == b,
        (pk413(a, b, c) as int / 32) as u8 == c,
{
    let x = a + b * 16 + c * 32;
    vstd::arithmetic::div_mod::lemma_fundamental_div_mod_converse(
        x as int,
        16,
        b + c * 2,
        a as int,
    );
    vstd::arithmetic::div_mod::lemma_fundamental_div_mod_converse(
        b + c * 2,
        2,
        c as int,
        b as int,
    );
    vstd::arithmetic::div_mod::lemma_fundamental_div_mod_converse(
        x as int,
        32,
        c as int,
        a + b * 16,
    );
}

/// Packing two 3-bit fields and a 2-bit field gives a byte the fields come
/// back out of.
pub proof fn lemma_pk332(a: u8, b: u8, c: u8)
    requires
        a < 8,
        b < 8,
        c < 4,
    ensures
        pk332(a, b, c) < 256,
        f3(pk332(a, b, c)) == a,
        ((pk332(a, b, c) as int / 8) % 8) as u8 == b,
        (pk332(a, b, c) as int / 64) as u8 == c,
{
    let x = a + b * 8 + c * 64;
    vstd::arithmetic::div_mod::lemma_fundamental_div_mod_converse(
        x as int,
        8,
        b + c * 8,
        a as int,
    );
    vstd::arithmetic::div_mod::lemma_fundamental_div_mod_converse(
        b + c * 8,
        8,
        c as int,
        b as int,
    );
    vstd::arithmetic::div_mod::lemma_fundamental_div_mod_converse(
        x as int,
        64,
        c as int,
        a + b * 8,
    );
}

/// A 16-bit word survives the little-endian round trip, and so do two bytes
/// read as a word.
pub proof fn lemma_le16(x: u16, s: Seq<u8>, p: int)
    requires
        0 <= p,
        p + 2 <= s.len(),
    ensures
        le16(x).len() == 2,
        rd16(le16(x), 0) == x,
        le16(rd16(s, p))[0] == s[p],
        le16(rd16(s, p))[1] == s[p + 1],
{
    vstd::arithmetic::div_mod::lemma_fundamental_div_mod(x as int, 256);
    vstd::arithmetic::div_mod::lemma_fundamental_div_mod_converse(
        s[p] + 256 * s[p + 1],
        256,
        s[p + 1] as int,
        s[p] as int,
    );
}

/// Writes a 3-bit field known to fit.
fn put_u3(writer: &mut Cursor, d: u8)
    requires
        old(writer).wf_w(),
        old(writer).bit() + 3 <= 8,
        d < 8,
        old(writer).ok1(),
    ensures
        final(writer).wf_w(),
        final(writer).data().len() == old(writer).data().len(),
        Cursor::wrote(*old(writer), *final(writer), old(writer).pos(), old(writer).pos() + 1),
        (final(writer).data()[old(writer).pos()] as nat) == old(writer).data()[old(writer).pos()]
            as nat + (d as nat) * crate::cursor::pow2u(old(writer).bit() as nat),
        Cursor::bits_adv(*old(writer), *final(writer), 3),
{
    match writer.write_u3(d) {
        Ok(()) => {},
        Err(_) => {
            proof {
                assert(false);
            }
        },
    }
}

/// Writes a 5-bit field known to fit.
fn put_u5(writer: &mut Cursor, d: u8)
    requires
        old(writer).wf_w(),
        old(writer).bit() + 5 <= 8,
        d < 32,
        old(writer).ok1(),
    ensures
        final(writer).wf_w(),
        final(writer).data().len() == old(writer).data().len(),
        Cursor::wrote(*old(writer), *final(writer), old(writer).pos(), old(writer).pos() + 1),
        (final(writer).data()[old(writer).pos()] as nat) == old(writer).data()[old(writer).pos()]
            as nat + (d as nat) * crate::cursor::pow2u(old(writer).bit() as nat),
        Cursor::bits_adv(*old(writer), *final(writer), 5),
{
    match writer.write_u5(d) {
        Ok(()) => {},
        Err(_) => {
            proof {
                assert(false);
            }
        },
    }
}

/// Writes a 4-bit field known to fit.
fn put_u4(writer: &mut Cursor, d: u8)
    requires
        old(writer).wf_w(),
        old(writer).bit() + 4 <= 8,
        d < 16,
        old(writer).ok1(),
    ensures
        final(writer).wf_w(),
        final(writer).data().len() == old(writer).data().len(),
        Cursor::wrote(*old(writer), *final(writer), old(writer).pos(), old(writer).pos() + 1),
        (final(writer).data()[old(writer).pos()] as nat) == old(writer).data()[old(writer).pos()]
            as nat + (d as nat) * crate::cursor::pow2u(old(writer).bit() as nat),
        Cursor::bits_adv(*old(writer), *final(writer), 4),
{
    match writer.write_u4(d) {
        Ok(()) => {},
        Err(_) => {
            proof {
                assert(false);
            }
        },
    }
}

/// Writes a 2-bit field known to fit.
fn put_u2(writer: &mut Cursor, d: u8)
    requires
        old(writer).wf_w(),
        old(writer).bit() + 2 <= 8,
        d < 4,
        old(writer).ok1(),
    ensures
        final(writer).wf_w(),
        final(writer).data().len() == old(writer).data().len(),
        Cursor::wrote(*old(writer), *final(writer), old(writer).pos(), old(writer).pos() + 1),
        (final(writer).data()[old(writer).pos()] as nat) == old(writer).data()[old(writer).pos()]
            as nat + (d as nat) * crate::cursor::pow2u(old(writer).bit() as nat),
        Cursor::bits_adv(*old(writer), *final(writer), 2),
{
    match writer.write_u2(d) {
        Ok(()) => {},
        Err(_) => {
            proof {
                assert(false);
            }
        },
    }
}

/// Writes a single bit known to fit.
fn put_bool(writer: &mut Cursor, d: bool)
    requires
        old(writer).wf_w(),
        old(writer).bit() + 1 <= 8,
        old(writer).ok1(),
    ensures
        final(writer).wf_w(),
        final(writer).data().len() == old(writer).data().len(),
        Cursor::wrote(*old(writer), *final(writer), old(writer).pos(), old(writer).pos() + 1),
        (final(writer).data()[old(writer).pos()] as nat) == old(writer).data()[old(writer).pos()]
            as nat + (if d {
            1nat
        } else {
            0nat
        }) * crate::cursor::pow2u(old(writer).bit() as nat),
        Cursor::bits_adv(*old(writer), *final(writer), 1),
{
    match writer.write_bool(d) {
        Ok(()) => {},
        Err(_) => {
            proof {
                assert(false);
            }
        },
    }
}

/// Writes a register value known to fit.
fn put_value(writer: &mut Cursor, reg: Reg, v: &Value)
    requires
        old(writer).wf_w(),
        old(writer).bit() == 0,
        v.wf(),
        match reg.wire_bytes_spec() {
            Some(k) => v.bytes@.len() <= k && old(writer).okn(k as int),
            None => old(writer).okn(2 + v.bytes@.len() as int),
        },
    ensures
        final(writer).wf_w(),
        final(writer).data().len() == old(writer).data().len(),
        match reg.wire_bytes_spec() {
            Some(k) => {
                &&& Cursor::wrote(
                    *old(writer),
                    *final(writer),
                    old(writer).pos(),
                    old(writer).pos() + k,
                )
                &&& (forall|j: int|
                    0 <= j < v.bytes@.len() ==> final(writer).data()[old(writer).pos() + j]
                        == v.bytes@[j])
                &&& (forall|j: int|
                    v.bytes@.len() <= j < k ==> #[trigger] final(writer).data()[old(writer).pos()
                        + j] == 0)
                &&& Cursor::advancedn(*old(writer), *final(writer), k as int)
            },
            None => {
                &&& Cursor::wrote(
                    *old(writer),
                    *final(writer),
                    old(writer).pos(),
                    old(writer).pos() + 2 + v.bytes@.len(),
                )
                &&& final(writer).data()[old(writer).pos()] as int == (v.bytes@.len() as int) % 256
                &&& final(writer).data()[old(writer).pos() + 1] as int == (v.bytes@.len() as int)
                    / 256
                &&& (forall|j: int|
                    0 <= j < v.bytes@.len() ==> final(writer).data()[old(writer).pos() + 2 + j]
                        == v.bytes@[j])
                &&& Cursor::advancedn(*old(writer), *final(writer), 2 + v.bytes@.len() as int)
            },
        },
{
    match writer.write_value(reg, v) {
        Ok(()) => {},
        Err(_) => {
            proof {
                assert(false);
            }
        },
    }
}

/// Writes one byte known to fit.
fn put_u8(writer: &mut Cursor, d: u8)
    requires
        old(writer).wf_w(),
        old(writer).bit() == 0,
        old(writer).ok1(),
    ensures
        final(writer).wf_w(),
        final(writer).data().len() == old(writer).data().len(),
        Cursor::wrote(*old(writer), *final(writer), old(writer).pos(), old(writer).pos() + 1),
        final(writer).data()[old(writer).pos()] == d,
        Cursor::advanced1(*old(writer), *final(writer)),
{
    match writer.write_u8(d) {
        Ok(()) => {},
        Err(_) => {
            proof {
                assert(false);
            }
        },
    }
}

/// The encoded argument bytes of a control-flow instruction.
pub open spec fn args_cf(op: ControlFlowOpV) -> Seq<u8> {
    match op {
        ControlFlowOpV::Fail => Seq::empty(),
        ControlFlowOpV::Succ => Seq::empty(),
        ControlFlowOpV::Jmp(p) => le16(p),
        ControlFlowOpV::Jif(p) => le16(p),
        ControlFlowOpV::Routine(p) => le16(p),
        ControlFlowOpV::Call(s) => le16(s.pos) + s.lib,
        ControlFlowOpV::Exec(s) => le16(s.pos) + s.lib,
        ControlFlowOpV::Ret => Seq::empty(),
    }
}

/// Parses a control-flow instruction at `pos`; the opcode byte is known to
/// be in the category's range.
#[verifier::opaque]
pub open spec fn parse_cf(s: Seq<u8>, pos: int) -> Option<(ControlFlowOpV, int)> {
    let op = s[pos];
    if op == INSTR_FAIL {
        Some((ControlFlowOpV::Fail, pos + 1))
    } else if op == INSTR_SUCC {
        Some((ControlFlowOpV::Succ, pos + 1))
    } else if op == INSTR_RET {
        Some((ControlFlowOpV::Ret, pos + 1))
    } else if op == INSTR_JMP || op == INSTR_JIF || op == INSTR_ROUTINE {
        if pos + 3 <= s.len() {
            let w = rd16(s, pos + 1);
            if op == INSTR_JMP {
                Some((ControlFlowOpV::Jmp(w), pos + 3))
            } else if op == INSTR_JIF {
                Some((ControlFlowOpV::Jif(w), pos + 3))
            } else {
                Some((ControlFlowOpV::Routine(w), pos + 3))
            }
        } else {
            None
        }
    } else {
        if pos + 3 <= s.len() && pos + 35 <= s.len() {
            let site = SiteV { pos: rd16(s, pos + 1), lib: s.subrange(pos + 3, pos + 35) };
            if op == INSTR_CALL {
                Some((ControlFlowOpV::Call(site), pos + 35))
            } else {
                Some((ControlFlowOpV::Exec(site), pos + 35))
            }
        } else {
            None
        }
    }
}

/// The encoded argument bytes of a put instruction: one packed
/// family-and-index byte, then for assignments the value — padded to the
/// register's wire width, or length-prefixed for `AP`.
pub open spec fn args_put(op: PutOpV) -> Seq<u8> {
    match op {
        PutOpV::ZeroA(r, i) => seq![pk35(r.code_spec(), i.val)],
        PutOpV::ZeroR(r, i) => seq![pk35(r.code_spec(), i.val)],
        PutOpV::ClA(r, i) => seq![pk35(r.code_spec(), i.val)],
        PutOpV::ClR(r, i) => seq![pk35(r.code_spec(), i.val)],
        PutOpV::PutA(r, i, v) => if r == RegA::AP {
            seq![pk35(r.code_spec(), i.val)] + le16(v.len() as u16) + v
        } else {
            seq![pk35(r.code_spec(), i.val)] + v + zeros((r.cap_spec() - v.len()) as nat)
        },
        PutOpV::PutR(r, i, v) => seq![pk35(r.code_spec(), i.val)] + v + zeros(
            (r.cap_spec() - v.len()) as nat,
        ),
        PutOpV::PutIfA(r, i, v) => if r == RegA::AP {
            seq![pk35(r.code_spec(), i.val)] + le16(v.len() as u16) + v
        } else {
            seq![pk35(r.code_spec(), i.val)] + v + zeros((r.cap_spec() - v.len()) as nat)
        },
        PutOpV::PutIfR(r, i, v) => seq![pk35(r.code_spec(), i.val)] + v + zeros(
            (r.cap_spec() - v.len()) as nat,
        ),
    }
}

/// Parses the value bytes of a put assignment read for register `r`.
pub open spec fn parse_put_val(s: Seq<u8>, pos: int, ap: bool, cap: u16) -> Option<(Seq<u8>, int)> {
    if ap {
        if pos + 2 <= s.len() {
            let l = rd16(s, pos) as int;
            if l <= MAX_VALUE_BYTES && pos + 2 + l <= s.len() {
                Some((s.subrange(pos + 2, pos + 2 + l), pos + 2 + l))
            } else {
                None
            }
        } else {
            None
        }
    } else {
        if pos + cap <= s.len() {
            Some((s.subrange(pos, pos + cap), pos + cap))
        } else {
            None
        }
    }
}

/// Parses a put instruction at `pos`; the opcode byte is known to be in the
/// category's range.
#[verifier::opaque]
pub open spec fn parse_put(s: Seq<u8>, pos: int) -> Option<(PutOpV, int)> {
    if pos + 2 > s.len() {
        None
    } else {
        let op = s[pos];
        let b = s[pos + 1];
        let i = Reg32 { val: f5(b) };
        if op == INSTR_ZEROA {
            Some((PutOpV::ZeroA(RegA::from_code_spec(f3(b)), i), pos + 2))
        } else if op == INSTR_ZEROR {
            Some((PutOpV::ZeroR(RegR::from_code_spec(f3(b)), i), pos + 2))
        } else if op == INSTR_CLA {
            Some((PutOpV::ClA(RegA::from_code_spec(f3(b)), i), pos + 2))
        } else if op == INSTR_CLR {
            Some((PutOpV::ClR(RegR::from_code_spec(f3(b)), i), pos + 2))
        } else if op == INSTR_PUTA || op == INSTR_PUTIFA {
            let r = RegA::from_code_spec(f3(b));
            match parse_put_val(s, pos + 2, r == RegA::AP, r.cap_spec()) {
                Some((v, p)) => if op == INSTR_PUTA {
                    Some((PutOpV::PutA(r, i, v), p))
                } else {
                    Some((PutOpV::PutIfA(r, i, v), p))
                },
                None => None,
            }
        } else {
            let r = RegR::from_code_spec(f3(b));
            match parse_put_val(s, pos + 2, false, r.cap_spec()) {
                Some((v, p)) => if op == INSTR_PUTR {
                    Some((PutOpV::PutR(r, i, v), p))
                } else {
                    Some((PutOpV::PutIfR(r, i, v), p))
                },
                None => None,
            }
        }
    }
}

impl PutOp {
    /// Writes the instruction's argument bytes; the whole write takes place
    /// or the cursor is unchanged.
    #[verifier::rlimit(100)]
    pub fn write_args(&self, writer: &mut Cursor) -> (r: Result<(), EncodeError>)
        requires
            old(writer).wf_w(),
            old(writer).bit() == 0,
            !old(writer).at_eof(),
            old(writer).data().len() <= 0xFFFF,
            self@.wf(),
        ensures
            final(writer).wf_w(),
            final(writer).data().len() == old(writer).data().len(),
            match r {
                Ok(()) => {
                    &&& old(writer).pos() + self@.bc() - 1 <= old(writer).data().len()
                    &&& final(writer).data() == old(writer).data().map(
                        |i: int, b: u8|
                            if old(writer).pos() <= i < old(writer).pos() + self@.bc() - 1 {
                                args_put(self@)[i - old(writer).pos()]
                            } else {
                                b
                            },
                    )
                    &&& Cursor::advancedn(*old(writer), *final(writer), self@.bc() - 1)
                },
                Err(e) => {
                    &&& *final(writer) == *old(writer)
                    &&& old(writer).pos() + self@.bc() - 1 > old(writer).data().len()
                    &&& e == EncodeError::Cursor(CursorError::Eof)
                },
            },
    {
        let pos = writer.byte_pos() as usize;
        let need = self.byte_count() as usize - 1;
        if pos + need > writer.data_len() {
            return Err(EncodeError::Cursor(CursorError::Eof));
        }
        proof {
            crate::cursor::lemma_pow2u_vals();
        }
        match self {
            PutOp::ZeroA(r, i) => {
                put_u3(writer, r.code());
                put_u5(writer, i.val);
            },
            PutOp::ZeroR(r, i) => {
                put_u3(writer, r.code());
                put_u5(writer, i.val);
            },
            PutOp::ClA(r, i) => {
                put_u3(writer, r.code());
                put_u5(writer, i.val);
            },
            PutOp::ClR(r, i) => {
                put_u3(writer, r.code());
                put_u5(writer, i.val);
            },
            PutOp::PutA(r, i, v) => {
                put_u3(writer, r.code());
                put_u5(writer, i.val);
                put_value(writer, Reg::A(*r), v);
            },
            PutOp::PutR(r, i, v) => {
                put_u3(writer, r.code());
                put_u5(writer, i.val);
                put_value(writer, Reg::R(*r), v);
            },
            PutOp::PutIfA(r, i, v) => {
                put_u3(writer, r.code());
                put_u5(writer, i.val);
                put_value(writer, Reg::A(*r), v);
            },
            PutOp::PutIfR(r, i, v) => {
                put_u3(writer, r.code());
                put_u5(writer, i.val);
                put_value(writer, Reg::R(*r), v);
            },
        }
        proof {
            assert(final(writer).data() =~= old(writer).data().map(
                |i: int, b: u8|
                    if old(writer).pos() <= i < old(writer).pos() + self@.bc() - 1 {
                        args_put(self@)[i - old(writer).pos()]
                    } else {
                        b
                    },
            ));
        }
        Ok(())
    }

    /// Reads a put instruction; the byte at the cursor is known to lie in
    /// the category's opcode range.
    pub fn read(reader: &mut Cursor) -> (r: Result<PutOp, DecodeError>)
        requires
            old(reader).wf(),
            old(reader).bit() == 0,
            !old(reader).at_eof(),
            old(reader).data().len() <= 0xFFFF,
            old(reader).pos() < old(reader).data().len(),
            INSTR_ZEROA <= old(reader).data()[old(reader).pos()] <= INSTR_PUTIFR,
        ensures
            final(reader).wf(),
            !final(reader).at_eof(),
            final(reader).data() == old(reader).data(),
            match r {
                Ok(op) => {
                    &&& parse_put(old(reader).data(), old(reader).pos()) matches Some((ov, p))
                        && op@ == ov && final(reader).pos() == p && final(reader).bit() == 0
                },
                Err(e) => {
                    &&& parse_put(old(reader).data(), old(reader).pos()) is None
                    &&& e matches DecodeError::Cursor(_)
                },
            },
    {
        proof {
            reveal(parse_put);
        }
        proof {
            crate::cursor::lemma_pow2u_vals();
        }
        let op = match reader.read_u8() {
            Ok(b) => b,
            Err(e) => {
                proof {
                    assert(false);
                }
                return Err(DecodeError::Cursor(e));
            },
        };
        let c = match reader.read_u3() {
            Ok(c) => c,
            Err(e) => {
                return Err(DecodeError::Cursor(e));
            },
        };
        let iv = match reader.read_u5() {
            Ok(v) => v,
            Err(e) => {
                proof {
                    assert(false);
                }
                return Err(DecodeError::Cursor(e));
            },
        };
        let i = Reg32::with(iv);
        proof {
            vstd::arithmetic::div_mod::lemma_small_mod(
                (old(reader).data()[old(reader).pos() + 1] as int / 8) as nat,
                32,
            );
        }
        if op == INSTR_ZEROA {
            Ok(PutOp::ZeroA(RegA::from_code(c), i))
        } else if op == INSTR_ZEROR {
            Ok(PutOp::ZeroR(RegR::from_code(c), i))
        } else if op == INSTR_CLA {
            Ok(PutOp::ClA(RegA::from_code(c), i))
        } else if op == INSTR_CLR {
            Ok(PutOp::ClR(RegR::from_code(c), i))
        } else if op == INSTR_PUTA || op == INSTR_PUTIFA {
            let reg = RegA::from_code(c);
            let v = match reader.read_value(Reg::A(reg)) {
                Ok(v) => v,
                Err(e) => {
                    return Err(DecodeError::Cursor(e));
                },
            };
            if op == INSTR_PUTA {
                Ok(PutOp::PutA(reg, i, v))
            } else {
                Ok(PutOp::PutIfA(reg, i, v))
            }
        } else {
            let reg = RegR::from_code(c);
            let v = match reader.read_value(Reg::R(reg)) {
                Ok(v) => v,
                Err(e) => {
                    return Err(DecodeError::Cursor(e));
                },
            };
            if op == INSTR_PUTR {
                Ok(PutOp::PutR(reg, i, v))
            } else {
                Ok(PutOp::PutIfR(reg, i, v))
            }
        }
    }
}

/// The encoded argument bytes of a move instruction: packed
/// family-and-index pairs, or one packed byte for an array move.
pub open spec fn args_move(op: MoveOp) -> Seq<u8> {
    match op {
        MoveOp::SwpA(r1, i1, r2, i2) => seq![
            pk35(r1.code_spec(), i1.val),
            pk35(r2.code_spec(), i2.val),
        ],
        MoveOp::SwpR(r1, i1, r2, i2) => seq![
            pk35(r1.code_spec(), i1.val),
            pk35(r2.code_spec(), i2.val),
        ],
        MoveOp::SwpAR(r1, i1, r2, i2) => seq![
            pk35(r1.code_spec(), i1.val),
            pk35(r2.code_spec(), i2.val),
        ],
        MoveOp::AMov(r1, r2, nt) => seq![pk332(r1.code_spec(), r2.code_spec(), nt.code_spec())],
        MoveOp::MovA(r1, i1, r2, i2) => seq![
            pk35(r1.code_spec(), i1.val),
            pk35(r2.code_spec(), i2.val),
        ],
        MoveOp::MovR(r1, i1, r2, i2) => seq![
            pk35(r1.code_spec(), i1.val),
            pk35(r2.code_spec(), i2.val),
        ],
        MoveOp::MovAR(r1, i1, r2, i2) => seq![
            pk35(r1.code_spec(), i1.val),
            pk35(r2.code_spec(), i2.val),
        ],
        MoveOp::MovRA(r1, i1, r2, i2) => seq![
            pk35(r1.code_spec(), i1.val),
            pk35(r2.code_spec(), i2.val),
        ],
    }
}

/// Parses a move instruction at `pos`; the opcode byte is known to be in
/// the category's range.
#[verifier::opaque]
pub open spec fn parse_move(s: Seq<u8>, pos: int) -> Option<(MoveOp, int)> {
    let op = s[pos];
    if op == INSTR_AMOV {
        if pos + 2 <= s.len() {
            let b = s[pos + 1];
            Some(
                (
                    MoveOp::AMov(
                        RegA::from_code_spec(f3(b)),
                        RegA::from_code_spec(((b as int / 8) % 8) as u8),
                        NumType::from_code_spec((b as int / 64) as u8),
                    ),
                    pos + 2,
                ),
            )
        } else {
            None
        }
    } else {
        if pos + 3 <= s.len() {
            let b1 = s[pos + 1];
            let b2 = s[pos + 2];
            let i1 = Reg32 { val: f5(b1) };
            let i2 = Reg32 { val: f5(b2) };
            if op == INSTR_SWPA {
                Some(
                    (
                        MoveOp::SwpA(
                            RegA::from_code_spec(f3(b1)),
                            i1,
                            RegA::from_code_spec(f3(b2)),
                            i2,
                        ),
                        pos + 3,
                    ),
                )
            } else if op == INSTR_SWPR {
                Some(
                    (
                        MoveOp::SwpR(
                            RegR::from_code_spec(f3(b1)),
                            i1,
                            RegR::from_code_spec(f3(b2)),
                            i2,
                        ),
                        pos + 3,
                    ),
                )
            } else if op == INSTR_SWPAR {
                Some(
                    (
                        MoveOp::SwpAR(
                            RegA::from_code_spec(f3(b1)),
                            i1,
                            RegR::from_code_spec(f3(b2)),
                            i2,
                        ),
                        pos + 3,
                    ),
                )
            } else if op == INSTR_MOVA {
                Some(
                    (
                        MoveOp::MovA(
                            RegA::from_code_spec(f3(b1)),
                            i1,
                            RegA::from_code_spec(f3(b2)),
                            i2,
                        ),
                        pos + 3,
                    ),
                )
            } else if op == INSTR_MOVR {
                Some(
                    (
                        MoveOp::MovR(
                            RegR::from_code_spec(f3(b1)),
                            i1,
                            RegR::from_code_spec(f3(b2)),
                            i2,
                        ),
                        pos + 3,
                    ),
                )
            } else if op == INSTR_MOVAR {
                Some(
                    (
                        MoveOp::MovAR(
                            RegA::from_code_spec(f3(b1)),
                            i1,
                            RegR::from_code_spec(f3(b2)),
                            i2,
                        ),
                        pos + 3,
                    ),
                )
            } else {
                Some(
                    (
                        MoveOp::MovRA(
                            RegR::from_code_spec(f3(b1)),
                            i1,
                            RegA::from_code_spec(f3(b2)),
                            i2,
                        ),
                        pos + 3,
                    ),
                )
            }
        } else {
            None
        }
    }
}

impl MoveOp {
    /// Writes the instruction's argument bytes; the whole write takes place
    /// or the cursor is unchanged.
    #[verifier::rlimit(100)]
    pub fn write_args(&self, writer: &mut Cursor) -> (r: Result<(), EncodeError>)
        requires
            old(writer).wf_w(),
            old(writer).bit() == 0,
            !old(writer).at_eof(),
            old(writer).data().len() <= 0xFFFF,
            self.wf(),
        ensures
            final(writer).wf_w(),
            final(writer).data().len() == old(writer).data().len(),
            match r {
                Ok(()) => {
                    &&& old(writer).pos() + self.bc() - 1 <= old(writer).data().len()
                    &&& final(writer).data() == old(writer).data().map(
                        |i: int, b: u8|
                            if old(writer).pos() <= i < old(writer).pos() + self.bc() - 1 {
                                args_move(*self)[i - old(writer).pos()]
                            } else {
                                b
                            },
                    )
                    &&& Cursor::advancedn(*old(writer), *final(writer), self.bc() - 1)
                },
                Err(e) => {
                    &&& *final(writer) == *old(writer)
                    &&& old(writer).pos() + self.bc() - 1 > old(writer).data().len()
                    &&& e == EncodeError::Cursor(CursorError::Eof)
                },
            },
    {
        let pos = writer.byte_pos() as usize;
        let need = self.byte_count() as usize - 1;
        if pos + need > writer.data_len() {
            return Err(EncodeError::Cursor(CursorError::Eof));
        }
        proof {
            crate::cursor::lemma_pow2u_vals();
        }
        match self {
            MoveOp::SwpA(r1, i1, r2, i2) => {
                put_u3(writer, r1.code());
                put_u5(writer, i1.val);
                put_u3(writer, r2.code());
                put_u5(writer, i2.val);
            },
            MoveOp::SwpR(r1, i1, r2, i2) => {
                put_u3(writer, r1.code());
                put_u5(writer, i1.val);
                put_u3(writer, r2.code());
                put_u5(writer, i2.val);
            },
            MoveOp::SwpAR(r1, i1, r2, i2) => {
                put_u3(writer, r1.code());
                put_u5(writer, i1.val);
                put_u3(writer, r2.code());
                put_u5(writer, i2.val);
            },
            MoveOp::AMov(r1, r2, nt) => {
                put_u3(writer, r1.code());
                put_u3(writer, r2.code());
                put_u2(writer, nt.code());
            },
            MoveOp::MovA(r1, i1, r2, i2) => {
                put_u3(writer, r1.code());
                put_u5(writer, i1.val);
                put_u3(writer, r2.code());
                put_u5(writer, i2.val);
            },
            MoveOp::MovR(r1, i1, r2, i2) => {
                put_u3(writer, r1.code());
                put_u5(writer, i1.val);
                put_u3(writer, r2.code());
                put_u5(writer, i2.val);
            },
            MoveOp::MovAR(r1, i1, r2, i2) => {
                put_u3(writer, r1.code());
                put_u5(writer, i1.val);
                put_u3(writer, r2.code());
                put_u5(writer, i2.val);
            },
            MoveOp::MovRA(r1, i1, r2, i2) => {
                put_u3(writer, r1.code());
                put_u5(writer, i1.val);
                put_u3(writer, r2.code());
                put_u5(writer, i2.val);
            },
        }
        proof {
            assert(final(writer).data() =~= old(writer).data().map(
                |i: int, b: u8|
                    if old(writer).pos() <= i < old(writer).pos() + self.bc() - 1 {
                        args_move(*self)[i - old(writer).pos()]
                    } else {
                        b
                    },
            ));
        }
        Ok(())
    }

    /// Reads a move instruction; the byte at the cursor is known to lie in
    /// the category's opcode range.
    #[verifier::rlimit(100)]
    pub fn read(reader: &mut Cursor) -> (r: Result<MoveOp, DecodeError>)
        requires
            old(reader).wf(),
            old(reader).bit() == 0,
            !old(reader).at_eof(),
            old(reader).data().len() <= 0xFFFF,
            old(reader).pos() < old(reader).data().len(),
            INSTR_SWPA <= old(reader).data()[old(reader).pos()] <= INSTR_MOVRA,
        ensures
            final(reader).wf(),
            !final(reader).at_eof(),
            final(reader).data() == old(reader).data(),
            match r {
                Ok(op) => {
                    &&& parse_move(old(reader).data(), old(reader).pos()) matches Some((ov, p))
                        && op == ov && final(reader).pos() == p && final(reader).bit() == 0
                },
                Err(e) => {
                    &&& parse_move(old(reader).data(), old(reader).pos()) is None
                    &&& e matches DecodeError::Cursor(_)
                },
            },
    {
        proof {
            reveal(parse_move);
        }
        proof {
            crate::cursor::lemma_pow2u_vals();
        }
        let op = match reader.read_u8() {
            Ok(b) => b,
            Err(e) => {
                proof {
                    assert(false);
                }
                return Err(DecodeError::Cursor(e));
            },
        };
        if op == INSTR_AMOV {
            let c1 = match reader.read_u3() {
                Ok(c) => c,
                Err(e) => {
                    return Err(DecodeError::Cursor(e));
                },
            };
            let c2 = match reader.read_u3() {
                Ok(c) => c,
                Err(e) => {
                    proof {
                        assert(false);
                    }
                    return Err(DecodeError::Cursor(e));
                },
            };
            let nt = match reader.read_u2() {
                Ok(c) => c,
                Err(e) => {
                    proof {
                        assert(false);
                    }
                    return Err(DecodeError::Cursor(e));
                },
            };
            proof {
                vstd::arithmetic::div_mod::lemma_small_mod(
                    (old(reader).data()[old(reader).pos() + 1] as int / 64) as nat,
                    4,
                );
            }
            Ok(MoveOp::AMov(RegA::from_code(c1), RegA::from_code(c2), NumType::from_code(nt)))
        } else {
            let c1 = match reader.read_u3() {
                Ok(c) => c,
                Err(e) => {
                    return Err(DecodeError::Cursor(e));
                },
            };
            let i1 = match reader.read_u5() {
                Ok(v) => v,
                Err(e) => {
                    proof {
                        assert(false);
                    }
                    return Err(DecodeError::Cursor(e));
                },
            };
            let c2 = match reader.read_u3() {
                Ok(c) => c,
                Err(e) => {
                    return Err(DecodeError::Cursor(e));
                },
            };
            let i2 = match reader.read_u5() {
                Ok(v) => v,
                Err(e) => {
                    proof {
                        assert(false);
                    }
                    return Err(DecodeError::Cursor(e));
                },
            };
            proof {
                vstd::arithmetic::div_mod::lemma_small_mod(
                    (old(reader).data()[old(reader).pos() + 1] as int / 8) as nat,
                    32,
                );
                vstd::arithmetic::div_mod::lemma_small_mod(
                    (old(reader).data()[old(reader).pos() + 2] as int / 8) as nat,
                    32,
                );
            }
            let j1 = Reg32::with(i1);
            let j2 = Reg32::with(i2);
            if op == INSTR_SWPA {
                Ok(MoveOp::SwpA(RegA::from_code(c1), j1, RegA::from_code(c2), j2))
            } else if op == INSTR_SWPR {
                Ok(MoveOp::SwpR(RegR::from_code(c1), j1, RegR::from_code(c2), j2))
            } else if op == INSTR_SWPAR {
                Ok(MoveOp::SwpAR(RegA::from_code(c1), j1, RegR::from_code(c2), j2))
            } else if op == INSTR_MOVA {
                Ok(MoveOp::MovA(RegA::from_code(c1), j1, RegA::from_code(c2), j2))
            } else if op == INSTR_MOVR {
                Ok(MoveOp::MovR(RegR::from_code(c1), j1, RegR::from_code(c2), j2))
            } else if op == INSTR_MOVAR {
                Ok(MoveOp::MovAR(RegA::from_code(c1), j1, RegR::from_code(c2), j2))
            } else {
                Ok(MoveOp::MovRA(RegR::from_code(c1), j1, RegA::from_code(c2), j2))
            }
        }
    }
}

/// The encoded argument bytes of a comparison instruction.
pub open spec fn args_cmp(op: CmpOp) -> Seq<u8> {
    match op {
        CmpOp::Gt(r1, i1, r2, i2) => seq![
            pk35(r1.code_spec(), i1.val),
            pk35(r2.code_spec(), i2.val),
        ],
        CmpOp::Lt(r1, i1, r2, i2) => seq![
            pk35(r1.code_spec(), i1.val),
            pk35(r2.code_spec(), i2.val),
        ],
        CmpOp::EqA(r1, i1, r2, i2) => seq![
            pk35(r1.code_spec(), i1.val),
            pk35(r2.code_spec(), i2.val),
        ],
        CmpOp::EqR(r1, i1, r2, i2) => seq![
            pk35(r1.code_spec(), i1.val),
            pk35(r2.code_spec(), i2.val),
        ],
        CmpOp::Len(r, i) => seq![pk35(r.code_spec(), i.val)],
        CmpOp::Cnt(r, i) => seq![pk35(r.code_spec(), i.val)],
        CmpOp::St2A => Seq::empty(),
        CmpOp::A2St => Seq::empty(),
    }
}

/// Parses a comparison instruction at `pos`; the opcode byte is known to be
/// in the category's range.
#[verifier::opaque]
pub open spec fn parse_cmp(s: Seq<u8>, pos: int) -> Option<(CmpOp, int)> {
    let op = s[pos];
    if op == INSTR_ST2A {
        Some((CmpOp::St2A, pos + 1))
    } else if op == INSTR_A2ST {
        Some((CmpOp::A2St, pos + 1))
    } else if op == INSTR_LEN || op == INSTR_CNT {
        if pos + 2 <= s.len() {
            let b = s[pos + 1];
            let r = RegA::from_code_spec(f3(b));
            let i = Reg32 { val: f5(b) };
            if op == INSTR_LEN {
                Some((CmpOp::Len(r, i), pos + 2))
            } else {
                Some((CmpOp::Cnt(r, i), pos + 2))
            }
        } else {
            None
        }
    } else {
        if pos + 3 <= s.len() {
            let b1 = s[pos + 1];
            let b2 = s[pos + 2];
            let i1 = Reg32 { val: f5(b1) };
            let i2 = Reg32 { val: f5(b2) };
            if op == INSTR_GT {
                Some(
                    (CmpOp::Gt(RegA::from_code_spec(f3(b1)), i1, RegA::from_code_spec(f3(b2)), i2), pos
                        + 3),
                )
            } else if op == INSTR_LT {
                Some(
                    (CmpOp::Lt(RegR::from_code_spec(f3(b1)), i1, RegR::from_code_spec(f3(b2)), i2), pos
                        + 3),
                )
            } else if op == INSTR_EQA {
                Some(
                    (CmpOp::EqA(RegA::from_code_spec(f3(b1)), i1, RegA::from_code_spec(f3(b2)), i2), pos
                        + 3),
                )
            } else {
                Some(
                    (CmpOp::EqR(RegR::from_code_spec(f3(b1)), i1, RegR::from_code_spec(f3(b2)), i2), pos
                        + 3),
                )
            }
        } else {
            None
        }
    }
}

impl CmpOp {
    /// Writes the instruction's argument bytes; the whole write takes place
    /// or the cursor is unchanged.
    #[verifier::rlimit(100)]
    pub fn write_args(&self, writer: &mut Cursor) -> (r: Result<(), EncodeError>)
        requires
            old(writer).wf_w(),
            old(writer).bit() == 0,
            !old(writer).at_eof(),
            old(writer).data().len() <= 0xFFFF,
            self.wf(),
        ensures
            final(writer).wf_w(),
            final(writer).data().len() == old(writer).data().len(),
            match r {
                Ok(()) => {
                    &&& old(writer).pos() + self.bc() - 1 <= old(writer).data().len()
                    &&& final(writer).data() == old(writer).data().map(
                        |i: int, b: u8|
                            if old(writer).pos() <= i < old(writer).pos() + self.bc() - 1 {
                                args_cmp(*self)[i - old(writer).pos()]
                            } else {
                                b
                            },
                    )
                    &&& Cursor::advancedn(*old(writer), *final(writer), self.bc() - 1)
                },
                Err(e) => {
                    &&& *final(writer) == *old(writer)
                    &&& old(writer).pos() + self.bc() - 1 > old(writer).data().len()
                    &&& e == EncodeError::Cursor(CursorError::Eof)
                },
            },
    {
        let pos = writer.byte_pos() as usize;
        let need = self.byte_count() as usize - 1;
        if pos + need > writer.data_len() {
            return Err(EncodeError::Cursor(CursorError::Eof));
        }
        proof {
            crate::cursor::lemma_pow2u_vals();
        }
        match self {
            CmpOp::Gt(r1, i1, r2, i2) => {
                put_u3(writer, r1.code());
                put_u5(writer, i1.val);
                put_u3(writer, r2.code());
                put_u5(writer, i2.val);
            },
            CmpOp::Lt(r1, i1, r2, i2) => {
                put_u3(writer, r1.code());
                put_u5(writer, i1.val);
                put_u3(writer, r2.code());
                put_u5(writer, i2.val);
            },
            CmpOp::EqA(r1, i1, r2, i2) => {
                put_u3(writer, r1.code());
                put_u5(writer, i1.val);
                put_u3(writer, r2.code());
                put_u5(writer, i2.val);
            },
            CmpOp::EqR(r1, i1, r2, i2) => {
                put_u3(writer, r1.code());
                put_u5(writer, i1.val);
                put_u3(writer, r2.code());
                put_u5(writer, i2.val);
            },
            CmpOp::Len(r, i) => {
                put_u3(writer, r.code());
                put_u5(writer, i.val);
            },
            CmpOp::Cnt(r, i) => {
                put_u3(writer, r.code());
                put_u5(writer, i.val);
            },
            CmpOp::St2A => {},
            CmpOp::A2St => {},
        }
        proof {
            assert(final(writer).data() =~= old(writer).data().map(
                |i: int, b: u8|
                    if old(writer).pos() <= i < old(writer).pos() + self.bc() - 1 {
                        args_cmp(*self)[i - old(writer).pos()]
                    } else {
                        b
                    },
            ));
        }
        Ok(())
    }

    /// Reads a comparison instruction; the byte at the cursor is known to
    /// lie in the category's opcode range.
    #[verifier::rlimit(100)]
    pub fn read(reader: &mut Cursor) -> (r: Result<CmpOp, DecodeError>)
        requires
            old(reader).wf(),
            old(reader).bit() == 0,
            !old(reader).at_eof(),
            old(reader).data().len() <= 0xFFFF,
            old(reader).pos() < old(reader).data().len(),
            INSTR_GT <= old(reader).data()[old(reader).pos()] <= INSTR_A2ST,
        ensures
            final(reader).wf(),
            !final(reader).at_eof(),
            final(reader).data() == old(reader).data(),
            match r {
                Ok(op) => {
                    &&& parse_cmp(old(reader).data(), old(reader).pos()) matches Some((ov, p))
                        && op == ov && final(reader).pos() == p && final(reader).bit() == 0
                },
                Err(e) => {
                    &&& parse_cmp(old(reader).data(), old(reader).pos()) is None
                    &&& e matches DecodeError::Cursor(_)
                },
            },
    {
        proof {
            reveal(parse_cmp);
        }
        proof {
            crate::cursor::lemma_pow2u_vals();
        }
        let op = match reader.read_u8() {
            Ok(b) => b,
            Err(e) => {
                proof {
                    assert(false);
                }
                return Err(DecodeError::Cursor(e));
            },
        };
        if op == INSTR_ST2A {
            Ok(CmpOp::St2A)
        } else if op == INSTR_A2ST {
            Ok(CmpOp::A2St)
        } else if op == INSTR_LEN || op == INSTR_CNT {
            let c = match reader.read_u3() {
                Ok(c) => c,
                Err(e) => {
                    return Err(DecodeError::Cursor(e));
                },
            };
            let iv = match reader.read_u5() {
                Ok(v) => v,
                Err(e) => {
                    proof {
                        assert(false);
                    }
                    return Err(DecodeError::Cursor(e));
                },
            };
            proof {
                vstd::arithmetic::div_mod::lemma_small_mod(
                    (old(reader).data()[old(reader).pos() + 1] as int / 8) as nat,
                    32,
                );
            }
            if op == INSTR_LEN {
                Ok(CmpOp::Len(RegA::from_code(c), Reg32::with(iv)))
            } else {
                Ok(CmpOp::Cnt(RegA::from_code(c), Reg32::with(iv)))
            }
        } else {
            let c1 = match reader.read_u3() {
                Ok(c) => c,
                Err(e) => {
                    return Err(DecodeError::Cursor(e));
                },
            };
            let i1 = match reader.read_u5() {
                Ok(v) => v,
                Err(e) => {
                    proof {
                        assert(false);
                    }
                    return Err(DecodeError::Cursor(e));
                },
            };
            let c2 = match reader.read_u3() {
                Ok(c) => c,
                Err(e) => {
                    return Err(DecodeError::Cursor(e));
                },
            };
            let i2 = match reader.read_u5() {
                Ok(v) => v,
                Err(e) => {
                    proof {
                        assert(false);
                    }
                    return Err(DecodeError::Cursor(e));
                },
            };
            proof {
                vstd::arithmetic::div_mod::lemma_small_mod(
                    (old(reader).data()[old(reader).pos() + 1] as int / 8) as nat,
                    32,
                );
                vstd::arithmetic::div_mod::lemma_small_mod(
                    (old(reader).data()[old(reader).pos() + 2] as int / 8) as nat,
                    32,
                );
            }
            let j1 = Reg32::with(i1);
            let j2 = Reg32::with(i2);
            if op == INSTR_GT {
                Ok(CmpOp::Gt(RegA::from_code(c1), j1, RegA::from_code(c2), j2))
            } else if op == INSTR_LT {
                Ok(CmpOp::Lt(RegR::from_code(c1), j1, RegR::from_code(c2), j2))
            } else if op == INSTR_EQA {
                Ok(CmpOp::EqA(RegA::from_code(c1), j1, RegA::from_code(c2), j2))
            } else {
                Ok(CmpOp::EqR(RegR::from_code(c1), j1, RegR::from_code(c2), j2))
            }
        }
    }
}

/// The encoded argument bytes of an arithmetic instruction.
pub open spec fn args_arith(op: ArithmeticOp) -> Seq<u8> {
    match op {
        ArithmeticOp::Neg(r, i) => seq![pk35(r.code_spec(), i.val)],
        ArithmeticOp::Abs(r, i) => seq![pk35(r.code_spec(), i.val)],
        ArithmeticOp::Stp(up, ar, r, i, step) => seq![
            pk35(r.code_spec(), i.val),
            pk413(
                step,
                if up {
                    1
                } else {
                    0
                },
                ar.code_spec(),
            ),
        ],
        ArithmeticOp::Add(ar, r, s1, s2) => seq![
            pk35(r.code_spec(), s1.val),
            pk53(s2.val, ar.code_spec()),
        ],
        ArithmeticOp::Sub(ar, r, s1, s2) => seq![
            pk35(r.code_spec(), s1.val),
            pk53(s2.val, ar.code_spec()),
        ],
        ArithmeticOp::Mul(ar, r, s1, s2) => seq![
            pk35(r.code_spec(), s1.val),
            pk53(s2.val, ar.code_spec()),
        ],
        ArithmeticOp::Div(ar, r, s1, s2) => seq![
            pk35(r.code_spec(), s1.val),
            pk53(s2.val, ar.code_spec()),
        ],
        ArithmeticOp::Mod(r1, i1, r2, i2, r3, i3) => seq![
            pk35(r1.code_spec(), i1.val),
            pk35(r2.code_spec(), i2.val),
            pk35(r3.code_spec(), i3.val),
        ],
    }
}

/// Parses an arithmetic instruction at `pos`; the opcode byte is known to
/// be in the category's range.
#[verifier::opaque]
pub open spec fn parse_arith(s: Seq<u8>, pos: int) -> Option<(ArithmeticOp, int)> {
    let op = s[pos];
    if op == INSTR_NEG || op == INSTR_ABS {
        if pos + 2 <= s.len() {
            let b = s[pos + 1];
            let r = RegA::from_code_spec(f3(b));
            let i = Reg32 { val: f5(b) };
            if op == INSTR_NEG {
                Some((ArithmeticOp::Neg(r, i), pos + 2))
            } else {
                Some((ArithmeticOp::Abs(r, i), pos + 2))
            }
        } else {
            None
        }
    } else if op == INSTR_STP {
        if pos + 3 <= s.len() {
            let b1 = s[pos + 1];
            let b2 = s[pos + 2];
            Some(
                (
                    ArithmeticOp::Stp(
                        ((b2 as int / 16) % 2) == 1,
                        Arithmetics::from_code_spec((b2 as int / 32) as u8),
                        RegA::from_code_spec(f3(b1)),
                        Reg32 { val: f5(b1) },
                        (b2 as int % 16) as u8,
                    ),
                    pos + 3,
                ),
            )
        } else {
            None
        }
    } else if op == INSTR_MOD {
        if pos + 4 <= s.len() {
            let b1 = s[pos + 1];
            let b2 = s[pos + 2];
            let b3 = s[pos + 3];
            Some(
                (
                    ArithmeticOp::Mod(
                        RegA::from_code_spec(f3(b1)),
                        Reg32 { val: f5(b1) },
                        RegA::from_code_spec(f3(b2)),
                        Reg32 { val: f5(b2) },
                        RegA::from_code_spec(f3(b3)),
                        Reg32 { val: f5(b3) },
                    ),
                    pos + 4,
                ),
            )
        } else {
            None
        }
    } else {
        if pos + 3 <= s.len() {
            let b1 = s[pos + 1];
            let b2 = s[pos + 2];
            let ar = Arithmetics::from_code_spec((b2 as int / 32) as u8);
            let r = RegA::from_code_spec(f3(b1));
            let s1 = Reg32 { val: f5(b1) };
            let s2 = Reg32 { val: (b2 as int % 32) as u8 };
            if op == INSTR_ADD {
                Some((ArithmeticOp::Add(ar, r, s1, s2), pos + 3))
            } else if op == INSTR_SUB {
                Some((ArithmeticOp::Sub(ar, r, s1, s2), pos + 3))
            } else if op == INSTR_MUL {
                Some((ArithmeticOp::Mul(ar, r, s1, s2), pos + 3))
            } else {
                Some((ArithmeticOp::Div(ar, r, s1, s2), pos + 3))
            }
        } else {
            None
        }
    }
}

impl ArithmeticOp {
    /// Writes the instruction's argument bytes; the whole write takes place
    /// or the cursor is unchanged.
    #[verifier::rlimit(100)]
    pub fn write_args(&self, writer: &mut Cursor) -> (r: Result<(), EncodeError>)
        requires
            old(writer).wf_w(),
            old(writer).bit() == 0,
            !old(writer).at_eof(),
            old(writer).data().len() <= 0xFFFF,
            self.wf(),
        ensures
            final(writer).wf_w(),
            final(writer).data().len() == old(writer).data().len(),
            match r {
                Ok(()) => {
                    &&& old(writer).pos() + self.bc() - 1 <= old(writer).data().len()
                    &&& final(writer).data() == old(writer).data().map(
                        |i: int, b: u8|
                            if old(writer).pos() <= i < old(writer).pos() + self.bc() - 1 {
                                args_arith(*self)[i - old(writer).pos()]
                            } else {
                                b
                            },
                    )
                    &&& Cursor::advancedn(*old(writer), *final(writer), self.bc() - 1)
                },
                Err(e) => {
                    &&& *final(writer) == *old(writer)
                    &&& old(writer).pos() + self.bc() - 1 > old(writer).data().len()
                    &&& e == EncodeError::Cursor(CursorError::Eof)
                },
            },
    {
        let pos = writer.byte_pos() as usize;
        let need = self.byte_count() as usize - 1;
        if pos + need > writer.data_len() {
            return Err(EncodeError::Cursor(CursorError::Eof));
        }
        proof {
            crate::cursor::lemma_pow2u_vals();
        }
        match self {
            ArithmeticOp::Neg(r, i) => {
                put_u3(writer, r.code());
                put_u5(writer, i.val);
            },
            ArithmeticOp::Abs(r, i) => {
                put_u3(writer, r.code());
                put_u5(writer, i.val);
            },
            ArithmeticOp::Stp(up, ar, r, i, step) => {
                put_u3(writer, r.code());
                put_u5(writer, i.val);
                put_u4(writer, *step);
                put_bool(writer, *up);
                put_u3(writer, ar.code());
            },
            ArithmeticOp::Add(ar, r, s1, s2) => {
                put_u3(writer, r.code());
                put_u5(writer, s1.val);
                put_u5(writer, s2.val);
                put_u3(writer, ar.code());
            },
            ArithmeticOp::Sub(ar, r, s1, s2) => {
                put_u3(writer, r.code());
                put_u5(writer, s1.val);
                put_u5(writer, s2.val);
                put_u3(writer, ar.code());
            },
            ArithmeticOp::Mul(ar, r, s1, s2) => {
                put_u3(writer, r.code());
                put_u5(writer, s1.val);
                put_u5(writer, s2.val);
                put_u3(writer, ar.code());
            },
            ArithmeticOp::Div(ar, r, s1, s2) => {
                put_u3(writer, r.code());
                put_u5(writer, s1.val);
                put_u5(writer, s2.val);
                put_u3(writer, ar.code());
            },
            ArithmeticOp::Mod(r1, i1, r2, i2, r3, i3) => {
                put_u3(writer, r1.code());
                put_u5(writer, i1.val);
                put_u3(writer, r2.code());
                put_u5(writer, i2.val);
                put_u3(writer, r3.code());
                put_u5(writer, i3.val);
            },
        }
        proof {
            assert(final(writer).data() =~= old(writer).data().map(
                |i: int, b: u8|
                    if old(writer).pos() <= i < old(writer).pos() + self.bc() - 1 {
                        args_arith(*self)[i - old(writer).pos()]
                    } else {
                        b
                    },
            ));
        }
        Ok(())
    }

    /// Reads an arithmetic instruction; the byte at the cursor is known to
    /// lie in the category's opcode range.
    #[verifier::rlimit(100)]
    pub fn read(reader: &mut Cursor) -> (r: Result<ArithmeticOp, DecodeError>)
        requires
            old(reader).wf(),
            old(reader).bit() == 0,
            !old(reader).at_eof(),
            old(reader).data().len() <= 0xFFFF,
            old(reader).pos() < old(reader).data().len(),
            INSTR_NEG <= old(reader).data()[old(reader).pos()] <= INSTR_ABS,
        ensures
            final(reader).wf(),
            !final(reader).at_eof(),
            final(reader).data() == old(reader).data(),
            match r {
                Ok(op) => {
                    &&& parse_arith(old(reader).data(), old(reader).pos()) matches Some((ov, p))
                        && op == ov && final(reader).pos() == p && final(reader).bit() == 0
                },
                Err(e) => {
                    &&& parse_arith(old(reader).data(), old(reader).pos()) is None
                    &&& e matches DecodeError::Cursor(_)
                },
            },
    {
        proof {
            reveal(parse_arith);
        }
        proof {
            crate::cursor::lemma_pow2u_vals();
        }
        let op = match reader.read_u8() {
            Ok(b) => b,
            Err(e) => {
                proof {
                    assert(false);
                }
                return Err(DecodeError::Cursor(e));
            },
        };
        if op == INSTR_NEG || op == INSTR_ABS {
            let c = match reader.read_u3() {
                Ok(c) => c,
                Err(e) => {
                    return Err(DecodeError::Cursor(e));
                },
            };
            let iv = match reader.read_u5() {
                Ok(v) => v,
                Err(e) => {
                    proof {
                        assert(false);
                    }
                    return Err(DecodeError::Cursor(e));
                },
            };
            proof {
                vstd::arithmetic::div_mod::lemma_small_mod(
                    (old(reader).data()[old(reader).pos() + 1] as int / 8) as nat,
                    32,
                );
            }
            if op == INSTR_NEG {
                Ok(ArithmeticOp::Neg(RegA::from_code(c), Reg32::with(iv)))
            } else {
                Ok(ArithmeticOp::Abs(RegA::from_code(c), Reg32::with(iv)))
            }
        } else if op == INSTR_STP {
            let c = match reader.read_u3() {
                Ok(c) => c,
                Err(e) => {
                    return Err(DecodeError::Cursor(e));
                },
            };
            let iv = match reader.read_u5() {
                Ok(v) => v,
                Err(e) => {
                    proof {
                        assert(false);
                    }
                    return Err(DecodeError::Cursor(e));
                },
            };
            let step = match reader.read_u4() {
                Ok(v) => v,
                Err(e) => {
                    return Err(DecodeError::Cursor(e));
                },
            };
            let up = match reader.read_bool() {
                Ok(v) => v,
                Err(e) => {
                    proof {
                        assert(false);
                    }
                    return Err(DecodeError::Cursor(e));
                },
            };
            let arc = match reader.read_u3() {
                Ok(v) => v,
                Err(e) => {
                    proof {
                        assert(false);
                    }
                    return Err(DecodeError::Cursor(e));
                },
            };
            proof {
                vstd::arithmetic::div_mod::lemma_small_mod(
                    (old(reader).data()[old(reader).pos() + 1] as int / 8) as nat,
                    32,
                );
                vstd::arithmetic::div_mod::lemma_small_mod(
                    (old(reader).data()[old(reader).pos() + 2] as int / 32) as nat,
                    8,
                );
            }
            Ok(
                ArithmeticOp::Stp(
                    up,
                    Arithmetics::from_code(arc),
                    RegA::from_code(c),
                    Reg32::with(iv),
                    step,
                ),
            )
        } else if op == INSTR_MOD {
            let c1 = match reader.read_u3() {
                Ok(c) => c,
                Err(e) => {
                    return Err(DecodeError::Cursor(e));
                },
            };
            let i1 = match reader.read_u5() {
                Ok(v) => v,
                Err(e) => {
                    proof {
                        assert(false);
                    }
                    return Err(DecodeError::Cursor(e));
                },
            };
            let c2 = match reader.read_u3() {
                Ok(c) => c,
                Err(e) => {
                    return Err(DecodeError::Cursor(e));
                },
            };
            let i2 = match reader.read_u5() {
                Ok(v) => v,
                Err(e) => {
                    proof {
                        assert(false);
                    }
                    return Err(DecodeError::Cursor(e));
                },
            };
            let c3 = match reader.read_u3() {
                Ok(c) => c,
                Err(e) => {
                    return Err(DecodeError::Cursor(e));
                },
            };
            let i3 = match reader.read_u5() {
                Ok(v) => v,
                Err(e) => {
                    proof {
                        assert(false);
                    }
                    return Err(DecodeError::Cursor(e));
                },
            };
            proof {
                vstd::arithmetic::div_mod::lemma_small_mod(
                    (old(reader).data()[old(reader).pos() + 1] as int / 8) as nat,
                    32,
                );
                vstd::arithmetic::div_mod::lemma_small_mod(
                    (old(reader).data()[old(reader).pos() + 2] as int / 8) as nat,
                    32,
                );
                vstd::arithmetic::div_mod::lemma_small_mod(
                    (old(reader).data()[old(reader).pos() + 3] as int / 8) as nat,
                    32,
                );
            }
            Ok(
                ArithmeticOp::Mod(
                    RegA::from_code(c1),
                    Reg32::with(i1),
                    RegA::from_code(c2),
                    Reg32::with(i2),
                    RegA::from_code(c3),
                    Reg32::with(i3),
                ),
            )
        } else {
            let c = match reader.read_u3() {
                Ok(c) => c,
                Err(e) => {
                    return Err(DecodeError::Cursor(e));
                },
            };
            let s1 = match reader.read_u5() {
                Ok(v) => v,
                Err(e) => {
                    proof {
                        assert(false);
                    }
                    return Err(DecodeError::Cursor(e));
                },
            };
            let s2 = match reader.read_u5() {
                Ok(v) => v,
                Err(e) => {
                    return Err(DecodeError::Cursor(e));
                },
            };
            let arc = match reader.read_u3() {
                Ok(v) => v,
                Err(e) => {
                    proof {
                        assert(false);
                    }
                    return Err(DecodeError::Cursor(e));
                },
            };
            proof {
                vstd::arithmetic::div_mod::lemma_small_mod(
                    (old(reader).data()[old(reader).pos() + 1] as int / 8) as nat,
                    32,
                );
                vstd::arithmetic::div_mod::lemma_small_mod(
                    (old(reader).data()[old(reader).pos() + 2] as int / 32) as nat,
                    8,
                );
            }
            let ar = Arithmetics::from_code(arc);
            let r = RegA::from_code(c);
            let j1 = Reg32::with(s1);
            let j2 = Reg32::with(s2);
            if op == INSTR_ADD {
                Ok(ArithmeticOp::Add(ar, r, j1, j2))
            } else if op == INSTR_SUB {
                Ok(ArithmeticOp::Sub(ar, r, j1, j2))
            } else if op == INSTR_MUL {
                Ok(ArithmeticOp::Mul(ar, r, j1, j2))
            } else {
                Ok(ArithmeticOp::Div(ar, r, j1, j2))
            }
        }
    }
}

/// The encoded argument bytes of a bitwise instruction.
pub open spec fn args_bitwise(op: BitwiseOp) -> Seq<u8> {
    match op {
        BitwiseOp::And(r, i1, i2, d) => seq![
            pk35(r.code_spec(), i1.val),
            pk53(i2.val, d.val),
        ],
        BitwiseOp::Or(r, i1, i2, d) => seq![pk35(r.code_spec(), i1.val), pk53(i2.val, d.val)],
        BitwiseOp::Xor(r, i1, i2, d) => seq![pk35(r.code_spec(), i1.val), pk53(i2.val, d.val)],
        BitwiseOp::Not(r, i) => seq![pk35(r.code_spec(), i.val)],
        BitwiseOp::Shl(r, i1, i2, d) => seq![pk35(r.code_spec(), i1.val), pk53(i2.val, d.val)],
        BitwiseOp::Shr(r, i1, i2, d) => seq![pk35(r.code_spec(), i1.val), pk53(i2.val, d.val)],
        BitwiseOp::Scl(r, i1, i2, d) => seq![pk35(r.code_spec(), i1.val), pk53(i2.val, d.val)],
        BitwiseOp::Scr(r, i1, i2, d) => seq![pk35(r.code_spec(), i1.val), pk53(i2.val, d.val)],
    }
}

/// Parses a bitwise instruction at `pos`; the opcode byte is known to be in
/// the category's range.
#[verifier::opaque]
pub open spec fn parse_bitwise(s: Seq<u8>, pos: int) -> Option<(BitwiseOp, int)> {
    let op = s[pos];
    if op == INSTR_NOT {
        if pos + 2 <= s.len() {
            let b = s[pos + 1];
            Some((BitwiseOp::Not(RegA::from_code_spec(f3(b)), Reg32 { val: f5(b) }), pos + 2))
        } else {
            None
        }
    } else {
        if pos + 3 <= s.len() {
            let b1 = s[pos + 1];
            let b2 = s[pos + 2];
            let r = RegA::from_code_spec(f3(b1));
            let i1 = Reg32 { val: f5(b1) };
            let i2 = Reg32 { val: (b2 as int % 32) as u8 };
            let d = Reg8 { val: (b2 as int / 32) as u8 };
            if op == INSTR_AND {
                Some((BitwiseOp::And(r, i1, i2, d), pos + 3))
            } else if op == INSTR_OR {
                Some((BitwiseOp::Or(r, i1, i2, d), pos + 3))
            } else if op == INSTR_XOR {
                Some((BitwiseOp::Xor(r, i1, i2, d), pos + 3))
            } else if op == INSTR_SHL {
                Some((BitwiseOp::Shl(r, i1, i2, d), pos + 3))
            } else if op == INSTR_SHR {
                Some((BitwiseOp::Shr(r, i1, i2, d), pos + 3))
            } else if op == INSTR_SCL {
                Some((BitwiseOp::Scl(r, i1, i2, d), pos + 3))
            } else {
                Some((BitwiseOp::Scr(r, i1, i2, d), pos + 3))
            }
        } else {
            None
        }
    }
}

impl BitwiseOp {
    /// Writes the instruction's argument bytes; the whole write takes place
    /// or the cursor is unchanged.
    #[verifier::rlimit(100)]
    pub fn write_args(&self, writer: &mut Cursor) -> (r: Result<(), EncodeError>)
        requires
            old(writer).wf_w(),
            old(writer).bit() == 0,
            !old(writer).at_eof(),
            old(writer).data().len() <= 0xFFFF,
            self.wf(),
        ensures
            final(writer).wf_w(),
            final(writer).data().len() == old(writer).data().len(),
            match r {
                Ok(()) => {
                    &&& old(writer).pos() + self.bc() - 1 <= old(writer).data().len()
                    &&& final(writer).data() == old(writer).data().map(
                        |i: int, b: u8|
                            if old(writer).pos() <= i < old(writer).pos() + self.bc() - 1 {
                                args_bitwise(*self)[i - old(writer).pos()]
                            } else {
                                b
                            },
                    )
                    &&& Cursor::advancedn(*old(writer), *final(writer), self.bc() - 1)
                },
                Err(e) => {
                    &&& *final(writer) == *old(writer)
                    &&& old(writer).pos() + self.bc() - 1 > old(writer).data().len()
                    &&& e == EncodeError::Cursor(CursorError::Eof)
                },
            },
    {
        let pos = writer.byte_pos() as usize;
        let need = self.byte_count() as usize - 1;
        if pos + need > writer.data_len() {
            return Err(EncodeError::Cursor(CursorError::Eof));
        }
        proof {
            crate::cursor::lemma_pow2u_vals();
        }
        match self {
            BitwiseOp::And(r, i1, i2, d) => {
                put_u3(writer, r.code());
                put_u5(writer, i1.val);
                put_u5(writer, i2.val);
                put_u3(writer, d.val);
            },
            BitwiseOp::Or(r, i1, i2, d) => {
                put_u3(writer, r.code());
                put_u5(writer, i1.val);
                put_u5(writer, i2.val);
                put_u3(writer, d.val);
            },
            BitwiseOp::Xor(r, i1, i2, d) => {
                put_u3(writer, r.code());
                put_u5(writer, i1.val);
                put_u5(writer, i2.val);
                put_u3(writer, d.val);
            },
            BitwiseOp::Not(r, i) => {
                put_u3(writer, r.code());
                put_u5(writer, i.val);
            },
            BitwiseOp::Shl(r, i1, i2, d) => {
                put_u3(writer, r.code());
                put_u5(writer, i1.val);
                put_u5(writer, i2.val);
                put_u3(writer, d.val);
            },
            BitwiseOp::Shr(r, i1, i2, d) => {
                put_u3(writer, r.code());
                put_u5(writer, i1.val);
                put_u5(writer, i2.val);
                put_u3(writer, d.val);
            },
            BitwiseOp::Scl(r, i1, i2, d) => {
                put_u3(writer, r.code());
                put_u5(writer, i1.val);
                put_u5(writer, i2.val);
                put_u3(writer, d.val);
            },
            BitwiseOp::Scr(r, i1, i2, d) => {
                put_u3(writer, r.code());
                put_u5(writer, i1.val);
                put_u5(writer, i2.val);
                put_u3(writer, d.val);
            },
        }
        proof {
            assert(final(writer).data() =~= old(writer).data().map(
                |i: int, b: u8|
                    if old(writer).pos() <= i < old(writer).pos() + self.bc() - 1 {
                        args_bitwise(*self)[i - old(writer).pos()]
                    } else {
                        b
                    },
            ));
        }
        Ok(())
    }

    /// Reads a bitwise instruction; the byte at the cursor is known to lie
    /// in the category's opcode range.
    #[verifier::rlimit(100)]
    #[verifier::spinoff_prover]
    pub fn read(reader: &mut Cursor) -> (r: Result<BitwiseOp, DecodeError>)
        requires
            old(reader).wf(),
            old(reader).bit() == 0,
            !old(reader).at_eof(),
            old(reader).data().len() <= 0xFFFF,
            old(reader).pos() < old(reader).data().len(),
            INSTR_AND <= old(reader).data()[old(reader).pos()] <= INSTR_SCR,
        ensures
            final(reader).wf(),
            !final(reader).at_eof(),
            final(reader).data() == old(reader).data(),
            match r {
                Ok(op) => {
                    &&& parse_bitwise(old(reader).data(), old(reader).pos()) matches Some((ov, p))
                        && op == ov && final(reader).pos() == p && final(reader).bit() == 0
                },
                Err(e) => {
                    &&& parse_bitwise(old(reader).data(), old(reader).pos()) is None
                    &&& e matches DecodeError::Cursor(_)
                },
            },
    {
        proof {
            reveal(parse_bitwise);
        }
        proof {
            crate::cursor::lemma_pow2u_vals();
        }
        let op = match reader.read_u8() {
            Ok(b) => b,
            Err(e) => {
                proof {
                    assert(false);
                }
                return Err(DecodeError::Cursor(e));
            },
        };
        if op == INSTR_NOT {
            let c = match reader.read_u3() {
                Ok(c) => c,
                Err(e) => {
                    return Err(DecodeError::Cursor(e));
                },
            };
            let iv = match reader.read_u5() {
                Ok(v) => v,
                Err(e) => {
                    proof {
                        assert(false);
                    }
                    return Err(DecodeError::Cursor(e));
                },
            };
            proof {
                vstd::arithmetic::div_mod::lemma_small_mod(
                    (old(reader).data()[old(reader).pos() + 1] as int / 8) as nat,
                    32,
                );
            }
            Ok(BitwiseOp::Not(RegA::from_code(c), Reg32::with(iv)))
        } else {
            let c = match reader.read_u3() {
                Ok(c) => c,
                Err(e) => {
                    return Err(DecodeError::Cursor(e));
                },
            };
            let i1 = match reader.read_u5() {
                Ok(v) => v,
                Err(e) => {
                    proof {
                        assert(false);
                    }
                    return Err(DecodeError::Cursor(e));
                },
            };
            let i2 = match reader.read_u5() {
                Ok(v) => v,
                Err(e) => {
                    return Err(DecodeError::Cursor(e));
                },
            };
            let d = match reader.read_u3() {
                Ok(v) => v,
                Err(e) => {
                    proof {
                        assert(false);
                    }
                    return Err(DecodeError::Cursor(e));
                },
            };
            proof {
                let b1 = old(reader).data()[old(reader).pos() + 1];
                let b2 = old(reader).data()[old(reader).pos() + 2];
                assert((b1 as nat) / 1 == b1 as nat) by (nonlinear_arith);
                assert((b2 as nat) / 1 == b2 as nat) by (nonlinear_arith);
                vstd::arithmetic::div_mod::lemma_small_mod(
                    (old(reader).data()[old(reader).pos() + 1] as int / 8) as nat,
                    32,
                );
                vstd::arithmetic::div_mod::lemma_small_mod(
                    (old(reader).data()[old(reader).pos() + 2] as int / 32) as nat,
                    8,
                );
            }
            proof {
                let b1 = old(reader).data()[old(reader).pos() + 1];
                let b2 = old(reader).data()[old(reader).pos() + 2];
                assert(c == f3(b1));
                assert(i1 == f5(b1));
                assert(i2 as int == b2 as int % 32);
                assert(d as int == b2 as int / 32);
            }
            let r = RegA::from_code(c);
            let j1 = Reg32::with(i1);
            let j2 = Reg32::with(i2);
            let d8 = Reg8::with(d);
            if op == INSTR_AND {
                Ok(BitwiseOp::And(r, j1, j2, d8))
            } else if op == INSTR_OR {
                Ok(BitwiseOp::Or(r, j1, j2, d8))
            } else if op == INSTR_XOR {
                Ok(BitwiseOp::Xor(r, j1, j2, d8))
            } else if op == INSTR_SHL {
                Ok(BitwiseOp::Shl(r, j1, j2, d8))
            } else if op == INSTR_SHR {
                Ok(BitwiseOp::Shr(r, j1, j2, d8))
            } else if op == INSTR_SCL {
                Ok(BitwiseOp::Scl(r, j1, j2, d8))
            } else {
                Ok(BitwiseOp::Scr(r, j1, j2, d8))
            }
        }
    }
}

/// Writes a 16-bit word known to fit.
fn put_u16(writer: &mut Cursor, d: u16)
    requires
        old(writer).wf_w(),
        old(writer).bit() == 0,
        old(writer).okn(2),
    ensures
        final(writer).wf_w(),
        final(writer).data().len() == old(writer).data().len(),
        Cursor::wrote(*old(writer), *final(writer), old(writer).pos(), old(writer).pos() + 2),
        final(writer).data()[old(writer).pos()] as int == (d as int) % 256,
        final(writer).data()[old(writer).pos() + 1] as int == (d as int) / 256,
        Cursor::advancedn(*old(writer), *final(writer), 2),
{
    match writer.write_u16(d) {
        Ok(()) => {},
        Err(_) => {
            proof {
                assert(false);
            }
        },
    }
}

/// Writes a length-prefixed byte string known to fit.
fn put_slice(writer: &mut Cursor, d: &Vec<u8>)
    requires
        old(writer).wf_w(),
        old(writer).bit() == 0,
        d@.len() <= 0xFFFF,
        old(writer).okn(2 + d@.len() as int),
    ensures
        final(writer).wf_w(),
        final(writer).data().len() == old(writer).data().len(),
        Cursor::wrote(
            *old(writer),
            *final(writer),
            old(writer).pos(),
            old(writer).pos() + 2 + d@.len(),
        ),
        final(writer).data()[old(writer).pos()] as int == (d@.len() as int) % 256,
        final(writer).data()[old(writer).pos() + 1] as int == (d@.len() as int) / 256,
        (forall|j: int|
            0 <= j < d@.len() ==> final(writer).data()[old(writer).pos() + 2 + j] == d@[j]),
        Cursor::advancedn(*old(writer), *final(writer), 2 + d@.len() as int),
{
    match writer.write_slice(d) {
        Ok(()) => {},
        Err(_) => {
            proof {
                assert(false);
            }
        },
    }
}

/// The encoded argument bytes of a covered string instruction: register
/// indexes as single bytes, offsets as little-endian words, a stored blob
/// with a 16-bit length prefix.
pub open spec fn args_bytes(op: BytesOpV) -> Seq<u8> {
    match op {
        BytesOpV::Put(i, b) => seq![i] + le16(b.len() as u16) + b,
        BytesOpV::Mov(x, y) => seq![x, y],
        BytesOpV::Swp(x, y) => seq![x, y],
        BytesOpV::Fill(i, f, t, v) => seq![i] + le16(f) + le16(t) + seq![v],
        BytesOpV::LenS(i) => seq![i],
        BytesOpV::Count(i, c) => seq![i, c],
        BytesOpV::Cmp(x, y) => seq![x, y],
        BytesOpV::Comm(x, y) => seq![x, y],
        BytesOpV::Find(x, y) => seq![x, y],
        BytesOpV::Join(x, y, d) => seq![x, y, d],
        BytesOpV::Split(x, o, d1, d2) => seq![x] + le16(o) + seq![d1, d2],
        BytesOpV::Ins(x, y, o) => seq![x, y] + le16(o),
        BytesOpV::Del(i, f, t) => seq![i] + le16(f) + le16(t),
        BytesOpV::Transl(x, f, t, d) => seq![x] + le16(f) + le16(t) + seq![d],
        _ => Seq::empty(),
    }
}

/// Parses a string instruction at `pos`; the opcode byte is known to be in
/// the category's range. The two extraction opcodes have no layout and
/// parse to nothing.
#[verifier::opaque]
pub open spec fn parse_bytes(s: Seq<u8>, pos: int) -> Option<(BytesOpV, int)> {
    let op = s[pos];
    if op == INSTR_PUT {
        if pos + 4 <= s.len() {
            let l = rd16(s, pos + 2) as int;
            if l <= 0xFFFB && pos + 4 + l <= s.len() {
                Some((BytesOpV::Put(s[pos + 1], s.subrange(pos + 4, pos + 4 + l)), pos + 4 + l))
            } else {
                None
            }
        } else {
            None
        }
    } else if op == INSTR_LENS {
        if pos + 2 <= s.len() {
            Some((BytesOpV::LenS(s[pos + 1]), pos + 2))
        } else {
            None
        }
    } else if op == INSTR_MOVS || op == INSTR_SWPS || op == INSTR_COUNT || op == INSTR_CMP || op
        == INSTR_COMM || op == INSTR_FIND {
        if pos + 3 <= s.len() {
            let x = s[pos + 1];
            let y = s[pos + 2];
            if op == INSTR_MOVS {
                Some((BytesOpV::Mov(x, y), pos + 3))
            } else if op == INSTR_SWPS {
                Some((BytesOpV::Swp(x, y), pos + 3))
            } else if op == INSTR_COUNT {
                Some((BytesOpV::Count(x, y), pos + 3))
            } else if op == INSTR_CMP {
                Some((BytesOpV::Cmp(x, y), pos + 3))
            } else if op == INSTR_COMM {
                Some((BytesOpV::Comm(x, y), pos + 3))
            } else {
                Some((BytesOpV::Find(x, y), pos + 3))
            }
        } else {
            None
        }
    } else if op == INSTR_FILL {
        if pos + 7 <= s.len() {
            Some(
                (
                    BytesOpV::Fill(s[pos + 1], rd16(s, pos + 2), rd16(s, pos + 4), s[pos + 6]),
                    pos + 7,
                ),
            )
        } else {
            None
        }
    } else if op == INSTR_JOIN {
        if pos + 4 <= s.len() {
            Some((BytesOpV::Join(s[pos + 1], s[pos + 2], s[pos + 3]), pos + 4))
        } else {
            None
        }
    } else if op == INSTR_SPLIT {
        if pos + 6 <= s.len() {
            Some(
                (BytesOpV::Split(s[pos + 1], rd16(s, pos + 2), s[pos + 4], s[pos + 5]), pos + 6),
            )
        } else {
            None
        }
    } else if op == INSTR_INS {
        if pos + 5 <= s.len() {
            Some((BytesOpV::Ins(s[pos + 1], s[pos + 2], rd16(s, pos + 3)), pos + 5))
        } else {
            None
        }
    } else if op == INSTR_DEL {
        if pos + 6 <= s.len() {
            Some((BytesOpV::Del(s[pos + 1], rd16(s, pos + 2), rd16(s, pos + 4)), pos + 6))
        } else {
            None
        }
    } else if op == INSTR_TRANSL {
        if pos + 7 <= s.len() {
            Some(
                (
                    BytesOpV::Transl(s[pos + 1], rd16(s, pos + 2), rd16(s, pos + 4), s[pos + 6]),
                    pos + 7,
                ),
            )
        } else {
            None
        }
    } else {
        None
    }
}

impl BytesOp {
    /// Writes the instruction's argument bytes; the whole write takes
    /// place or the cursor is unchanged. Only covered variants can be
    /// written.
    #[verifier::rlimit(100)]
    #[verifier::spinoff_prover]
    pub fn write_args(&self, writer: &mut Cursor) -> (r: Result<(), EncodeError>)
        requires
            old(writer).wf_w(),
            old(writer).bit() == 0,
            !old(writer).at_eof(),
            old(writer).data().len() <= 0xFFFF,
            self@.wf(),
            self@.covered(),
        ensures
            final(writer).wf_w(),
            final(writer).data().len() == old(writer).data().len(),
            match r {
                Ok(()) => {
                    &&& old(writer).pos() + self@.bc() - 1 <= old(writer).data().len()
                    &&& final(writer).data() == old(writer).data().map(
                        |i: int, b: u8|
                            if old(writer).pos() <= i < old(writer).pos() + self@.bc() - 1 {
                                args_bytes(self@)[i - old(writer).pos()]
                            } else {
                                b
                            },
                    )
                    &&& Cursor::advancedn(*old(writer), *final(writer), self@.bc() - 1)
                },
                Err(e) => {
                    &&& *final(writer) == *old(writer)
                    &&& old(writer).pos() + self@.bc() - 1 > old(writer).data().len()
                    &&& e == EncodeError::Cursor(CursorError::Eof)
                },
            },
    {
        let pos = writer.byte_pos() as usize;
        let need = self.byte_count() as usize - 1;
        if pos + need > writer.data_len() {
            return Err(EncodeError::Cursor(CursorError::Eof));
        }
        match self {
            BytesOp::Put(i, b) => {
                put_u8(writer, *i);
                put_slice(writer, &b.bytes);
            },
            BytesOp::Mov(x, y) => {
                put_u8(writer, *x);
                put_u8(writer, *y);
            },
            BytesOp::Swp(x, y) => {
                put_u8(writer, *x);
                put_u8(writer, *y);
            },
            BytesOp::Fill(i, f, t, v) => {
                put_u8(writer, *i);
                put_u16(writer, *f);
                put_u16(writer, *t);
                put_u8(writer, *v);
            },
            BytesOp::LenS(i) => {
                put_u8(writer, *i);
            },
            BytesOp::Count(i, c) => {
                put_u8(writer, *i);
                put_u8(writer, *c);
            },
            BytesOp::Cmp(x, y) => {
                put_u8(writer, *x);
                put_u8(writer, *y);
            },
            BytesOp::Comm(x, y) => {
                put_u8(writer, *x);
                put_u8(writer, *y);
            },
            BytesOp::Find(x, y) => {
                put_u8(writer, *x);
                put_u8(writer, *y);
            },
            BytesOp::ExtrA(_, _, _, _) => {
                proof {
                    assert(false);
                }
            },
            BytesOp::ExtrR(_, _, _, _) => {
                proof {
                    assert(false);
                }
            },
            BytesOp::Join(x, y, d) => {
                put_u8(writer, *x);
                put_u8(writer, *y);
                put_u8(writer, *d);
            },
            BytesOp::Split(x, o, d1, d2) => {
                put_u8(writer, *x);
                put_u16(writer, *o);
                put_u8(writer, *d1);
                put_u8(writer, *d2);
            },
            BytesOp::Ins(x, y, o) => {
                put_u8(writer, *x);
                put_u8(writer, *y);
                put_u16(writer, *o);
            },
            BytesOp::Del(i, f, t) => {
                put_u8(writer, *i);
                put_u16(writer, *f);
                put_u16(writer, *t);
            },
            BytesOp::Transl(x, f, t, d) => {
                put_u8(writer, *x);
                put_u16(writer, *f);
                put_u16(writer, *t);
                put_u8(writer, *d);
            },
        }
        proof {
            assert(final(writer).data() =~= old(writer).data().map(
                |i: int, b: u8|
                    if old(writer).pos() <= i < old(writer).pos() + self@.bc() - 1 {
                        args_bytes(self@)[i - old(writer).pos()]
                    } else {
                        b
                    },
            ));
        }
        Ok(())
    }

    /// Reads a covered string instruction; the byte at the cursor is known
    /// to lie in the category's opcode range and not to be an extraction
    /// opcode.
    #[verifier::rlimit(100)]
    #[verifier::spinoff_prover]
    pub fn read(reader: &mut Cursor) -> (r: Result<BytesOp, DecodeError>)
        requires
            old(reader).wf(),
            old(reader).bit() == 0,
            !old(reader).at_eof(),
            old(reader).data().len() <= 0xFFFF,
            old(reader).pos() < old(reader).data().len(),
            INSTR_PUT <= old(reader).data()[old(reader).pos()] <= INSTR_TRANSL,
            old(reader).data()[old(reader).pos()] != INSTR_EXTRA,
            old(reader).data()[old(reader).pos()] != INSTR_EXTRR,
        ensures
            final(reader).wf(),
            !final(reader).at_eof(),
            final(reader).data() == old(reader).data(),
            match r {
                Ok(op) => {
                    &&& parse_bytes(old(reader).data(), old(reader).pos()) matches Some((ov, p))
                        && op@ == ov && final(reader).pos() == p && final(reader).bit() == 0
                },
                Err(e) => {
                    &&& parse_bytes(old(reader).data(), old(reader).pos()) is None
                    &&& e matches DecodeError::Cursor(_)
                },
            },
    {
        proof {
            reveal(parse_bytes);
        }
        let op = match reader.read_u8() {
            Ok(b) => b,
            Err(e) => {
                proof {
                    assert(false);
                }
                return Err(DecodeError::Cursor(e));
            },
        };
        if op == INSTR_PUT {
            let i = match reader.read_u8() {
                Ok(b) => b,
                Err(e) => {
                    return Err(DecodeError::Cursor(e));
                },
            };
            let data = match reader.read_slice() {
                Ok(v) => v,
                Err(e) => {
                    return Err(DecodeError::Cursor(e));
                },
            };
            Ok(BytesOp::Put(i, Blob { bytes: data }))
        } else if op == INSTR_LENS {
            let i = match reader.read_u8() {
                Ok(b) => b,
                Err(e) => {
                    return Err(DecodeError::Cursor(e));
                },
            };
            Ok(BytesOp::LenS(i))
        } else if op == INSTR_MOVS || op == INSTR_SWPS || op == INSTR_COUNT || op == INSTR_CMP
            || op == INSTR_COMM || op == INSTR_FIND {
            let x = match reader.read_u8() {
                Ok(b) => b,
                Err(e) => {
                    return Err(DecodeError::Cursor(e));
                },
            };
            let y = match reader.read_u8() {
                Ok(b) => b,
                Err(e) => {
                    return Err(DecodeError::Cursor(e));
                },
            };
            if op == INSTR_MOVS {
                Ok(BytesOp::Mov(x, y))
            } else if op == INSTR_SWPS {
                Ok(BytesOp::Swp(x, y))
            } else if op == INSTR_COUNT {
                Ok(BytesOp::Count(x, y))
            } else if op == INSTR_CMP {
                Ok(BytesOp::Cmp(x, y))
            } else if op == INSTR_COMM {
                Ok(BytesOp::Comm(x, y))
            } else {
                Ok(BytesOp::Find(x, y))
            }
        } else if op == INSTR_FILL {
            let i = match reader.read_u8() {
                Ok(b) => b,
                Err(e) => {
                    return Err(DecodeError::Cursor(e));
                },
            };
            let f = match reader.read_u16() {
                Ok(w) => w,
                Err(e) => {
                    return Err(DecodeError::Cursor(e));
                },
            };
            let t = match reader.read_u16() {
                Ok(w) => w,
                Err(e) => {
                    return Err(DecodeError::Cursor(e));
                },
            };
            let v = match reader.read_u8() {
                Ok(b) => b,
                Err(e) => {
                    return Err(DecodeError::Cursor(e));
                },
            };
            Ok(BytesOp::Fill(i, f, t, v))
        } else if op == INSTR_JOIN {
            let x = match reader.read_u8() {
                Ok(b) => b,
                Err(e) => {
                    return Err(DecodeError::Cursor(e));
                },
            };
            let y = match reader.read_u8() {
                Ok(b) => b,
                Err(e) => {
                    return Err(DecodeError::Cursor(e));
                },
            };
            let d = match reader.read_u8() {
                Ok(b) => b,
                Err(e) => {
                    return Err(DecodeError::Cursor(e));
                },
            };
            Ok(BytesOp::Join(x, y, d))
        } else if op == INSTR_SPLIT {
            let x = match reader.read_u8() {
                Ok(b) => b,
                Err(e) => {
                    return Err(DecodeError::Cursor(e));
                },
            };
            let o = match reader.read_u16() {
                Ok(w) => w,
                Err(e) => {
                    return Err(DecodeError::Cursor(e));
                },
            };
            let d1 = match reader.read_u8() {
                Ok(b) => b,
                Err(e) => {
                    return Err(DecodeError::Cursor(e));
                },
            };
            let d2 = match reader.read_u8() {
                Ok(b) => b,
                Err(e) => {
                    return Err(DecodeError::Cursor(e));
                },
            };
            Ok(BytesOp::Split(x, o, d1, d2))
        } else if op == INSTR_INS {
            let x = match reader.read_u8() {
                Ok(b) => b,
                Err(e) => {
                    return Err(DecodeError::Cursor(e));
                },
            };
            let y = match reader.read_u8() {
                Ok(b) => b,
                Err(e) => {
                    return Err(DecodeError::Cursor(e));
                },
            };
            let o = match reader.read_u16() {
                Ok(w) => w,
                Err(e) => {
                    return Err(DecodeError::Cursor(e));
                },
            };
            Ok(BytesOp::Ins(x, y, o))
        } else if op == INSTR_DEL {
            let i = match reader.read_u8() {
                Ok(b) => b,
                Err(e) => {
                    return Err(DecodeError::Cursor(e));
                },
            };
            let f = match reader.read_u16() {
                Ok(w) => w,
                Err(e) => {
                    return Err(DecodeError::Cursor(e));
                },
            };
            let t = match reader.read_u16() {
                Ok(w) => w,
                Err(e) => {
                    return Err(DecodeError::Cursor(e));
                },
            };
            Ok(BytesOp::Del(i, f, t))
        } else {
            let x = match reader.read_u8() {
                Ok(b) => b,
                Err(e) => {
                    return Err(DecodeError::Cursor(e));
                },
            };
            let f = match reader.read_u16() {
                Ok(w) => w,
                Err(e) => {
                    return Err(DecodeError::Cursor(e));
                },
            };
            let t = match reader.read_u16() {
                Ok(w) => w,
                Err(e) => {
                    return Err(DecodeError::Cursor(e));
                },
            };
            let d = match reader.read_u8() {
                Ok(b) => b,
                Err(e) => {
                    return Err(DecodeError::Cursor(e));
                },
            };
            Ok(BytesOp::Transl(x, f, t, d))
        }
    }
}

impl ControlFlowOp {
    /// Writes the instruction's argument bytes; the whole write takes place
    /// or the cursor is unchanged.
    pub fn write_args(&self, writer: &mut Cursor) -> (r: Result<(), EncodeError>)
        requires
            old(writer).wf_w(),
            old(writer).bit() == 0,
            !old(writer).at_eof(),
            old(writer).data().len() <= 0xFFFF,
        ensures
            final(writer).wf_w(),
            final(writer).data().len() == old(writer).data().len(),
            match r {
                Ok(()) => {
                    &&& old(writer).pos() + self@.bc() - 1 <= old(writer).data().len()
                    &&& final(writer).data() == old(writer).data().map(
                        |i: int, b: u8|
                            if old(writer).pos() <= i < old(writer).pos() + self@.bc() - 1 {
                                args_cf(self@)[i - old(writer).pos()]
                            } else {
                                b
                            },
                    )
                    &&& Cursor::advancedn(*old(writer), *final(writer), self@.bc() - 1)
                },
                Err(e) => {
                    &&& *final(writer) == *old(writer)
                    &&& old(writer).pos() + self@.bc() - 1 > old(writer).data().len()
                    &&& e == EncodeError::Cursor(CursorError::Eof)
                },
            },
    {
        let pos = writer.byte_pos() as usize;
        let need = self.byte_count() as usize - 1;
        if pos + need > writer.data_len() {
            return Err(EncodeError::Cursor(CursorError::Eof));
        }
        match self {
            ControlFlowOp::Fail => {},
            ControlFlowOp::Succ => {},
            ControlFlowOp::Ret => {},
            ControlFlowOp::Jmp(p) => {
                match writer.write_u16(*p) {
                    Ok(()) => {},
                    Err(e) => {
                        proof {
                            assert(false);
                        }
                        return Err(EncodeError::Cursor(e));
                    },
                }
            },
            ControlFlowOp::Jif(p) => {
                match writer.write_u16(*p) {
                    Ok(()) => {},
                    Err(e) => {
                        proof {
                            assert(false);
                        }
                        return Err(EncodeError::Cursor(e));
                    },
                }
            },
            ControlFlowOp::Routine(p) => {
                match writer.write_u16(*p) {
                    Ok(()) => {},
                    Err(e) => {
                        proof {
                            assert(false);
                        }
                        return Err(EncodeError::Cursor(e));
                    },
                }
            },
            ControlFlowOp::Call(site) => {
                match writer.write_u16(site.pos) {
                    Ok(()) => {},
                    Err(e) => {
                        proof {
                            assert(false);
                        }
                        return Err(EncodeError::Cursor(e));
                    },
                }
                match writer.write_bytes32(&site.lib.bytes) {
                    Ok(()) => {},
                    Err(e) => {
                        proof {
                            assert(false);
                        }
                        return Err(EncodeError::Cursor(e));
                    },
                }
            },
            ControlFlowOp::Exec(site) => {
                match writer.write_u16(site.pos) {
                    Ok(()) => {},
                    Err(e) => {
                        proof {
                            assert(false);
                        }
                        return Err(EncodeError::Cursor(e));
                    },
                }
                match writer.write_bytes32(&site.lib.bytes) {
                    Ok(()) => {},
                    Err(e) => {
                        proof {
                            assert(false);
                        }
                        return Err(EncodeError::Cursor(e));
                    },
                }
            },
        }
        proof {
            assert(final(writer).data() =~= old(writer).data().map(
                |i: int, b: u8|
                    if old(writer).pos() <= i < old(writer).pos() + self@.bc() - 1 {
                        args_cf(self@)[i - old(writer).pos()]
                    } else {
                        b
                    },
            ));
        }
        Ok(())
    }

    /// Reads a control-flow instruction; the byte at the cursor is known to
    /// lie in the category's opcode range.
    pub fn read(reader: &mut Cursor) -> (r: Result<ControlFlowOp, DecodeError>)
        requires
            old(reader).wf(),
            old(reader).bit() == 0,
            !old(reader).at_eof(),
            old(reader).data().len() <= 0xFFFF,
            old(reader).pos() < old(reader).data().len(),
            INSTR_FAIL <= old(reader).data()[old(reader).pos()] <= INSTR_RET,
        ensures
            final(reader).wf(),
            !final(reader).at_eof(),
            final(reader).data() == old(reader).data(),
            match r {
                Ok(op) => {
                    &&& parse_cf(old(reader).data(), old(reader).pos()) matches Some((ov, p))
                        && op@ == ov && final(reader).pos() == p && final(reader).bit() == 0
                },
                Err(e) => {
                    &&& parse_cf(old(reader).data(), old(reader).pos()) is None
                    &&& e matches DecodeError::Cursor(_)
                },
            },
    {
        proof {
            reveal(parse_cf);
        }
        let op = match reader.read_u8() {
            Ok(b) => b,
            Err(e) => {
                proof {
                    assert(false);
                }
                return Err(DecodeError::Cursor(e));
            },
        };
        if op == INSTR_FAIL {
            Ok(ControlFlowOp::Fail)
        } else if op == INSTR_SUCC {
            Ok(ControlFlowOp::Succ)
        } else if op == INSTR_RET {
            Ok(ControlFlowOp::Ret)
        } else if op == INSTR_JMP || op == INSTR_JIF || op == INSTR_ROUTINE {
            let w = match reader.read_u16() {
                Ok(w) => w,
                Err(e) => {
                    return Err(DecodeError::Cursor(e));
                },
            };
            if op == INSTR_JMP {
                Ok(ControlFlowOp::Jmp(w))
            } else if op == INSTR_JIF {
                Ok(ControlFlowOp::Jif(w))
            } else {
                Ok(ControlFlowOp::Routine(w))
            }
        } else {
            let w = match reader.read_u16() {
                Ok(w) => w,
                Err(e) => {
                    return Err(DecodeError::Cursor(e));
                },
            };
            let h = match reader.read_bytes32() {
                Ok(h) => h,
                Err(e) => {
                    return Err(DecodeError::Cursor(e));
                },
            };
            let site = LibSite::with(w, LibHash { bytes: h });
            if op == INSTR_CALL {
                Ok(ControlFlowOp::Call(site))
            } else {
                Ok(ControlFlowOp::Exec(site))
            }
        }
    }
}

/// The encoded argument bytes of an instruction; empty for categories the
/// codec does not cover.
pub open spec fn args_instr(iv: InstrV) -> Seq<u8> {
    match iv {
        InstrV::ControlFlow(op) => args_cf(op),
        InstrV::Put(op) => args_put(op),
        InstrV::Move(op) => args_move(op),
        InstrV::Cmp(op) => args_cmp(op),
        InstrV::Arithmetic(op) => args_arith(op),
        InstrV::Bitwise(op) => args_bitwise(op),
        InstrV::Bytes(op) => args_bytes(op),
        _ => Seq::empty(),
    }
}

/// The exact byte string of an instruction: its opcode byte followed by its
/// argument bytes.
pub open spec fn enc_instr(iv: InstrV) -> Seq<u8> {
    seq![iv.opcode()] + args_instr(iv)
}

/// Whether an opcode byte belongs to a decodable instruction.
pub open spec fn opcode_supported(op: u8) -> bool {
    ||| op <= INSTR_SCR
    ||| (INSTR_PUT <= op <= INSTR_TRANSL && op != INSTR_EXTRA && op != INSTR_EXTRR)
    ||| op == INSTR_NOP
}

/// Parses one instruction at `pos`: the opcode byte selects the category,
/// whose argument layout follows.
pub open spec fn parse_instr(s: Seq<u8>, pos: int) -> Option<(InstrV, int)> {
    if !(0 <= pos < s.len()) {
        None
    } else {
        let op = s[pos];
        if op <= INSTR_RET {
            match parse_cf(s, pos) {
                Some((o, p)) => Some((InstrV::ControlFlow(o), p)),
                None => None,
            }
        } else if op <= INSTR_PUTIFR {
            match parse_put(s, pos) {
                Some((o, p)) => Some((InstrV::Put(o), p)),
                None => None,
            }
        } else if op <= INSTR_MOVRA {
            match parse_move(s, pos) {
                Some((o, p)) => Some((InstrV::Move(o), p)),
                None => None,
            }
        } else if op <= INSTR_A2ST {
            match parse_cmp(s, pos) {
                Some((o, p)) => Some((InstrV::Cmp(o), p)),
                None => None,
            }
        } else if op <= INSTR_ABS {
            match parse_arith(s, pos) {
                Some((o, p)) => Some((InstrV::Arithmetic(o), p)),
                None => None,
            }
        } else if op <= INSTR_SCR {
            match parse_bitwise(s, pos) {
                Some((o, p)) => Some((InstrV::Bitwise(o), p)),
                None => None,
            }
        } else if op <= INSTR_TRANSL {
            match parse_bytes(s, pos) {
                Some((o, p)) => Some((InstrV::Bytes(o), p)),
                None => None,
            }
        } else if op == INSTR_NOP {
            Some((InstrV::Nop, pos + 1))
        } else {
            None
        }
    }
}

impl Instr {
    /// Writes the instruction as bytecode: its opcode byte, then its
    /// arguments. The whole write takes place, or the cursor is unchanged.
    #[verifier::rlimit(100)]
    pub fn write(&self, writer: &mut Cursor) -> (r: Result<(), EncodeError>)
        requires
            old(writer).wf_w(),
            old(writer).bit() == 0,
            !old(writer).at_eof(),
            old(writer).data().len() <= 0xFFFF,
            self@.wf(),
        ensures
            final(writer).wf_w(),
            final(writer).data().len() == old(writer).data().len(),
            match r {
                Ok(()) => {
                    &&& self@.codec_supported()
                    &&& old(writer).pos() + self@.bc() <= old(writer).data().len()
                    &&& final(writer).data() == old(writer).data().map(
                        |i: int, b: u8|
                            if old(writer).pos() <= i < old(writer).pos() + self@.bc() {
                                enc_instr(self@)[i - old(writer).pos()]
                            } else {
                                b
                            },
                    )
                    &&& Cursor::advancedn(*old(writer), *final(writer), self@.bc())
                },
                Err(e) => {
                    &&& *final(writer) == *old(writer)
                    &&& match e {
                        EncodeError::UnsupportedInstruction(op) => !self@.codec_supported() && op
                            == self@.opcode(),
                        EncodeError::Cursor(ce) => self@.codec_supported() && ce
                            == CursorError::Eof && old(writer).pos() + self@.bc() > old(
                            writer,
                        ).data().len(),
                        _ => false,
                    }
                },
            },
    {
        match self {
            Instr::Bytes(op) => {
                match op {
                    BytesOp::ExtrA(_, _, _, _) => {
                        return Err(EncodeError::UnsupportedInstruction(op.instr_byte()));
                    },
                    BytesOp::ExtrR(_, _, _, _) => {
                        return Err(EncodeError::UnsupportedInstruction(op.instr_byte()));
                    },
                    _ => {},
                }
            },
            Instr::Digest(op) => {
                return Err(EncodeError::UnsupportedInstruction(op.instr_byte()));
            },
            Instr::Secp256k1(op) => {
                return Err(EncodeError::UnsupportedInstruction(op.instr_byte()));
            },
            Instr::Curve25519(op) => {
                return Err(EncodeError::UnsupportedInstruction(op.instr_byte()));
            },
            _ => {},
        }
        let pos = writer.byte_pos() as usize;
        let need = self.byte_count() as usize;
        if pos + need > writer.data_len() {
            return Err(EncodeError::Cursor(CursorError::Eof));
        }
        put_u8(writer, self.instr_byte());
        let args = match self {
            Instr::ControlFlow(op) => op.write_args(writer),
            Instr::Put(op) => op.write_args(writer),
            Instr::Move(op) => op.write_args(writer),
            Instr::Cmp(op) => op.write_args(writer),
            Instr::Arithmetic(op) => op.write_args(writer),
            Instr::Bitwise(op) => op.write_args(writer),
            Instr::Bytes(op) => op.write_args(writer),
            _ => Ok(()),
        };
        match args {
            Ok(()) => {},
            Err(e) => {
                proof {
                    assert(false);
                }
                return Err(e);
            },
        }
        proof {
            assert(final(writer).data() =~= old(writer).data().map(
                |i: int, b: u8|
                    if old(writer).pos() <= i < old(writer).pos() + self@.bc() {
                        enc_instr(self@)[i - old(writer).pos()]
                    } else {
                        b
                    },
            ));
        }
        Ok(())
    }
}

/// Reads one control-flow instruction as a full instruction.
#[verifier::rlimit(100)]
#[verifier::spinoff_prover]
fn read_instr_cf(reader: &mut Cursor) -> (r: Result<Instr, DecodeError>)
    requires
        old(reader).wf(),
        old(reader).bit() == 0,
        !old(reader).at_eof(),
        old(reader).data().len() <= 0xFFFF,
        old(reader).pos() < old(reader).data().len(),
        INSTR_FAIL <= old(reader).data()[old(reader).pos()] <= INSTR_RET,
    ensures
        final(reader).wf(),
        !final(reader).at_eof(),
        final(reader).data() == old(reader).data(),
        match r {
            Ok(i) => {
                &&& parse_instr(old(reader).data(), old(reader).pos()) matches Some((iv, p)) && i@
                    == iv && final(reader).pos() == p && final(reader).bit() == 0
            },
            Err(e) => {
                &&& parse_instr(old(reader).data(), old(reader).pos()) is None
                &&& e matches DecodeError::Cursor(_)
            },
        },
{
    proof {
        lemma_dispatch_cf(reader.data(), reader.pos());
    }
    match ControlFlowOp::read(reader) {
        Ok(o) => Ok(Instr::ControlFlow(o)),
        Err(e) => Err(e),
    }
}

/// Reads one put instruction as a full instruction.
#[verifier::rlimit(100)]
#[verifier::spinoff_prover]
fn read_instr_put(reader: &mut Cursor) -> (r: Result<Instr, DecodeError>)
    requires
        old(reader).wf(),
        old(reader).bit() == 0,
        !old(reader).at_eof(),
        old(reader).data().len() <= 0xFFFF,
        old(reader).pos() < old(reader).data().len(),
        INSTR_ZEROA <= old(reader).data()[old(reader).pos()] <= INSTR_PUTIFR,
    ensures
        final(reader).wf(),
        !final(reader).at_eof(),
        final(reader).data() == old(reader).data(),
        match r {
            Ok(i) => {
                &&& parse_instr(old(reader).data(), old(reader).pos()) matches Some((iv, p)) && i@
                    == iv && final(reader).pos() == p && final(reader).bit() == 0
            },
            Err(e) => {
                &&& parse_instr(old(reader).data(), old(reader).pos()) is None
                &&& e matches DecodeError::Cursor(_)
            },
        },
{
    proof {
        lemma_dispatch_put(reader.data(), reader.pos());
    }
    match PutOp::read(reader) {
        Ok(o) => Ok(Instr::Put(o)),
        Err(e) => Err(e),
    }
}

/// Reads one move instruction as a full instruction.
#[verifier::rlimit(100)]
#[verifier::spinoff_prover]
fn read_instr_move(reader: &mut Cursor) -> (r: Result<Instr, DecodeError>)
    requires
        old(reader).wf(),
        old(reader).bit() == 0,
        !old(reader).at_eof(),
        old(reader).data().len() <= 0xFFFF,
        old(reader).pos() < old(reader).data().len(),
        INSTR_SWPA <= old(reader).data()[old(reader).pos()] <= INSTR_MOVRA,
    ensures
        final(reader).wf(),
        !final(reader).at_eof(),
        final(reader).data() == old(reader).data(),
        match r {
            Ok(i) => {
                &&& parse_instr(old(reader).data(), old(reader).pos()) matches Some((iv, p)) && i@
                    == iv && final(reader).pos() == p && final(reader).bit() == 0
            },
            Err(e) => {
                &&& parse_instr(old(reader).data(), old(reader).pos()) is None
                &&& e matches DecodeError::Cursor(_)
            },
        },
{
    proof {
        lemma_dispatch_move(reader.data(), reader.pos());
    }
    match MoveOp::read(reader) {
        Ok(o) => Ok(Instr::Move(o)),
        Err(e) => Err(e),
    }
}

/// Reads one comparison instruction as a full instruction.
#[verifier::rlimit(100)]
#[verifier::spinoff_prover]
fn read_instr_cmp(reader: &mut Cursor) -> (r: Result<Instr, DecodeError>)
    requires
        old(reader).wf(),
        old(reader).bit() == 0,
        !old(reader).at_eof(),
        old(reader).data().len() <= 0xFFFF,
        old(reader).pos() < old(reader).data().len(),
        INSTR_GT <= old(reader).data()[old(reader).pos()] <= INSTR_A2ST,
    ensures
        final(reader).wf(),
        !final(reader).at_eof(),
        final(reader).data() == old(reader).data(),
        match r {
            Ok(i) => {
                &&& parse_instr(old(reader).data(), old(reader).pos()) matches Some((iv, p)) && i@
                    == iv && final(reader).pos() == p && final(reader).bit() == 0
            },
            Err(e) => {
                &&& parse_instr(old(reader).data(), old(reader).pos()) is None
                &&& e matches DecodeError::Cursor(_)
            },
        },
{
    proof {
        lemma_dispatch_cmp(reader.data(), reader.pos());
    }
    match CmpOp::read(reader) {
        Ok(o) => Ok(Instr::Cmp(o)),
        Err(e) => Err(e),
    }
}

/// Reads one arithmetic instruction as a full instruction.
#[verifier::rlimit(100)]
#[verifier::spinoff_prover]
fn read_instr_arith(reader: &mut Cursor) -> (r: Result<Instr, DecodeError>)
    requires
        old(reader).wf(),
        old(reader).bit() == 0,
        !old(reader).at_eof(),
        old(reader).data().len() <= 0xFFFF,
        old(reader).pos() < old(reader).data().len(),
        INSTR_NEG <= old(reader).data()[old(reader).pos()] <= INSTR_ABS,
    ensures
        final(reader).wf(),
        !final(reader).at_eof(),
        final(reader).data() == old(reader).data(),
        match r {
            Ok(i) => {
                &&& parse_instr(old(reader).data(), old(reader).pos()) matches Some((iv, p)) && i@
                    == iv && final(reader).pos() == p && final(reader).bit() == 0
            },
            Err(e) => {
                &&& parse_instr(old(reader).data(), old(reader).pos()) is None
                &&& e matches DecodeError::Cursor(_)
            },
        },
{
    proof {
        lemma_dispatch_arith(reader.data(), reader.pos());
    }
    match ArithmeticOp::read(reader) {
        Ok(o) => Ok(Instr::Arithmetic(o)),
        Err(e) => Err(e),
    }
}

/// Reads one bitwise instruction as a full instruction.
#[verifier::rlimit(100)]
#[verifier::spinoff_prover]
fn read_instr_bitwise(reader: &mut Cursor) -> (r: Result<Instr, DecodeError>)
    requires
        old(reader).wf(),
        old(reader).bit() == 0,
        !old(reader).at_eof(),
        old(reader).data().len() <= 0xFFFF,
        old(reader).pos() < old(reader).data().len(),
        INSTR_AND <= old(reader).data()[old(reader).pos()] <= INSTR_SCR,
    ensures
        final(reader).wf(),
        !final(reader).at_eof(),
        final(reader).data() == old(reader).data(),
        match r {
            Ok(i) => {
                &&& parse_instr(old(reader).data(), old(reader).pos()) matches Some((iv, p)) && i@
                    == iv && final(reader).pos() == p && final(reader).bit() == 0
            },
            Err(e) => {
                &&& parse_instr(old(reader).data(), old(reader).pos()) is None
                &&& e matches DecodeError::Cursor(_)
            },
        },
{
    proof {
        lemma_dispatch_bitwise(reader.data(), reader.pos());
    }
    match BitwiseOp::read(reader) {
        Ok(o) => Ok(Instr::Bitwise(o)),
        Err(e) => Err(e),
    }
}


/// In the cf opcode range the instruction parser follows the
/// category parser.
pub proof fn lemma_dispatch_cf(s: Seq<u8>, pos: int)
    requires
        0 <= pos < s.len(),
        s[pos] <= INSTR_RET,
    ensures
        parse_instr(s, pos) == (match parse_cf(s, pos) {
            Some((o, p)) => Some((InstrV::ControlFlow(o), p)),
            None => None,
        }),
{
}

/// In the put opcode range the instruction parser follows the
/// category parser.
pub proof fn lemma_dispatch_put(s: Seq<u8>, pos: int)
    requires
        0 <= pos < s.len(),
        INSTR_RET < s[pos] <= INSTR_PUTIFR,
    ensures
        parse_instr(s, pos) == (match parse_put(s, pos) {
            Some((o, p)) => Some((InstrV::Put(o), p)),
            None => None,
        }),
{
}

/// In the move opcode range the instruction parser follows the
/// category parser.
pub proof fn lemma_dispatch_move(s: Seq<u8>, pos: int)
    requires
        0 <= pos < s.len(),
        INSTR_PUTIFR < s[pos] <= INSTR_MOVRA,
    ensures
        parse_instr(s, pos) == (match parse_move(s, pos) {
            Some((o, p)) => Some((InstrV::Move(o), p)),
            None => None,
        }),
{
}

/// In the cmp opcode range the instruction parser follows the
/// category parser.
pub proof fn lemma_dispatch_cmp(s: Seq<u8>, pos: int)
    requires
        0 <= pos < s.len(),
        INSTR_MOVRA < s[pos] <= INSTR_A2ST,
    ensures
        parse_instr(s, pos) == (match parse_cmp(s, pos) {
            Some((o, p)) => Some((InstrV::Cmp(o), p)),
            None => None,
        }),
{
}

/// In the arith opcode range the instruction parser follows the
/// category parser.
pub proof fn lemma_dispatch_arith(s: Seq<u8>, pos: int)
    requires
        0 <= pos < s.len(),
        INSTR_A2ST < s[pos] <= INSTR_ABS,
    ensures
        parse_instr(s, pos) == (match parse_arith(s, pos) {
            Some((o, p)) => Some((InstrV::Arithmetic(o), p)),
            None => None,
        }),
{
}

/// In the bitwise opcode range the instruction parser follows the
/// category parser.
pub proof fn lemma_dispatch_bitwise(s: Seq<u8>, pos: int)
    requires
        0 <= pos < s.len(),
        INSTR_ABS < s[pos] <= INSTR_SCR,
    ensures
        parse_instr(s, pos) == (match parse_bitwise(s, pos) {
            Some((o, p)) => Some((InstrV::Bitwise(o), p)),
            None => None,
        }),
{
}

/// In the string opcode range the instruction parser follows the
/// category parser, and the extraction opcodes parse to nothing.
pub proof fn lemma_dispatch_bytes(s: Seq<u8>, pos: int)
    requires
        0 <= pos < s.len(),
        INSTR_SCR < s[pos] <= INSTR_TRANSL,
    ensures
        parse_instr(s, pos) == (match parse_bytes(s, pos) {
            Some((o, p)) => Some((InstrV::Bytes(o), p)),
            None => None,
        }),
        (s[pos] == INSTR_EXTRA || s[pos] == INSTR_EXTRR) ==> parse_bytes(s, pos) is None,
{
    reveal(parse_bytes);
}

/// A byte is its own packing of its low 3 and high 5 bits.
pub proof fn lemma_unpk35(b: u8)
    ensures
        pk35(f3(b), f5(b)) == b,
        f3(b) < 8,
        f5(b) < 32,
{
    vstd::arithmetic::div_mod::lemma_fundamental_div_mod(b as int, 8);
}

/// A byte is its own packing of its low 5 and high 3 bits.
pub proof fn lemma_unpk53(b: u8)
    ensures
        pk53((b as int % 32) as u8, (b as int / 32) as u8) == b,
        (b as int % 32) < 32,
        (b as int / 32) < 8,
{
    vstd::arithmetic::div_mod::lemma_fundamental_div_mod(b as int, 32);
}

/// A byte is its own packing of its 4-bit, 1-bit and 3-bit fields.
pub proof fn lemma_unpk413(b: u8)
    ensures
        pk413((b as int % 16) as u8, ((b as int / 16) % 2) as u8, (b as int / 32) as u8) == b,
        (b as int % 16) < 16,
        ((b as int / 16) % 2) < 2,
        (b as int / 32) < 8,
{
    vstd::arithmetic::div_mod::lemma_fundamental_div_mod(b as int, 16);
    vstd::arithmetic::div_mod::lemma_fundamental_div_mod(b as int / 16, 2);
    vstd::arithmetic::div_mod::lemma_div_denominator(b as int, 16, 2);
}

/// A byte is its own packing of its two 3-bit fields and 2-bit field.
pub proof fn lemma_unpk332(b: u8)
    ensures
        pk332(f3(b), ((b as int / 8) % 8) as u8, (b as int / 64) as u8) == b,
        f3(b) < 8,
        ((b as int / 8) % 8) < 8,
        (b as int / 64) < 4,
{
    vstd::arithmetic::div_mod::lemma_fundamental_div_mod(b as int, 8);
    vstd::arithmetic::div_mod::lemma_fundamental_div_mod(b as int / 8, 8);
    vstd::arithmetic::div_mod::lemma_div_denominator(b as int, 8, 8);
}

/// A 3-bit register tag survives its round trip through the wire.
proof fn lemma_code_round_a(c: u8)
    requires
        c < 8,
    ensures
        RegA::from_code_spec(c).code_spec() == c,
{
}

/// A 3-bit register tag survives its round trip through the wire.
proof fn lemma_code_round_r(c: u8)
    requires
        c < 8,
    ensures
        RegR::from_code_spec(c).code_spec() == c,
{
}

/// Pointwise consequences of a subrange equality.
proof fn lemma_splice_index(s: Seq<u8>, a: int, b: int, e: Seq<u8>)
    requires
        0 <= a <= b <= s.len(),
        s.subrange(a, b) == e,
    ensures
        e.len() == b - a,
        forall|j: int| 0 <= j < b - a ==> #[trigger] e[j] == s[a + j],
{
    assert forall|j: int| 0 <= j < b - a implies #[trigger] e[j] == s[a + j] by {
        assert(e[j] == s.subrange(a, b)[j]);
    }
}

/// Decoding an encoded control-flow instruction gives the instruction back.
#[verifier::rlimit(100)]
pub proof fn lemma_cf_iso1(op: ControlFlowOpV, s: Seq<u8>, pos: int)
    requires
        op.wf(),
        0 <= pos,
        pos + op.bc() <= s.len(),
        s.subrange(pos, pos + op.bc()) == seq![op.opcode()] + args_cf(op),
    ensures
        parse_cf(s, pos) == Some((op, pos + op.bc())),
{
    reveal(parse_cf);
    let e = seq![op.opcode()] + args_cf(op);
    lemma_splice_index(s, pos, pos + op.bc(), e);
    assert(e[0] == op.opcode());
    assert(s[pos] == op.opcode());
    match op {
        ControlFlowOpV::Jmp(w) => {
            lemma_le16(w, s, pos + 1);
            assert(e[1] == le16(w)[0] && e[2] == le16(w)[1]);
            assert(s[pos + 1] == le16(w)[0] && s[pos + 2] == le16(w)[1]);
            assert(rd16(s, pos + 1) == w);
        },
        ControlFlowOpV::Jif(w) => {
            lemma_le16(w, s, pos + 1);
            assert(e[1] == le16(w)[0] && e[2] == le16(w)[1]);
            assert(s[pos + 1] == le16(w)[0] && s[pos + 2] == le16(w)[1]);
            assert(rd16(s, pos + 1) == w);
        },
        ControlFlowOpV::Routine(w) => {
            lemma_le16(w, s, pos + 1);
            assert(e[1] == le16(w)[0] && e[2] == le16(w)[1]);
            assert(s[pos + 1] == le16(w)[0] && s[pos + 2] == le16(w)[1]);
            assert(rd16(s, pos + 1) == w);
        },
        ControlFlowOpV::Call(site) => {
            lemma_le16(site.pos, s, pos + 1);
            assert(e[1] == le16(site.pos)[0] && e[2] == le16(site.pos)[1]);
            assert(s[pos + 1] == le16(site.pos)[0] && s[pos + 2] == le16(site.pos)[1]);
            assert(rd16(s, pos + 1) == site.pos);
            assert forall|j: int| 0 <= j < 32 implies s.subrange(pos + 3, pos + 35)[j]
                == site.lib[j] by {
                assert(e[3 + j] == site.lib[j]);
                assert(s[pos + 3 + j] == e[3 + j]);
            }
            assert(s.subrange(pos + 3, pos + 35) =~= site.lib);
        },
        ControlFlowOpV::Exec(site) => {
            lemma_le16(site.pos, s, pos + 1);
            assert(e[1] == le16(site.pos)[0] && e[2] == le16(site.pos)[1]);
            assert(s[pos + 1] == le16(site.pos)[0] && s[pos + 2] == le16(site.pos)[1]);
            assert(rd16(s, pos + 1) == site.pos);
            assert forall|j: int| 0 <= j < 32 implies s.subrange(pos + 3, pos + 35)[j]
                == site.lib[j] by {
                assert(e[3 + j] == site.lib[j]);
                assert(s[pos + 3 + j] == e[3 + j]);
            }
            assert(s.subrange(pos + 3, pos + 35) =~= site.lib);
        },
        _ => {},
    }
}

/// Re-encoding a decoded control-flow instruction reproduces its bytes.
#[verifier::rlimit(100)]
pub proof fn lemma_cf_iso2(s: Seq<u8>, pos: int)
    requires
        0 <= pos < s.len(),
        INSTR_FAIL <= s[pos] <= INSTR_RET,
        parse_cf(s, pos) is Some,
    ensures
        parse_cf(s, pos) matches Some((op, p)) ==> {
            &&& op.wf()
            &&& p == pos + op.bc()
            &&& p <= s.len()
            &&& s.subrange(pos, p) =~= seq![op.opcode()] + args_cf(op)
        },
{
    reveal(parse_cf);
    let (op, p) = parse_cf(s, pos).unwrap();
    match op {
        ControlFlowOpV::Jmp(w) => {
            lemma_le16(w, s, pos + 1);
        },
        ControlFlowOpV::Jif(w) => {
            lemma_le16(w, s, pos + 1);
        },
        ControlFlowOpV::Routine(w) => {
            lemma_le16(w, s, pos + 1);
        },
        ControlFlowOpV::Call(site) => {
            lemma_le16(site.pos, s, pos + 1);
        },
        ControlFlowOpV::Exec(site) => {
            lemma_le16(site.pos, s, pos + 1);
        },
        _ => {},
    }
}

/// Decoding an encoded move instruction gives the instruction back.
#[verifier::rlimit(100)]
#[verifier::spinoff_prover]
pub proof fn lemma_move_iso1(op: MoveOp, s: Seq<u8>, pos: int)
    requires
        op.wf(),
        0 <= pos,
        pos + op.bc() <= s.len(),
        s.subrange(pos, pos + op.bc()) == seq![op.opcode()] + args_move(op),
    ensures
        parse_move(s, pos) == Some((op, pos + op.bc())),
{
    reveal(parse_move);
    let e = seq![op.opcode()] + args_move(op);
    lemma_splice_index(s, pos, pos + op.bc(), e);
    assert(e[0] == op.opcode());
    assert(s[pos] == op.opcode());
    match op {
        MoveOp::AMov(r1, r2, nt) => {
            assert(e[1] == pk332(r1.code_spec(), r2.code_spec(), nt.code_spec()));
            assert(s[pos + 1] == pk332(r1.code_spec(), r2.code_spec(), nt.code_spec()));
            lemma_pk332(r1.code_spec(), r2.code_spec(), nt.code_spec());
            crate::regid::lemma_rega_code_inverse(r1);
            crate::regid::lemma_rega_code_inverse(r2);
        },
        MoveOp::SwpA(r1, i1, r2, i2) => {
            assert(e[1] == pk35(r1.code_spec(), i1.val) && e[2] == pk35(r2.code_spec(), i2.val));
            assert(s[pos + 1] == pk35(r1.code_spec(), i1.val) && s[pos + 2] == pk35(
                r2.code_spec(),
                i2.val,
            ));
            lemma_pk35(r1.code_spec(), i1.val);
            lemma_pk35(r2.code_spec(), i2.val);
            crate::regid::lemma_rega_code_inverse(r1);
            crate::regid::lemma_rega_code_inverse(r2);
        },
        MoveOp::SwpR(r1, i1, r2, i2) => {
            assert(e[1] == pk35(r1.code_spec(), i1.val) && e[2] == pk35(r2.code_spec(), i2.val));
            assert(s[pos + 1] == pk35(r1.code_spec(), i1.val) && s[pos + 2] == pk35(
                r2.code_spec(),
                i2.val,
            ));
            lemma_pk35(r1.code_spec(), i1.val);
            lemma_pk35(r2.code_spec(), i2.val);
            crate::regid::lemma_regr_code_inverse(r1);
            crate::regid::lemma_regr_code_inverse(r2);
        },
        MoveOp::SwpAR(r1, i1, r2, i2) => {
            assert(e[1] == pk35(r1.code_spec(), i1.val) && e[2] == pk35(r2.code_spec(), i2.val));
            assert(s[pos + 1] == pk35(r1.code_spec(), i1.val) && s[pos + 2] == pk35(
                r2.code_spec(),
                i2.val,
            ));
            lemma_pk35(r1.code_spec(), i1.val);
            lemma_pk35(r2.code_spec(), i2.val);
            crate::regid::lemma_rega_code_inverse(r1);
            crate::regid::lemma_regr_code_inverse(r2);
        },
        MoveOp::MovA(r1, i1, r2, i2) => {
            assert(e[1] == pk35(r1.code_spec(), i1.val) && e[2] == pk35(r2.code_spec(), i2.val));
            assert(s[pos + 1] == pk35(r1.code_spec(), i1.val) && s[pos + 2] == pk35(
                r2.code_spec(),
                i2.val,
            ));
            lemma_pk35(r1.code_spec(), i1.val);
            lemma_pk35(r2.code_spec(), i2.val);
            crate::regid::lemma_rega_code_inverse(r1);
            crate::regid::lemma_rega_code_inverse(r2);
        },
        MoveOp::MovR(r1, i1, r2, i2) => {
            assert(e[1] == pk35(r1.code_spec(), i1.val) && e[2] == pk35(r2.code_spec(), i2.val));
            assert(s[pos + 1] == pk35(r1.code_spec(), i1.val) && s[pos + 2] == pk35(
                r2.code_spec(),
                i2.val,
            ));
            lemma_pk35(r1.code_spec(), i1.val);
            lemma_pk35(r2.code_spec(), i2.val);
            crate::regid::lemma_regr_code_inverse(r1);
            crate::regid::lemma_regr_code_inverse(r2);
        },
        MoveOp::MovAR(r1, i1, r2, i2) => {
            assert(e[1] == pk35(r1.code_spec(), i1.val) && e[2] == pk35(r2.code_spec(), i2.val));
            assert(s[pos + 1] == pk35(r1.code_spec(), i1.val) && s[pos + 2] == pk35(
                r2.code_spec(),
                i2.val,
            ));
            lemma_pk35(r1.code_spec(), i1.val);
            lemma_pk35(r2.code_spec(), i2.val);
            crate::regid::lemma_rega_code_inverse(r1);
            crate::regid::lemma_regr_code_inverse(r2);
        },
        MoveOp::MovRA(r1, i1, r2, i2) => {
            assert(e[1] == pk35(r1.code_spec(), i1.val) && e[2] == pk35(r2.code_spec(), i2.val));
            assert(s[pos + 1] == pk35(r1.code_spec(), i1.val) && s[pos + 2] == pk35(
                r2.code_spec(),
                i2.val,
            ));
            lemma_pk35(r1.code_spec(), i1.val);
            lemma_pk35(r2.code_spec(), i2.val);
            crate::regid::lemma_regr_code_inverse(r1);
            crate::regid::lemma_rega_code_inverse(r2);
        },
    }
}

/// Re-encoding a decoded move instruction reproduces its bytes.
#[verifier::rlimit(100)]
#[verifier::spinoff_prover]
pub proof fn lemma_move_iso2(s: Seq<u8>, pos: int)
    requires
        0 <= pos < s.len(),
        INSTR_SWPA <= s[pos] <= INSTR_MOVRA,
        parse_move(s, pos) is Some,
    ensures
        parse_move(s, pos) matches Some((op, p)) ==> {
            &&& op.wf()
            &&& p == pos + op.bc()
            &&& p <= s.len()
            &&& s.subrange(pos, p) =~= seq![op.opcode()] + args_move(op)
        },
{
    reveal(parse_move);
    let (op, p) = parse_move(s, pos).unwrap();
    if s[pos] == INSTR_AMOV {
        let b = s[pos + 1];
        lemma_unpk332(b);
        lemma_code_round_a(f3(b));
        lemma_code_round_a(((b as int / 8) % 8) as u8);
        assert(NumType::from_code_spec((b as int / 64) as u8).code_spec() == (b as int / 64) as u8);
        let e = seq![op.opcode()] + args_move(op);
        assert(e[1] == b);
        assert forall|j: int| 0 <= j < 2 implies s.subrange(pos, p)[j] == e[j] by {
            if j == 0 {
                assert(e[0] == s[pos]);
            } else {
                assert(e[1] == s[pos + 1]);
            }
        }
        assert(s.subrange(pos, p) =~= e);
    } else {
        let b1 = s[pos + 1];
        let b2 = s[pos + 2];
        lemma_unpk35(b1);
        lemma_unpk35(b2);
        lemma_code_round_a(f3(b1));
        lemma_code_round_a(f3(b2));
        lemma_code_round_r(f3(b1));
        lemma_code_round_r(f3(b2));
        let e = seq![op.opcode()] + args_move(op);
        assert(e[1] == b1);
        assert(e[2] == b2);
        assert forall|j: int| 0 <= j < 3 implies s.subrange(pos, p)[j] == e[j] by {
            if j == 0 {
                assert(e[0] == s[pos]);
            } else if j == 1 {
                assert(e[1] == s[pos + 1]);
            } else {
                assert(e[2] == s[pos + 2]);
            }
        }
        assert(s.subrange(pos, p) =~= e);
    }
}

/// Decoding an encoded comparison instruction gives the instruction back.
#[verifier::rlimit(100)]
#[verifier::spinoff_prover]
pub proof fn lemma_cmp_iso1(op: CmpOp, s: Seq<u8>, pos: int)
    requires
        op.wf(),
        0 <= pos,
        pos + op.bc() <= s.len(),
        s.subrange(pos, pos + op.bc()) == seq![op.opcode()] + args_cmp(op),
    ensures
        parse_cmp(s, pos) == Some((op, pos + op.bc())),
{
    reveal(parse_cmp);
    let e = seq![op.opcode()] + args_cmp(op);
    lemma_splice_index(s, pos, pos + op.bc(), e);
    assert(e[0] == op.opcode());
    assert(s[pos] == op.opcode());
    match op {
        CmpOp::Gt(r1, i1, r2, i2) => {
            assert(e[1] == pk35(r1.code_spec(), i1.val) && e[2] == pk35(r2.code_spec(), i2.val));
            assert(s[pos + 1] == pk35(r1.code_spec(), i1.val) && s[pos + 2] == pk35(
                r2.code_spec(),
                i2.val,
            ));
            lemma_pk35(r1.code_spec(), i1.val);
            lemma_pk35(r2.code_spec(), i2.val);
            crate::regid::lemma_rega_code_inverse(r1);
            crate::regid::lemma_rega_code_inverse(r2);
        },
        CmpOp::Lt(r1, i1, r2, i2) => {
            assert(e[1] == pk35(r1.code_spec(), i1.val) && e[2] == pk35(r2.code_spec(), i2.val));
            assert(s[pos + 1] == pk35(r1.code_spec(), i1.val) && s[pos + 2] == pk35(
                r2.code_spec(),
                i2.val,
            ));
            lemma_pk35(r1.code_spec(), i1.val);
            lemma_pk35(r2.code_spec(), i2.val);
            crate::regid::lemma_regr_code_inverse(r1);
            crate::regid::lemma_regr_code_inverse(r2);
        },
        CmpOp::EqA(r1, i1, r2, i2) => {
            assert(e[1] == pk35(r1.code_spec(), i1.val) && e[2] == pk35(r2.code_spec(), i2.val));
            assert(s[pos + 1] == pk35(r1.code_spec(), i1.val) && s[pos + 2] == pk35(
                r2.code_spec(),
                i2.val,
            ));
            lemma_pk35(r1.code_spec(), i1.val);
            lemma_pk35(r2.code_spec(), i2.val);
            crate::regid::lemma_rega_code_inverse(r1);
            crate::regid::lemma_rega_code_inverse(r2);
        },
        CmpOp::EqR(r1, i1, r2, i2) => {
            assert(e[1] == pk35(r1.code_spec(), i1.val) && e[2] == pk35(r2.code_spec(), i2.val));
            assert(s[pos + 1] == pk35(r1.code_spec(), i1.val) && s[pos + 2] == pk35(
                r2.code_spec(),
                i2.val,
            ));
            lemma_pk35(r1.code_spec(), i1.val);
            lemma_pk35(r2.code_spec(), i2.val);
            crate::regid::lemma_regr_code_inverse(r1);
            crate::regid::lemma_regr_code_inverse(r2);
        },
        CmpOp::Len(r, i) => {
            assert(e[1] == pk35(r.code_spec(), i.val));
            assert(s[pos + 1] == pk35(r.code_spec(), i.val));
            lemma_pk35(r.code_spec(), i.val);
            crate::regid::lemma_rega_code_inverse(r);
        },
        CmpOp::Cnt(r, i) => {
            assert(e[1] == pk35(r.code_spec(), i.val));
            assert(s[pos + 1] == pk35(r.code_spec(), i.val));
            lemma_pk35(r.code_spec(), i.val);
            crate::regid::lemma_rega_code_inverse(r);
        },
        CmpOp::St2A => {},
        CmpOp::A2St => {},
    }
}

/// Re-encoding a decoded comparison instruction reproduces its bytes.
#[verifier::rlimit(100)]
#[verifier::spinoff_prover]
pub proof fn lemma_cmp_iso2(s: Seq<u8>, pos: int)
    requires
        0 <= pos < s.len(),
        INSTR_GT <= s[pos] <= INSTR_A2ST,
        parse_cmp(s, pos) is Some,
    ensures
        parse_cmp(s, pos) matches Some((op, p)) ==> {
            &&& op.wf()
            &&& p == pos + op.bc()
            &&& p <= s.len()
            &&& s.subrange(pos, p) =~= seq![op.opcode()] + args_cmp(op)
        },
{
    reveal(parse_cmp);
    let (op, p) = parse_cmp(s, pos).unwrap();
    let e = seq![op.opcode()] + args_cmp(op);
    if s[pos] == INSTR_ST2A || s[pos] == INSTR_A2ST {
        assert forall|j: int| 0 <= j < 1 implies s.subrange(pos, p)[j] == e[j] by {
            assert(e[0] == s[pos]);
        }
        assert(s.subrange(pos, p) =~= e);
    } else if s[pos] == INSTR_LEN || s[pos] == INSTR_CNT {
        let b = s[pos + 1];
        lemma_unpk35(b);
        lemma_code_round_a(f3(b));
        assert(e[1] == b);
        assert forall|j: int| 0 <= j < 2 implies s.subrange(pos, p)[j] == e[j] by {
            if j == 0 {
                assert(e[0] == s[pos]);
            } else {
                assert(e[1] == s[pos + 1]);
            }
        }
        assert(s.subrange(pos, p) =~= e);
    } else {
        let b1 = s[pos + 1];
        let b2 = s[pos + 2];
        lemma_unpk35(b1);
        lemma_unpk35(b2);
        lemma_code_round_a(f3(b1));
        lemma_code_round_a(f3(b2));
        lemma_code_round_r(f3(b1));
        lemma_code_round_r(f3(b2));
        assert(e[1] == b1);
        assert(e[2] == b2);
        assert forall|j: int| 0 <= j < 3 implies s.subrange(pos, p)[j] == e[j] by {
            if j == 0 {
                assert(e[0] == s[pos]);
            } else if j == 1 {
                assert(e[1] == s[pos + 1]);
            } else {
                assert(e[2] == s[pos + 2]);
            }
        }
        assert(s.subrange(pos, p) =~= e);
    }
}

/// The mode tag of an arithmetic instruction survives its round trip.
proof fn lemma_code_round_arith(c: u8)
    requires
        c < 8,
    ensures
        Arithmetics::from_code_spec(c).code_spec() == c,
{
}

/// A mode decodes back to itself.
proof fn lemma_arith_mode_inverse(a: Arithmetics)
    ensures
        Arithmetics::from_code_spec(a.code_spec()) == a,
{
}

/// An interpretation tag decodes back to itself.
proof fn lemma_numtype_inverse(n: NumType)
    ensures
        NumType::from_code_spec(n.code_spec()) == n,
{
}

/// Decoding an encoded arithmetic instruction gives the instruction back.
#[verifier::rlimit(100)]
#[verifier::spinoff_prover]
pub proof fn lemma_arith_iso1(op: ArithmeticOp, s: Seq<u8>, pos: int)
    requires
        op.wf(),
        0 <= pos,
        pos + op.bc() <= s.len(),
        s.subrange(pos, pos + op.bc()) == seq![op.opcode()] + args_arith(op),
    ensures
        parse_arith(s, pos) == Some((op, pos + op.bc())),
{
    reveal(parse_arith);
    let e = seq![op.opcode()] + args_arith(op);
    lemma_splice_index(s, pos, pos + op.bc(), e);
    assert(e[0] == op.opcode());
    assert(s[pos] == op.opcode());
    match op {
        ArithmeticOp::Neg(r, i) => {
            assert(e[1] == pk35(r.code_spec(), i.val));
            assert(s[pos + 1] == pk35(r.code_spec(), i.val));
            lemma_pk35(r.code_spec(), i.val);
            crate::regid::lemma_rega_code_inverse(r);
        },
        ArithmeticOp::Abs(r, i) => {
            assert(e[1] == pk35(r.code_spec(), i.val));
            assert(s[pos + 1] == pk35(r.code_spec(), i.val));
            lemma_pk35(r.code_spec(), i.val);
            crate::regid::lemma_rega_code_inverse(r);
        },
        ArithmeticOp::Stp(up, ar, r, i, step) => {
            let ub: u8 = if up {
                1
            } else {
                0
            };
            assert(e[1] == pk35(r.code_spec(), i.val));
            assert(s[pos + 1] == pk35(r.code_spec(), i.val));
            assert(e[2] == pk413(step, ub, ar.code_spec()));
            assert(s[pos + 2] == pk413(step, ub, ar.code_spec()));
            lemma_pk35(r.code_spec(), i.val);
            lemma_pk413(step, ub, ar.code_spec());
            crate::regid::lemma_rega_code_inverse(r);
            lemma_arith_mode_inverse(ar);
        },
        ArithmeticOp::Add(ar, r, s1, s2) => {
            assert(e[1] == pk35(r.code_spec(), s1.val) && e[2] == pk53(s2.val, ar.code_spec()));
            assert(s[pos + 1] == pk35(r.code_spec(), s1.val) && s[pos + 2] == pk53(
                s2.val,
                ar.code_spec(),
            ));
            lemma_pk35(r.code_spec(), s1.val);
            lemma_pk53(s2.val, ar.code_spec());
            crate::regid::lemma_rega_code_inverse(r);
            lemma_arith_mode_inverse(ar);
        },
        ArithmeticOp::Sub(ar, r, s1, s2) => {
            assert(e[1] == pk35(r.code_spec(), s1.val) && e[2] == pk53(s2.val, ar.code_spec()));
            assert(s[pos + 1] == pk35(r.code_spec(), s1.val) && s[pos + 2] == pk53(
                s2.val,
                ar.code_spec(),
            ));
            lemma_pk35(r.code_spec(), s1.val);
            lemma_pk53(s2.val, ar.code_spec());
            crate::regid::lemma_rega_code_inverse(r);
            lemma_arith_mode_inverse(ar);
        },
        ArithmeticOp::Mul(ar, r, s1, s2) => {
            assert(e[1] == pk35(r.code_spec(), s1.val) && e[2] == pk53(s2.val, ar.code_spec()));
            assert(s[pos + 1] == pk35(r.code_spec(), s1.val) && s[pos + 2] == pk53(
                s2.val,
                ar.code_spec(),
            ));
            lemma_pk35(r.code_spec(), s1.val);
            lemma_pk53(s2.val, ar.code_spec());
            crate::regid::lemma_rega_code_inverse(r);
            lemma_arith_mode_inverse(ar);
        },
        ArithmeticOp::Div(ar, r, s1, s2) => {
            assert(e[1] == pk35(r.code_spec(), s1.val) && e[2] == pk53(s2.val, ar.code_spec()));
            assert(s[pos + 1] == pk35(r.code_spec(), s1.val) && s[pos + 2] == pk53(
                s2.val,
                ar.code_spec(),
            ));
            lemma_pk35(r.code_spec(), s1.val);
            lemma_pk53(s2.val, ar.code_spec());
            crate::regid::lemma_rega_code_inverse(r);
            lemma_arith_mode_inverse(ar);
        },
        ArithmeticOp::Mod(r1, i1, r2, i2, r3, i3) => {
            assert(e[1] == pk35(r1.code_spec(), i1.val) && e[2] == pk35(r2.code_spec(), i2.val)
                && e[3] == pk35(r3.code_spec(), i3.val));
            assert(s[pos + 1] == pk35(r1.code_spec(), i1.val) && s[pos + 2] == pk35(
                r2.code_spec(),
                i2.val,
            ) && s[pos + 3] == pk35(r3.code_spec(), i3.val));
            lemma_pk35(r1.code_spec(), i1.val);
            lemma_pk35(r2.code_spec(), i2.val);
            lemma_pk35(r3.code_spec(), i3.val);
            crate::regid::lemma_rega_code_inverse(r1);
            crate::regid::lemma_rega_code_inverse(r2);
            crate::regid::lemma_rega_code_inverse(r3);
        },
    }
}

/// Re-encoding a decoded arithmetic instruction reproduces its bytes.
#[verifier::rlimit(100)]
#[verifier::spinoff_prover]
pub proof fn lemma_arith_iso2(s: Seq<u8>, pos: int)
    requires
        0 <= pos < s.len(),
        INSTR_NEG <= s[pos] <= INSTR_ABS,
        parse_arith(s, pos) is Some,
    ensures
        parse_arith(s, pos) matches Some((op, p)) ==> {
            &&& op.wf()
            &&& p == pos + op.bc()
            &&& p <= s.len()
            &&& s.subrange(pos, p) =~= seq![op.opcode()] + args_arith(op)
        },
{
    reveal(parse_arith);
    let (op, p) = parse_arith(s, pos).unwrap();
    let e = seq![op.opcode()] + args_arith(op);
    if s[pos] == INSTR_NEG || s[pos] == INSTR_ABS {
        let b = s[pos + 1];
        lemma_unpk35(b);
        lemma_code_round_a(f3(b));
        assert(e[1] == b);
        assert forall|j: int| 0 <= j < 2 implies s.subrange(pos, p)[j] == e[j] by {
            if j == 0 {
                assert(e[0] == s[pos]);
            } else {
                assert(e[1] == s[pos + 1]);
            }
        }
        assert(s.subrange(pos, p) =~= e);
    } else if s[pos] == INSTR_STP {
        let b1 = s[pos + 1];
        let b2 = s[pos + 2];
        lemma_unpk35(b1);
        lemma_unpk413(b2);
        lemma_code_round_a(f3(b1));
        lemma_code_round_arith((b2 as int / 32) as u8);
        assert(e[1] == b1);
        assert(e[2] == b2);
        assert forall|j: int| 0 <= j < 3 implies s.subrange(pos, p)[j] == e[j] by {
            if j == 0 {
                assert(e[0] == s[pos]);
            } else if j == 1 {
                assert(e[1] == s[pos + 1]);
            } else {
                assert(e[2] == s[pos + 2]);
            }
        }
        assert(s.subrange(pos, p) =~= e);
    } else if s[pos] == INSTR_MOD {
        let b1 = s[pos + 1];
        let b2 = s[pos + 2];
        let b3 = s[pos + 3];
        lemma_unpk35(b1);
        lemma_unpk35(b2);
        lemma_unpk35(b3);
        lemma_code_round_a(f3(b1));
        lemma_code_round_a(f3(b2));
        lemma_code_round_a(f3(b3));
        assert(e[1] == b1);
        assert(e[2] == b2);
        assert(e[3] == b3);
        assert forall|j: int| 0 <= j < 4 implies s.subrange(pos, p)[j] == e[j] by {
            if j == 0 {
                assert(e[0] == s[pos]);
            } else if j == 1 {
                assert(e[1] == s[pos + 1]);
            } else if j == 2 {
                assert(e[2] == s[pos + 2]);
            } else {
                assert(e[3] == s[pos + 3]);
            }
        }
        assert(s.subrange(pos, p) =~= e);
    } else {
        let b1 = s[pos + 1];
        let b2 = s[pos + 2];
        lemma_unpk35(b1);
        lemma_unpk53(b2);
        lemma_code_round_a(f3(b1));
        lemma_code_round_arith((b2 as int / 32) as u8);
        assert(e[1] == b1);
        assert(e[2] == b2);
        assert forall|j: int| 0 <= j < 3 implies s.subrange(pos, p)[j] == e[j] by {
            if j == 0 {
                assert(e[0] == s[pos]);
            } else if j == 1 {
                assert(e[1] == s[pos + 1]);
            } else {
                assert(e[2] == s[pos + 2]);
            }
        }
        assert(s.subrange(pos, p) =~= e);
    }
}

/// Decoding an encoded bitwise instruction gives the instruction back.
#[verifier::rlimit(100)]
#[verifier::spinoff_prover]
pub proof fn lemma_bitwise_iso1(op: BitwiseOp, s: Seq<u8>, pos: int)
    requires
        op.wf(),
        0 <= pos,
        pos + op.bc() <= s.len(),
        s.subrange(pos, pos + op.bc()) == seq![op.opcode()] + args_bitwise(op),
    ensures
        parse_bitwise(s, pos) == Some((op, pos + op.bc())),
{
    reveal(parse_bitwise);
    let e = seq![op.opcode()] + args_bitwise(op);
    lemma_splice_index(s, pos, pos + op.bc(), e);
    assert(e[0] == op.opcode());
    assert(s[pos] == op.opcode());
    match op {
        BitwiseOp::Not(r, i) => {
            assert(e[1] == pk35(r.code_spec(), i.val));
            assert(s[pos + 1] == pk35(r.code_spec(), i.val));
            lemma_pk35(r.code_spec(), i.val);
            crate::regid::lemma_rega_code_inverse(r);
        },
        BitwiseOp::And(r, i1, i2, d) => {
            assert(e[1] == pk35(r.code_spec(), i1.val) && e[2] == pk53(i2.val, d.val));
            assert(s[pos + 1] == pk35(r.code_spec(), i1.val) && s[pos + 2] == pk53(
                i2.val,
                d.val,
            ));
            lemma_pk35(r.code_spec(), i1.val);
            lemma_pk53(i2.val, d.val);
            crate::regid::lemma_rega_code_inverse(r);
        },
        BitwiseOp::Or(r, i1, i2, d) => {
            assert(e[1] == pk35(r.code_spec(), i1.val) && e[2] == pk53(i2.val, d.val));
            assert(s[pos + 1] == pk35(r.code_spec(), i1.val) && s[pos + 2] == pk53(
                i2.val,
                d.val,
            ));
            lemma_pk35(r.code_spec(), i1.val);
            lemma_pk53(i2.val, d.val);
            crate::regid::lemma_rega_code_inverse(r);
        },
        BitwiseOp::Xor(r, i1, i2, d) => {
            assert(e[1] == pk35(r.code_spec(), i1.val) && e[2] == pk53(i2.val, d.val));
            assert(s[pos + 1] == pk35(r.code_spec(), i1.val) && s[pos + 2] == pk53(
                i2.val,
                d.val,
            ));
            lemma_pk35(r.code_spec(), i1.val);
            lemma_pk53(i2.val, d.val);
            crate::regid::lemma_rega_code_inverse(r);
        },
        BitwiseOp::Shl(r, i1, i2, d) => {
            assert(e[1] == pk35(r.code_spec(), i1.val) && e[2] == pk53(i2.val, d.val));
            assert(s[pos + 1] == pk35(r.code_spec(), i1.val) && s[pos + 2] == pk53(
                i2.val,
                d.val,
            ));
            lemma_pk35(r.code_spec(), i1.val);
            lemma_pk53(i2.val, d.val);
            crate::regid::lemma_rega_code_inverse(r);
        },
        BitwiseOp::Shr(r, i1, i2, d) => {
            assert(e[1] == pk35(r.code_spec(), i1.val) && e[2] == pk53(i2.val, d.val));
            assert(s[pos + 1] == pk35(r.code_spec(), i1.val) && s[pos + 2] == pk53(
                i2.val,
                d.val,
            ));
            lemma_pk35(r.code_spec(), i1.val);
            lemma_pk53(i2.val, d.val);
            crate::regid::lemma_rega_code_inverse(r);
        },
        BitwiseOp::Scl(r, i1, i2, d) => {
            assert(e[1] == pk35(r.code_spec(), i1.val) && e[2] == pk53(i2.val, d.val));
            assert(s[pos + 1] == pk35(r.code_spec(), i1.val) && s[pos + 2] == pk53(
                i2.val,
                d.val,
            ));
            lemma_pk35(r.code_spec(), i1.val);
            lemma_pk53(i2.val, d.val);
            crate::regid::lemma_rega_code_inverse(r);
        },
        BitwiseOp::Scr(r, i1, i2, d) => {
            assert(e[1] == pk35(r.code_spec(), i1.val) && e[2] == pk53(i2.val, d.val));
            assert(s[pos + 1] == pk35(r.code_spec(), i1.val) && s[pos + 2] == pk53(
                i2.val,
                d.val,
            ));
            lemma_pk35(r.code_spec(), i1.val);
            lemma_pk53(i2.val, d.val);
            crate::regid::lemma_rega_code_inverse(r);
        },
    }
}

/// Re-encoding a decoded bitwise instruction reproduces its bytes.
#[verifier::rlimit(100)]
#[verifier::spinoff_prover]
pub proof fn lemma_bitwise_iso2(s: Seq<u8>, pos: int)
    requires
        0 <= pos < s.len(),
        INSTR_AND <= s[pos] <= INSTR_SCR,
        parse_bitwise(s, pos) is Some,
    ensures
        parse_bitwise(s, pos) matches Some((op, p)) ==> {
            &&& op.wf()
            &&& p == pos + op.bc()
            &&& p <= s.len()
            &&& s.subrange(pos, p) =~= seq![op.opcode()] + args_bitwise(op)
        },
{
    reveal(parse_bitwise);
    let (op, p) = parse_bitwise(s, pos).unwrap();
    let e = seq![op.opcode()] + args_bitwise(op);
    if s[pos] == INSTR_NOT {
        let b = s[pos + 1];
        lemma_unpk35(b);
        lemma_code_round_a(f3(b));
        assert(e[1] == b);
        assert forall|j: int| 0 <= j < 2 implies s.subrange(pos, p)[j] == e[j] by {
            if j == 0 {
                assert(e[0] == s[pos]);
            } else {
                assert(e[1] == s[pos + 1]);
            }
        }
        assert(s.subrange(pos, p) =~= e);
    } else {
        let b1 = s[pos + 1];
        let b2 = s[pos + 2];
        lemma_unpk35(b1);
        lemma_unpk53(b2);
        lemma_code_round_a(f3(b1));
        assert(e[1] == b1);
        assert(e[2] == b2);
        assert forall|j: int| 0 <= j < 3 implies s.subrange(pos, p)[j] == e[j] by {
            if j == 0 {
                assert(e[0] == s[pos]);
            } else if j == 1 {
                assert(e[1] == s[pos + 1]);
            } else {
                assert(e[2] == s[pos + 2]);
            }
        }
        assert(s.subrange(pos, p) =~= e);
    }
}

/// Decoding an encoded put instruction gives the instruction back.
#[verifier::rlimit(100)]
#[verifier::spinoff_prover]
pub proof fn lemma_put_iso1(op: PutOpV, s: Seq<u8>, pos: int)
    requires
        op.wf(),
        0 <= pos,
        pos + op.bc() <= s.len(),
        s.subrange(pos, pos + op.bc()) == seq![op.opcode()] + args_put(op),
    ensures
        parse_put(s, pos) == Some((op, pos + op.bc())),
{
    reveal(parse_put);
    let e = seq![op.opcode()] + args_put(op);
    lemma_splice_index(s, pos, pos + op.bc(), e);
    assert(e[0] == op.opcode());
    assert(s[pos] == op.opcode());
    match op {
        PutOpV::ZeroA(r, i) => {
            assert(e[1] == pk35(r.code_spec(), i.val));
            assert(s[pos + 1] == pk35(r.code_spec(), i.val));
            lemma_pk35(r.code_spec(), i.val);
            crate::regid::lemma_rega_code_inverse(r);
        },
        PutOpV::ZeroR(r, i) => {
            assert(e[1] == pk35(r.code_spec(), i.val));
            assert(s[pos + 1] == pk35(r.code_spec(), i.val));
            lemma_pk35(r.code_spec(), i.val);
            crate::regid::lemma_regr_code_inverse(r);
        },
        PutOpV::ClA(r, i) => {
            assert(e[1] == pk35(r.code_spec(), i.val));
            assert(s[pos + 1] == pk35(r.code_spec(), i.val));
            lemma_pk35(r.code_spec(), i.val);
            crate::regid::lemma_rega_code_inverse(r);
        },
        PutOpV::ClR(r, i) => {
            assert(e[1] == pk35(r.code_spec(), i.val));
            assert(s[pos + 1] == pk35(r.code_spec(), i.val));
            lemma_pk35(r.code_spec(), i.val);
            crate::regid::lemma_regr_code_inverse(r);
        },
        PutOpV::PutA(r, i, v) => {
            let args = args_put(op);
            assert forall|j: int| 0 <= j < args.len() implies #[trigger] args[j] == s[pos + 1
                + j] by {
                assert(args[j] == e[1 + j]);
            }
            lemma_put_iso1_vala(r, i, v, s, pos, args);
        },
        PutOpV::PutIfA(r, i, v) => {
            let args = args_put(op);
            assert forall|j: int| 0 <= j < args.len() implies #[trigger] args[j] == s[pos + 1
                + j] by {
                assert(args[j] == e[1 + j]);
            }
            lemma_put_iso1_vala(r, i, v, s, pos, args);
        },
        PutOpV::PutR(r, i, v) => {
            let args = args_put(op);
            assert forall|j: int| 0 <= j < args.len() implies #[trigger] args[j] == s[pos + 1
                + j] by {
                assert(args[j] == e[1 + j]);
            }
            lemma_put_iso1_valr(r, i, v, s, pos, args);
        },
        PutOpV::PutIfR(r, i, v) => {
            let args = args_put(op);
            assert forall|j: int| 0 <= j < args.len() implies #[trigger] args[j] == s[pos + 1
                + j] by {
                assert(args[j] == e[1 + j]);
            }
            lemma_put_iso1_valr(r, i, v, s, pos, args);
        },
    }
}

/// The value field of an `A`-register assignment decodes back to itself.
#[verifier::rlimit(100)]
#[verifier::spinoff_prover]
proof fn lemma_put_iso1_vala(r: RegA, i: Reg32, v: Seq<u8>, s: Seq<u8>, pos: int, e: Seq<u8>)
    requires
        i.wf(),
        if r == RegA::AP {
            v.len() <= MAX_VALUE_BYTES
        } else {
            v.len() == r.cap_spec()
        },
        0 <= pos,
        e == (if r == RegA::AP {
            seq![pk35(r.code_spec(), i.val)] + le16(v.len() as u16) + v
        } else {
            seq![pk35(r.code_spec(), i.val)] + v + zeros((r.cap_spec() - v.len()) as nat)
        }),
        pos + 1 + e.len() <= s.len(),
        forall|j: int| 0 <= j < e.len() ==> #[trigger] e[j] == s[pos + 1 + j],
    ensures
        s[pos + 1] == pk35(r.code_spec(), i.val),
        RegA::from_code_spec(f3(s[pos + 1])) == r,
        f5(s[pos + 1]) == i.val,
        parse_put_val(s, pos + 2, r == RegA::AP, r.cap_spec()) == Some(
            (v, pos + 1 + e.len() as int),
        ),
{
    assert(e[0] == pk35(r.code_spec(), i.val));
    assert(s[pos + 1] == pk35(r.code_spec(), i.val));
    lemma_pk35(r.code_spec(), i.val);
    crate::regid::lemma_rega_code_inverse(r);
    if r == RegA::AP {
        let l = v.len() as u16;
        lemma_le16(l, s, pos + 2);
        assert(e[1] == le16(l)[0] && e[2] == le16(l)[1]);
        assert(s[pos + 2] == le16(l)[0] && s[pos + 3] == le16(l)[1]);
        assert(rd16(s, pos + 2) == l);
        assert forall|j: int| 0 <= j < v.len() implies s.subrange(
            pos + 4,
            pos + 4 + v.len() as int,
        )[j] == v[j] by {
            assert(e[3 + j] == v[j]);
            assert(s[pos + 4 + j] == e[3 + j]);
        }
        assert(s.subrange(pos + 4, pos + 4 + v.len() as int) =~= v);
    } else {
        let k = r.cap_spec() as int;
        assert(v.len() == k);
        assert forall|j: int| 0 <= j < k implies s.subrange(pos + 2, pos + 2 + k)[j] == v[j] by {
            assert(e[1 + j] == v[j]);
            assert(s[pos + 2 + j] == e[1 + j]);
        }
        assert(s.subrange(pos + 2, pos + 2 + k) =~= v);
    }
}

/// The value field of an `R`-register assignment decodes back to itself.
#[verifier::rlimit(100)]
#[verifier::spinoff_prover]
proof fn lemma_put_iso1_valr(r: RegR, i: Reg32, v: Seq<u8>, s: Seq<u8>, pos: int, e: Seq<u8>)
    requires
        i.wf(),
        v.len() == r.cap_spec(),
        0 <= pos,
        e == seq![pk35(r.code_spec(), i.val)] + v + zeros((r.cap_spec() - v.len()) as nat),
        pos + 1 + e.len() <= s.len(),
        forall|j: int| 0 <= j < e.len() ==> #[trigger] e[j] == s[pos + 1 + j],
    ensures
        s[pos + 1] == pk35(r.code_spec(), i.val),
        RegR::from_code_spec(f3(s[pos + 1])) == r,
        f5(s[pos + 1]) == i.val,
        parse_put_val(s, pos + 2, false, r.cap_spec()) == Some((v, pos + 1 + e.len() as int)),
{
    assert(e[0] == pk35(r.code_spec(), i.val));
    assert(s[pos + 1] == pk35(r.code_spec(), i.val));
    lemma_pk35(r.code_spec(), i.val);
    crate::regid::lemma_regr_code_inverse(r);
    let k = r.cap_spec() as int;
    assert(v.len() == k);
    assert forall|j: int| 0 <= j < k implies s.subrange(pos + 2, pos + 2 + k)[j] == v[j] by {
        assert(e[1 + j] == v[j]);
        assert(s[pos + 2 + j] == e[1 + j]);
    }
    assert(s.subrange(pos + 2, pos + 2 + k) =~= v);
}

/// Re-encoding a decoded put instruction reproduces its bytes.
#[verifier::rlimit(100)]
#[verifier::spinoff_prover]
pub proof fn lemma_put_iso2(s: Seq<u8>, pos: int)
    requires
        0 <= pos < s.len(),
        INSTR_ZEROA <= s[pos] <= INSTR_PUTIFR,
        parse_put(s, pos) is Some,
    ensures
        parse_put(s, pos) matches Some((op, p)) ==> {
            &&& op.wf()
            &&& p == pos + op.bc()
            &&& p <= s.len()
            &&& s.subrange(pos, p) =~= seq![op.opcode()] + args_put(op)
        },
{
    reveal(parse_put);
    let (op, p) = parse_put(s, pos).unwrap();
    let e = seq![op.opcode()] + args_put(op);
    let b = s[pos + 1];
    lemma_unpk35(b);
    lemma_code_round_a(f3(b));
    lemma_code_round_r(f3(b));
    if s[pos] == INSTR_ZEROA || s[pos] == INSTR_ZEROR || s[pos] == INSTR_CLA || s[pos]
        == INSTR_CLR {
        assert(e[1] == b);
        assert forall|j: int| 0 <= j < 2 implies s.subrange(pos, p)[j] == e[j] by {
            if j == 0 {
                assert(e[0] == s[pos]);
            } else {
                assert(e[1] == s[pos + 1]);
            }
        }
        assert(s.subrange(pos, p) =~= e);
    } else if s[pos] == INSTR_PUTA || s[pos] == INSTR_PUTIFA {
        let r = RegA::from_code_spec(f3(b));
        if r == RegA::AP {
            let l = rd16(s, pos + 2) as int;
            lemma_le16(rd16(s, pos + 2), s, pos + 2);
            assert(e[1] == b);
            assert(e[2] == s[pos + 2] && e[3] == s[pos + 3]);
            assert forall|j: int| 0 <= j < 4 + l implies s.subrange(pos, p)[j] == e[j] by {
                if j == 0 {
                    assert(e[0] == s[pos]);
                } else if j == 1 {
                    assert(e[1] == s[pos + 1]);
                } else if j == 2 {
                    assert(e[2] == s[pos + 2]);
                } else if j == 3 {
                    assert(e[3] == s[pos + 3]);
                } else {
                    assert(e[j] == s.subrange(pos + 4, pos + 4 + l)[j - 4]);
                    assert(e[j] == s[pos + j]);
                }
            }
            assert(s.subrange(pos, p) =~= e);
        } else {
            let k = r.cap_spec() as int;
            assert(e[1] == b);
            assert(zeros(0) =~= Seq::<u8>::empty());
            assert forall|j: int| 0 <= j < 2 + k implies s.subrange(pos, p)[j] == e[j] by {
                if j == 0 {
                    assert(e[0] == s[pos]);
                } else if j == 1 {
                    assert(e[1] == s[pos + 1]);
                } else {
                    assert(e[j] == s.subrange(pos + 2, pos + 2 + k)[j - 2]);
                    assert(e[j] == s[pos + j]);
                }
            }
            assert(s.subrange(pos, p) =~= e);
        }
    } else {
        let r = RegR::from_code_spec(f3(b));
        let k = r.cap_spec() as int;
        assert(e[1] == b);
        assert(zeros(0) =~= Seq::<u8>::empty());
        assert forall|j: int| 0 <= j < 2 + k implies s.subrange(pos, p)[j] == e[j] by {
            if j == 0 {
                assert(e[0] == s[pos]);
            } else if j == 1 {
                assert(e[1] == s[pos + 1]);
            } else {
                assert(e[j] == s.subrange(pos + 2, pos + 2 + k)[j - 2]);
                assert(e[j] == s[pos + j]);
            }
        }
        assert(s.subrange(pos, p) =~= e);
    }
}

/// Decoding an encoded covered string instruction gives the instruction
/// back.
#[verifier::rlimit(100)]
#[verifier::spinoff_prover]
pub proof fn lemma_bytes_iso1(op: BytesOpV, s: Seq<u8>, pos: int)
    requires
        op.wf(),
        op.covered(),
        0 <= pos,
        pos + op.bc() <= s.len(),
        s.subrange(pos, pos + op.bc()) == seq![op.opcode()] + args_bytes(op),
    ensures
        parse_bytes(s, pos) == Some((op, pos + op.bc())),
{
    reveal(parse_bytes);
    let e = seq![op.opcode()] + args_bytes(op);
    lemma_splice_index(s, pos, pos + op.bc(), e);
    assert(e[0] == op.opcode());
    assert(s[pos] == op.opcode());
    match op {
        BytesOpV::Put(i, b) => {
            let l = b.len() as u16;
            assert(e[1] == i);
            assert(s[pos + 1] == i);
            lemma_le16(l, s, pos + 2);
            assert(e[2] == le16(l)[0] && e[3] == le16(l)[1]);
            assert(s[pos + 2] == le16(l)[0] && s[pos + 3] == le16(l)[1]);
            assert(rd16(s, pos + 2) == l);
            assert forall|j: int| 0 <= j < b.len() implies s.subrange(
                pos + 4,
                pos + 4 + b.len() as int,
            )[j] == b[j] by {
                assert(e[4 + j] == b[j]);
                assert(s[pos + 4 + j] == e[4 + j]);
            }
            assert(s.subrange(pos + 4, pos + 4 + b.len() as int) =~= b);
        },
        BytesOpV::Fill(i, f, t, v) => {
            assert(e[1] == i && e[6] == v);
            assert(s[pos + 1] == i && s[pos + 6] == v);
            lemma_le16(f, s, pos + 2);
            lemma_le16(t, s, pos + 4);
            assert(e[2] == le16(f)[0] && e[3] == le16(f)[1]);
            assert(s[pos + 2] == le16(f)[0] && s[pos + 3] == le16(f)[1]);
            assert(e[4] == le16(t)[0] && e[5] == le16(t)[1]);
            assert(s[pos + 4] == le16(t)[0] && s[pos + 5] == le16(t)[1]);
            assert(rd16(s, pos + 2) == f && rd16(s, pos + 4) == t);
        },
        BytesOpV::LenS(i) => {
            assert(e[1] == i);
            assert(s[pos + 1] == i);
        },
        BytesOpV::Split(x, o, d1, d2) => {
            assert(e[1] == x && e[4] == d1 && e[5] == d2);
            assert(s[pos + 1] == x && s[pos + 4] == d1 && s[pos + 5] == d2);
            lemma_le16(o, s, pos + 2);
            assert(e[2] == le16(o)[0] && e[3] == le16(o)[1]);
            assert(s[pos + 2] == le16(o)[0] && s[pos + 3] == le16(o)[1]);
            assert(rd16(s, pos + 2) == o);
        },
        BytesOpV::Ins(x, y, o) => {
            assert(e[1] == x && e[2] == y);
            assert(s[pos + 1] == x && s[pos + 2] == y);
            lemma_le16(o, s, pos + 3);
            assert(e[3] == le16(o)[0] && e[4] == le16(o)[1]);
            assert(s[pos + 3] == le16(o)[0] && s[pos + 4] == le16(o)[1]);
            assert(rd16(s, pos + 3) == o);
        },
        BytesOpV::Del(i, f, t) => {
            assert(e[1] == i);
            assert(s[pos + 1] == i);
            lemma_le16(f, s, pos + 2);
            lemma_le16(t, s, pos + 4);
            assert(e[2] == le16(f)[0] && e[3] == le16(f)[1]);
            assert(s[pos + 2] == le16(f)[0] && s[pos + 3] == le16(f)[1]);
            assert(e[4] == le16(t)[0] && e[5] == le16(t)[1]);
            assert(s[pos + 4] == le16(t)[0] && s[pos + 5] == le16(t)[1]);
            assert(rd16(s, pos + 2) == f && rd16(s, pos + 4) == t);
        },
        BytesOpV::Transl(x, f, t, d) => {
            assert(e[1] == x && e[6] == d);
            assert(s[pos + 1] == x && s[pos + 6] == d);
            lemma_le16(f, s, pos + 2);
            lemma_le16(t, s, pos + 4);
            assert(e[2] == le16(f)[0] && e[3] == le16(f)[1]);
            assert(s[pos + 2] == le16(f)[0] && s[pos + 3] == le16(f)[1]);
            assert(e[4] == le16(t)[0] && e[5] == le16(t)[1]);
            assert(s[pos + 4] == le16(t)[0] && s[pos + 5] == le16(t)[1]);
            assert(rd16(s, pos + 2) == f && rd16(s, pos + 4) == t);
        },
        BytesOpV::Join(x, y, d) => {
            assert(e[1] == x && e[2] == y && e[3] == d);
            assert(s[pos + 1] == x && s[pos + 2] == y && s[pos + 3] == d);
        },
        _ => {
            assert(e[1] == s[pos + 1] && e[2] == s[pos + 2]);
        },
    }
}

/// Re-encoding a decoded string instruction reproduces its bytes.
#[verifier::rlimit(100)]
#[verifier::spinoff_prover]
pub proof fn lemma_bytes_iso2(s: Seq<u8>, pos: int)
    requires
        0 <= pos < s.len(),
        INSTR_PUT <= s[pos] <= INSTR_TRANSL,
        parse_bytes(s, pos) is Some,
    ensures
        parse_bytes(s, pos) matches Some((op, p)) ==> {
            &&& op.wf()
            &&& op.covered()
            &&& p == pos + op.bc()
            &&& p <= s.len()
            &&& s.subrange(pos, p) =~= seq![op.opcode()] + args_bytes(op)
        },
{
    reveal(parse_bytes);
    let (op, p) = parse_bytes(s, pos).unwrap();
    let e = seq![op.opcode()] + args_bytes(op);
    if s[pos] == INSTR_PUT {
        let l = rd16(s, pos + 2) as int;
        lemma_le16(rd16(s, pos + 2), s, pos + 2);
        assert(e[1] == s[pos + 1]);
        assert(e[2] == s[pos + 2] && e[3] == s[pos + 3]);
        assert forall|j: int| 0 <= j < 4 + l implies s.subrange(pos, p)[j] == e[j] by {
            if j == 0 {
                assert(e[0] == s[pos]);
            } else if j == 1 {
                assert(e[1] == s[pos + 1]);
            } else if j == 2 {
                assert(e[2] == s[pos + 2]);
            } else if j == 3 {
                assert(e[3] == s[pos + 3]);
            } else {
                assert(e[j] == s.subrange(pos + 4, pos + 4 + l)[j - 4]);
                assert(e[j] == s[pos + j]);
            }
        }
        assert(s.subrange(pos, p) =~= e);
    } else {
        if s[pos] == INSTR_FILL || s[pos] == INSTR_DEL || s[pos] == INSTR_TRANSL || s[pos]
            == INSTR_SPLIT {
            lemma_le16(rd16(s, pos + 2), s, pos + 2);
            lemma_le16(rd16(s, pos + 4), s, pos + 4);
        }
        if s[pos] == INSTR_INS {
            lemma_le16(rd16(s, pos + 3), s, pos + 3);
        }
        assert forall|j: int| 0 <= j < op.bc() implies s.subrange(pos, p)[j] == e[j] by {
            if j == 0 {
                assert(e[0] == s[pos]);
            } else if j == 1 {
                assert(e[1] == s[pos + 1]);
            } else if j == 2 {
                assert(e[2] == s[pos + 2]);
            } else if j == 3 {
                assert(e[3] == s[pos + 3]);
            } else if j == 4 {
                assert(e[4] == s[pos + 4]);
            } else if j == 5 {
                assert(e[5] == s[pos + 5]);
            } else {
                assert(e[6] == s[pos + 6]);
            }
        }
        assert(s.subrange(pos, p) =~= e);
    }
}

/// The byte string of a well-formed instruction is as long as its byte
/// count.
pub proof fn lemma_enc_len(iv: InstrV)
    requires
        iv.wf(),
        iv.codec_supported(),
    ensures
        enc_instr(iv).len() == iv.bc(),
        1 <= iv.bc(),
{
}

/// Decoding the encoding of a well-formed instruction gives the instruction
/// back, wherever it stands in a byte string.
#[verifier::rlimit(100)]
#[verifier::spinoff_prover]
pub proof fn lemma_decode_of_encode(iv: InstrV, s: Seq<u8>, pos: int)
    requires
        iv.wf(),
        iv.codec_supported(),
        0 <= pos,
        pos + iv.bc() <= s.len(),
        s.subrange(pos, pos + iv.bc()) == enc_instr(iv),
    ensures
        parse_instr(s, pos) == Some((iv, pos + iv.bc())),
{
    lemma_enc_len(iv);
    lemma_splice_index(s, pos, pos + iv.bc(), enc_instr(iv));
    assert(enc_instr(iv)[0] == iv.opcode());
    assert(s[pos] == iv.opcode());
    match iv {
        InstrV::ControlFlow(op) => {
            assert(enc_instr(iv) == seq![op.opcode()] + args_cf(op));
            lemma_cf_iso1(op, s, pos);
            lemma_dispatch_cf(s, pos);
        },
        InstrV::Put(op) => {
            assert(enc_instr(iv) == seq![op.opcode()] + args_put(op));
            lemma_put_iso1(op, s, pos);
            lemma_dispatch_put(s, pos);
        },
        InstrV::Move(op) => {
            assert(enc_instr(iv) == seq![op.opcode()] + args_move(op));
            lemma_move_iso1(op, s, pos);
            lemma_dispatch_move(s, pos);
        },
        InstrV::Cmp(op) => {
            assert(enc_instr(iv) == seq![op.opcode()] + args_cmp(op));
            lemma_cmp_iso1(op, s, pos);
            lemma_dispatch_cmp(s, pos);
        },
        InstrV::Arithmetic(op) => {
            assert(enc_instr(iv) == seq![op.opcode()] + args_arith(op));
            lemma_arith_iso1(op, s, pos);
            lemma_dispatch_arith(s, pos);
        },
        InstrV::Bitwise(op) => {
            assert(enc_instr(iv) == seq![op.opcode()] + args_bitwise(op));
            lemma_bitwise_iso1(op, s, pos);
            lemma_dispatch_bitwise(s, pos);
        },
        InstrV::Bytes(op) => {
            assert(enc_instr(iv) == seq![op.opcode()] + args_bytes(op));
            lemma_bytes_iso1(op, s, pos);
            lemma_dispatch_bytes(s, pos);
        },
        InstrV::Nop => {
            assert(s[pos] == INSTR_NOP);
        },
        _ => {},
    }
}

/// Whatever decodes from a byte string is a well-formed instruction whose
/// encoding reproduces the decoded byte range exactly.
#[verifier::rlimit(100)]
#[verifier::spinoff_prover]
pub proof fn lemma_encode_of_decode(s: Seq<u8>, pos: int)
    requires
        parse_instr(s, pos) is Some,
    ensures
        parse_instr(s, pos) matches Some((iv, p)) ==> {
            &&& iv.wf()
            &&& iv.codec_supported()
            &&& p == pos + iv.bc()
            &&& pos < p <= s.len()
            &&& s.subrange(pos, p) =~= enc_instr(iv)
        },
{
    let (iv, p) = parse_instr(s, pos).unwrap();
    assert(0 <= pos < s.len());
    let op = s[pos];
    if op <= INSTR_RET {
        lemma_dispatch_cf(s, pos);
        lemma_cf_iso2(s, pos);
    } else if op <= INSTR_PUTIFR {
        lemma_dispatch_put(s, pos);
        lemma_put_iso2(s, pos);
    } else if op <= INSTR_MOVRA {
        lemma_dispatch_move(s, pos);
        lemma_move_iso2(s, pos);
    } else if op <= INSTR_A2ST {
        lemma_dispatch_cmp(s, pos);
        lemma_cmp_iso2(s, pos);
    } else if op <= INSTR_ABS {
        lemma_dispatch_arith(s, pos);
        lemma_arith_iso2(s, pos);
    } else if op <= INSTR_SCR {
        lemma_dispatch_bitwise(s, pos);
        lemma_bitwise_iso2(s, pos);
    } else if op <= INSTR_TRANSL {
        lemma_dispatch_bytes(s, pos);
        lemma_bytes_iso2(s, pos);
    } else {
        assert(op == INSTR_NOP);
        assert(s.subrange(pos, pos + 1) =~= seq![op]);
    }
}

/// The views of a sequence of instructions.
pub open spec fn views_of(code: Seq<Instr>) -> Seq<InstrV> {
    code.map_values(|i: Instr| i@)
}

/// The byte string of a program: the byte strings of its instructions,
/// packed contiguously from byte 0 with no framing.
pub open spec fn enc_prog(ivs: Seq<InstrV>) -> Seq<u8>
    decreases ivs.len(),
{
    if ivs.len() == 0 {
        Seq::empty()
    } else {
        enc_instr(ivs[0]) + enc_prog(ivs.skip(1))
    }
}

/// Parses a whole byte string as a program, instruction by instruction.
pub open spec fn parse_prog(s: Seq<u8>, pos: int) -> Option<Seq<InstrV>>
    decreases s.len() - pos,
    when 0 <= pos <= s.len()
{
    if pos == s.len() {
        Some(Seq::empty())
    } else {
        match parse_instr(s, pos) {
            Some((iv, p)) => if pos < p <= s.len() {
                match parse_prog(s, p) {
                    Some(rest) => Some(seq![iv] + rest),
                    None => None,
                }
            } else {
                None
            },
            None => None,
        }
    }
}

/// A program's byte string splits at any instruction boundary.
pub proof fn lemma_enc_prog_snoc(ivs: Seq<InstrV>, k: int)
    requires
        0 <= k < ivs.len(),
    ensures
        enc_prog(ivs.take(k + 1)) == enc_prog(ivs.take(k)) + enc_instr(ivs[k]),
    decreases k,
{
    if k == 0 {
        assert(ivs.take(1)[0] == ivs[0]);
        assert(ivs.take(1).skip(1) =~= Seq::<InstrV>::empty());
        assert(ivs.take(0) =~= Seq::<InstrV>::empty());
        assert(enc_prog(ivs.take(1)) == enc_instr(ivs[0]) + enc_prog(Seq::<InstrV>::empty()));
        assert(enc_prog(Seq::<InstrV>::empty()) == Seq::<u8>::empty());
        assert(enc_instr(ivs[0]) + Seq::<u8>::empty() =~= enc_instr(ivs[0]));
        assert(Seq::<u8>::empty() + enc_instr(ivs[0]) =~= enc_instr(ivs[0]));
    } else {
        lemma_enc_prog_snoc(ivs.skip(1), k - 1);
        assert(ivs.skip(1).take(k) =~= ivs.take(k + 1).skip(1));
        assert(ivs.skip(1).take(k - 1) =~= ivs.take(k).skip(1));
        assert(ivs.skip(1)[k - 1] == ivs[k]);
        assert(ivs.take(k + 1)[0] == ivs[0]);
        assert(ivs.take(k)[0] == ivs[0]);
        assert(enc_prog(ivs.take(k + 1)) == enc_instr(ivs[0]) + enc_prog(ivs.skip(1).take(k)));
        assert(enc_prog(ivs.take(k)) == enc_instr(ivs[0]) + enc_prog(ivs.skip(1).take(k - 1)));
        assert(enc_prog(ivs.skip(1).take(k)) == enc_prog(ivs.skip(1).take(k - 1)) + enc_instr(
            ivs[k],
        ));
        assert(enc_instr(ivs[0]) + (enc_prog(ivs.skip(1).take(k - 1)) + enc_instr(ivs[k])) =~= (
        enc_instr(ivs[0]) + enc_prog(ivs.skip(1).take(k - 1))) + enc_instr(ivs[k]));
    }
}

/// A program re-encodes to the very bytes it was decoded from (the byte
/// string round trip).
pub proof fn lemma_parse_prog_enc(s: Seq<u8>, pos: int)
    requires
        0 <= pos <= s.len(),
        parse_prog(s, pos) is Some,
    ensures
        parse_prog(s, pos) matches Some(ivs) ==> {
            &&& enc_prog(ivs) =~= s.subrange(pos, s.len() as int)
            &&& forall|k: int| 0 <= k < ivs.len() ==> (#[trigger] ivs[k]).wf()
            &&& forall|k: int| 0 <= k < ivs.len() ==> (#[trigger] ivs[k]).codec_supported()
        },
    decreases s.len() - pos,
{
    let ivs = parse_prog(s, pos).unwrap();
    if pos == s.len() {
        assert(s.subrange(pos, s.len() as int) =~= Seq::<u8>::empty());
    } else {
        let (iv, p) = parse_instr(s, pos).unwrap();
        lemma_encode_of_decode(s, pos);
        lemma_parse_prog_enc(s, p);
        let rest = parse_prog(s, p).unwrap();
        assert(ivs == seq![iv] + rest);
        assert(ivs[0] == iv);
        assert(ivs.skip(1) =~= rest);
        assert(enc_prog(ivs) == enc_instr(iv) + enc_prog(rest));
        assert(enc_prog(rest) =~= s.subrange(p, s.len() as int));
        assert(s.subrange(pos, p) =~= enc_instr(iv));
        assert(enc_instr(iv) + s.subrange(p, s.len() as int) =~= s.subrange(
            pos,
            s.len() as int,
        ));
        assert(forall|k: int| 0 <= k < rest.len() ==> ivs[k + 1] == rest[k]);
    }
}

/// Decoding the byte string of a program of well-formed, codec-covered
/// instructions gives the program back (the instruction round trip).
pub proof fn lemma_enc_parse_prog(ivs: Seq<InstrV>, s: Seq<u8>, pos: int)
    requires
        0 <= pos <= s.len(),
        s.len() == pos + enc_prog(ivs).len(),
        s.subrange(pos, s.len() as int) == enc_prog(ivs),
        forall|k: int| 0 <= k < ivs.len() ==> (#[trigger] ivs[k]).wf(),
        forall|k: int| 0 <= k < ivs.len() ==> (#[trigger] ivs[k]).codec_supported(),
    ensures
        parse_prog(s, pos) == Some(ivs),
    decreases ivs.len(),
{
    if ivs.len() == 0 {
        assert(pos == s.len());
    } else {
        let iv = ivs[0];
        lemma_enc_len(iv);
        assert(enc_prog(ivs) == enc_instr(iv) + enc_prog(ivs.skip(1)));
        let p = pos + iv.bc();
        assert forall|j: int| 0 <= j < iv.bc() implies s.subrange(pos, p)[j] == enc_instr(iv)[j] by {
            assert(s[pos + j] == s.subrange(pos, s.len() as int)[j]);
            assert(enc_prog(ivs)[j] == enc_instr(iv)[j]);
        }
        assert(s.subrange(pos, p) =~= enc_instr(iv));
        lemma_decode_of_encode(iv, s, pos);
        assert forall|j: int| 0 <= j < enc_prog(ivs.skip(1)).len() implies s.subrange(
            p,
            s.len() as int,
        )[j] == enc_prog(ivs.skip(1))[j] by {
            assert(s[p + j] == s.subrange(pos, s.len() as int)[iv.bc() + j]);
            assert(enc_prog(ivs)[iv.bc() + j] == enc_prog(ivs.skip(1))[j]);
        }
        assert(s.subrange(p, s.len() as int) =~= enc_prog(ivs.skip(1)));
        assert(forall|k: int|
            0 <= k < ivs.skip(1).len() ==> #[trigger] ivs.skip(1)[k] == ivs[k + 1]);
        lemma_enc_parse_prog(ivs.skip(1), s, p);
        assert(seq![iv] + ivs.skip(1) =~= ivs);
    }
}

/// Assembles a program: writes the instructions into a fresh zeroed buffer
/// of the full address space and returns the used prefix as a blob. Too
/// many instructions — a count over 2^16, or serialized bytes past the
/// 16-bit address space — give the too-many-instructions error.
#[verifier::rlimit(100)]
#[verifier::spinoff_prover]
pub fn compile(code: &Vec<Instr>) -> (r: Result<Blob, EncodeError>)
    requires
        forall|k: int| 0 <= k < code@.len() ==> (#[trigger] code@[k])@.wf(),
    ensures
        match r {
            Ok(b) => {
                &&& b.wf()
                &&& code@.len() <= 0x10000
                &&& (forall|k: int| 0 <= k < code@.len() ==> (#[trigger] code@[k])@.codec_supported())
                &&& b.bytes@ == enc_prog(views_of(code@))
                &&& b.bytes@.len() <= 0xFFFF
            },
            Err(EncodeError::TooManyInstructions(n)) => n == code@.len() && (code@.len() > 0x10000
                || enc_prog(views_of(code@)).len() > 0xFFFF),
            Err(EncodeError::UnsupportedInstruction(_)) => exists|k: int|
                0 <= k < code@.len() && !(#[trigger] code@[k])@.codec_supported(),
            Err(EncodeError::Cursor(_)) => false,
        },
{
    if code.len() > 0x10000 {
        return Err(EncodeError::TooManyInstructions(code.len()));
    }
    let mut buf: Vec<u8> = Vec::new();
    let mut z: usize = 0;
    while z < 0xFFFF
        invariant
            buf@.len() == z <= 0xFFFF,
            forall|i: int| 0 <= i < z ==> buf@[i] == 0,
        decreases 0xFFFF - z,
    {
        buf.push(0);
        z = z + 1;
    }
    let mut writer = Cursor::with(buf);
    let mut k: usize = 0;
    let n = code.len();
    while k < n
        invariant
            n == code@.len() <= 0x10000,
            0 <= k <= n,
            forall|t: int| 0 <= t < code@.len() ==> (#[trigger] code@[t])@.wf(),
            writer.wf_w(),
            writer.bit() == 0,
            !writer.at_eof(),
            writer.data().len() == 0xFFFF,
            writer.pos() == enc_prog(views_of(code@.take(k as int))).len(),
            writer.data().subrange(0, writer.pos()) == enc_prog(views_of(code@.take(k as int))),
            forall|t: int| 0 <= t < k ==> (#[trigger] code@[t])@.codec_supported(),
        decreases n - k,
    {
        let ghost pre = views_of(code@.take(k as int));
        let ghost w0 = writer;
        match code[k].write(&mut writer) {
            Ok(()) => {},
            Err(e) => {
                match e {
                    EncodeError::UnsupportedInstruction(op) => {
                        return Err(EncodeError::UnsupportedInstruction(op));
                    },
                    EncodeError::Cursor(_) => {
                        proof {
                            assert(views_of(code@).take(k as int) =~= views_of(
                                code@.take(k as int),
                            ));
                            assert(views_of(code@)[k as int] == code@[k as int]@);
                            lemma_compile_overflow(views_of(code@), k as int);
                        }
                        return Err(EncodeError::TooManyInstructions(code.len()));
                    },
                    EncodeError::TooManyInstructions(_) => {
                        proof {
                            assert(false);
                        }
                        return Err(e);
                    },
                }
            },
        }
        proof {
            let ivs = views_of(code@);
            assert(views_of(code@.take(k + 1)) =~= pre.push(code@[k as int]@));
            lemma_enc_prog_snoc(views_of(code@.take(k + 1 as int)), k as int);
            assert(views_of(code@.take(k + 1)).take(k as int) =~= pre);
            assert(views_of(code@.take(k + 1))[k as int] == code@[k as int]@);
            assert(views_of(code@.take(k + 1)).take(k + 1 as int) =~= views_of(
                code@.take(k + 1),
            ));
            lemma_enc_len(code@[k as int]@);
            assert(writer.data().subrange(0, writer.pos()) =~= enc_prog(pre) + enc_instr(
                code@[k as int]@,
            )) by {
                assert forall|j: int| 0 <= j < writer.pos() implies writer.data().subrange(
                    0,
                    writer.pos(),
                )[j] == (enc_prog(pre) + enc_instr(code@[k as int]@))[j] by {
                    if j < w0.pos() {
                        assert(writer.data()[j] == w0.data()[j]);
                        assert(w0.data()[j] == w0.data().subrange(0, w0.pos())[j]);
                    } else {
                        assert(writer.data()[j] == enc_instr(code@[k as int]@)[j - w0.pos()]);
                    }
                }
            }
        }
        k = k + 1;
    }
    proof {
        assert(code@.take(n as int) =~= code@);
    }
    let used = writer.byte_pos();
    let mut bytes = writer.into_bytecode();
    bytes.truncate(used as usize);
    proof {
        assert(bytes@ =~= enc_prog(views_of(code@)));
    }
    Ok(Blob { bytes })
}

/// When an instruction no longer fits the address space, the whole
/// program's byte string exceeds it.
proof fn lemma_compile_overflow(ivs: Seq<InstrV>, k: int)
    requires
        0 <= k < ivs.len(),
        ivs[k].wf(),
        ivs[k].codec_supported(),
        enc_prog(ivs.take(k)).len() + ivs[k].bc() > 0xFFFF,
    ensures
        enc_prog(ivs).len() > 0xFFFF,
    decreases ivs.len() - k,
{
    lemma_enc_len(ivs[k]);
    lemma_enc_prog_snoc(ivs, k);
    lemma_enc_prog_len_mono(ivs, k + 1);
}

/// A prefix of a program never encodes to more bytes than the program.
proof fn lemma_enc_prog_len_mono(ivs: Seq<InstrV>, k: int)
    requires
        0 <= k <= ivs.len(),
    ensures
        enc_prog(ivs.take(k)).len() <= enc_prog(ivs).len(),
    decreases ivs.len() - k,
{
    if k == ivs.len() {
        assert(ivs.take(k) =~= ivs);
    } else {
        lemma_enc_prog_snoc(ivs, k);
        lemma_enc_prog_len_mono(ivs, k + 1);
    }
}

/// Decodes a whole byte string back into the program it spells.
#[verifier::rlimit(100)]
#[verifier::spinoff_prover]
pub fn disassemble(bytecode: &Vec<u8>) -> (r: Result<Vec<Instr>, DecodeError>)
    ensures
        match r {
            Ok(v) => {
                &&& bytecode@.len() <= 0xFFFF
                &&& parse_prog(bytecode@, 0) == Some(views_of(v@))
            },
            Err(e) => {
                ||| (bytecode@.len() > 0xFFFF && e == DecodeError::Cursor(
                    CursorError::OutOfBoundaries(bytecode@.len() as usize),
                ))
                ||| (bytecode@.len() <= 0xFFFF && parse_prog(bytecode@, 0) is None)
            },
        },
{
    let n = bytecode.len();
    if n > 0xFFFF {
        proof {
            assert(bytecode@.len() == n as nat);
            assert(bytecode@.len() as usize == n);
        }
        return Err(DecodeError::Cursor(CursorError::OutOfBoundaries(n)));
    }
    let ghost s = bytecode@;
    let mut owned: Vec<u8> = Vec::new();
    let mut ci: usize = 0;
    while ci < n
        invariant
            0 <= ci <= n,
            n == bytecode@.len(),
            owned@ =~= bytecode@.take(ci as int),
        decreases n - ci,
    {
        owned.push(bytecode[ci]);
        ci = ci + 1;
    }
    proof {
        assert(owned@ =~= s);
    }
    let mut reader = Cursor::with(owned);
    let mut acc: Vec<Instr> = Vec::new();
    while !reader.is_end()
        invariant
            reader.wf(),
            reader.bit() == 0,
            !reader.at_eof(),
            reader.data() == s,
            s == bytecode@,
            s.len() <= 0xFFFF,
            0 <= reader.pos() <= s.len(),
            parse_prog(s, reader.pos()) is Some ==> parse_prog(s, 0) == Some(
                views_of(acc@) + parse_prog(s, reader.pos()).unwrap(),
            ),
            parse_prog(s, reader.pos()) is None ==> parse_prog(s, 0) is None,
        decreases s.len() - reader.pos(),
    {
        let ghost p0 = reader.pos();
        let i = match Instr::read(&mut reader) {
            Ok(i) => i,
            Err(e) => {
                proof {
                    assert(parse_instr(s, p0) is None);
                    assert(parse_prog(s, p0) is None);
                    assert(parse_prog(s, 0) is None);
                }
                return Err(e);
            },
        };
        proof {
            lemma_encode_of_decode(s, p0);
            let (iv, p) = parse_instr(s, p0).unwrap();
            assert(p0 < p <= s.len());
            if parse_prog(s, p) is Some {
                assert(parse_prog(s, p0) == Some(seq![iv] + parse_prog(s, p).unwrap()));
                assert(views_of(acc@.push(i)) =~= views_of(acc@).push(iv));
                assert(views_of(acc@).push(iv) + parse_prog(s, p).unwrap() =~= views_of(acc@) + (
                seq![iv] + parse_prog(s, p).unwrap()));
            } else {
                assert(parse_prog(s, p0) is None);
            }
        }
        acc.push(i);
    }
    proof {
        assert(reader.pos() == s.len());
        assert(parse_prog(s, reader.pos()) == Some(Seq::<InstrV>::empty()));
        assert(views_of(acc@) + Seq::<InstrV>::empty() =~= views_of(acc@));
    }
    Ok(acc)
}

/// The opcode map: every category's opcodes lie in its own range, the
/// ranges are pairwise disjoint and contiguous, and together with the
/// no-operation opcode they cover exactly the opcodes the decoder accepts.
pub proof fn lemma_opcode_partition(iv: InstrV)
    ensures
        INSTR_FAIL <= INSTR_RET && INSTR_RET < INSTR_ZEROA,
        INSTR_ZEROA <= INSTR_PUTIFR && INSTR_PUTIFR < INSTR_SWPA,
        INSTR_SWPA <= INSTR_MOVRA && INSTR_MOVRA < INSTR_GT,
        INSTR_GT <= INSTR_A2ST && INSTR_A2ST < INSTR_NEG,
        INSTR_NEG <= INSTR_ABS && INSTR_ABS < INSTR_AND,
        INSTR_AND <= INSTR_SCR && INSTR_SCR < INSTR_PUT,
        INSTR_PUT <= INSTR_TRANSL && INSTR_TRANSL < INSTR_RIPEMD,
        INSTR_RIPEMD <= INSTR_SHA2 && INSTR_SHA2 < INSTR_SECP_GEN,
        INSTR_SECP_GEN <= INSTR_SECP_NEG && INSTR_SECP_NEG < INSTR_ED_GEN,
        INSTR_ED_GEN <= INSTR_ED_NEG && INSTR_ED_NEG < INSTR_NOP,
        match iv {
            InstrV::ControlFlow(_) => INSTR_FAIL <= iv.opcode() <= INSTR_RET,
            InstrV::Put(_) => INSTR_ZEROA <= iv.opcode() <= INSTR_PUTIFR,
            InstrV::Move(_) => INSTR_SWPA <= iv.opcode() <= INSTR_MOVRA,
            InstrV::Cmp(_) => INSTR_GT <= iv.opcode() <= INSTR_A2ST,
            InstrV::Arithmetic(_) => INSTR_NEG <= iv.opcode() <= INSTR_ABS,
            InstrV::Bitwise(_) => INSTR_AND <= iv.opcode() <= INSTR_SCR,
            InstrV::Bytes(_) => INSTR_PUT <= iv.opcode() <= INSTR_TRANSL,
            InstrV::Digest(_) => INSTR_RIPEMD <= iv.opcode() <= INSTR_SHA2,
            InstrV::Secp256k1(_) => INSTR_SECP_GEN <= iv.opcode() <= INSTR_SECP_NEG,
            InstrV::Curve25519(_) => INSTR_ED_GEN <= iv.opcode() <= INSTR_ED_NEG,
            InstrV::Nop => iv.opcode() == INSTR_NOP,
        },
        iv.codec_supported() ==> opcode_supported(iv.opcode()),
{
}

/// Every opcode the decoder accepts lies in the union of the covered
/// category ranges, or is the no-operation opcode.
pub proof fn lemma_accepted_opcodes(s: Seq<u8>, pos: int)
    requires
        parse_instr(s, pos) is Some,
    ensures
        0 <= pos < s.len(),
        opcode_supported(s[pos]),
{
    reveal(parse_bytes);
}

/// Reads one covered string instruction as a full instruction.
#[verifier::rlimit(100)]
#[verifier::spinoff_prover]
fn read_instr_bytes(reader: &mut Cursor) -> (r: Result<Instr, DecodeError>)
    requires
        old(reader).wf(),
        old(reader).bit() == 0,
        !old(reader).at_eof(),
        old(reader).data().len() <= 0xFFFF,
        old(reader).pos() < old(reader).data().len(),
        INSTR_PUT <= old(reader).data()[old(reader).pos()] <= INSTR_TRANSL,
        old(reader).data()[old(reader).pos()] != INSTR_EXTRA,
        old(reader).data()[old(reader).pos()] != INSTR_EXTRR,
    ensures
        final(reader).wf(),
        !final(reader).at_eof(),
        final(reader).data() == old(reader).data(),
        match r {
            Ok(i) => {
                &&& parse_instr(old(reader).data(), old(reader).pos()) matches Some((iv, p)) && i@
                    == iv && final(reader).pos() == p && final(reader).bit() == 0
            },
            Err(e) => {
                &&& parse_instr(old(reader).data(), old(reader).pos()) is None
                &&& e matches DecodeError::Cursor(_)
            },
        },
{
    proof {
        lemma_dispatch_bytes(reader.data(), reader.pos());
    }
    match BytesOp::read(reader) {
        Ok(o) => Ok(Instr::Bytes(o)),
        Err(e) => Err(e),
    }
}

impl Instr {
    /// Reads the next instruction from the bytecode.
    #[verifier::rlimit(100)]
    #[verifier::spinoff_prover]
    pub fn read(reader: &mut Cursor) -> (r: Result<Instr, DecodeError>)
        requires
            old(reader).wf(),
            old(reader).bit() == 0,
            !old(reader).at_eof(),
            old(reader).data().len() <= 0xFFFF,
        ensures
            final(reader).wf(),
            !final(reader).at_eof(),
            final(reader).data() == old(reader).data(),
            match r {
                Ok(i) => {
                    &&& parse_instr(old(reader).data(), old(reader).pos()) matches Some((iv, p))
                        && i@ == iv && final(reader).pos() == p && final(reader).bit() == 0
                },
                Err(e) => {
                    &&& parse_instr(old(reader).data(), old(reader).pos()) is None
                    &&& match e {
                        DecodeError::UnsupportedInstruction(op) => old(reader).pos() < old(
                            reader,
                        ).data().len() && op == old(reader).data()[old(reader).pos()]
                            && !opcode_supported(op),
                        DecodeError::Cursor(_) => old(reader).pos() >= old(reader).data().len()
                            || opcode_supported(old(reader).data()[old(reader).pos()]),
                    }
                },
            },
    {
        let op = match reader.peek_u8() {
            Ok(b) => b,
            Err(e) => {
                return Err(DecodeError::Cursor(e));
            },
        };
        if op <= INSTR_RET {
            read_instr_cf(reader)
        } else if op <= INSTR_PUTIFR {
            read_instr_put(reader)
        } else if op <= INSTR_MOVRA {
            read_instr_move(reader)
        } else if op <= INSTR_A2ST {
            read_instr_cmp(reader)
        } else if op <= INSTR_ABS {
            read_instr_arith(reader)
        } else if op <= INSTR_SCR {
            read_instr_bitwise(reader)
        } else if op <= INSTR_TRANSL {
            if op == INSTR_EXTRA || op == INSTR_EXTRR {
                proof {
                    lemma_dispatch_bytes(reader.data(), reader.pos());
                }
                Err(DecodeError::UnsupportedInstruction(op))
            } else {
                read_instr_bytes(reader)
            }
        } else if op == INSTR_NOP {
            match reader.read_u8() {
                Ok(_) => Ok(Instr::Nop),
                Err(e) => {
                    proof {
                        assert(false);
                    }
                    Err(DecodeError::Cursor(e))
                },
            }
        } else {
            Err(DecodeError::UnsupportedInstruction(op))
        }
    }
}

} // verus!
