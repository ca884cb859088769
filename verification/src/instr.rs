//! The instruction set: one enum per category, a flat 8-bit opcode map
//! partitioned into disjoint contiguous ranges, and the byte size of every
//! instruction. Spec-level mirrors (`…V` types) stand for instructions in
//! contracts, with byte payloads as sequences.

use vstd::prelude::*;
use crate::data::{Blob, LibSite, Value, MAX_VALUE_BYTES};
use crate::regid::{Reg32, Reg8, RegA, RegR};

verus! {

pub const INSTR_FAIL: u8 = 0x00;

pub const INSTR_SUCC: u8 = 0x01;

pub const INSTR_JMP: u8 = 0x02;

pub const INSTR_JIF: u8 = 0x03;

pub const INSTR_ROUTINE: u8 = 0x04;

pub const INSTR_CALL: u8 = 0x05;

pub const INSTR_EXEC: u8 = 0x06;

pub const INSTR_RET: u8 = 0x07;

pub const INSTR_ZEROA: u8 = 0x08;

pub const INSTR_ZEROR: u8 = 0x09;

pub const INSTR_CLA: u8 = 0x0A;

pub const INSTR_CLR: u8 = 0x0B;

pub const INSTR_PUTA: u8 = 0x0C;

pub const INSTR_PUTR: u8 = 0x0D;

pub const INSTR_PUTIFA: u8 = 0x0E;

pub const INSTR_PUTIFR: u8 = 0x0F;

pub const INSTR_SWPA: u8 = 0x10;

pub const INSTR_SWPR: u8 = 0x11;

pub const INSTR_SWPAR: u8 = 0x12;

pub const INSTR_AMOV: u8 = 0x13;

pub const INSTR_MOVA: u8 = 0x14;

pub const INSTR_MOVR: u8 = 0x15;

pub const INSTR_MOVAR: u8 = 0x16;

pub const INSTR_MOVRA: u8 = 0x17;

pub const INSTR_GT: u8 = 0x18;

pub const INSTR_LT: u8 = 0x19;

pub const INSTR_EQA: u8 = 0x1A;

pub const INSTR_EQR: u8 = 0x1B;

pub const INSTR_LEN: u8 = 0x1C;

pub const INSTR_CNT: u8 = 0x1D;

pub const INSTR_ST2A: u8 = 0x1E;

pub const INSTR_A2ST: u8 = 0x1F;

pub const INSTR_NEG: u8 = 0x20;

pub const INSTR_STP: u8 = 0x21;

pub const INSTR_ADD: u8 = 0x22;

pub const INSTR_SUB: u8 = 0x23;

pub const INSTR_MUL: u8 = 0x24;

pub const INSTR_DIV: u8 = 0x25;

pub const INSTR_MOD: u8 = 0x26;

pub const INSTR_ABS: u8 = 0x27;

pub const INSTR_AND: u8 = 0x28;

pub const INSTR_OR: u8 = 0x29;

pub const INSTR_XOR: u8 = 0x2A;

pub const INSTR_NOT: u8 = 0x2B;

pub const INSTR_SHL: u8 = 0x2C;

pub const INSTR_SHR: u8 = 0x2D;

pub const INSTR_SCL: u8 = 0x2E;

pub const INSTR_SCR: u8 = 0x2F;

pub const INSTR_PUT: u8 = 0x30;

pub const INSTR_MOVS: u8 = 0x31;

pub const INSTR_SWPS: u8 = 0x32;

pub const INSTR_FILL: u8 = 0x33;

pub const INSTR_LENS: u8 = 0x34;

pub const INSTR_COUNT: u8 = 0x35;

pub const INSTR_CMP: u8 = 0x36;

pub const INSTR_COMM: u8 = 0x37;

pub const INSTR_FIND: u8 = 0x38;

pub const INSTR_EXTRA: u8 = 0x39;

pub const INSTR_EXTRR: u8 = 0x3A;

pub const INSTR_JOIN: u8 = 0x3B;

pub const INSTR_SPLIT: u8 = 0x3C;

pub const INSTR_INS: u8 = 0x3D;

pub const INSTR_DEL: u8 = 0x3E;

pub const INSTR_TRANSL: u8 = 0x3F;

pub const INSTR_RIPEMD: u8 = 0x40;

pub const INSTR_SHA2: u8 = 0x41;

pub const INSTR_SECP_GEN: u8 = 0x48;

pub const INSTR_SECP_MUL: u8 = 0x49;

pub const INSTR_SECP_ADD: u8 = 0x4A;

pub const INSTR_SECP_NEG: u8 = 0x4B;

pub const INSTR_ED_GEN: u8 = 0x4C;

pub const INSTR_ED_MUL: u8 = 0x4D;

pub const INSTR_ED_ADD: u8 = 0x4E;

pub const INSTR_ED_NEG: u8 = 0x4F;

pub const INSTR_NOP: u8 = 0xFF;

/// Spec mirror of a library site: offset and hash bytes.
pub struct SiteV {
    pub pos: u16,
    pub lib: Seq<u8>,
}

impl View for LibSite {
    type V = SiteV;

    open spec fn view(&self) -> SiteV {
        SiteV { pos: self.pos, lib: self.lib.bytes@ }
    }
}

/// Machine movement after an instruction was executed.
#[derive(Clone, Copy, PartialEq, Eq, Debug)]
pub enum ExecStep {
    /// Stop program execution.
    Stop,
    /// Move to the next instruction.
    Next,
    /// Jump to the offset from the origin of the current library.
    Jump(u16),
    /// Jump to another code fragment, possibly in another library.
    Call(LibSite),
}

/// Spec mirror of [`ExecStep`].
pub enum StepV {
    Stop,
    Next,
    Jump(u16),
    Call(SiteV),
}

impl View for ExecStep {
    type V = StepV;

    open spec fn view(&self) -> StepV {
        match self {
            ExecStep::Stop => StepV::Stop,
            ExecStep::Next => StepV::Next,
            ExecStep::Jump(p) => StepV::Jump(*p),
            ExecStep::Call(s) => StepV::Call(s@),
        }
    }
}

/// Control-flow instructions.
#[derive(Clone, Copy, PartialEq, Eq, Debug)]
pub enum ControlFlowOp {
    /// Completes program execution writing `false` to `st0`.
    Fail,
    /// Completes program execution writing `true` to `st0`.
    Succ,
    /// Unconditionally jumps to an offset. Increments `cy0`.
    Jmp(u16),
    /// Jumps to an offset if `st0` is true, otherwise does nothing.
    /// Increments `cy0` when it jumps.
    Jif(u16),
    /// Calls a subroutine within the current code: jumps to the offset and
    /// pushes the site of the next instruction onto `cs0`.
    Routine(u16),
    /// Calls code of an external library identified by the hash of its
    /// code. Increments `cy0` and `cp0` and pushes the return site.
    Call(LibSite),
    /// Passes execution to another library without an option to return.
    /// Counts a cycle, which bounds chains of tail calls and keeps every
    /// execution provably terminating.
    Exec(LibSite),
    /// Returns to the site on top of `cs0`. Decrements `cp0`.
    Ret,
}

/// Spec mirror of [`ControlFlowOp`].
pub enum ControlFlowOpV {
    Fail,
    Succ,
    Jmp(u16),
    Jif(u16),
    Routine(u16),
    Call(SiteV),
    Exec(SiteV),
    Ret,
}

impl View for ControlFlowOp {
    type V = ControlFlowOpV;

    open spec fn view(&self) -> ControlFlowOpV {
        match self {
            ControlFlowOp::Fail => ControlFlowOpV::Fail,
            ControlFlowOp::Succ => ControlFlowOpV::Succ,
            ControlFlowOp::Jmp(p) => ControlFlowOpV::Jmp(*p),
            ControlFlowOp::Jif(p) => ControlFlowOpV::Jif(*p),
            ControlFlowOp::Routine(p) => ControlFlowOpV::Routine(*p),
            ControlFlowOp::Call(s) => ControlFlowOpV::Call(s@),
            ControlFlowOp::Exec(s) => ControlFlowOpV::Exec(s@),
            ControlFlowOp::Ret => ControlFlowOpV::Ret,
        }
    }
}

/// Instructions setting register values.
#[derive(Clone, PartialEq, Eq, Debug)]
pub enum PutOp {
    /// Sets an `A` register to the all-zero value of its width.
    ZeroA(RegA, Reg32),
    /// Sets an `R` register to the all-zero value of its width.
    ZeroR(RegR, Reg32),
    /// Clears an `A` register (sets it to the uninitialized state).
    ClA(RegA, Reg32),
    /// Clears an `R` register (sets it to the uninitialized state).
    ClR(RegR, Reg32),
    /// Unconditionally assigns a value to an `A` register.
    PutA(RegA, Reg32, Value),
    /// Unconditionally assigns a value to an `R` register.
    PutR(RegR, Reg32, Value),
    /// Assigns a value to an `A` register only when the register is
    /// uninitialized.
    PutIfA(RegA, Reg32, Value),
    /// Assigns a value to an `R` register only when the register is
    /// uninitialized.
    PutIfR(RegR, Reg32, Value),
}

/// Spec mirror of [`PutOp`].
pub enum PutOpV {
    ZeroA(RegA, Reg32),
    ZeroR(RegR, Reg32),
    ClA(RegA, Reg32),
    ClR(RegR, Reg32),
    PutA(RegA, Reg32, Seq<u8>),
    PutR(RegR, Reg32, Seq<u8>),
    PutIfA(RegA, Reg32, Seq<u8>),
    PutIfR(RegR, Reg32, Seq<u8>),
}

impl View for PutOp {
    type V = PutOpV;

    open spec fn view(&self) -> PutOpV {
        match self {
            PutOp::ZeroA(r, i) => PutOpV::ZeroA(*r, *i),
            PutOp::ZeroR(r, i) => PutOpV::ZeroR(*r, *i),
            PutOp::ClA(r, i) => PutOpV::ClA(*r, *i),
            PutOp::ClR(r, i) => PutOpV::ClR(*r, *i),
            PutOp::PutA(r, i, v) => PutOpV::PutA(*r, *i, v.bytes@),
            PutOp::PutR(r, i, v) => PutOpV::PutR(*r, *i, v.bytes@),
            PutOp::PutIfA(r, i, v) => PutOpV::PutIfA(*r, *i, v.bytes@),
            PutOp::PutIfR(r, i, v) => PutOpV::PutIfR(*r, *i, v.bytes@),
        }
    }
}

/// Interpretation tag for `AMov` array moves.
#[derive(Clone, Copy, PartialEq, Eq, Structural, Debug)]
pub enum NumType {
    /// Unsigned integer.
    Unsigned,
    /// Signed integer.
    Signed,
    /// Float with a 23-bit mantissa.
    Float23,
    /// Float with a 52-bit mantissa.
    Float52,
}

impl NumType {
    /// The 2-bit wire tag of this interpretation.
    pub open spec fn code_spec(self) -> u8 {
        match self {
            NumType::Unsigned => 0,
            NumType::Signed => 1,
            NumType::Float23 => 2,
            NumType::Float52 => 3,
        }
    }

    /// The interpretation a 2-bit wire tag denotes.
    pub open spec fn from_code_spec(c: u8) -> NumType {
        if c == 0 {
            NumType::Unsigned
        } else if c == 1 {
            NumType::Signed
        } else if c == 2 {
            NumType::Float23
        } else {
            NumType::Float52
        }
    }

    pub fn code(&self) -> (r: u8)
        ensures
            r == self.code_spec(),
            r < 4,
    {
        match self {
            NumType::Unsigned => 0,
            NumType::Signed => 1,
            NumType::Float23 => 2,
            NumType::Float52 => 3,
        }
    }

    pub fn from_code(c: u8) -> (r: NumType)
        requires
            c < 4,
        ensures
            r == NumType::from_code_spec(c),
            r.code_spec() == c,
    {
        if c == 0 {
            NumType::Unsigned
        } else if c == 1 {
            NumType::Signed
        } else if c == 2 {
            NumType::Float23
        } else {
            NumType::Float52
        }
    }
}

/// Instructions moving and swapping register values.
#[derive(Clone, Copy, PartialEq, Eq, Structural, Debug)]
pub enum MoveOp {
    /// Swaps two `A` registers, truncating values that do not fit.
    SwpA(RegA, Reg32, RegA, Reg32),
    /// Swaps two `R` registers, truncating values that do not fit.
    SwpR(RegR, Reg32, RegR, Reg32),
    /// Swaps an `A` and an `R` register, truncating values that do not fit.
    SwpAR(RegA, Reg32, RegR, Reg32),
    /// Copies all 32 slots of one `A` family into another, reinterpreting
    /// values under the given tag and truncating the most significant bytes
    /// on overflow.
    AMov(RegA, RegA, NumType),
    /// Copies one `A` register into another.
    MovA(RegA, Reg32, RegA, Reg32),
    /// Copies one `R` register into another.
    MovR(RegR, Reg32, RegR, Reg32),
    /// Copies an `A` register into an `R` register.
    MovAR(RegA, Reg32, RegR, Reg32),
    /// Copies an `R` register into an `A` register.
    MovRA(RegR, Reg32, RegA, Reg32),
}

/// Instructions comparing register values.
#[derive(Clone, Copy, PartialEq, Eq, Structural, Debug)]
pub enum CmpOp {
    /// Sets `st0` when the first `A` register holds a strictly greater
    /// number than the second.
    Gt(RegA, Reg32, RegA, Reg32),
    /// Sets `st0` when the first `R` register holds a strictly smaller
    /// number than the second.
    Lt(RegR, Reg32, RegR, Reg32),
    /// Sets `st0` to the equality of two `A` registers.
    EqA(RegA, Reg32, RegA, Reg32),
    /// Sets `st0` to the equality of two `R` registers.
    EqR(RegR, Reg32, RegR, Reg32),
    /// Puts the bit length of a register value into `a16[0]`.
    Len(RegA, Reg32),
    /// Puts the count of set bits of a register value into `a16[0]`.
    Cnt(RegA, Reg32),
    /// Sets `st0` to whether `a8[0]` holds the number 1.
    St2A,
    /// Sets `a8[0]` to 1 when `st0` is true, else to 0.
    A2St,
}

/// The arithmetic mode of an instruction.
#[derive(Clone, Copy, PartialEq, Eq, Structural, Debug)]
pub enum Arithmetics {
    /// Integer arithmetic that stops the program on overflow.
    IntChecked {
        /// Whether signed integer arithmetic is meant.
        signed: bool,
    },
    /// Integer arithmetic that wraps at the register width.
    IntUnchecked {
        /// Whether signed integer arithmetic is meant.
        signed: bool,
    },
    /// Integer arithmetic that widens into the arbitrary-precision
    /// register.
    IntArbitraryPrecision {
        /// Whether signed integer arithmetic is meant.
        signed: bool,
    },
    /// Floating-point arithmetic with a 23-bit mantissa.
    Float,
    /// Arbitrary-precision floating-point arithmetic.
    FloatArbitraryPrecision,
}

impl Arithmetics {
    /// The 3-bit wire tag of this mode.
    pub open spec fn code_spec(self) -> u8 {
        match self {
            Arithmetics::IntChecked { signed: false } => 0,
            Arithmetics::IntUnchecked { signed: false } => 1,
            Arithmetics::IntArbitraryPrecision { signed: false } => 2,
            Arithmetics::IntChecked { signed: true } => 3,
            Arithmetics::IntUnchecked { signed: true } => 4,
            Arithmetics::IntArbitraryPrecision { signed: true } => 5,
            Arithmetics::Float => 6,
            Arithmetics::FloatArbitraryPrecision => 7,
        }
    }

    /// The mode a 3-bit wire tag denotes.
    pub open spec fn from_code_spec(c: u8) -> Arithmetics {
        if c == 0 {
            Arithmetics::IntChecked { signed: false }
        } else if c == 1 {
            Arithmetics::IntUnchecked { signed: false }
        } else if c == 2 {
            Arithmetics::IntArbitraryPrecision { signed: false }
        } else if c == 3 {
            Arithmetics::IntChecked { signed: true }
        } else if c == 4 {
            Arithmetics::IntUnchecked { signed: true }
        } else if c == 5 {
            Arithmetics::IntArbitraryPrecision { signed: true }
        } else if c == 6 {
            Arithmetics::Float
        } else {
            Arithmetics::FloatArbitraryPrecision
        }
    }

    pub fn code(&self) -> (r: u8)
        ensures
            r == self.code_spec(),
            r < 8,
    {
        match self {
            Arithmetics::IntChecked { signed: false } => 0,
            Arithmetics::IntUnchecked { signed: false } => 1,
            Arithmetics::IntArbitraryPrecision { signed: false } => 2,
            Arithmetics::IntChecked { signed: true } => 3,
            Arithmetics::IntUnchecked { signed: true } => 4,
            Arithmetics::IntArbitraryPrecision { signed: true } => 5,
            Arithmetics::Float => 6,
            Arithmetics::FloatArbitraryPrecision => 7,
        }
    }

    pub fn from_code(c: u8) -> (r: Arithmetics)
        requires
            c < 8,
        ensures
            r == Arithmetics::from_code_spec(c),
            r.code_spec() == c,
    {
        if c == 0 {
            Arithmetics::IntChecked { signed: false }
        } else if c == 1 {
            Arithmetics::IntUnchecked { signed: false }
        } else if c == 2 {
            Arithmetics::IntArbitraryPrecision { signed: false }
        } else if c == 3 {
            Arithmetics::IntChecked { signed: true }
        } else if c == 4 {
            Arithmetics::IntUnchecked { signed: true }
        } else if c == 5 {
            Arithmetics::IntArbitraryPrecision { signed: true }
        } else if c == 6 {
            Arithmetics::Float
        } else {
            Arithmetics::FloatArbitraryPrecision
        }
    }
}

/// Arithmetic instructions.
#[derive(Clone, Copy, PartialEq, Eq, Structural, Debug)]
pub enum ArithmeticOp {
    /// Flips the most significant bit of the value held by the register.
    Neg(RegA, Reg32),
    /// Steps the register by the 4-bit step: up when the flag is true, down
    /// when it is false, under the given arithmetic mode.
    Stp(bool, Arithmetics, RegA, Reg32, u8),
    /// Adds two registers of one family; the second index is the
    /// destination, or `ap[0]` under an arbitrary-precision mode.
    Add(Arithmetics, RegA, Reg32, Reg32),
    /// Subtracts the second register from the first; the second index is
    /// the destination, or `ap[0]` under an arbitrary-precision mode.
    Sub(Arithmetics, RegA, Reg32, Reg32),
    /// Multiplies two registers; the second index is the destination, or
    /// `ap[0]` under an arbitrary-precision mode.
    Mul(Arithmetics, RegA, Reg32, Reg32),
    /// Divides the first register by the second; the second index is the
    /// destination, or `ap[0]` under an arbitrary-precision mode.
    Div(Arithmetics, RegA, Reg32, Reg32),
    /// Writes the remainder of the first register divided by the second
    /// into the third.
    Mod(RegA, Reg32, RegA, Reg32, RegA, Reg32),
    /// Puts the absolute value of the register into `a8[0]`; values are
    /// unsigned here, so the value itself, truncated to one byte.
    Abs(RegA, Reg32),
}

/// Bit operations and boolean algebra instructions.
#[derive(Clone, Copy, PartialEq, Eq, Structural, Debug)]
pub enum BitwiseOp {
    /// Bitwise conjunction; the destination is one of the first 8 slots.
    And(RegA, Reg32, Reg32, Reg8),
    /// Bitwise disjunction.
    Or(RegA, Reg32, Reg32, Reg8),
    /// Bitwise exclusive disjunction.
    Xor(RegA, Reg32, Reg32, Reg8),
    /// Bitwise inversion in place.
    Not(RegA, Reg32),
    /// Left shift by the amount in `a8`, filling with zeroes.
    Shl(RegA, Reg32, Reg32, Reg8),
    /// Right shift by the amount in `a8`, filling with zeroes.
    Shr(RegA, Reg32, Reg32, Reg8),
    /// Cyclic left shift by the amount in `a8`.
    Scl(RegA, Reg32, Reg32, Reg8),
    /// Cyclic right shift by the amount in `a8`.
    Scr(RegA, Reg32, Reg32, Reg8),
}

/// Operations on the string register bank.
#[derive(Clone, PartialEq, Eq, Debug)]
pub enum BytesOp {
    /// Stores a blob in a string register.
    Put(u8, Blob),
    /// Copies one string register into another.
    Mov(u8, u8),
    /// Swaps two string registers.
    Swp(u8, u8),
    /// Fills a byte range of a string register with a value.
    Fill(u8, u16, u16, u8),
    /// Puts the length of the string into `a16[0]`.
    LenS(u8),
    /// Counts occurrences of a byte within the string.
    Count(u8, u8),
    /// Compares two strings.
    Cmp(u8, u8),
    /// Measures the length of the shared prefix of two strings.
    Comm(u8, u8),
    /// Counts occurrences of one string within another.
    Find(u8, u8),
    /// Extracts a value for an `A` register from a string.
    ExtrA(RegA, Reg32, u8, u16),
    /// Extracts a value for an `R` register from a string.
    ExtrR(RegR, Reg32, u8, u16),
    /// Joins two strings into a third.
    Join(u8, u8, u8),
    /// Splits a string at an offset into two registers.
    Split(u8, u16, u8, u8),
    /// Inserts one string into another at an offset.
    Ins(u8, u8, u16),
    /// Deletes a byte range within a string register.
    Del(u8, u16, u16),
    /// Moves a fragment of a string into another register.
    Transl(u8, u16, u16, u8),
}

/// Spec mirror of [`BytesOp`].
pub enum BytesOpV {
    Put(u8, Seq<u8>),
    Mov(u8, u8),
    Swp(u8, u8),
    Fill(u8, u16, u16, u8),
    LenS(u8),
    Count(u8, u8),
    Cmp(u8, u8),
    Comm(u8, u8),
    Find(u8, u8),
    ExtrA(RegA, Reg32, u8, u16),
    ExtrR(RegR, Reg32, u8, u16),
    Join(u8, u8, u8),
    Split(u8, u16, u8, u8),
    Ins(u8, u8, u16),
    Del(u8, u16, u16),
    Transl(u8, u16, u16, u8),
}

impl View for BytesOp {
    type V = BytesOpV;

    open spec fn view(&self) -> BytesOpV {
        match self {
            BytesOp::Put(i, b) => BytesOpV::Put(*i, b.bytes@),
            BytesOp::Mov(a, b) => BytesOpV::Mov(*a, *b),
            BytesOp::Swp(a, b) => BytesOpV::Swp(*a, *b),
            BytesOp::Fill(i, f, t, v) => BytesOpV::Fill(*i, *f, *t, *v),
            BytesOp::LenS(i) => BytesOpV::LenS(*i),
            BytesOp::Count(i, b) => BytesOpV::Count(*i, *b),
            BytesOp::Cmp(a, b) => BytesOpV::Cmp(*a, *b),
            BytesOp::Comm(a, b) => BytesOpV::Comm(*a, *b),
            BytesOp::Find(a, b) => BytesOpV::Find(*a, *b),
            BytesOp::ExtrA(r, i, s, o) => BytesOpV::ExtrA(*r, *i, *s, *o),
            BytesOp::ExtrR(r, i, s, o) => BytesOpV::ExtrR(*r, *i, *s, *o),
            BytesOp::Join(a, b, d) => BytesOpV::Join(*a, *b, *d),
            BytesOp::Split(s, o, d1, d2) => BytesOpV::Split(*s, *o, *d1, *d2),
            BytesOp::Ins(f, t, o) => BytesOpV::Ins(*f, *t, *o),
            BytesOp::Del(i, f, t) => BytesOpV::Del(*i, *f, *t),
            BytesOp::Transl(s, f, t, d) => BytesOpV::Transl(*s, *f, *t, *d),
        }
    }
}

/// Cryptographic hashing instructions; their state effects are host
/// collaborations outside this core.
#[derive(Clone, Copy, PartialEq, Eq, Structural, Debug)]
pub enum DigestOp {
    /// RIPEMD-160 digest of a string register region.
    Ripemd(Reg32, Reg32, Reg32, bool),
    /// SHA-256 digest of a string register region.
    Sha2(Reg32, Reg32, Reg32, bool),
}

/// Operations on the Secp256k1 elliptic curve; state effects are host
/// collaborations outside this core.
#[derive(Clone, Copy, PartialEq, Eq, Structural, Debug)]
pub enum SecpOp {
    /// Multiplies the generator point by a scalar.
    Gen(Reg32, Reg8),
    /// Multiplies a point by a scalar.
    Mul(bool, Reg32, Reg32, Reg32),
    /// Adds two points.
    Add(bool, Reg32, Reg32, Reg32),
    /// Negates a point.
    Neg(Reg32, Reg8),
}

/// Operations on the Curve25519 elliptic curve; state effects are host
/// collaborations outside this core.
#[derive(Clone, Copy, PartialEq, Eq, Structural, Debug)]
pub enum Curve25519Op {
    /// Multiplies the generator point by a scalar.
    Gen(Reg32, Reg8),
    /// Multiplies a point by a scalar.
    Mul(bool, Reg32, Reg32, Reg32),
    /// Adds two points.
    Add(bool, Reg32, Reg32, Reg32),
    /// Negates a point.
    Neg(Reg32, Reg8),
}

/// The full instruction set.
#[derive(Clone, PartialEq, Eq, Debug)]
pub enum Instr {
    /// Control-flow instructions.
    ControlFlow(ControlFlowOp),
    /// Instructions setting register values.
    Put(PutOp),
    /// Instructions moving and swapping register values.
    Move(MoveOp),
    /// Instructions comparing register values.
    Cmp(CmpOp),
    /// Arithmetic instructions.
    Arithmetic(ArithmeticOp),
    /// Bit operations and boolean algebra.
    Bitwise(BitwiseOp),
    /// Operations on byte strings.
    Bytes(BytesOp),
    /// Cryptographic hashing functions.
    Digest(DigestOp),
    /// Operations on the Secp256k1 curve.
    Secp256k1(SecpOp),
    /// Operations on the Curve25519 curve.
    Curve25519(Curve25519Op),
    /// The no-operation instruction.
    Nop,
}

/// Spec mirror of [`Instr`].
pub enum InstrV {
    ControlFlow(ControlFlowOpV),
    Put(PutOpV),
    Move(MoveOp),
    Cmp(CmpOp),
    Arithmetic(ArithmeticOp),
    Bitwise(BitwiseOp),
    Bytes(BytesOpV),
    Digest(DigestOp),
    Secp256k1(SecpOp),
    Curve25519(Curve25519Op),
    Nop,
}

impl View for Instr {
    type V = InstrV;

    open spec fn view(&self) -> InstrV {
        match self {
            Instr::ControlFlow(op) => InstrV::ControlFlow(op@),
            Instr::Put(op) => InstrV::Put(op@),
            Instr::Move(op) => InstrV::Move(*op),
            Instr::Cmp(op) => InstrV::Cmp(*op),
            Instr::Arithmetic(op) => InstrV::Arithmetic(*op),
            Instr::Bitwise(op) => InstrV::Bitwise(*op),
            Instr::Bytes(op) => InstrV::Bytes(op@),
            Instr::Digest(op) => InstrV::Digest(*op),
            Instr::Secp256k1(op) => InstrV::Secp256k1(*op),
            Instr::Curve25519(op) => InstrV::Curve25519(*op),
            Instr::Nop => InstrV::Nop,
        }
    }
}

impl ControlFlowOpV {
    /// A well-formed control-flow instruction: library hashes hold 32
    /// bytes.
    pub open spec fn wf(self) -> bool {
        match self {
            ControlFlowOpV::Call(s) => s.lib.len() == 32,
            ControlFlowOpV::Exec(s) => s.lib.len() == 32,
            _ => true,
        }
    }

    /// Bytes the instruction occupies, its opcode byte counted.
    pub open spec fn bc(self) -> int {
        match self {
            ControlFlowOpV::Fail => 1,
            ControlFlowOpV::Succ => 1,
            ControlFlowOpV::Jmp(_) => 3,
            ControlFlowOpV::Jif(_) => 3,
            ControlFlowOpV::Routine(_) => 3,
            ControlFlowOpV::Call(_) => 35,
            ControlFlowOpV::Exec(_) => 35,
            ControlFlowOpV::Ret => 1,
        }
    }

    /// The opcode byte.
    pub open spec fn opcode(self) -> u8 {
        match self {
            ControlFlowOpV::Fail => INSTR_FAIL,
            ControlFlowOpV::Succ => INSTR_SUCC,
            ControlFlowOpV::Jmp(_) => INSTR_JMP,
            ControlFlowOpV::Jif(_) => INSTR_JIF,
            ControlFlowOpV::Routine(_) => INSTR_ROUTINE,
            ControlFlowOpV::Call(_) => INSTR_CALL,
            ControlFlowOpV::Exec(_) => INSTR_EXEC,
            ControlFlowOpV::Ret => INSTR_RET,
        }
    }
}

impl PutOpV {
    /// A well-formed put instruction: the slot index is in range and the
    /// value has exactly the width of a fixed-width register, or fits the
    /// value capacity for `AP`.
    pub open spec fn wf(self) -> bool {
        match self {
            PutOpV::ZeroA(_, i) => i.wf(),
            PutOpV::ZeroR(_, i) => i.wf(),
            PutOpV::ClA(_, i) => i.wf(),
            PutOpV::ClR(_, i) => i.wf(),
            PutOpV::PutA(r, i, v) => i.wf() && (if r == RegA::AP {
                v.len() <= MAX_VALUE_BYTES
            } else {
                v.len() == r.cap_spec()
            }),
            PutOpV::PutR(r, i, v) => i.wf() && v.len() == r.cap_spec(),
            PutOpV::PutIfA(r, i, v) => i.wf() && (if r == RegA::AP {
                v.len() <= MAX_VALUE_BYTES
            } else {
                v.len() == r.cap_spec()
            }),
            PutOpV::PutIfR(r, i, v) => i.wf() && v.len() == r.cap_spec(),
        }
    }

    /// Bytes the instruction occupies, its opcode byte counted. A value of
    /// the arbitrary-precision register carries a 16-bit length prefix.
    pub open spec fn bc(self) -> int {
        match self {
            PutOpV::ZeroA(_, _) => 2,
            PutOpV::ZeroR(_, _) => 2,
            PutOpV::ClA(_, _) => 2,
            PutOpV::ClR(_, _) => 2,
            PutOpV::PutA(r, _, v) => if r == RegA::AP {
                4 + v.len() as int
            } else {
                2 + r.cap_spec()
            },
            PutOpV::PutR(r, _, _) => 2 + r.cap_spec(),
            PutOpV::PutIfA(r, _, v) => if r == RegA::AP {
                4 + v.len() as int
            } else {
                2 + r.cap_spec()
            },
            PutOpV::PutIfR(r, _, _) => 2 + r.cap_spec(),
        }
    }

    /// The opcode byte.
    pub open spec fn opcode(self) -> u8 {
        match self {
            PutOpV::ZeroA(_, _) => INSTR_ZEROA,
            PutOpV::ZeroR(_, _) => INSTR_ZEROR,
            PutOpV::ClA(_, _) => INSTR_CLA,
            PutOpV::ClR(_, _) => INSTR_CLR,
            PutOpV::PutA(_, _, _) => INSTR_PUTA,
            PutOpV::PutR(_, _, _) => INSTR_PUTR,
            PutOpV::PutIfA(_, _, _) => INSTR_PUTIFA,
            PutOpV::PutIfR(_, _, _) => INSTR_PUTIFR,
        }
    }
}

impl MoveOp {
    /// A well-formed move instruction: slot indexes are in range.
    pub open spec fn wf(self) -> bool {
        match self {
            MoveOp::SwpA(_, i1, _, i2) => i1.wf() && i2.wf(),
            MoveOp::SwpR(_, i1, _, i2) => i1.wf() && i2.wf(),
            MoveOp::SwpAR(_, i1, _, i2) => i1.wf() && i2.wf(),
            MoveOp::AMov(_, _, _) => true,
            MoveOp::MovA(_, i1, _, i2) => i1.wf() && i2.wf(),
            MoveOp::MovR(_, i1, _, i2) => i1.wf() && i2.wf(),
            MoveOp::MovAR(_, i1, _, i2) => i1.wf() && i2.wf(),
            MoveOp::MovRA(_, i1, _, i2) => i1.wf() && i2.wf(),
        }
    }

    /// Bytes the instruction occupies, its opcode byte counted.
    pub open spec fn bc(self) -> int {
        match self {
            MoveOp::AMov(_, _, _) => 2,
            _ => 3,
        }
    }

    /// The opcode byte.
    pub open spec fn opcode(self) -> u8 {
        match self {
            MoveOp::SwpA(_, _, _, _) => INSTR_SWPA,
            MoveOp::SwpR(_, _, _, _) => INSTR_SWPR,
            MoveOp::SwpAR(_, _, _, _) => INSTR_SWPAR,
            MoveOp::AMov(_, _, _) => INSTR_AMOV,
            MoveOp::MovA(_, _, _, _) => INSTR_MOVA,
            MoveOp::MovR(_, _, _, _) => INSTR_MOVR,
            MoveOp::MovAR(_, _, _, _) => INSTR_MOVAR,
            MoveOp::MovRA(_, _, _, _) => INSTR_MOVRA,
        }
    }
}

impl CmpOp {
    /// A well-formed comparison instruction: slot indexes are in range.
    pub open spec fn wf(self) -> bool {
        match self {
            CmpOp::Gt(_, i1, _, i2) => i1.wf() && i2.wf(),
            CmpOp::Lt(_, i1, _, i2) => i1.wf() && i2.wf(),
            CmpOp::EqA(_, i1, _, i2) => i1.wf() && i2.wf(),
            CmpOp::EqR(_, i1, _, i2) => i1.wf() && i2.wf(),
            CmpOp::Len(_, i) => i.wf(),
            CmpOp::Cnt(_, i) => i.wf(),
            CmpOp::St2A => true,
            CmpOp::A2St => true,
        }
    }

    /// Bytes the instruction occupies, its opcode byte counted.
    pub open spec fn bc(self) -> int {
        match self {
            CmpOp::Gt(_, _, _, _) => 3,
            CmpOp::Lt(_, _, _, _) => 3,
            CmpOp::EqA(_, _, _, _) => 3,
            CmpOp::EqR(_, _, _, _) => 3,
            CmpOp::Len(_, _) => 2,
            CmpOp::Cnt(_, _) => 2,
            CmpOp::St2A => 1,
            CmpOp::A2St => 1,
        }
    }

    /// The opcode byte.
    pub open spec fn opcode(self) -> u8 {
        match self {
            CmpOp::Gt(_, _, _, _) => INSTR_GT,
            CmpOp::Lt(_, _, _, _) => INSTR_LT,
            CmpOp::EqA(_, _, _, _) => INSTR_EQA,
            CmpOp::EqR(_, _, _, _) => INSTR_EQR,
            CmpOp::Len(_, _) => INSTR_LEN,
            CmpOp::Cnt(_, _) => INSTR_CNT,
            CmpOp::St2A => INSTR_ST2A,
            CmpOp::A2St => INSTR_A2ST,
        }
    }
}

impl ArithmeticOp {
    /// A well-formed arithmetic instruction: slot indexes are in range and
    /// the step fits 4 bits.
    pub open spec fn wf(self) -> bool {
        match self {
            ArithmeticOp::Neg(_, i) => i.wf(),
            ArithmeticOp::Stp(_, _, _, i, step) => i.wf() && step < 16,
            ArithmeticOp::Add(_, _, s1, s2) => s1.wf() && s2.wf(),
            ArithmeticOp::Sub(_, _, s1, s2) => s1.wf() && s2.wf(),
            ArithmeticOp::Mul(_, _, s1, s2) => s1.wf() && s2.wf(),
            ArithmeticOp::Div(_, _, s1, s2) => s1.wf() && s2.wf(),
            ArithmeticOp::Mod(_, i1, _, i2, _, i3) => i1.wf() && i2.wf() && i3.wf(),
            ArithmeticOp::Abs(_, i) => i.wf(),
        }
    }

    /// Bytes the instruction occupies, its opcode byte counted.
    pub open spec fn bc(self) -> int {
        match self {
            ArithmeticOp::Neg(_, _) => 2,
            ArithmeticOp::Stp(_, _, _, _, _) => 3,
            ArithmeticOp::Add(_, _, _, _) => 3,
            ArithmeticOp::Sub(_, _, _, _) => 3,
            ArithmeticOp::Mul(_, _, _, _) => 3,
            ArithmeticOp::Div(_, _, _, _) => 3,
            ArithmeticOp::Mod(_, _, _, _, _, _) => 4,
            ArithmeticOp::Abs(_, _) => 2,
        }
    }

    /// The opcode byte.
    pub open spec fn opcode(self) -> u8 {
        match self {
            ArithmeticOp::Neg(_, _) => INSTR_NEG,
            ArithmeticOp::Stp(_, _, _, _, _) => INSTR_STP,
            ArithmeticOp::Add(_, _, _, _) => INSTR_ADD,
            ArithmeticOp::Sub(_, _, _, _) => INSTR_SUB,
            ArithmeticOp::Mul(_, _, _, _) => INSTR_MUL,
            ArithmeticOp::Div(_, _, _, _) => INSTR_DIV,
            ArithmeticOp::Mod(_, _, _, _, _, _) => INSTR_MOD,
            ArithmeticOp::Abs(_, _) => INSTR_ABS,
        }
    }
}

impl BitwiseOp {
    /// A well-formed bitwise instruction: slot indexes are in range.
    pub open spec fn wf(self) -> bool {
        match self {
            BitwiseOp::And(_, i1, i2, d) => i1.wf() && i2.wf() && d.wf(),
            BitwiseOp::Or(_, i1, i2, d) => i1.wf() && i2.wf() && d.wf(),
            BitwiseOp::Xor(_, i1, i2, d) => i1.wf() && i2.wf() && d.wf(),
            BitwiseOp::Not(_, i) => i.wf(),
            BitwiseOp::Shl(_, i1, i2, d) => i1.wf() && i2.wf() && d.wf(),
            BitwiseOp::Shr(_, i1, i2, d) => i1.wf() && i2.wf() && d.wf(),
            BitwiseOp::Scl(_, i1, i2, d) => i1.wf() && i2.wf() && d.wf(),
            BitwiseOp::Scr(_, i1, i2, d) => i1.wf() && i2.wf() && d.wf(),
        }
    }

    /// Bytes the instruction occupies, its opcode byte counted.
    pub open spec fn bc(self) -> int {
        match self {
            BitwiseOp::Not(_, _) => 2,
            _ => 3,
        }
    }

    /// The opcode byte.
    pub open spec fn opcode(self) -> u8 {
        match self {
            BitwiseOp::And(_, _, _, _) => INSTR_AND,
            BitwiseOp::Or(_, _, _, _) => INSTR_OR,
            BitwiseOp::Xor(_, _, _, _) => INSTR_XOR,
            BitwiseOp::Not(_, _) => INSTR_NOT,
            BitwiseOp::Shl(_, _, _, _) => INSTR_SHL,
            BitwiseOp::Shr(_, _, _, _) => INSTR_SHR,
            BitwiseOp::Scl(_, _, _, _) => INSTR_SCL,
            BitwiseOp::Scr(_, _, _, _) => INSTR_SCR,
        }
    }
}

impl BytesOpV {
    /// A well-formed string instruction: a stored blob leaves room for its
    /// opcode, register index and length prefix within the address space.
    pub open spec fn wf(self) -> bool {
        match self {
            BytesOpV::Put(_, b) => b.len() <= 0xFFFB,
            _ => true,
        }
    }

    /// Whether the codec covers this variant. The extraction instructions
    /// carry a register pair, a string index and a 16-bit offset, which
    /// cannot fit their declared byte count; they are reported as
    /// unsupported instructions.
    pub open spec fn covered(self) -> bool {
        match self {
            BytesOpV::ExtrA(_, _, _, _) => false,
            BytesOpV::ExtrR(_, _, _, _) => false,
            _ => true,
        }
    }

    /// Bytes the instruction occupies, its opcode byte counted; saturated
    /// at the address-space bound, as a blob may fill nearly all of it.
    pub open spec fn bc(self) -> int {
        match self {
            BytesOpV::Put(_, b) => if 4 + b.len() > 0xFFFF {
                0xFFFF as int
            } else {
                4 + b.len() as int
            },
            BytesOpV::Mov(_, _) => 3,
            BytesOpV::Swp(_, _) => 3,
            BytesOpV::Fill(_, _, _, _) => 7,
            BytesOpV::LenS(_) => 2,
            BytesOpV::Count(_, _) => 3,
            BytesOpV::Cmp(_, _) => 3,
            BytesOpV::Comm(_, _) => 3,
            BytesOpV::Find(_, _) => 3,
            BytesOpV::ExtrA(_, _, _, _) => 4,
            BytesOpV::ExtrR(_, _, _, _) => 4,
            BytesOpV::Join(_, _, _) => 4,
            BytesOpV::Split(_, _, _, _) => 6,
            BytesOpV::Ins(_, _, _) => 5,
            BytesOpV::Del(_, _, _) => 6,
            BytesOpV::Transl(_, _, _, _) => 7,
        }
    }

    /// The opcode byte.
    pub open spec fn opcode(self) -> u8 {
        match self {
            BytesOpV::Put(_, _) => INSTR_PUT,
            BytesOpV::Mov(_, _) => INSTR_MOVS,
            BytesOpV::Swp(_, _) => INSTR_SWPS,
            BytesOpV::Fill(_, _, _, _) => INSTR_FILL,
            BytesOpV::LenS(_) => INSTR_LENS,
            BytesOpV::Count(_, _) => INSTR_COUNT,
            BytesOpV::Cmp(_, _) => INSTR_CMP,
            BytesOpV::Comm(_, _) => INSTR_COMM,
            BytesOpV::Find(_, _) => INSTR_FIND,
            BytesOpV::ExtrA(_, _, _, _) => INSTR_EXTRA,
            BytesOpV::ExtrR(_, _, _, _) => INSTR_EXTRR,
            BytesOpV::Join(_, _, _) => INSTR_JOIN,
            BytesOpV::Split(_, _, _, _) => INSTR_SPLIT,
            BytesOpV::Ins(_, _, _) => INSTR_INS,
            BytesOpV::Del(_, _, _) => INSTR_DEL,
            BytesOpV::Transl(_, _, _, _) => INSTR_TRANSL,
        }
    }
}

impl DigestOp {
    /// Bytes the instruction occupies, its opcode byte counted.
    pub open spec fn bc(self) -> int {
        3
    }

    /// The opcode byte.
    pub open spec fn opcode(self) -> u8 {
        match self {
            DigestOp::Ripemd(_, _, _, _) => INSTR_RIPEMD,
            DigestOp::Sha2(_, _, _, _) => INSTR_SHA2,
        }
    }
}

impl SecpOp {
    /// Bytes the instruction occupies, its opcode byte counted.
    pub open spec fn bc(self) -> int {
        match self {
            SecpOp::Gen(_, _) => 2,
            SecpOp::Mul(_, _, _, _) => 3,
            SecpOp::Add(_, _, _, _) => 3,
            SecpOp::Neg(_, _) => 2,
        }
    }

    /// The opcode byte.
    pub open spec fn opcode(self) -> u8 {
        match self {
            SecpOp::Gen(_, _) => INSTR_SECP_GEN,
            SecpOp::Mul(_, _, _, _) => INSTR_SECP_MUL,
            SecpOp::Add(_, _, _, _) => INSTR_SECP_ADD,
            SecpOp::Neg(_, _) => INSTR_SECP_NEG,
        }
    }
}

impl Curve25519Op {
    /// Bytes the instruction occupies, its opcode byte counted.
    pub open spec fn bc(self) -> int {
        match self {
            Curve25519Op::Gen(_, _) => 2,
            Curve25519Op::Mul(_, _, _, _) => 3,
            Curve25519Op::Add(_, _, _, _) => 3,
            Curve25519Op::Neg(_, _) => 2,
        }
    }

    /// The opcode byte.
    pub open spec fn opcode(self) -> u8 {
        match self {
            Curve25519Op::Gen(_, _) => INSTR_ED_GEN,
            Curve25519Op::Mul(_, _, _, _) => INSTR_ED_MUL,
            Curve25519Op::Add(_, _, _, _) => INSTR_ED_ADD,
            Curve25519Op::Neg(_, _) => INSTR_ED_NEG,
        }
    }
}

impl InstrV {
    /// A well-formed instruction.
    pub open spec fn wf(self) -> bool {
        match self {
            InstrV::ControlFlow(op) => op.wf(),
            InstrV::Put(op) => op.wf(),
            InstrV::Move(op) => op.wf(),
            InstrV::Cmp(op) => op.wf(),
            InstrV::Arithmetic(op) => op.wf(),
            InstrV::Bitwise(op) => op.wf(),
            InstrV::Bytes(op) => op.wf(),
            InstrV::Digest(_) => true,
            InstrV::Secp256k1(_) => true,
            InstrV::Curve25519(_) => true,
            InstrV::Nop => true,
        }
    }

    /// Whether the codec covers this instruction. The digest and curve
    /// layouts pack 5-bit fields across byte boundaries, which the cursor
    /// refuses, as do the two string extraction instructions; they are
    /// reported as unsupported instructions. The other string operations
    /// are byte-aligned and covered.
    pub open spec fn codec_supported(self) -> bool {
        match self {
            InstrV::Bytes(op) => op.covered(),
            InstrV::Digest(_) => false,
            InstrV::Secp256k1(_) => false,
            InstrV::Curve25519(_) => false,
            _ => true,
        }
    }

    /// Bytes the instruction occupies, its opcode byte counted.
    pub open spec fn bc(self) -> int {
        match self {
            InstrV::ControlFlow(op) => op.bc(),
            InstrV::Put(op) => op.bc(),
            InstrV::Move(op) => op.bc(),
            InstrV::Cmp(op) => op.bc(),
            InstrV::Arithmetic(op) => op.bc(),
            InstrV::Bitwise(op) => op.bc(),
            InstrV::Bytes(op) => op.bc(),
            InstrV::Digest(op) => op.bc(),
            InstrV::Secp256k1(op) => op.bc(),
            InstrV::Curve25519(op) => op.bc(),
            InstrV::Nop => 1,
        }
    }

    /// The opcode byte.
    pub open spec fn opcode(self) -> u8 {
        match self {
            InstrV::ControlFlow(op) => op.opcode(),
            InstrV::Put(op) => op.opcode(),
            InstrV::Move(op) => op.opcode(),
            InstrV::Cmp(op) => op.opcode(),
            InstrV::Arithmetic(op) => op.opcode(),
            InstrV::Bitwise(op) => op.opcode(),
            InstrV::Bytes(op) => op.opcode(),
            InstrV::Digest(op) => op.opcode(),
            InstrV::Secp256k1(op) => op.opcode(),
            InstrV::Curve25519(op) => op.opcode(),
            InstrV::Nop => INSTR_NOP,
        }
    }
}

impl ControlFlowOp {
    /// Bytes this instruction and its arguments occupy.
    pub fn byte_count(&self) -> (r: u16)
        ensures
            r as int == self@.bc(),
    {
        match self {
            ControlFlowOp::Fail => 1,
            ControlFlowOp::Succ => 1,
            ControlFlowOp::Jmp(_) => 3,
            ControlFlowOp::Jif(_) => 3,
            ControlFlowOp::Routine(_) => 3,
            ControlFlowOp::Call(_) => 35,
            ControlFlowOp::Exec(_) => 35,
            ControlFlowOp::Ret => 1,
        }
    }

    /// The length of the instruction block in bytes.
    pub fn len(&self) -> (r: u16)
        ensures
            r as int == self@.bc(),
    {
        self.byte_count()
    }

    /// The inclusive opcode range of the category.
    pub fn instr_range() -> (r: (u8, u8))
        ensures
            r == (INSTR_FAIL, INSTR_RET),
    {
        (INSTR_FAIL, INSTR_RET)
    }

    /// The opcode byte of this instruction.
    pub fn instr_byte(&self) -> (r: u8)
        ensures
            r == self@.opcode(),
    {
        match self {
            ControlFlowOp::Fail => INSTR_FAIL,
            ControlFlowOp::Succ => INSTR_SUCC,
            ControlFlowOp::Jmp(_) => INSTR_JMP,
            ControlFlowOp::Jif(_) => INSTR_JIF,
            ControlFlowOp::Routine(_) => INSTR_ROUTINE,
            ControlFlowOp::Call(_) => INSTR_CALL,
            ControlFlowOp::Exec(_) => INSTR_EXEC,
            ControlFlowOp::Ret => INSTR_RET,
        }
    }
}

impl PutOp {
    /// Bytes this instruction and its arguments occupy.
    pub fn byte_count(&self) -> (r: u16)
        requires
            self@.wf(),
        ensures
            r as int == self@.bc(),
    {
        match self {
            PutOp::ZeroA(_, _) => 2,
            PutOp::ZeroR(_, _) => 2,
            PutOp::ClA(_, _) => 2,
            PutOp::ClR(_, _) => 2,
            PutOp::PutA(r, _, v) => match r {
                RegA::AP => 4 + v.len(),
                _ => 2 + r.cap(),
            },
            PutOp::PutR(r, _, _) => 2 + r.cap(),
            PutOp::PutIfA(r, _, v) => match r {
                RegA::AP => 4 + v.len(),
                _ => 2 + r.cap(),
            },
            PutOp::PutIfR(r, _, _) => 2 + r.cap(),
        }
    }

    /// The length of the instruction block in bytes.
    pub fn len(&self) -> (r: u16)
        requires
            self@.wf(),
        ensures
            r as int == self@.bc(),
    {
        self.byte_count()
    }

    /// The inclusive opcode range of the category.
    pub fn instr_range() -> (r: (u8, u8))
        ensures
            r == (INSTR_ZEROA, INSTR_PUTIFR),
    {
        (INSTR_ZEROA, INSTR_PUTIFR)
    }

    /// The opcode byte of this instruction.
    pub fn instr_byte(&self) -> (r: u8)
        ensures
            r == self@.opcode(),
    {
        match self {
            PutOp::ZeroA(_, _) => INSTR_ZEROA,
            PutOp::ZeroR(_, _) => INSTR_ZEROR,
            PutOp::ClA(_, _) => INSTR_CLA,
            PutOp::ClR(_, _) => INSTR_CLR,
            PutOp::PutA(_, _, _) => INSTR_PUTA,
            PutOp::PutR(_, _, _) => INSTR_PUTR,
            PutOp::PutIfA(_, _, _) => INSTR_PUTIFA,
            PutOp::PutIfR(_, _, _) => INSTR_PUTIFR,
        }
    }
}

impl MoveOp {
    /// Bytes this instruction and its arguments occupy.
    pub fn byte_count(&self) -> (r: u16)
        ensures
            r as int == self.bc(),
    {
        match self {
            MoveOp::AMov(_, _, _) => 2,
            _ => 3,
        }
    }

    /// The length of the instruction block in bytes.
    pub fn len(&self) -> (r: u16)
        ensures
            r as int == self.bc(),
    {
        self.byte_count()
    }

    /// The inclusive opcode range of the category.
    pub fn instr_range() -> (r: (u8, u8))
        ensures
            r == (INSTR_SWPA, INSTR_MOVRA),
    {
        (INSTR_SWPA, INSTR_MOVRA)
    }

    /// The opcode byte of this instruction.
    pub fn instr_byte(&self) -> (r: u8)
        ensures
            r == self.opcode(),
    {
        match self {
            MoveOp::SwpA(_, _, _, _) => INSTR_SWPA,
            MoveOp::SwpR(_, _, _, _) => INSTR_SWPR,
            MoveOp::SwpAR(_, _, _, _) => INSTR_SWPAR,
            MoveOp::AMov(_, _, _) => INSTR_AMOV,
            MoveOp::MovA(_, _, _, _) => INSTR_MOVA,
            MoveOp::MovR(_, _, _, _) => INSTR_MOVR,
            MoveOp::MovAR(_, _, _, _) => INSTR_MOVAR,
            MoveOp::MovRA(_, _, _, _) => INSTR_MOVRA,
        }
    }
}

impl CmpOp {
    /// Bytes this instruction and its arguments occupy.
    pub fn byte_count(&self) -> (r: u16)
        ensures
            r as int == self.bc(),
    {
        match self {
            CmpOp::Gt(_, _, _, _) => 3,
            CmpOp::Lt(_, _, _, _) => 3,
            CmpOp::EqA(_, _, _, _) => 3,
            CmpOp::EqR(_, _, _, _) => 3,
            CmpOp::Len(_, _) => 2,
            CmpOp::Cnt(_, _) => 2,
            CmpOp::St2A => 1,
            CmpOp::A2St => 1,
        }
    }

    /// The length of the instruction block in bytes.
    pub fn len(&self) -> (r: u16)
        ensures
            r as int == self.bc(),
    {
        self.byte_count()
    }

    /// The inclusive opcode range of the category.
    pub fn instr_range() -> (r: (u8, u8))
        ensures
            r == (INSTR_GT, INSTR_A2ST),
    {
        (INSTR_GT, INSTR_A2ST)
    }

    /// The opcode byte of this instruction.
    pub fn instr_byte(&self) -> (r: u8)
        ensures
            r == self.opcode(),
    {
        match self {
            CmpOp::Gt(_, _, _, _) => INSTR_GT,
            CmpOp::Lt(_, _, _, _) => INSTR_LT,
            CmpOp::EqA(_, _, _, _) => INSTR_EQA,
            CmpOp::EqR(_, _, _, _) => INSTR_EQR,
            CmpOp::Len(_, _) => INSTR_LEN,
            CmpOp::Cnt(_, _) => INSTR_CNT,
            CmpOp::St2A => INSTR_ST2A,
            CmpOp::A2St => INSTR_A2ST,
        }
    }
}

impl ArithmeticOp {
    /// Bytes this instruction and its arguments occupy.
    pub fn byte_count(&self) -> (r: u16)
        ensures
            r as int == self.bc(),
    {
        match self {
            ArithmeticOp::Neg(_, _) => 2,
            ArithmeticOp::Stp(_, _, _, _, _) => 3,
            ArithmeticOp::Add(_, _, _, _) => 3,
            ArithmeticOp::Sub(_, _, _, _) => 3,
            ArithmeticOp::Mul(_, _, _, _) => 3,
            ArithmeticOp::Div(_, _, _, _) => 3,
            ArithmeticOp::Mod(_, _, _, _, _, _) => 4,
            ArithmeticOp::Abs(_, _) => 2,
        }
    }

    /// The length of the instruction block in bytes.
    pub fn len(&self) -> (r: u16)
        ensures
            r as int == self.bc(),
    {
        self.byte_count()
    }

    /// The inclusive opcode range of the category.
    pub fn instr_range() -> (r: (u8, u8))
        ensures
            r == (INSTR_NEG, INSTR_ABS),
    {
        (INSTR_NEG, INSTR_ABS)
    }

    /// The opcode byte of this instruction.
    pub fn instr_byte(&self) -> (r: u8)
        ensures
            r == self.opcode(),
    {
        match self {
            ArithmeticOp::Neg(_, _) => INSTR_NEG,
            ArithmeticOp::Stp(_, _, _, _, _) => INSTR_STP,
            ArithmeticOp::Add(_, _, _, _) => INSTR_ADD,
            ArithmeticOp::Sub(_, _, _, _) => INSTR_SUB,
            ArithmeticOp::Mul(_, _, _, _) => INSTR_MUL,
            ArithmeticOp::Div(_, _, _, _) => INSTR_DIV,
            ArithmeticOp::Mod(_, _, _, _, _, _) => INSTR_MOD,
            ArithmeticOp::Abs(_, _) => INSTR_ABS,
        }
    }
}

impl BitwiseOp {
    /// Bytes this instruction and its arguments occupy.
    pub fn byte_count(&self) -> (r: u16)
        ensures
            r as int == self.bc(),
    {
        match self {
            BitwiseOp::Not(_, _) => 2,
            _ => 3,
        }
    }

    /// The length of the instruction block in bytes.
    pub fn len(&self) -> (r: u16)
        ensures
            r as int == self.bc(),
    {
        self.byte_count()
    }

    /// The inclusive opcode range of the category.
    pub fn instr_range() -> (r: (u8, u8))
        ensures
            r == (INSTR_AND, INSTR_SCR),
    {
        (INSTR_AND, INSTR_SCR)
    }

    /// The opcode byte of this instruction.
    pub fn instr_byte(&self) -> (r: u8)
        ensures
            r == self.opcode(),
    {
        match self {
            BitwiseOp::And(_, _, _, _) => INSTR_AND,
            BitwiseOp::Or(_, _, _, _) => INSTR_OR,
            BitwiseOp::Xor(_, _, _, _) => INSTR_XOR,
            BitwiseOp::Not(_, _) => INSTR_NOT,
            BitwiseOp::Shl(_, _, _, _) => INSTR_SHL,
            BitwiseOp::Shr(_, _, _, _) => INSTR_SHR,
            BitwiseOp::Scl(_, _, _, _) => INSTR_SCL,
            BitwiseOp::Scr(_, _, _, _) => INSTR_SCR,
        }
    }
}

impl BytesOp {
    /// Bytes this instruction and its arguments occupy; saturated at the
    /// address-space bound.
    pub fn byte_count(&self) -> (r: u16)
        requires
            self@.wf(),
        ensures
            r as int == self@.bc(),
    {
        match self {
            BytesOp::Put(_, b) => {
                let l = b.len();
                if l > 0xFFFF - 4 {
                    0xFFFF
                } else {
                    4 + l
                }
            },
            BytesOp::Mov(_, _) => 3,
            BytesOp::Swp(_, _) => 3,
            BytesOp::Fill(_, _, _, _) => 7,
            BytesOp::LenS(_) => 2,
            BytesOp::Count(_, _) => 3,
            BytesOp::Cmp(_, _) => 3,
            BytesOp::Comm(_, _) => 3,
            BytesOp::Find(_, _) => 3,
            BytesOp::ExtrA(_, _, _, _) => 4,
            BytesOp::ExtrR(_, _, _, _) => 4,
            BytesOp::Join(_, _, _) => 4,
            BytesOp::Split(_, _, _, _) => 6,
            BytesOp::Ins(_, _, _) => 5,
            BytesOp::Del(_, _, _) => 6,
            BytesOp::Transl(_, _, _, _) => 7,
        }
    }

    /// The length of the instruction block in bytes.
    pub fn len(&self) -> (r: u16)
        requires
            self@.wf(),
        ensures
            r as int == self@.bc(),
    {
        self.byte_count()
    }

    /// The inclusive opcode range of the category.
    pub fn instr_range() -> (r: (u8, u8))
        ensures
            r == (INSTR_PUT, INSTR_TRANSL),
    {
        (INSTR_PUT, INSTR_TRANSL)
    }

    /// The opcode byte of this instruction.
    pub fn instr_byte(&self) -> (r: u8)
        ensures
            r == self@.opcode(),
    {
        match self {
            BytesOp::Put(_, _) => INSTR_PUT,
            BytesOp::Mov(_, _) => INSTR_MOVS,
            BytesOp::Swp(_, _) => INSTR_SWPS,
            BytesOp::Fill(_, _, _, _) => INSTR_FILL,
            BytesOp::LenS(_) => INSTR_LENS,
            BytesOp::Count(_, _) => INSTR_COUNT,
            BytesOp::Cmp(_, _) => INSTR_CMP,
            BytesOp::Comm(_, _) => INSTR_COMM,
            BytesOp::Find(_, _) => INSTR_FIND,
            BytesOp::ExtrA(_, _, _, _) => INSTR_EXTRA,
            BytesOp::ExtrR(_, _, _, _) => INSTR_EXTRR,
            BytesOp::Join(_, _, _) => INSTR_JOIN,
            BytesOp::Split(_, _, _, _) => INSTR_SPLIT,
            BytesOp::Ins(_, _, _) => INSTR_INS,
            BytesOp::Del(_, _, _) => INSTR_DEL,
            BytesOp::Transl(_, _, _, _) => INSTR_TRANSL,
        }
    }
}

impl DigestOp {
    /// Bytes this instruction and its arguments occupy.
    pub fn byte_count(&self) -> (r: u16)
        ensures
            r as int == self.bc(),
    {
        3
    }

    /// The length of the instruction block in bytes.
    pub fn len(&self) -> (r: u16)
        ensures
            r as int == self.bc(),
    {
        3
    }

    /// The inclusive opcode range of the category.
    pub fn instr_range() -> (r: (u8, u8))
        ensures
            r == (INSTR_RIPEMD, INSTR_SHA2),
    {
        (INSTR_RIPEMD, INSTR_SHA2)
    }

    /// The opcode byte of this instruction.
    pub fn instr_byte(&self) -> (r: u8)
        ensures
            r == self.opcode(),
    {
        match self {
            DigestOp::Ripemd(_, _, _, _) => INSTR_RIPEMD,
            DigestOp::Sha2(_, _, _, _) => INSTR_SHA2,
        }
    }
}

impl SecpOp {
    /// Bytes this instruction and its arguments occupy.
    pub fn byte_count(&self) -> (r: u16)
        ensures
            r as int == self.bc(),
    {
        match self {
            SecpOp::Gen(_, _) => 2,
            SecpOp::Mul(_, _, _, _) => 3,
            SecpOp::Add(_, _, _, _) => 3,
            SecpOp::Neg(_, _) => 2,
        }
    }

    /// The length of the instruction block in bytes.
    pub fn len(&self) -> (r: u16)
        ensures
            r as int == self.bc(),
    {
        self.byte_count()
    }

    /// The inclusive opcode range of the category.
    pub fn instr_range() -> (r: (u8, u8))
        ensures
            r == (INSTR_SECP_GEN, INSTR_SECP_NEG),
    {
        (INSTR_SECP_GEN, INSTR_SECP_NEG)
    }

    /// The opcode byte of this instruction.
    pub fn instr_byte(&self) -> (r: u8)
        ensures
            r == self.opcode(),
    {
        match self {
            SecpOp::Gen(_, _) => INSTR_SECP_GEN,
            SecpOp::Mul(_, _, _, _) => INSTR_SECP_MUL,
            SecpOp::Add(_, _, _, _) => INSTR_SECP_ADD,
            SecpOp::Neg(_, _) => INSTR_SECP_NEG,
        }
    }
}

impl Curve25519Op {
    /// Bytes this instruction and its arguments occupy.
    pub fn byte_count(&self) -> (r: u16)
        ensures
            r as int == self.bc(),
    {
        match self {
            Curve25519Op::Gen(_, _) => 2,
            Curve25519Op::Mul(_, _, _, _) => 3,
            Curve25519Op::Add(_, _, _, _) => 3,
            Curve25519Op::Neg(_, _) => 2,
        }
    }

    /// The length of the instruction block in bytes.
    pub fn len(&self) -> (r: u16)
        ensures
            r as int == self.bc(),
    {
        self.byte_count()
    }

    /// The inclusive opcode range of the category.
    pub fn instr_range() -> (r: (u8, u8))
        ensures
            r == (INSTR_ED_GEN, INSTR_ED_NEG),
    {
        (INSTR_ED_GEN, INSTR_ED_NEG)
    }

    /// The opcode byte of this instruction.
    pub fn instr_byte(&self) -> (r: u8)
        ensures
            r == self.opcode(),
    {
        match self {
            Curve25519Op::Gen(_, _) => INSTR_ED_GEN,
            Curve25519Op::Mul(_, _, _, _) => INSTR_ED_MUL,
            Curve25519Op::Add(_, _, _, _) => INSTR_ED_ADD,
            Curve25519Op::Neg(_, _) => INSTR_ED_NEG,
        }
    }
}

impl Instr {
    /// A well-formed instruction.
    pub open spec fn wf(self) -> bool {
        self@.wf()
    }

    /// Bytes this instruction and its arguments occupy.
    pub fn byte_count(&self) -> (r: u16)
        requires
            self@.wf(),
        ensures
            r as int == self@.bc(),
    {
        match self {
            Instr::ControlFlow(op) => op.byte_count(),
            Instr::Put(op) => op.byte_count(),
            Instr::Move(op) => op.byte_count(),
            Instr::Cmp(op) => op.byte_count(),
            Instr::Arithmetic(op) => op.byte_count(),
            Instr::Bitwise(op) => op.byte_count(),
            Instr::Bytes(op) => op.byte_count(),
            Instr::Digest(op) => op.byte_count(),
            Instr::Secp256k1(op) => op.byte_count(),
            Instr::Curve25519(op) => op.byte_count(),
            Instr::Nop => 1,
        }
    }

    /// The length of the instruction block in bytes.
    pub fn len(&self) -> (r: u16)
        requires
            self@.wf(),
        ensures
            r as int == self@.bc(),
    {
        self.byte_count()
    }

    /// The inclusive opcode range covered by the whole set.
    pub fn instr_range() -> (r: (u8, u8))
        ensures
            r == (0u8, 0xFFu8),
    {
        (0, 0xFF)
    }

    /// The opcode byte of this instruction.
    pub fn instr_byte(&self) -> (r: u8)
        ensures
            r == self@.opcode(),
    {
        match self {
            Instr::ControlFlow(op) => op.instr_byte(),
            Instr::Put(op) => op.instr_byte(),
            Instr::Move(op) => op.instr_byte(),
            Instr::Cmp(op) => op.instr_byte(),
            Instr::Arithmetic(op) => op.instr_byte(),
            Instr::Bitwise(op) => op.instr_byte(),
            Instr::Bytes(op) => op.instr_byte(),
            Instr::Digest(op) => op.instr_byte(),
            Instr::Secp256k1(op) => op.instr_byte(),
            Instr::Curve25519(op) => op.instr_byte(),
            Instr::Nop => INSTR_NOP,
        }
    }
}

} // verus!
