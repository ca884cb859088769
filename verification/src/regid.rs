//! Register identifiers: family tags of the arithmetic (`A`) and
//! non-arithmetic (`R`) banks, and the 5-bit / 3-bit slot indexes.

use vstd::prelude::*;

verus! {

/// Family tag of an arithmetic register: seven fixed widths, and the
/// arbitrary-precision register `AP` whose values are length-prefixed on the
/// wire and capped at 1024 bits.
#[derive(Clone, Copy, PartialEq, Eq, Structural, Debug)]
pub enum RegA {
    /// 8-bit arithmetic register family.
    A8,
    /// 16-bit arithmetic register family.
    A16,
    /// 32-bit arithmetic register family.
    A32,
    /// 64-bit arithmetic register family.
    A64,
    /// 128-bit arithmetic register family.
    A128,
    /// 256-bit arithmetic register family.
    A256,
    /// 512-bit arithmetic register family.
    A512,
    /// Arbitrary-precision register family, capacity 1024 bits.
    AP,
}

impl RegA {
    /// The 3-bit wire tag of this family.
    pub open spec fn code_spec(self) -> u8 {
        match self {
            RegA::A8 => 0,
            RegA::A16 => 1,
            RegA::A32 => 2,
            RegA::A64 => 3,
            RegA::A128 => 4,
            RegA::A256 => 5,
            RegA::A512 => 6,
            RegA::AP => 7,
        }
    }

    /// The family a 3-bit wire tag denotes.
    pub open spec fn from_code_spec(c: u8) -> RegA {
        if c == 0 {
            RegA::A8
        } else if c == 1 {
            RegA::A16
        } else if c == 2 {
            RegA::A32
        } else if c == 3 {
            RegA::A64
        } else if c == 4 {
            RegA::A128
        } else if c == 5 {
            RegA::A256
        } else if c == 6 {
            RegA::A512
        } else {
            RegA::AP
        }
    }

    /// Bytes a slot of this family can store; `AP` stores up to 128 bytes.
    pub open spec fn cap_spec(self) -> u16 {
        match self {
            RegA::A8 => 1,
            RegA::A16 => 2,
            RegA::A32 => 4,
            RegA::A64 => 8,
            RegA::A128 => 16,
            RegA::A256 => 32,
            RegA::A512 => 64,
            RegA::AP => 128,
        }
    }

    pub fn code(&self) -> (r: u8)
        ensures
            r == self.code_spec(),
            r < 8,
    {
        match self {
            RegA::A8 => 0,
            RegA::A16 => 1,
            RegA::A32 => 2,
            RegA::A64 => 3,
            RegA::A128 => 4,
            RegA::A256 => 5,
            RegA::A512 => 6,
            RegA::AP => 7,
        }
    }

    pub fn from_code(c: u8) -> (r: RegA)
        requires
            c < 8,
        ensures
            r == RegA::from_code_spec(c),
            r.code_spec() == c,
    {
        if c == 0 {
            RegA::A8
        } else if c == 1 {
            RegA::A16
        } else if c == 2 {
            RegA::A32
        } else if c == 3 {
            RegA::A64
        } else if c == 4 {
            RegA::A128
        } else if c == 5 {
            RegA::A256
        } else if c == 6 {
            RegA::A512
        } else {
            RegA::AP
        }
    }

    pub fn cap(&self) -> (r: u16)
        ensures
            r == self.cap_spec(),
    {
        match self {
            RegA::A8 => 1,
            RegA::A16 => 2,
            RegA::A32 => 4,
            RegA::A64 => 8,
            RegA::A128 => 16,
            RegA::A256 => 32,
            RegA::A512 => 64,
            RegA::AP => 128,
        }
    }
}

/// Tags decode back to themselves.
pub proof fn lemma_rega_code_inverse(r: RegA)
    ensures
        RegA::from_code_spec(r.code_spec()) == r,
{
}

/// Family tag of a non-arithmetic (wide, opaque) register.
#[derive(Clone, Copy, PartialEq, Eq, Structural, Debug)]
pub enum RegR {
    /// 128-bit register family.
    R128,
    /// 160-bit register family.
    R160,
    /// 256-bit register family.
    R256,
    /// 512-bit register family.
    R512,
    /// 1024-bit register family.
    R1024,
    /// 2048-bit register family.
    R2048,
    /// 4096-bit register family.
    R4096,
    /// 8192-bit register family.
    R8192,
}

impl RegR {
    /// The 3-bit wire tag of this family.
    pub open spec fn code_spec(self) -> u8 {
        match self {
            RegR::R128 => 0,
            RegR::R160 => 1,
            RegR::R256 => 2,
            RegR::R512 => 3,
            RegR::R1024 => 4,
            RegR::R2048 => 5,
            RegR::R4096 => 6,
            RegR::R8192 => 7,
        }
    }

    /// The family a 3-bit wire tag denotes.
    pub open spec fn from_code_spec(c: u8) -> RegR {
        if c == 0 {
            RegR::R128
        } else if c == 1 {
            RegR::R160
        } else if c == 2 {
            RegR::R256
        } else if c == 3 {
            RegR::R512
        } else if c == 4 {
            RegR::R1024
        } else if c == 5 {
            RegR::R2048
        } else if c == 6 {
            RegR::R4096
        } else {
            RegR::R8192
        }
    }

    /// Bytes a slot of this family stores; also its exact wire width.
    pub open spec fn cap_spec(self) -> u16 {
        match self {
            RegR::R128 => 16,
            RegR::R160 => 20,
            RegR::R256 => 32,
            RegR::R512 => 64,
            RegR::R1024 => 128,
            RegR::R2048 => 256,
            RegR::R4096 => 512,
            RegR::R8192 => 1024,
        }
    }

    pub fn code(&self) -> (r: u8)
        ensures
            r == self.code_spec(),
            r < 8,
    {
        match self {
            RegR::R128 => 0,
            RegR::R160 => 1,
            RegR::R256 => 2,
            RegR::R512 => 3,
            RegR::R1024 => 4,
            RegR::R2048 => 5,
            RegR::R4096 => 6,
            RegR::R8192 => 7,
        }
    }

    pub fn from_code(c: u8) -> (r: RegR)
        requires
            c < 8,
        ensures
            r == RegR::from_code_spec(c),
            r.code_spec() == c,
    {
        if c == 0 {
            RegR::R128
        } else if c == 1 {
            RegR::R160
        } else if c == 2 {
            RegR::R256
        } else if c == 3 {
            RegR::R512
        } else if c == 4 {
            RegR::R1024
        } else if c == 5 {
            RegR::R2048
        } else if c == 6 {
            RegR::R4096
        } else {
            RegR::R8192
        }
    }

    pub fn cap(&self) -> (r: u16)
        ensures
            r == self.cap_spec(),
    {
        match self {
            RegR::R128 => 16,
            RegR::R160 => 20,
            RegR::R256 => 32,
            RegR::R512 => 64,
            RegR::R1024 => 128,
            RegR::R2048 => 256,
            RegR::R4096 => 512,
            RegR::R8192 => 1024,
        }
    }
}

/// Tags decode back to themselves.
pub proof fn lemma_regr_code_inverse(r: RegR)
    ensures
        RegR::from_code_spec(r.code_spec()) == r,
{
}

/// Either register bank.
#[derive(Clone, Copy, PartialEq, Eq, Structural, Debug)]
pub enum Reg {
    /// An arithmetic register family.
    A(RegA),
    /// A non-arithmetic register family.
    R(RegR),
}

impl Reg {
    /// Exact wire width in bytes of a value of this register, where the
    /// width is statically known; absent for `AP`, whose wire values carry a
    /// 16-bit length prefix.
    pub open spec fn wire_bytes_spec(self) -> Option<u16> {
        match self {
            Reg::A(RegA::AP) => None,
            Reg::A(a) => Some(a.cap_spec()),
            Reg::R(r) => Some(r.cap_spec()),
        }
    }

    /// Bytes a slot of this register can store.
    pub open spec fn cap_spec(self) -> u16 {
        match self {
            Reg::A(a) => a.cap_spec(),
            Reg::R(r) => r.cap_spec(),
        }
    }

    pub fn wire_bytes(&self) -> (r: Option<u16>)
        ensures
            r == self.wire_bytes_spec(),
            match r {
                Some(k) => 1 <= k <= 1024,
                None => true,
            },
    {
        match self {
            Reg::A(RegA::AP) => None,
            Reg::A(a) => Some(a.cap()),
            Reg::R(r) => Some(r.cap()),
        }
    }

    pub fn cap(&self) -> (r: u16)
        ensures
            r == self.cap_spec(),
            1 <= r <= 1024,
    {
        match self {
            Reg::A(a) => a.cap(),
            Reg::R(r) => r.cap(),
        }
    }
}

/// A 5-bit slot index: each register family has 32 slots.
#[derive(Clone, Copy, PartialEq, Eq, Structural, Debug)]
pub struct Reg32 {
    /// The index, below 32.
    pub val: u8,
}

impl Reg32 {
    pub open spec fn wf(self) -> bool {
        self.val < 32
    }

    pub fn with(val: u8) -> (r: Reg32)
        requires
            val < 32,
        ensures
            r.val == val,
            r.wf(),
    {
        Reg32 { val }
    }
}

/// A 3-bit slot index: some destinations are restricted to the first 8
/// slots.
#[derive(Clone, Copy, PartialEq, Eq, Structural, Debug)]
pub struct Reg8 {
    /// The index, below 8.
    pub val: u8,
}

impl Reg8 {
    pub open spec fn wf(self) -> bool {
        self.val < 8
    }

    pub fn with(val: u8) -> (r: Reg8)
        requires
            val < 8,
        ensures
            r.val == val,
            r.wf(),
    {
        Reg8 { val }
    }
}

} // verus!
