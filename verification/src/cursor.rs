//! Bit-level cursor over a byte string bounded by the 16-bit address space.
//! Sub-byte fields are packed least-significant-bit first; multi-byte
//! operations require byte alignment. A writer's buffer is zero-initialised
//! and written monotonically, so packed bits are combined by plain addition.

use vstd::prelude::*;
use crate::data::{Value, MAX_VALUE_BYTES};
use crate::regid::Reg;

verus! {

/// Errors of cursor-based operations.
#[derive(Clone, Copy, PartialEq, Eq, Structural, Debug)]
pub enum CursorError {
    /// Attempt to read or write after the end of the data.
    Eof,
    /// The operation would move the cursor outside the data boundaries; the
    /// offending position or length is carried.
    OutOfBoundaries(usize),
}

/// 2 raised to the power `n`: the weight of bit `n` within a byte.
pub open spec fn pow2u(n: nat) -> nat
    decreases n,
{
    if n == 0 {
        1
    } else {
        2 * pow2u((n - 1) as nat)
    }
}

pub proof fn lemma_pow2u_pos(n: nat)
    ensures
        pow2u(n) >= 1,
    decreases n,
{
    if n > 0 {
        lemma_pow2u_pos((n - 1) as nat);
    }
}

pub proof fn lemma_pow2u_adds(a: nat, b: nat)
    ensures
        pow2u(a + b) == pow2u(a) * pow2u(b),
    decreases a,
{
    if a == 0 {
        assert(pow2u(0 + b) == 1 * pow2u(b)) by {
            lemma_pow2u_pos(b);
        }
    } else {
        lemma_pow2u_adds((a - 1) as nat, b);
        assert(pow2u(a + b) == 2 * pow2u((a + b - 1) as nat));
        assert(2 * (pow2u((a - 1) as nat) * pow2u(b)) == (2 * pow2u((a - 1) as nat)) * pow2u(b))
            by (nonlinear_arith);
        assert(pow2u(a) == 2 * pow2u((a - 1) as nat));
    }
}

pub proof fn lemma_pow2u_mono(a: nat, b: nat)
    requires
        a <= b,
    ensures
        pow2u(a) <= pow2u(b),
    decreases b,
{
    if a < b && b > 0 {
        lemma_pow2u_mono(a, (b - 1) as nat);
        lemma_pow2u_pos((b - 1) as nat);
    }
}

/// The small powers of two, spelt out.
pub proof fn lemma_pow2u_vals()
    ensures
        pow2u(0) == 1,
        pow2u(1) == 2,
        pow2u(2) == 4,
        pow2u(3) == 8,
        pow2u(4) == 16,
        pow2u(5) == 32,
        pow2u(6) == 64,
        pow2u(7) == 128,
        pow2u(8) == 256,
{
    assert(pow2u(0) == 1);
    assert(pow2u(1) == 2);
    assert(pow2u(2) == 4);
    assert(pow2u(3) == 8);
    assert(pow2u(4) == 16);
    assert(pow2u(5) == 32);
    assert(pow2u(6) == 64);
    assert(pow2u(7) == 128);
    assert(pow2u(8) == 256);
}

/// The weight of bit `k`, as a byte.
fn pow2_exec(k: u8) -> (r: u8)
    requires
        k <= 7,
    ensures
        r as nat == pow2u(k as nat),
        r >= 1,
{
    proof {
        lemma_pow2u_vals();
    }
    if k == 0 {
        1
    } else if k == 1 {
        2
    } else if k == 2 {
        4
    } else if k == 3 {
        8
    } else if k == 4 {
        16
    } else if k == 5 {
        32
    } else if k == 6 {
        64
    } else {
        128
    }
}

/// Cursor over a byte string of at most 65,536 bytes, positioned at a byte
/// and a bit within it.
pub struct Cursor {
    bytecode: Vec<u8>,
    byte_pos: u16,
    bit_pos: u8,
    eof: bool,
}

impl Cursor {
    /// The underlying byte string.
    pub closed spec fn data(self) -> Seq<u8> {
        self.bytecode@
    }

    /// Current byte position.
    pub closed spec fn pos(self) -> int {
        self.byte_pos as int
    }

    /// Current bit position within the current byte.
    pub closed spec fn bit(self) -> int {
        self.bit_pos as int
    }

    /// Whether the cursor has stepped past the last addressable byte.
    pub closed spec fn at_eof(self) -> bool {
        self.eof
    }

    /// Basic well-formedness of a cursor.
    pub open spec fn wf(self) -> bool {
        &&& self.data().len() <= 0x10000
        &&& 0 <= self.bit() < 8
        &&& 0 <= self.pos() <= self.data().len()
        &&& (self.at_eof() ==> self.pos() == 0xFFFF && self.bit() == 0)
    }

    /// Well-formedness of a writer: the buffer region from the cursor on is
    /// still zero, and the partial current byte holds bits below `bit()`
    /// only, so packed bits can be combined by addition.
    pub open spec fn wf_w(self) -> bool {
        &&& self.wf()
        &&& (self.bit() != 0 ==> self.pos() < self.data().len())
        &&& (!self.at_eof() && self.pos() < self.data().len() ==> (self.data()[self.pos()] as nat)
            < pow2u(self.bit() as nat))
        &&& (forall|i: int| self.pos() < i < self.data().len() ==> self.data()[i] == 0)
    }

    /// A single byte (or a final sub-byte bit group) can be taken here.
    pub open spec fn ok1(self) -> bool {
        !self.at_eof() && self.pos() < self.data().len()
    }

    /// `n` whole bytes can be taken here without reaching the address
    /// boundary.
    pub open spec fn okn(self, n: int) -> bool {
        !self.at_eof() && self.pos() + n <= self.data().len() && self.pos() + n <= 0xFFFF
    }

    /// The cursor advanced by one byte; at the last addressable byte this
    /// raises the end-of-data flag instead.
    pub open spec fn advanced1(old_c: Cursor, new_c: Cursor) -> bool {
        &&& new_c.bit() == 0
        &&& if old_c.pos() == 0xFFFF {
            new_c.at_eof() && new_c.pos() == 0xFFFF
        } else {
            !new_c.at_eof() && new_c.pos() == old_c.pos() + 1
        }
    }

    /// The cursor advanced by `n` bytes, staying inside the address space.
    pub open spec fn advancedn(old_c: Cursor, new_c: Cursor, n: int) -> bool {
        &&& new_c.bit() == 0
        &&& !new_c.at_eof()
        &&& new_c.pos() == old_c.pos() + n
    }

    /// The cursor advanced by `n` bits within the byte, moving to the next
    /// byte when the byte is complete.
    pub open spec fn bits_adv(old_c: Cursor, new_c: Cursor, n: int) -> bool {
        if old_c.bit() + n < 8 {
            &&& new_c.pos() == old_c.pos()
            &&& new_c.bit() == old_c.bit() + n
            &&& !new_c.at_eof()
        } else {
            Self::advanced1(old_c, new_c)
        }
    }

    /// Creates a cursor at the start of the given byte string.
    pub fn with(bytecode: Vec<u8>) -> (r: Cursor)
        requires
            bytecode@.len() <= 0x10000,
        ensures
            r.wf(),
            r.data() == bytecode@,
            r.pos() == 0,
            r.bit() == 0,
            !r.at_eof(),
            (forall|i: int| 0 <= i < bytecode@.len() ==> bytecode@[i] == 0) ==> r.wf_w(),
    {
        proof {
            lemma_pow2u_vals();
        }
        Cursor { bytecode, byte_pos: 0, bit_pos: 0, eof: false }
    }

    /// Whether the cursor has stepped past the upper length boundary of any
    /// byte string (65,536 bytes).
    pub fn is_eof(&self) -> (r: bool)
        ensures
            r == self.at_eof(),
    {
        self.eof
    }

    /// Whether the cursor stands at or past the end of its byte string.
    pub fn is_end(&self) -> (r: bool)
        ensures
            r == (self.pos() >= self.data().len()),
    {
        self.byte_pos as usize >= self.bytecode.len()
    }

    /// Current byte position.
    pub fn byte_pos(&self) -> (r: u16)
        ensures
            r as int == self.pos(),
    {
        self.byte_pos
    }

    /// Moves the cursor to a byte-aligned position within the data.
    pub fn seek(&mut self, pos: u16)
        requires
            old(self).wf(),
            pos as int <= old(self).data().len(),
        ensures
            final(self).wf(),
            final(self).data() == old(self).data(),
            final(self).pos() == pos,
            final(self).bit() == 0,
            !final(self).at_eof(),
    {
        self.byte_pos = pos;
        self.bit_pos = 0;
        self.eof = false;
    }

    /// Length of the underlying byte string.
    pub fn data_len(&self) -> (r: usize)
        ensures
            r == self.data().len(),
    {
        self.bytecode.len()
    }

    /// Gives the byte string back.
    pub fn into_bytecode(self) -> (r: Vec<u8>)
        ensures
            r@ == self.data(),
    {
        self.bytecode
    }

    /// Returns the current byte without advancing.
    pub fn peek_u8(&self) -> (r: Result<u8, CursorError>)
        requires
            self.wf(),
        ensures
            match r {
                Ok(b) => self.ok1() && b == self.data()[self.pos()],
                Err(e) => !self.ok1() && e == CursorError::Eof,
            },
    {
        if self.eof {
            return Err(CursorError::Eof);
        }
        if self.byte_pos as usize >= self.bytecode.len() {
            return Err(CursorError::Eof);
        }
        Ok(self.bytecode[self.byte_pos as usize])
    }

    /// Advances the bit position by `n` bits, which must complete at most
    /// the current byte.
    fn inc_bits(&mut self, n: u8)
        requires
            old(self).wf(),
            !old(self).at_eof(),
            old(self).pos() < old(self).data().len(),
            1 <= n,
            old(self).bit() + n <= 8,
        ensures
            final(self).wf(),
            final(self).data() == old(self).data(),
            Self::bits_adv(*old(self), *final(self), n as int),
    {
        let pos = self.bit_pos + n;
        self.bit_pos = pos % 8;
        if pos >= 8 {
            if self.byte_pos == 0xFFFF {
                self.eof = true;
            } else {
                self.byte_pos = self.byte_pos + 1;
            }
        }
    }

    /// Extracts the next `n` bits of the current byte, least significant
    /// first, advancing the bit position.
    fn extract(&mut self, n: u8) -> (r: Result<u8, CursorError>)
        requires
            old(self).wf(),
            1 <= n <= 7,
            old(self).bit() + n <= 8,
        ensures
            final(self).wf(),
            final(self).data() == old(self).data(),
            match r {
                Ok(b) => {
                    &&& old(self).ok1()
                    &&& b as nat == (old(self).data()[old(self).pos()] as nat / pow2u(
                        old(self).bit() as nat,
                    )) % pow2u(n as nat)
                    &&& Self::bits_adv(*old(self), *final(self), n as int)
                },
                Err(e) => !old(self).ok1() && e == CursorError::Eof && *final(self) == *old(self),
            },
    {
        if self.eof {
            return Err(CursorError::Eof);
        }
        if self.byte_pos as usize >= self.bytecode.len() {
            return Err(CursorError::Eof);
        }
        let byte = self.bytecode[self.byte_pos as usize];
        let d = pow2_exec(self.bit_pos);
        let m = pow2_exec(n);
        let val = (byte / d) % m;
        self.inc_bits(n);
        Ok(val)
    }

    /// Reads a single bit as a boolean.
    pub fn read_bool(&mut self) -> (r: Result<bool, CursorError>)
        requires
            old(self).wf(),
            old(self).bit() + 1 <= 8,
        ensures
            final(self).wf(),
            final(self).data() == old(self).data(),
            match r {
                Ok(b) => {
                    &&& old(self).ok1()
                    &&& b == ((old(self).data()[old(self).pos()] as nat / pow2u(
                        old(self).bit() as nat,
                    )) % 2 == 1)
                    &&& Self::bits_adv(*old(self), *final(self), 1)
                },
                Err(e) => !old(self).ok1() && e == CursorError::Eof && *final(self) == *old(self),
            },
    {
        proof {
            lemma_pow2u_vals();
        }
        match self.extract(1) {
            Ok(b) => Ok(b == 1),
            Err(e) => Err(e),
        }
    }

    /// Reads a 2-bit field.
    pub fn read_u2(&mut self) -> (r: Result<u8, CursorError>)
        requires
            old(self).wf(),
            old(self).bit() + 2 <= 8,
        ensures
            final(self).wf(),
            final(self).data() == old(self).data(),
            match r {
                Ok(b) => {
                    &&& old(self).ok1()
                    &&& b < 4
                    &&& b as nat == (old(self).data()[old(self).pos()] as nat / pow2u(
                        old(self).bit() as nat,
                    )) % 4
                    &&& Self::bits_adv(*old(self), *final(self), 2)
                },
                Err(e) => !old(self).ok1() && e == CursorError::Eof && *final(self) == *old(self),
            },
    {
        proof {
            lemma_pow2u_vals();
        }
        self.extract(2)
    }

    /// Reads a 3-bit field.
    pub fn read_u3(&mut self) -> (r: Result<u8, CursorError>)
        requires
            old(self).wf(),
            old(self).bit() + 3 <= 8,
        ensures
            final(self).wf(),
            final(self).data() == old(self).data(),
            match r {
                Ok(b) => {
                    &&& old(self).ok1()
                    &&& b < 8
                    &&& b as nat == (old(self).data()[old(self).pos()] as nat / pow2u(
                        old(self).bit() as nat,
                    )) % 8
                    &&& Self::bits_adv(*old(self), *final(self), 3)
                },
                Err(e) => !old(self).ok1() && e == CursorError::Eof && *final(self) == *old(self),
            },
    {
        proof {
            lemma_pow2u_vals();
        }
        self.extract(3)
    }

    /// Reads a 4-bit field.
    pub fn read_u4(&mut self) -> (r: Result<u8, CursorError>)
        requires
            old(self).wf(),
            old(self).bit() + 4 <= 8,
        ensures
            final(self).wf(),
            final(self).data() == old(self).data(),
            match r {
                Ok(b) => {
                    &&& old(self).ok1()
                    &&& b < 16
                    &&& b as nat == (old(self).data()[old(self).pos()] as nat / pow2u(
                        old(self).bit() as nat,
                    )) % 16
                    &&& Self::bits_adv(*old(self), *final(self), 4)
                },
                Err(e) => !old(self).ok1() && e == CursorError::Eof && *final(self) == *old(self),
            },
    {
        proof {
            lemma_pow2u_vals();
        }
        self.extract(4)
    }

    /// Reads a 5-bit field.
    pub fn read_u5(&mut self) -> (r: Result<u8, CursorError>)
        requires
            old(self).wf(),
            old(self).bit() + 5 <= 8,
        ensures
            final(self).wf(),
            final(self).data() == old(self).data(),
            match r {
                Ok(b) => {
                    &&& old(self).ok1()
                    &&& b < 32
                    &&& b as nat == (old(self).data()[old(self).pos()] as nat / pow2u(
                        old(self).bit() as nat,
                    )) % 32
                    &&& Self::bits_adv(*old(self), *final(self), 5)
                },
                Err(e) => !old(self).ok1() && e == CursorError::Eof && *final(self) == *old(self),
            },
    {
        proof {
            lemma_pow2u_vals();
        }
        self.extract(5)
    }

    /// Reads a 6-bit field.
    pub fn read_u6(&mut self) -> (r: Result<u8, CursorError>)
        requires
            old(self).wf(),
            old(self).bit() + 6 <= 8,
        ensures
            final(self).wf(),
            final(self).data() == old(self).data(),
            match r {
                Ok(b) => {
                    &&& old(self).ok1()
                    &&& b < 64
                    &&& b as nat == (old(self).data()[old(self).pos()] as nat / pow2u(
                        old(self).bit() as nat,
                    )) % 64
                    &&& Self::bits_adv(*old(self), *final(self), 6)
                },
                Err(e) => !old(self).ok1() && e == CursorError::Eof && *final(self) == *old(self),
            },
    {
        proof {
            lemma_pow2u_vals();
        }
        self.extract(6)
    }

    /// Reads a 7-bit field.
    pub fn read_u7(&mut self) -> (r: Result<u8, CursorError>)
        requires
            old(self).wf(),
            old(self).bit() + 7 <= 8,
        ensures
            final(self).wf(),
            final(self).data() == old(self).data(),
            match r {
                Ok(b) => {
                    &&& old(self).ok1()
                    &&& b < 128
                    &&& b as nat == (old(self).data()[old(self).pos()] as nat / pow2u(
                        old(self).bit() as nat,
                    )) % 128
                    &&& Self::bits_adv(*old(self), *final(self), 7)
                },
                Err(e) => !old(self).ok1() && e == CursorError::Eof && *final(self) == *old(self),
            },
    {
        proof {
            lemma_pow2u_vals();
        }
        self.extract(7)
    }

    /// Reads one whole byte.
    pub fn read_u8(&mut self) -> (r: Result<u8, CursorError>)
        requires
            old(self).wf(),
            old(self).bit() == 0,
        ensures
            final(self).wf(),
            final(self).data() == old(self).data(),
            match r {
                Ok(b) => {
                    &&& old(self).ok1()
                    &&& b == old(self).data()[old(self).pos()]
                    &&& Self::advanced1(*old(self), *final(self))
                },
                Err(e) => !old(self).ok1() && e == CursorError::Eof && *final(self) == *old(self),
            },
    {
        if self.eof {
            return Err(CursorError::Eof);
        }
        if self.byte_pos as usize >= self.bytecode.len() {
            return Err(CursorError::Eof);
        }
        let byte = self.bytecode[self.byte_pos as usize];
        if self.byte_pos == 0xFFFF {
            self.eof = true;
        } else {
            self.byte_pos = self.byte_pos + 1;
        }
        Ok(byte)
    }

    /// Reads a little-endian 16-bit word.
    pub fn read_u16(&mut self) -> (r: Result<u16, CursorError>)
        requires
            old(self).wf(),
            old(self).bit() == 0,
        ensures
            final(self).wf(),
            final(self).data() == old(self).data(),
            match r {
                Ok(w) => {
                    &&& old(self).okn(2)
                    &&& w as int == old(self).data()[old(self).pos()] + 256 * old(self).data()[old(
                        self,
                    ).pos() + 1]
                    &&& Self::advancedn(*old(self), *final(self), 2)
                },
                Err(e) => {
                    &&& *final(self) == *old(self)
                    &&& !old(self).okn(2)
                    &&& (match e {
                        CursorError::Eof => old(self).at_eof() || old(self).pos() + 2 > old(
                            self,
                        ).data().len(),
                        CursorError::OutOfBoundaries(p) => p == old(self).pos() + 2 && old(
                            self,
                        ).pos() + 2 > 0xFFFF,
                    })
                },
            },
    {
        if self.eof {
            return Err(CursorError::Eof);
        }
        let pos = self.byte_pos as usize;
        if pos + 2 > self.bytecode.len() {
            return Err(CursorError::Eof);
        }
        if pos + 2 > 0xFFFF {
            return Err(CursorError::OutOfBoundaries(pos + 2));
        }
        let b0 = self.bytecode[pos];
        let b1 = self.bytecode[pos + 1];
        self.byte_pos = self.byte_pos + 2;
        Ok(b0 as u16 + 256 * (b1 as u16))
    }

    /// Reads a fixed 32-byte block.
    pub fn read_bytes32(&mut self) -> (r: Result<[u8; 32], CursorError>)
        requires
            old(self).wf(),
            old(self).bit() == 0,
        ensures
            final(self).wf(),
            final(self).data() == old(self).data(),
            match r {
                Ok(b) => {
                    &&& old(self).okn(32)
                    &&& b@ == old(self).data().subrange(old(self).pos(), old(self).pos() + 32)
                    &&& Self::advancedn(*old(self), *final(self), 32)
                },
                Err(e) => {
                    &&& *final(self) == *old(self)
                    &&& !old(self).okn(32)
                    &&& (match e {
                        CursorError::Eof => old(self).at_eof() || old(self).pos() + 32 > old(
                            self,
                        ).data().len(),
                        CursorError::OutOfBoundaries(p) => p == old(self).pos() + 32 && old(
                            self,
                        ).pos() + 32 > 0xFFFF,
                    })
                },
            },
    {
        if self.eof {
            return Err(CursorError::Eof);
        }
        let pos = self.byte_pos as usize;
        if pos + 32 > self.bytecode.len() {
            return Err(CursorError::Eof);
        }
        if pos + 32 > 0xFFFF {
            return Err(CursorError::OutOfBoundaries(pos + 32));
        }
        let mut buf = [0u8; 32];
        let mut k: usize = 0;
        while k < 32
            invariant
                0 <= k <= 32,
                pos + 32 <= self.bytecode@.len(),
                self.bytecode@.len() <= 0x10000,
                buf@.len() == 32,
                forall|j: int| 0 <= j < k ==> buf@[j] == self.bytecode@[pos + j],
            decreases 32 - k,
        {
            buf[k] = self.bytecode[pos + k];
            k = k + 1;
        }
        self.byte_pos = self.byte_pos + 32;
        proof {
            assert(buf@ =~= old(self).data().subrange(old(self).pos(), old(self).pos() + 32));
        }
        Ok(buf)
    }

    /// Reads a 16-bit length followed by that many bytes. The whole
    /// operation takes place, or the cursor is unchanged.
    pub fn read_slice(&mut self) -> (r: Result<Vec<u8>, CursorError>)
        requires
            old(self).wf(),
            old(self).bit() == 0,
        ensures
            final(self).wf(),
            final(self).data() == old(self).data(),
            match r {
                Ok(v) => {
                    let l = old(self).data()[old(self).pos()] + 256 * old(self).data()[old(
                        self,
                    ).pos() + 1];
                    &&& old(self).okn(2)
                    &&& old(self).okn(2 + l)
                    &&& v@ == old(self).data().subrange(
                        old(self).pos() + 2,
                        old(self).pos() + 2 + l,
                    )
                    &&& Self::advancedn(*old(self), *final(self), 2 + l)
                },
                Err(e) => {
                    let l = old(self).data()[old(self).pos()] + 256 * old(self).data()[old(
                        self,
                    ).pos() + 1];
                    &&& *final(self) == *old(self)
                    &&& (old(self).okn(2) ==> !old(self).okn(2 + l))
                    &&& (match e {
                        CursorError::Eof => old(self).at_eof() || old(self).pos() + 2 > old(
                            self,
                        ).data().len() || (old(self).pos() + 2 <= 0xFFFF && old(self).pos() + 2 + l
                            > old(self).data().len()),
                        CursorError::OutOfBoundaries(p) => !old(self).at_eof() && old(self).pos()
                            + 2 <= old(self).data().len() && ((old(self).pos() + 2 > 0xFFFF && p
                            == old(self).pos() + 2) || (old(self).pos() + 2 <= 0xFFFF && old(
                            self,
                        ).pos() + 2 + l <= old(self).data().len() && old(self).pos() + 2 + l
                            > 0xFFFF && p == old(self).pos() + 2 + l)),
                    })
                },
            },
    {
        if self.eof {
            return Err(CursorError::Eof);
        }
        let pos = self.byte_pos as usize;
        if pos + 2 > self.bytecode.len() {
            return Err(CursorError::Eof);
        }
        if pos + 2 > 0xFFFF {
            return Err(CursorError::OutOfBoundaries(pos + 2));
        }
        let l = self.bytecode[pos] as usize + 256 * (self.bytecode[pos + 1] as usize);
        if pos + 2 + l > self.bytecode.len() {
            return Err(CursorError::Eof);
        }
        if pos + 2 + l > 0xFFFF {
            return Err(CursorError::OutOfBoundaries(pos + 2 + l));
        }
        let mut v: Vec<u8> = Vec::new();
        let mut k: usize = 0;
        while k < l
            invariant
                0 <= k <= l,
                pos + 2 + l <= self.bytecode@.len(),
                self.bytecode@.len() <= 0x10000,
                v@.len() == k,
                forall|j: int| 0 <= j < k ==> v@[j] == self.bytecode@[pos + 2 + j],
            decreases l - k,
        {
            v.push(self.bytecode[pos + 2 + k]);
            k = k + 1;
        }
        self.byte_pos = (pos + 2 + l) as u16;
        proof {
            assert(v@ =~= old(self).data().subrange(old(self).pos() + 2, old(self).pos() + 2 + l));
        }
        Ok(v)
    }

    /// Reads the value of a register: the register's exact byte width where
    /// it is statically known, else a 16-bit length prefix followed by that
    /// many bytes (capped at the value capacity). The whole operation takes
    /// place, or the cursor is unchanged.
    pub fn read_value(&mut self, reg: Reg) -> (r: Result<Value, CursorError>)
        requires
            old(self).wf(),
            old(self).bit() == 0,
        ensures
            final(self).wf(),
            final(self).data() == old(self).data(),
            match r {
                Ok(v) => {
                    &&& v.wf()
                    &&& match reg.wire_bytes_spec() {
                        Some(k) => {
                            &&& old(self).okn(k as int)
                            &&& v.bytes@ == old(self).data().subrange(
                                old(self).pos(),
                                old(self).pos() + k,
                            )
                            &&& Self::advancedn(*old(self), *final(self), k as int)
                        },
                        None => {
                            let l = old(self).data()[old(self).pos()] + 256 * old(self).data()[old(
                                self,
                            ).pos() + 1];
                            &&& old(self).okn(2)
                            &&& old(self).okn(2 + l)
                            &&& l <= MAX_VALUE_BYTES
                            &&& v.bytes@ == old(self).data().subrange(
                                old(self).pos() + 2,
                                old(self).pos() + 2 + l,
                            )
                            &&& Self::advancedn(*old(self), *final(self), 2 + l)
                        },
                    }
                },
                Err(e) => {
                    &&& *final(self) == *old(self)
                    &&& match reg.wire_bytes_spec() {
                        Some(k) => !old(self).okn(k as int),
                        None => old(self).okn(2) ==> {
                            let l = old(self).data()[old(self).pos()] + 256 * old(self).data()[old(
                                self,
                            ).pos() + 1];
                            !old(self).okn(2 + l) || l > MAX_VALUE_BYTES
                        },
                    }
                },
            },
    {
        match reg.wire_bytes() {
            Some(k) => {
                if self.eof {
                    return Err(CursorError::Eof);
                }
                let pos = self.byte_pos as usize;
                if pos + k as usize > self.bytecode.len() {
                    return Err(CursorError::Eof);
                }
                if pos + k as usize > 0xFFFF {
                    return Err(CursorError::OutOfBoundaries(pos + k as usize));
                }
                let mut v: Vec<u8> = Vec::new();
                let mut j: usize = 0;
                while j < k as usize
                    invariant
                        0 <= j <= k as usize,
                        pos + k as usize <= self.bytecode@.len(),
                        self.bytecode@.len() <= 0x10000,
                        v@.len() == j,
                        forall|t: int| 0 <= t < j ==> v@[t] == self.bytecode@[pos + t],
                    decreases k as usize - j,
                {
                    v.push(self.bytecode[pos + j]);
                    j = j + 1;
                }
                self.byte_pos = (pos + k as usize) as u16;
                proof {
                    assert(v@ =~= old(self).data().subrange(
                        old(self).pos(),
                        old(self).pos() + k as int,
                    ));
                }
                Ok(Value { bytes: v })
            },
            None => {
                if self.eof {
                    return Err(CursorError::Eof);
                }
                let pos = self.byte_pos as usize;
                if pos + 2 > self.bytecode.len() {
                    return Err(CursorError::Eof);
                }
                if pos + 2 > 0xFFFF {
                    return Err(CursorError::OutOfBoundaries(pos + 2));
                }
                let l = self.bytecode[pos] as usize + 256 * (self.bytecode[pos + 1] as usize);
                if l > MAX_VALUE_BYTES as usize {
                    return Err(CursorError::OutOfBoundaries(l));
                }
                if pos + 2 + l > self.bytecode.len() {
                    return Err(CursorError::Eof);
                }
                if pos + 2 + l > 0xFFFF {
                    return Err(CursorError::OutOfBoundaries(pos + 2 + l));
                }
                let mut v: Vec<u8> = Vec::new();
                let mut j: usize = 0;
                while j < l
                    invariant
                        0 <= j <= l,
                        pos + 2 + l <= self.bytecode@.len(),
                        self.bytecode@.len() <= 0x10000,
                self.bytecode@.len() <= 0x10000,
                        v@.len() == j,
                        forall|t: int| 0 <= t < j ==> v@[t] == self.bytecode@[pos + 2 + t],
                    decreases l - j,
                {
                    v.push(self.bytecode[pos + 2 + j]);
                    j = j + 1;
                }
                self.byte_pos = (pos + 2 + l) as u16;
                proof {
                    assert(v@ =~= old(self).data().subrange(
                        old(self).pos() + 2,
                        old(self).pos() + 2 + l,
                    ));
                }
                Ok(Value { bytes: v })
            },
        }
    }

    /// The buffer kept its length and changed only in `[lo, hi)`.
    pub open spec fn wrote(old_c: Cursor, new_c: Cursor, lo: int, hi: int) -> bool {
        &&& new_c.data().len() == old_c.data().len()
        &&& forall|i: int|
            0 <= i < old_c.data().len() && !(lo <= i < hi) ==> new_c.data()[i] == old_c.data()[i]
    }

    /// Packs `n` bits into the current byte by addition, the buffer being
    /// zero above the current bit position.
    fn put_bits(&mut self, n: u8, d: u8) -> (r: Result<(), CursorError>)
        requires
            old(self).wf_w(),
            1 <= n <= 7,
            old(self).bit() + n <= 8,
            (d as nat) < pow2u(n as nat),
        ensures
            final(self).wf_w(),
            match r {
                Ok(()) => {
                    &&& old(self).ok1()
                    &&& Self::wrote(*old(self), *final(self), old(self).pos(), old(self).pos() + 1)
                    &&& (final(self).data()[old(self).pos()] as nat) == old(self).data()[old(
                        self,
                    ).pos()] as nat + (d as nat) * pow2u(old(self).bit() as nat)
                    &&& Self::bits_adv(*old(self), *final(self), n as int)
                },
                Err(e) => !old(self).ok1() && e == CursorError::Eof && *final(self) == *old(self),
            },
    {
        if self.eof {
            return Err(CursorError::Eof);
        }
        if self.byte_pos as usize >= self.bytecode.len() {
            return Err(CursorError::Eof);
        }
        let p = pow2_exec(self.bit_pos);
        let byte = self.bytecode[self.byte_pos as usize];
        proof {
            let pb = pow2u(old(self).bit() as nat);
            let pn = pow2u(n as nat);
            lemma_pow2u_adds(n as nat, old(self).bit() as nat);
            lemma_pow2u_mono((old(self).bit() + n) as nat, 8);
            lemma_pow2u_vals();
            assert((byte as nat) + (d as nat) * (p as nat) < pn * pb) by (nonlinear_arith)
                requires
                    (byte as nat) < pb,
                    (d as nat) < pn,
                    (p as nat) == pb,
            ;
        }
        let nb = byte + d * p;
        self.bytecode[self.byte_pos as usize] = nb;
        self.inc_bits(n);
        proof {
            lemma_pow2u_vals();
            assert(final(self).wf_w());
        }
        Ok(())
    }

    /// Writes a single bit.
    pub fn write_bool(&mut self, d: bool) -> (r: Result<(), CursorError>)
        requires
            old(self).wf_w(),
            old(self).bit() + 1 <= 8,
        ensures
            final(self).wf_w(),
            match r {
                Ok(()) => {
                    &&& old(self).ok1()
                    &&& Self::wrote(*old(self), *final(self), old(self).pos(), old(self).pos() + 1)
                    &&& (final(self).data()[old(self).pos()] as nat) == old(self).data()[old(
                        self,
                    ).pos()] as nat + (if d {
                        1nat
                    } else {
                        0nat
                    }) * pow2u(old(self).bit() as nat)
                    &&& Self::bits_adv(*old(self), *final(self), 1)
                },
                Err(e) => !old(self).ok1() && e == CursorError::Eof && *final(self) == *old(self),
            },
    {
        proof {
            lemma_pow2u_vals();
        }
        self.put_bits(1, if d {
            1
        } else {
            0
        })
    }

    /// Writes a 2-bit field.
    pub fn write_u2(&mut self, d: u8) -> (r: Result<(), CursorError>)
        requires
            old(self).wf_w(),
            old(self).bit() + 2 <= 8,
            d < 4,
        ensures
            final(self).wf_w(),
            match r {
                Ok(()) => {
                    &&& old(self).ok1()
                    &&& Self::wrote(*old(self), *final(self), old(self).pos(), old(self).pos() + 1)
                    &&& (final(self).data()[old(self).pos()] as nat) == old(self).data()[old(
                        self,
                    ).pos()] as nat + (d as nat) * pow2u(old(self).bit() as nat)
                    &&& Self::bits_adv(*old(self), *final(self), 2)
                },
                Err(e) => !old(self).ok1() && e == CursorError::Eof && *final(self) == *old(self),
            },
    {
        proof {
            lemma_pow2u_vals();
        }
        self.put_bits(2, d)
    }

    /// Writes a 3-bit field.
    pub fn write_u3(&mut self, d: u8) -> (r: Result<(), CursorError>)
        requires
            old(self).wf_w(),
            old(self).bit() + 3 <= 8,
            d < 8,
        ensures
            final(self).wf_w(),
            match r {
                Ok(()) => {
                    &&& old(self).ok1()
                    &&& Self::wrote(*old(self), *final(self), old(self).pos(), old(self).pos() + 1)
                    &&& (final(self).data()[old(self).pos()] as nat) == old(self).data()[old(
                        self,
                    ).pos()] as nat + (d as nat) * pow2u(old(self).bit() as nat)
                    &&& Self::bits_adv(*old(self), *final(self), 3)
                },
                Err(e) => !old(self).ok1() && e == CursorError::Eof && *final(self) == *old(self),
            },
    {
        proof {
            lemma_pow2u_vals();
        }
        self.put_bits(3, d)
    }

    /// Writes a 4-bit field.
    pub fn write_u4(&mut self, d: u8) -> (r: Result<(), CursorError>)
        requires
            old(self).wf_w(),
            old(self).bit() + 4 <= 8,
            d < 16,
        ensures
            final(self).wf_w(),
            match r {
                Ok(()) => {
                    &&& old(self).ok1()
                    &&& Self::wrote(*old(self), *final(self), old(self).pos(), old(self).pos() + 1)
                    &&& (final(self).data()[old(self).pos()] as nat) == old(self).data()[old(
                        self,
                    ).pos()] as nat + (d as nat) * pow2u(old(self).bit() as nat)
                    &&& Self::bits_adv(*old(self), *final(self), 4)
                },
                Err(e) => !old(self).ok1() && e == CursorError::Eof && *final(self) == *old(self),
            },
    {
        proof {
            lemma_pow2u_vals();
        }
        self.put_bits(4, d)
    }

    /// Writes a 5-bit field.
    pub fn write_u5(&mut self, d: u8) -> (r: Result<(), CursorError>)
        requires
            old(self).wf_w(),
            old(self).bit() + 5 <= 8,
            d < 32,
        ensures
            final(self).wf_w(),
            match r {
                Ok(()) => {
                    &&& old(self).ok1()
                    &&& Self::wrote(*old(self), *final(self), old(self).pos(), old(self).pos() + 1)
                    &&& (final(self).data()[old(self).pos()] as nat) == old(self).data()[old(
                        self,
                    ).pos()] as nat + (d as nat) * pow2u(old(self).bit() as nat)
                    &&& Self::bits_adv(*old(self), *final(self), 5)
                },
                Err(e) => !old(self).ok1() && e == CursorError::Eof && *final(self) == *old(self),
            },
    {
        proof {
            lemma_pow2u_vals();
        }
        self.put_bits(5, d)
    }

    /// Writes a 6-bit field.
    pub fn write_u6(&mut self, d: u8) -> (r: Result<(), CursorError>)
        requires
            old(self).wf_w(),
            old(self).bit() + 6 <= 8,
            d < 64,
        ensures
            final(self).wf_w(),
            match r {
                Ok(()) => {
                    &&& old(self).ok1()
                    &&& Self::wrote(*old(self), *final(self), old(self).pos(), old(self).pos() + 1)
                    &&& (final(self).data()[old(self).pos()] as nat) == old(self).data()[old(
                        self,
                    ).pos()] as nat + (d as nat) * pow2u(old(self).bit() as nat)
                    &&& Self::bits_adv(*old(self), *final(self), 6)
                },
                Err(e) => !old(self).ok1() && e == CursorError::Eof && *final(self) == *old(self),
            },
    {
        proof {
            lemma_pow2u_vals();
        }
        self.put_bits(6, d)
    }

    /// Writes a 7-bit field.
    pub fn write_u7(&mut self, d: u8) -> (r: Result<(), CursorError>)
        requires
            old(self).wf_w(),
            old(self).bit() + 7 <= 8,
            d < 128,
        ensures
            final(self).wf_w(),
            match r {
                Ok(()) => {
                    &&& old(self).ok1()
                    &&& Self::wrote(*old(self), *final(self), old(self).pos(), old(self).pos() + 1)
                    &&& (final(self).data()[old(self).pos()] as nat) == old(self).data()[old(
                        self,
                    ).pos()] as nat + (d as nat) * pow2u(old(self).bit() as nat)
                    &&& Self::bits_adv(*old(self), *final(self), 7)
                },
                Err(e) => !old(self).ok1() && e == CursorError::Eof && *final(self) == *old(self),
            },
    {
        proof {
            lemma_pow2u_vals();
        }
        self.put_bits(7, d)
    }

    /// Writes one whole byte.
    pub fn write_u8(&mut self, d: u8) -> (r: Result<(), CursorError>)
        requires
            old(self).wf_w(),
            old(self).bit() == 0,
        ensures
            final(self).wf_w(),
            match r {
                Ok(()) => {
                    &&& old(self).ok1()
                    &&& Self::wrote(*old(self), *final(self), old(self).pos(), old(self).pos() + 1)
                    &&& final(self).data()[old(self).pos()] == d
                    &&& Self::advanced1(*old(self), *final(self))
                },
                Err(e) => !old(self).ok1() && e == CursorError::Eof && *final(self) == *old(self),
            },
    {
        if self.eof {
            return Err(CursorError::Eof);
        }
        if self.byte_pos as usize >= self.bytecode.len() {
            return Err(CursorError::Eof);
        }
        self.bytecode[self.byte_pos as usize] = d;
        if self.byte_pos == 0xFFFF {
            self.eof = true;
        } else {
            self.byte_pos = self.byte_pos + 1;
        }
        proof {
            lemma_pow2u_vals();
        }
        Ok(())
    }

    /// Writes a little-endian 16-bit word.
    pub fn write_u16(&mut self, d: u16) -> (r: Result<(), CursorError>)
        requires
            old(self).wf_w(),
            old(self).bit() == 0,
        ensures
            final(self).wf_w(),
            match r {
                Ok(()) => {
                    &&& old(self).okn(2)
                    &&& Self::wrote(*old(self), *final(self), old(self).pos(), old(self).pos() + 2)
                    &&& final(self).data()[old(self).pos()] as int == (d as int) % 256
                    &&& final(self).data()[old(self).pos() + 1] as int == (d as int) / 256
                    &&& Self::advancedn(*old(self), *final(self), 2)
                },
                Err(e) => {
                    &&& *final(self) == *old(self)
                    &&& !old(self).okn(2)
                    &&& (match e {
                        CursorError::Eof => old(self).at_eof() || old(self).pos() + 2 > old(
                            self,
                        ).data().len(),
                        CursorError::OutOfBoundaries(p) => p == old(self).pos() + 2 && old(
                            self,
                        ).pos() + 2 > 0xFFFF,
                    })
                },
            },
    {
        if self.eof {
            return Err(CursorError::Eof);
        }
        let pos = self.byte_pos as usize;
        if pos + 2 > self.bytecode.len() {
            return Err(CursorError::Eof);
        }
        if pos + 2 > 0xFFFF {
            return Err(CursorError::OutOfBoundaries(pos + 2));
        }
        self.bytecode[pos] = (d % 256) as u8;
        self.bytecode[pos + 1] = (d / 256) as u8;
        self.byte_pos = self.byte_pos + 2;
        proof {
            lemma_pow2u_vals();
            if old(self).pos() + 2 < old(self).data().len() {
                assert(old(self).data()[old(self).pos() + 2] == 0);
                assert(final(self).data()[final(self).pos()] == 0);
            }
            assert forall|i: int|
                final(self).pos() < i < final(self).data().len() implies final(self).data()[i]
                == 0 by {
                assert(old(self).data()[i] == 0);
            }
        }
        Ok(())
    }

    /// Writes a fixed 32-byte block.
    pub fn write_bytes32(&mut self, d: &[u8; 32]) -> (r: Result<(), CursorError>)
        requires
            old(self).wf_w(),
            old(self).bit() == 0,
        ensures
            final(self).wf_w(),
            match r {
                Ok(()) => {
                    &&& old(self).okn(32)
                    &&& Self::wrote(*old(self), *final(self), old(self).pos(), old(self).pos() + 32)
                    &&& (forall|j: int|
                        0 <= j < 32 ==> final(self).data()[old(self).pos() + j] == d@[j])
                    &&& Self::advancedn(*old(self), *final(self), 32)
                },
                Err(e) => {
                    &&& *final(self) == *old(self)
                    &&& !old(self).okn(32)
                    &&& (match e {
                        CursorError::Eof => old(self).at_eof() || old(self).pos() + 32 > old(
                            self,
                        ).data().len(),
                        CursorError::OutOfBoundaries(p) => p == old(self).pos() + 32 && old(
                            self,
                        ).pos() + 32 > 0xFFFF,
                    })
                },
            },
    {
        if self.eof {
            return Err(CursorError::Eof);
        }
        let pos = self.byte_pos as usize;
        if pos + 32 > self.bytecode.len() {
            return Err(CursorError::Eof);
        }
        if pos + 32 > 0xFFFF {
            return Err(CursorError::OutOfBoundaries(pos + 32));
        }
        let mut k: usize = 0;
        while k < 32
            invariant
                0 <= k <= 32,
                pos + 32 <= self.bytecode@.len(),
                self.bytecode@.len() == old(self).data().len(),
                self.bytecode@.len() <= 0x10000,
                self.byte_pos == old(self).byte_pos,
                self.bit_pos == old(self).bit_pos,
                self.eof == old(self).eof,
                pos == self.byte_pos as usize,
                forall|j: int| 0 <= j < k ==> self.bytecode@[pos + j] == d@[j],
                forall|i: int|
                    0 <= i < old(self).data().len() && !(pos <= i < pos + k) ==> self.bytecode@[i]
                        == old(self).data()[i],
            decreases 32 - k,
        {
            self.bytecode[pos + k] = d[k];
            k = k + 1;
        }
        self.byte_pos = self.byte_pos + 32;
        proof {
            lemma_pow2u_vals();
            if old(self).pos() + 32 < old(self).data().len() {
                assert(old(self).data()[old(self).pos() + 32] == 0);
                assert(final(self).data()[final(self).pos()] == 0);
            }
            assert forall|i: int|
                final(self).pos() < i < final(self).data().len() implies final(self).data()[i]
                == 0 by {
                assert(old(self).data()[i] == 0);
            }
        }
        Ok(())
    }

    /// Writes a 16-bit length followed by the bytes themselves. The whole
    /// operation takes place, or the cursor is unchanged.
    pub fn write_slice(&mut self, d: &Vec<u8>) -> (r: Result<(), CursorError>)
        requires
            old(self).wf_w(),
            old(self).bit() == 0,
            d@.len() <= 0xFFFF,
        ensures
            final(self).wf_w(),
            match r {
                Ok(()) => {
                    &&& old(self).okn(2 + d@.len() as int)
                    &&& Self::wrote(
                        *old(self),
                        *final(self),
                        old(self).pos(),
                        old(self).pos() + 2 + d@.len(),
                    )
                    &&& final(self).data()[old(self).pos()] as int == (d@.len() as int) % 256
                    &&& final(self).data()[old(self).pos() + 1] as int == (d@.len() as int) / 256
                    &&& (forall|j: int|
                        0 <= j < d@.len() ==> final(self).data()[old(self).pos() + 2 + j] == d@[j])
                    &&& Self::advancedn(*old(self), *final(self), 2 + d@.len() as int)
                },
                Err(e) => {
                    &&& *final(self) == *old(self)
                    &&& !old(self).okn(2 + d@.len() as int)
                },
            },
    {
        if self.eof {
            return Err(CursorError::Eof);
        }
        let pos = self.byte_pos as usize;
        let l = d.len();
        if pos + 2 + l > self.bytecode.len() {
            return Err(CursorError::Eof);
        }
        if pos + 2 + l > 0xFFFF {
            return Err(CursorError::OutOfBoundaries(pos + 2 + l));
        }
        self.bytecode[pos] = (l % 256) as u8;
        self.bytecode[pos + 1] = (l / 256) as u8;
        let mut k: usize = 0;
        while k < l
            invariant
                0 <= k <= l,
                l == d@.len(),
                pos + 2 + l <= self.bytecode@.len(),
                self.bytecode@.len() == old(self).data().len(),
                self.bytecode@.len() <= 0x10000,
                self.byte_pos == old(self).byte_pos,
                self.bit_pos == old(self).bit_pos,
                self.eof == old(self).eof,
                pos == self.byte_pos as usize,
                self.bytecode@[pos as int] as int == (l as int) % 256,
                self.bytecode@[pos + 1] as int == (l as int) / 256,
                forall|j: int| 0 <= j < k ==> self.bytecode@[pos + 2 + j] == d@[j],
                forall|i: int|
                    0 <= i < old(self).data().len() && !(pos <= i < pos + 2 + k)
                        ==> self.bytecode@[i] == old(self).data()[i],
            decreases l - k,
        {
            self.bytecode[pos + 2 + k] = d[k];
            k = k + 1;
        }
        self.byte_pos = (pos + 2 + l) as u16;
        proof {
            lemma_pow2u_vals();
            if old(self).pos() + 2 + l < old(self).data().len() {
                assert(old(self).data()[old(self).pos() + 2 + l] == 0);
                assert(final(self).data()[final(self).pos()] == 0);
            }
            assert forall|i: int|
                final(self).pos() < i < final(self).data().len() implies final(self).data()[i]
                == 0 by {
                assert(old(self).data()[i] == 0);
            }
        }
        Ok(())
    }

    /// Writes the value of a register: its bytes, padded with zeroes up to
    /// the register's wire width where that width is statically known, else
    /// prefixed with a 16-bit length. The whole operation takes place, or
    /// the cursor is unchanged.
    pub fn write_value(&mut self, reg: Reg, v: &Value) -> (r: Result<(), CursorError>)
        requires
            old(self).wf_w(),
            old(self).bit() == 0,
            v.wf(),
            match reg.wire_bytes_spec() {
                Some(k) => v.bytes@.len() <= k,
                None => true,
            },
        ensures
            final(self).wf_w(),
            match r {
                Ok(()) => match reg.wire_bytes_spec() {
                    Some(k) => {
                        &&& old(self).okn(k as int)
                        &&& Self::wrote(
                            *old(self),
                            *final(self),
                            old(self).pos(),
                            old(self).pos() + k,
                        )
                        &&& (forall|j: int|
                            0 <= j < v.bytes@.len() ==> final(self).data()[old(self).pos() + j]
                                == v.bytes@[j])
                        &&& (forall|j: int|
                            v.bytes@.len() <= j < k ==> #[trigger] final(self).data()[old(
                                self,
                            ).pos() + j] == 0)
                        &&& Self::advancedn(*old(self), *final(self), k as int)
                    },
                    None => {
                        &&& old(self).okn(2 + v.bytes@.len() as int)
                        &&& Self::wrote(
                            *old(self),
                            *final(self),
                            old(self).pos(),
                            old(self).pos() + 2 + v.bytes@.len(),
                        )
                        &&& final(self).data()[old(self).pos()] as int == (v.bytes@.len() as int)
                            % 256
                        &&& final(self).data()[old(self).pos() + 1] as int == (v.bytes@.len()
                            as int) / 256
                        &&& (forall|j: int|
                            0 <= j < v.bytes@.len() ==> final(self).data()[old(self).pos() + 2 + j]
                                == v.bytes@[j])
                        &&& Self::advancedn(*old(self), *final(self), 2 + v.bytes@.len() as int)
                    },
                },
                Err(e) => {
                    &&& *final(self) == *old(self)
                    &&& match reg.wire_bytes_spec() {
                        Some(k) => !old(self).okn(k as int),
                        None => !old(self).okn(2 + v.bytes@.len() as int),
                    }
                },
            },
    {
        match reg.wire_bytes() {
            Some(k) => {
                if self.eof {
                    return Err(CursorError::Eof);
                }
                let pos = self.byte_pos as usize;
                if pos + k as usize > self.bytecode.len() {
                    return Err(CursorError::Eof);
                }
                if pos + k as usize > 0xFFFF {
                    return Err(CursorError::OutOfBoundaries(pos + k as usize));
                }
                let vlen = v.bytes.len();
                let mut j: usize = 0;
                while j < vlen
                    invariant
                        0 <= j <= vlen,
                        vlen == v.bytes@.len(),
                        vlen <= k,
                        pos + k as usize <= self.bytecode@.len(),
                        self.bytecode@.len() == old(self).data().len(),
                        self.bytecode@.len() <= 0x10000,
                        self.byte_pos == old(self).byte_pos,
                        self.bit_pos == old(self).bit_pos,
                        self.eof == old(self).eof,
                        pos == self.byte_pos as usize,
                        forall|t: int| 0 <= t < j ==> self.bytecode@[pos + t] == v.bytes@[t],
                        forall|i: int|
                            0 <= i < old(self).data().len() && !(pos <= i < pos + j)
                                ==> self.bytecode@[i] == old(self).data()[i],
                    decreases vlen - j,
                {
                    self.bytecode[pos + j] = v.bytes[j];
                    j = j + 1;
                }
                self.byte_pos = (pos + k as usize) as u16;
                proof {
                    lemma_pow2u_vals();
                    assert forall|j: int| v.bytes@.len() <= j < k implies #[trigger] final(self).data()[old(self).pos() + j] == 0 by {
                        if j == 0 {
                            assert(old(self).data()[old(self).pos()] == 0);
                        } else {
                            assert(old(self).data()[old(self).pos() + j] == 0);
                        }
                    }
                    if old(self).pos() + k < old(self).data().len() {
                        assert(old(self).data()[old(self).pos() + k] == 0);
                        assert(final(self).data()[final(self).pos()] == 0);
                    }
                    assert forall|i: int|
                        final(self).pos() < i < final(self).data().len() implies final(self).data()[i] == 0 by {
                        assert(old(self).data()[i] == 0);
                    }
                }
                Ok(())
            },
            None => {
                let r = self.write_slice(&v.bytes);
                r
            },
        }
    }
}

} // verus!
