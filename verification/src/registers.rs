//! The register file: the arithmetic (`A`) and wide (`R`) banks of 8
//! families with 32 slots each, the string bank, the status bit `st0`, the
//! cycle and call-depth counters, and the bounded return-site stack.

use vstd::prelude::*;
use crate::data::{trunc_spec, Blob, LibSite, Value, MAX_BLOB_BYTES};
use crate::instr::SiteV;
use crate::regid::{Reg, Reg32, RegA, RegR};

verus! {

/// Depth of the return-site stack `cs0`.
pub const CALL_STACK_DEPTH: usize = 256;

/// Spec model of the register file: slot contents as byte strings.
pub struct RegsV {
    pub a: Seq<Option<Seq<u8>>>,
    pub r: Seq<Option<Seq<u8>>>,
    pub s: Seq<Option<Seq<u8>>>,
    pub st0: bool,
    pub cy0: u16,
    pub cp0: u16,
    pub cs0: Seq<SiteV>,
}

/// The byte strings of an optional value.
pub open spec fn opt_bytes(o: Option<Value>) -> Option<Seq<u8>> {
    match o {
        Some(v) => Some(v.bytes@),
        None => None,
    }
}

/// The byte strings of an optional blob.
pub open spec fn opt_blob_bytes(o: Option<Blob>) -> Option<Seq<u8>> {
    match o {
        Some(b) => Some(b.bytes@),
        None => None,
    }
}

/// The flat slot index of a family tag and slot number.
pub open spec fn slot_of(code: u8, idx: Reg32) -> int {
    code * 32 + idx.val
}

/// Bytes an `A` slot at flat index `i` can store.
pub open spec fn a_slot_cap(i: int) -> u16 {
    RegA::from_code_spec((i / 32) as u8).cap_spec()
}

/// Bytes an `R` slot at flat index `i` can store.
pub open spec fn r_slot_cap(i: int) -> u16 {
    RegR::from_code_spec((i / 32) as u8).cap_spec()
}

/// A register bank with storage, status flags and a call stack.
pub struct Registers {
    /// Arithmetic bank: 8 families of 32 slots, flattened.
    pub a: Vec<Option<Value>>,
    /// Non-arithmetic bank: 8 families of 32 slots, flattened.
    pub r: Vec<Option<Value>>,
    /// String bank: 256 slots.
    pub s: Vec<Option<Blob>>,
    /// The status register, the sole program-visible boolean.
    pub st0: bool,
    /// The cycle counter.
    pub cy0: u16,
    /// The call-depth counter.
    pub cp0: u16,
    /// The return-site stack, last in first out.
    pub cs0: Vec<LibSite>,
}

impl View for Registers {
    type V = RegsV;

    open spec fn view(&self) -> RegsV {
        RegsV {
            a: self.a@.map_values(|o: Option<Value>| opt_bytes(o)),
            r: self.r@.map_values(|o: Option<Value>| opt_bytes(o)),
            s: self.s@.map_values(|o: Option<Blob>| opt_blob_bytes(o)),
            st0: self.st0,
            cy0: self.cy0,
            cp0: self.cp0,
            cs0: self.cs0@.map_values(|t: LibSite| t@),
        }
    }
}

impl RegsV {
    /// Well-formedness of the model: bank sizes, stack bound, and every
    /// stored value within its slot's width.
    pub open spec fn wf(self) -> bool {
        &&& self.a.len() == 256
        &&& self.r.len() == 256
        &&& self.s.len() == 256
        &&& self.cs0.len() <= CALL_STACK_DEPTH
        &&& (forall|i: int|
            0 <= i < 256 ==> match #[trigger] self.a[i] {
                Some(b) => b.len() <= a_slot_cap(i),
                None => true,
            })
        &&& (forall|i: int|
            0 <= i < 256 ==> match #[trigger] self.r[i] {
                Some(b) => b.len() <= r_slot_cap(i),
                None => true,
            })
        &&& (forall|i: int|
            0 <= i < 256 ==> match #[trigger] self.s[i] {
                Some(b) => b.len() <= MAX_BLOB_BYTES,
                None => true,
            })
        &&& (forall|i: int| 0 <= i < self.cs0.len() ==> (#[trigger] self.cs0[i]).lib.len() == 32)
    }

    /// The content of a register slot.
    pub open spec fn slot(self, reg: Reg, idx: Reg32) -> Option<Seq<u8>> {
        match reg {
            Reg::A(f) => self.a[slot_of(f.code_spec(), idx)],
            Reg::R(f) => self.r[slot_of(f.code_spec(), idx)],
        }
    }

    /// The model after writing a slot, the value capped at the slot width.
    pub open spec fn with_slot(self, reg: Reg, idx: Reg32, value: Option<Seq<u8>>) -> RegsV {
        let capped = match value {
            Some(b) => Some(trunc_spec(b, reg.cap_spec() as nat)),
            None => None,
        };
        match reg {
            Reg::A(f) => RegsV { a: self.a.update(slot_of(f.code_spec(), idx), capped), ..self },
            Reg::R(f) => RegsV { r: self.r.update(slot_of(f.code_spec(), idx), capped), ..self },
        }
    }
}

impl Registers {
    /// A fresh register file: all slots uninitialized, `st0` true and all
    /// counters zero.
    pub fn new() -> (r: Registers)
        ensures
            r@.wf(),
            r@.st0 == true,
            r@.cy0 == 0,
            r@.cp0 == 0,
            r@.cs0 =~= Seq::<SiteV>::empty(),
            forall|i: int| 0 <= i < 256 ==> (#[trigger] r@.a[i]) is None,
            forall|i: int| 0 <= i < 256 ==> (#[trigger] r@.r[i]) is None,
            forall|i: int| 0 <= i < 256 ==> (#[trigger] r@.s[i]) is None,
    {
        let mut a: Vec<Option<Value>> = Vec::new();
        let mut r: Vec<Option<Value>> = Vec::new();
        let mut s: Vec<Option<Blob>> = Vec::new();
        let mut i: usize = 0;
        while i < 256
            invariant
                a@.len() == i <= 256,
                r@.len() == i,
                s@.len() == i,
                forall|k: int| 0 <= k < i ==> (#[trigger] a@[k]) is None,
                forall|k: int| 0 <= k < i ==> (#[trigger] r@[k]) is None,
                forall|k: int| 0 <= k < i ==> (#[trigger] s@[k]) is None,
            decreases 256 - i,
        {
            a.push(None);
            r.push(None);
            s.push(None);
            i = i + 1;
        }
        let regs = Registers { a, r, s, st0: true, cy0: 0, cp0: 0, cs0: Vec::new() };
        proof {
            assert(regs@.cs0 =~= Seq::<SiteV>::empty());
        }
        regs
    }

    /// Reads a register slot; absent when the slot is uninitialized.
    pub fn get(&self, reg: Reg, index: Reg32) -> (r: Option<Value>)
        requires
            self@.wf(),
            index.wf(),
        ensures
            opt_bytes(r) == self@.slot(reg, index),
            match r {
                Some(v) => v.wf(),
                None => true,
            },
    {
        let code = match reg {
            Reg::A(f) => f.code(),
            Reg::R(f) => f.code(),
        };
        let i = code as usize * 32 + index.val as usize;
        let cell = match reg {
            Reg::A(_) => &self.a[i],
            Reg::R(_) => &self.r[i],
        };
        proof {
            crate::regid::lemma_rega_code_inverse(
                match reg {
                    Reg::A(f) => f,
                    Reg::R(_) => RegA::A8,
                },
            );
        }
        match cell {
            Some(v) => Some(v.clone_value()),
            None => None,
        }
    }

    /// Writes a register slot, truncating the most significant bytes of a
    /// value that exceeds the register width; `None` clears the slot.
    pub fn set(&mut self, reg: Reg, index: Reg32, value: Option<Value>)
        requires
            old(self)@.wf(),
            index.wf(),
            match value {
                Some(v) => v.wf(),
                None => true,
            },
        ensures
            final(self)@.wf(),
            final(self)@ == old(self)@.with_slot(reg, index, opt_bytes(value)),
    {
        let code = match reg {
            Reg::A(f) => f.code(),
            Reg::R(f) => f.code(),
        };
        let i = code as usize * 32 + index.val as usize;
        let capped: Option<Value> = match &value {
            Some(v) => Some(v.trunc(reg.cap())),
            None => None,
        };
        match reg {
            Reg::A(_) => {
                self.a[i] = capped;
            },
            Reg::R(_) => {
                self.r[i] = capped;
            },
        }
        proof {
            let f_code = code;
            assert((i as int) / 32 == f_code as int) by (nonlinear_arith)
                requires
                    i == f_code as int * 32 + index.val as int,
                    0 <= index.val < 32,
                    0 <= f_code < 8,
            ;
            match reg {
                Reg::A(f) => {
                    crate::regid::lemma_rega_code_inverse(f);
                    assert(final(self)@.a =~= old(self)@.a.update(
                        slot_of(f.code_spec(), index),
                        match opt_bytes(value) {
                            Some(b) => Some(trunc_spec(b, reg.cap_spec() as nat)),
                            None => None,
                        },
                    ));
                    assert(final(self)@ == old(self)@.with_slot(reg, index, opt_bytes(value)));
                },
                Reg::R(f) => {
                    crate::regid::lemma_regr_code_inverse(f);
                    assert(final(self)@.r =~= old(self)@.r.update(
                        slot_of(f.code_spec(), index),
                        match opt_bytes(value) {
                            Some(b) => Some(trunc_spec(b, reg.cap_spec() as nat)),
                            None => None,
                        },
                    ));
                    assert(final(self)@ == old(self)@.with_slot(reg, index, opt_bytes(value)));
                },
            }
        }
    }

    /// Reads a string register.
    pub fn get_s(&self, index: u8) -> (r: Option<Blob>)
        requires
            self@.wf(),
        ensures
            opt_blob_bytes(r) == self@.s[index as int],
            match r {
                Some(b) => b.wf(),
                None => true,
            },
    {
        match &self.s[index as usize] {
            Some(b) => Some(b.clone_blob()),
            None => None,
        }
    }

    /// Writes a string register; `None` clears it.
    pub fn set_s(&mut self, index: u8, value: Option<Blob>)
        requires
            old(self)@.wf(),
            match value {
                Some(b) => b.wf(),
                None => true,
            },
        ensures
            final(self)@.wf(),
            final(self)@ == (RegsV {
                s: old(self)@.s.update(index as int, opt_blob_bytes(value)),
                ..old(self)@
            }),
    {
        let ghost v0 = self@;
        self.s[index as usize] = value;
        proof {
            assert(final(self)@.s =~= v0.s.update(index as int, opt_blob_bytes(value)));
        }
    }

    /// Counts one execution cycle; reports failure when the counter is
    /// exhausted, leaving the state unchanged.
    pub fn jmp(&mut self) -> (r: bool)
        requires
            old(self)@.wf(),
        ensures
            final(self)@.wf(),
            r == (old(self)@.cy0 < 0xFFFF),
            final(self)@ == (if old(self)@.cy0 < 0xFFFF {
                RegsV { cy0: (old(self)@.cy0 + 1) as u16, ..old(self)@ }
            } else {
                old(self)@
            }),
    {
        if self.cy0 < 0xFFFF {
            self.cy0 = self.cy0 + 1;
            true
        } else {
            false
        }
    }

    /// Counts a cycle and pushes a return site for a subroutine call
    /// within the current code, leaving the call depth alone; reports
    /// failure when the counter or the stack is exhausted, leaving the
    /// state unchanged.
    pub fn routine(&mut self, site: LibSite) -> (r: bool)
        requires
            old(self)@.wf(),
            site.lib.bytes@.len() == 32,
        ensures
            final(self)@.wf(),
            r == (old(self)@.cy0 < 0xFFFF && old(self)@.cs0.len() < CALL_STACK_DEPTH),
            final(self)@ == (if (old(self)@.cy0 < 0xFFFF && old(self)@.cs0.len()
                < CALL_STACK_DEPTH) {
                RegsV {
                    cy0: (old(self)@.cy0 + 1) as u16,
                    cs0: old(self)@.cs0.push(site@),
                    ..old(self)@
                }
            } else {
                old(self)@
            }),
    {
        if self.cy0 < 0xFFFF && self.cs0.len() < CALL_STACK_DEPTH {
            self.cy0 = self.cy0 + 1;
            self.cs0.push(site);
            proof {
                assert(final(self)@.cs0 =~= old(self)@.cs0.push(site@));
            }
            true
        } else {
            false
        }
    }

    /// Counts a cycle, deepens the call depth and pushes a return site;
    /// reports failure when a counter or the stack is exhausted, leaving
    /// the state unchanged.
    pub fn call(&mut self, site: LibSite) -> (r: bool)
        requires
            old(self)@.wf(),
            site.lib.bytes@.len() == 32,
        ensures
            final(self)@.wf(),
            r == (old(self)@.cy0 < 0xFFFF && old(self)@.cp0 < 0xFFFF && old(self)@.cs0.len()
                < CALL_STACK_DEPTH),
            final(self)@ == (if (old(self)@.cy0 < 0xFFFF && old(self)@.cp0 < 0xFFFF && old(
                self,
            )@.cs0.len() < CALL_STACK_DEPTH) {
                RegsV {
                    cy0: (old(self)@.cy0 + 1) as u16,
                    cp0: (old(self)@.cp0 + 1) as u16,
                    cs0: old(self)@.cs0.push(site@),
                    ..old(self)@
                }
            } else {
                old(self)@
            }),
    {
        if self.cy0 < 0xFFFF && self.cp0 < 0xFFFF && self.cs0.len() < CALL_STACK_DEPTH {
            self.cy0 = self.cy0 + 1;
            self.cp0 = self.cp0 + 1;
            self.cs0.push(site);
            proof {
                assert(final(self)@.cs0 =~= old(self)@.cs0.push(site@));
            }
            true
        } else {
            false
        }
    }

    /// Pops the return site on top of `cs0`, lowering the call depth;
    /// absent when the stack is empty, leaving the state unchanged.
    pub fn ret(&mut self) -> (r: Option<LibSite>)
        requires
            old(self)@.wf(),
        ensures
            final(self)@.wf(),
            match r {
                Some(site) => {
                    &&& old(self)@.cs0.len() > 0
                    &&& site@ == old(self)@.cs0.last()
                    &&& site.lib.bytes@.len() == 32
                    &&& final(self)@ == (RegsV {
                        cp0: if old(self)@.cp0 > 0 {
                            (old(self)@.cp0 - 1) as u16
                        } else {
                            0
                        },
                        cs0: old(self)@.cs0.drop_last(),
                        ..old(self)@
                    })
                },
                None => old(self)@.cs0.len() == 0 && final(self)@ == old(self)@,
            },
    {
        if self.cs0.len() == 0 {
            return None;
        }
        let site = self.cs0.pop().unwrap();
        if self.cp0 > 0 {
            self.cp0 = self.cp0 - 1;
        }
        proof {
            assert(final(self)@.cs0 =~= old(self)@.cs0.drop_last());
            assert(old(self)@.cs0.last() == old(self)@.cs0[old(self)@.cs0.len() - 1]);
        }
        Some(site)
    }
}

} // verus!
