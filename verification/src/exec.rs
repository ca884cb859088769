//! Per-instruction execution: each instruction's effect on the register
//! file and the machine movement it returns, and the top-level interpreter
//! loop, which provably terminates because every backwards jump spends a
//! cycle and every return pops the bounded call stack.

use vstd::prelude::*;
use crate::data::{le_nat, pow256, zeros, Blob, LibHash, LibSite, Value};
use crate::instr::{
    Arithmetics, ArithmeticOp, BitwiseOp, BytesOp, BytesOpV, CmpOp, ControlFlowOp, ControlFlowOpV,
    Curve25519Op, DigestOp, ExecStep, Instr, InstrV, MoveOp, PutOp, PutOpV, SecpOp, SiteV, StepV,
};
use crate::num::{
    arith_mod, vnum_add_wrapping, vnum_div_checked, vnum_mul_checked, vnum_mul_wrapping,
    vnum_rem_checked, vnum_sub_wrapping,
};
use crate::regid::{Reg, Reg32, Reg8, RegA, RegR};
use crate::registers::{slot_of, Registers, RegsV, CALL_STACK_DEPTH};
use crate::cursor::Cursor;

verus! {

/// The number a slot denotes, absent for an uninitialized slot.
pub open spec fn nval(o: Option<Seq<u8>>) -> Option<nat> {
    match o {
        Some(b) => Some(le_nat(b)),
        None => None,
    }
}

/// The state with `st0` replaced.
pub open spec fn with_st(v: RegsV, b: bool) -> RegsV {
    RegsV { st0: b, ..v }
}

/// The state after a failed precondition: `st0` cleared.
pub open spec fn failed(v: RegsV) -> RegsV {
    RegsV { st0: false, ..v }
}

/// Whether a cycle can still be counted.
pub open spec fn can_jmp(v: RegsV) -> bool {
    v.cy0 < 0xFFFF
}

/// The state after one counted cycle.
pub open spec fn bumped(v: RegsV) -> RegsV {
    RegsV { cy0: (v.cy0 + 1) as u16, ..v }
}

/// Whether a call can still be made.
pub open spec fn can_call(v: RegsV) -> bool {
    v.cy0 < 0xFFFF && v.cp0 < 0xFFFF && v.cs0.len() < CALL_STACK_DEPTH
}

/// Whether a subroutine call within the current code can still be made.
pub open spec fn can_routine(v: RegsV) -> bool {
    v.cy0 < 0xFFFF && v.cs0.len() < CALL_STACK_DEPTH
}

/// The state after a subroutine call: a cycle counted and the return site
/// pushed; the call depth belongs to external calls alone.
pub open spec fn routined(v: RegsV, t: SiteV) -> RegsV {
    RegsV { cy0: (v.cy0 + 1) as u16, cs0: v.cs0.push(t), ..v }
}

/// The state after a call: a cycle counted, the depth grown, the return
/// site pushed.
pub open spec fn called(v: RegsV, t: SiteV) -> RegsV {
    RegsV {
        cy0: (v.cy0 + 1) as u16,
        cp0: (v.cp0 + 1) as u16,
        cs0: v.cs0.push(t),
        ..v
    }
}

/// The state after a return: the top site popped and the depth lowered.
pub open spec fn popped(v: RegsV) -> RegsV {
    RegsV {
        cp0: if v.cp0 > 0 {
            (v.cp0 - 1) as u16
        } else {
            0
        },
        cs0: v.cs0.drop_last(),
        ..v
    }
}

/// Two states that differ at most in one `A` slot.
pub open spec fn same_but_a(v0: RegsV, v1: RegsV, i: int) -> bool {
    &&& v1 == RegsV { a: v1.a, ..v0 }
    &&& v1.a.len() == v0.a.len()
    &&& (forall|t: int| 0 <= t < v0.a.len() && t != i ==> v1.a[t] == v0.a[t])
}

/// What a control-flow instruction leaves in the register file, and the
/// movement it returns; `site` is the return site for subroutine and
/// external calls.
pub open spec fn cf_post(
    op: ControlFlowOpV,
    v0: RegsV,
    v1: RegsV,
    site: SiteV,
    r: ExecStep,
) -> bool {
    match op {
        ControlFlowOpV::Fail => v1 == with_st(v0, false) && r@ == StepV::Stop,
        ControlFlowOpV::Succ => v1 == with_st(v0, true) && r@ == StepV::Stop,
        ControlFlowOpV::Jmp(o) => if can_jmp(v0) {
            v1 == bumped(v0) && r@ == StepV::Jump(o)
        } else {
            v1 == failed(v0) && r@ == StepV::Stop
        },
        ControlFlowOpV::Jif(o) => if !v0.st0 {
            v1 == v0 && r@ == StepV::Next
        } else if can_jmp(v0) {
            v1 == bumped(v0) && r@ == StepV::Jump(o)
        } else {
            v1 == failed(v0) && r@ == StepV::Stop
        },
        ControlFlowOpV::Routine(o) => if can_routine(v0) {
            v1 == routined(v0, site) && r@ == StepV::Jump(o)
        } else {
            v1 == failed(v0) && r@ == StepV::Stop
        },
        ControlFlowOpV::Call(t) => if can_call(v0) {
            v1 == called(v0, site) && r@ == StepV::Call(t)
        } else {
            v1 == failed(v0) && r@ == StepV::Stop
        },
        ControlFlowOpV::Exec(t) => if can_jmp(v0) {
            v1 == bumped(v0) && r@ == StepV::Call(t)
        } else {
            v1 == failed(v0) && r@ == StepV::Stop
        },
        ControlFlowOpV::Ret => if v0.cs0.len() > 0 {
            v1 == popped(v0) && r@ == StepV::Call(v0.cs0.last())
        } else {
            v1 == failed(v0) && r@ == StepV::Stop
        },
    }
}

impl ControlFlowOp {
    /// Executes the instruction against the register file; `site` is the
    /// position right after this instruction, used as the return site.
    pub fn exec(&self, regs: &mut Registers, site: LibSite) -> (r: ExecStep)
        requires
            old(regs)@.wf(),
            site.lib.bytes@.len() == 32,
            self@.wf(),
        ensures
            final(regs)@.wf(),
            cf_post(self@, old(regs)@, final(regs)@, site@, r),
    {
        match self {
            ControlFlowOp::Fail => {
                regs.st0 = false;
                ExecStep::Stop
            },
            ControlFlowOp::Succ => {
                regs.st0 = true;
                ExecStep::Stop
            },
            ControlFlowOp::Jmp(offset) => {
                if regs.jmp() {
                    ExecStep::Jump(*offset)
                } else {
                    regs.st0 = false;
                    ExecStep::Stop
                }
            },
            ControlFlowOp::Jif(offset) => {
                if !regs.st0 {
                    ExecStep::Next
                } else if regs.jmp() {
                    ExecStep::Jump(*offset)
                } else {
                    regs.st0 = false;
                    ExecStep::Stop
                }
            },
            ControlFlowOp::Routine(offset) => {
                if regs.routine(site) {
                    ExecStep::Jump(*offset)
                } else {
                    regs.st0 = false;
                    ExecStep::Stop
                }
            },
            ControlFlowOp::Call(target) => {
                if regs.call(site) {
                    ExecStep::Call(*target)
                } else {
                    regs.st0 = false;
                    ExecStep::Stop
                }
            },
            ControlFlowOp::Exec(target) => {
                if regs.jmp() {
                    ExecStep::Call(*target)
                } else {
                    regs.st0 = false;
                    ExecStep::Stop
                }
            },
            ControlFlowOp::Ret => {
                match regs.ret() {
                    Some(site) => ExecStep::Call(site),
                    None => {
                        regs.st0 = false;
                        ExecStep::Stop
                    },
                }
            },
        }
    }
}

/// What a put instruction leaves in the register file.
pub open spec fn put_post(op: PutOpV, v0: RegsV, v1: RegsV) -> bool {
            match op {
                PutOpV::ZeroA(f, i) => v1 == v0.with_slot(
                    Reg::A(f),
                    i,
                    Some(zeros(f.cap_spec() as nat)),
                ),
                PutOpV::ZeroR(f, i) => v1 == v0.with_slot(
                    Reg::R(f),
                    i,
                    Some(zeros(f.cap_spec() as nat)),
                ),
                PutOpV::ClA(f, i) => v1 == v0.with_slot(Reg::A(f), i, None),
                PutOpV::ClR(f, i) => v1 == v0.with_slot(Reg::R(f), i, None),
                PutOpV::PutA(f, i, v) => v1 == v0.with_slot(
                    Reg::A(f),
                    i,
                    Some(v),
                ),
                PutOpV::PutR(f, i, v) => v1 == v0.with_slot(
                    Reg::R(f),
                    i,
                    Some(v),
                ),
                PutOpV::PutIfA(f, i, v) => if v0.slot(Reg::A(f), i) is None {
                    v1 == v0.with_slot(Reg::A(f), i, Some(v))
                } else {
                    v1 == v0
                },
                PutOpV::PutIfR(f, i, v) => if v0.slot(Reg::R(f), i) is None {
                    v1 == v0.with_slot(Reg::R(f), i, Some(v))
                } else {
                    v1 == v0
                },
            }
}

impl PutOp {
    /// Executes the instruction against the register file; always moves on
    /// to the next instruction.
    pub fn exec(&self, regs: &mut Registers) -> (r: ExecStep)
        requires
            old(regs)@.wf(),
            self@.wf(),
        ensures
            final(regs)@.wf(),
            r == ExecStep::Next,
            put_post(self@, old(regs)@, final(regs)@),
    {
        match self {
            PutOp::ZeroA(f, i) => {
                let z = Value::zero(f.cap());
                regs.set(Reg::A(*f), *i, Some(z));
            },
            PutOp::ZeroR(f, i) => {
                let z = Value::zero(f.cap());
                regs.set(Reg::R(*f), *i, Some(z));
            },
            PutOp::ClA(f, i) => {
                regs.set(Reg::A(*f), *i, None);
            },
            PutOp::ClR(f, i) => {
                regs.set(Reg::R(*f), *i, None);
            },
            PutOp::PutA(f, i, v) => {
                regs.set(Reg::A(*f), *i, Some(v.clone_value()));
            },
            PutOp::PutR(f, i, v) => {
                regs.set(Reg::R(*f), *i, Some(v.clone_value()));
            },
            PutOp::PutIfA(f, i, v) => {
                match regs.get(Reg::A(*f), *i) {
                    Some(_) => {},
                    None => {
                        regs.set(Reg::A(*f), *i, Some(v.clone_value()));
                    },
                }
            },
            PutOp::PutIfR(f, i, v) => {
                match regs.get(Reg::R(*f), *i) {
                    Some(_) => {},
                    None => {
                        regs.set(Reg::R(*f), *i, Some(v.clone_value()));
                    },
                }
            },
        }
        ExecStep::Next
    }
}

/// After writing the all-zero value of a family's width, the slot holds a
/// value whose bytes are all zero.
pub proof fn lemma_zero_slot(v: RegsV, f: RegA, i: Reg32)
    requires
        v.wf(),
        i.wf(),
    ensures
        v.with_slot(Reg::A(f), i, Some(zeros(f.cap_spec() as nat))).slot(Reg::A(f), i) matches Some(
            b,
        ) && (forall|k: int| 0 <= k < b.len() ==> b[k] == 0),
{
    let cap = f.cap_spec() as nat;
    assert(crate::data::trunc_spec(zeros(cap), Reg::A(f).cap_spec() as nat) =~= zeros(cap));
    assert(0 <= slot_of(f.code_spec(), i) < 256);
}

/// Clearing a slot makes a read of it come back absent.
pub proof fn lemma_clear_slot(v: RegsV, f: RegA, i: Reg32)
    requires
        v.wf(),
        i.wf(),
    ensures
        v.with_slot(Reg::A(f), i, None).slot(Reg::A(f), i) is None,
{
    assert(0 <= slot_of(f.code_spec(), i) < 256);
}

/// A conditional assignment never overwrites an initialized slot: when the
/// slot holds a value, the state is unchanged.
pub proof fn lemma_put_if_keeps(v0: RegsV, v1: RegsV, f: RegA, i: Reg32, b: Seq<u8>)
    requires
        v0.slot(Reg::A(f), i) is Some,
        if v0.slot(Reg::A(f), i) is None {
            v1 == v0.with_slot(Reg::A(f), i, Some(b))
        } else {
            v1 == v0
        },
    ensures
        v1 == v0,
        v1.slot(Reg::A(f), i) == v0.slot(Reg::A(f), i),
{
}

/// What a move instruction leaves in the register file.
pub open spec fn move_post(op: MoveOp, v0: RegsV, v1: RegsV) -> bool {
            match op {
                MoveOp::SwpA(f1, i1, f2, i2) => v1 == v0.with_slot(
                    Reg::A(f1),
                    i1,
                    v0.slot(Reg::A(f2), i2),
                ).with_slot(Reg::A(f2), i2, v0.slot(Reg::A(f1), i1)),
                MoveOp::SwpR(f1, i1, f2, i2) => v1 == v0.with_slot(
                    Reg::R(f1),
                    i1,
                    v0.slot(Reg::R(f2), i2),
                ).with_slot(Reg::R(f2), i2, v0.slot(Reg::R(f1), i1)),
                MoveOp::SwpAR(f1, i1, f2, i2) => v1 == v0.with_slot(
                    Reg::A(f1),
                    i1,
                    v0.slot(Reg::R(f2), i2),
                ).with_slot(Reg::R(f2), i2, v0.slot(Reg::A(f1), i1)),
                MoveOp::MovA(f1, i1, f2, i2) => v1 == v0.with_slot(
                    Reg::A(f2),
                    i2,
                    v0.slot(Reg::A(f1), i1),
                ),
                MoveOp::MovR(f1, i1, f2, i2) => v1 == v0.with_slot(
                    Reg::R(f2),
                    i2,
                    v0.slot(Reg::R(f1), i1),
                ),
                MoveOp::MovAR(f1, i1, f2, i2) => v1 == v0.with_slot(
                    Reg::R(f2),
                    i2,
                    v0.slot(Reg::A(f1), i1),
                ),
                MoveOp::MovRA(f1, i1, f2, i2) => v1 == v0.with_slot(
                    Reg::A(f2),
                    i2,
                    v0.slot(Reg::R(f1), i1),
                ),
                MoveOp::AMov(f1, f2, _) => {
                    &&& v1 == RegsV { a: v1.a, ..v0 }
                    &&& v1.a.len() == 256
                    &&& (forall|k: int|
                        0 <= k < 32 ==> #[trigger] v1.a[slot_of(
                            f2.code_spec(),
                            Reg32 { val: 0 },
                        ) + k] == (match v0.a[slot_of(f1.code_spec(), Reg32 { val: 0 })
                            + k] {
                            Some(b) => Some(
                                crate::data::trunc_spec(b, f2.cap_spec() as nat),
                            ),
                            None => None,
                        }))
                    &&& (forall|t: int|
                        0 <= t < 256 && !(slot_of(f2.code_spec(), Reg32 { val: 0 }) <= t
                            < slot_of(f2.code_spec(), Reg32 { val: 0 }) + 32)
                            ==> v1.a[t] == v0.a[t])
                },
            }
}

impl MoveOp {
    /// Executes the instruction against the register file; always moves on
    /// to the next instruction. An array move copies all 32 slots of the
    /// source family, truncating values to the destination width; the
    /// interpretation tag does not change the bytes moved.
    pub fn exec(&self, regs: &mut Registers) -> (r: ExecStep)
        requires
            old(regs)@.wf(),
            self.wf(),
        ensures
            final(regs)@.wf(),
            r == ExecStep::Next,
            move_post(*self, old(regs)@, final(regs)@),
    {
        match self {
            MoveOp::SwpA(f1, i1, f2, i2) => {
                let v1 = regs.get(Reg::A(*f1), *i1);
                let v2 = regs.get(Reg::A(*f2), *i2);
                regs.set(Reg::A(*f1), *i1, v2);
                regs.set(Reg::A(*f2), *i2, v1);
            },
            MoveOp::SwpR(f1, i1, f2, i2) => {
                let v1 = regs.get(Reg::R(*f1), *i1);
                let v2 = regs.get(Reg::R(*f2), *i2);
                regs.set(Reg::R(*f1), *i1, v2);
                regs.set(Reg::R(*f2), *i2, v1);
            },
            MoveOp::SwpAR(f1, i1, f2, i2) => {
                let v1 = regs.get(Reg::A(*f1), *i1);
                let v2 = regs.get(Reg::R(*f2), *i2);
                regs.set(Reg::A(*f1), *i1, v2);
                regs.set(Reg::R(*f2), *i2, v1);
            },
            MoveOp::MovA(f1, i1, f2, i2) => {
                let v = regs.get(Reg::A(*f1), *i1);
                regs.set(Reg::A(*f2), *i2, v);
            },
            MoveOp::MovR(f1, i1, f2, i2) => {
                let v = regs.get(Reg::R(*f1), *i1);
                regs.set(Reg::R(*f2), *i2, v);
            },
            MoveOp::MovAR(f1, i1, f2, i2) => {
                let v = regs.get(Reg::A(*f1), *i1);
                regs.set(Reg::R(*f2), *i2, v);
            },
            MoveOp::MovRA(f1, i1, f2, i2) => {
                let v = regs.get(Reg::R(*f1), *i1);
                regs.set(Reg::A(*f2), *i2, v);
            },
            MoveOp::AMov(f1, f2, _) => {
                let mut k: u8 = 0;
                while k < 32
                    invariant
                        0 <= k <= 32,
                        regs@.wf(),
                        self.wf(),
                        regs@ == (RegsV { a: regs@.a, ..old(regs)@ }),
                        regs@.a.len() == 256,
                        forall|t: int|
                            0 <= t < 32 && t < k ==> #[trigger] regs@.a[slot_of(
                                f2.code_spec(),
                                Reg32 { val: 0 },
                            ) + t] == (match old(regs)@.a[slot_of(f1.code_spec(), Reg32 { val: 0 })
                                + t] {
                                Some(b) => Some(
                                    crate::data::trunc_spec(b, f2.cap_spec() as nat),
                                ),
                                None => None,
                            }),
                        forall|t: int|
                            0 <= t < 256 && !(slot_of(f2.code_spec(), Reg32 { val: 0 }) <= t
                                < slot_of(f2.code_spec(), Reg32 { val: 0 }) + k)
                                ==> regs@.a[t] == old(regs)@.a[t],
                    decreases 32 - k,
                {
                    let idx = Reg32::with(k);
                    let ghost pre = regs@;
                    let v = regs.get(Reg::A(*f1), idx);
                    regs.set(Reg::A(*f2), idx, v);
                    proof {
                        let base1 = slot_of(f1.code_spec(), Reg32 { val: 0 });
                        let base2 = slot_of(f2.code_spec(), Reg32 { val: 0 });
                        assert(slot_of(f1.code_spec(), idx) == base1 + k);
                        assert(slot_of(f2.code_spec(), idx) == base2 + k);
                        if f1 == f2 {
                            assert(pre.a[base1 + k] == old(regs)@.a[base1 + k]);
                        } else {
                            assert(pre.a[base1 + k] == old(regs)@.a[base1 + k]);
                        }
                    }
                    k = k + 1;
                }
            },
        }
        ExecStep::Next
    }
}

/// Number of set bits in a byte.
pub open spec fn popcnt_byte(b: u8) -> nat
    decreases b,
{
    if b == 0 {
        0
    } else {
        (b % 2) as nat + popcnt_byte(b / 2)
    }
}

/// Number of set bits in a byte string.
pub open spec fn popcnt(s: Seq<u8>) -> nat
    decreases s.len(),
{
    if s.len() == 0 {
        0
    } else {
        popcnt_byte(s[0]) + popcnt(s.skip(1))
    }
}

/// Position of the highest set bit of a byte, counted from one; zero for a
/// zero byte.
pub open spec fn bitlen_byte(b: u8) -> nat
    decreases b,
{
    if b == 0 {
        0
    } else {
        1 + bitlen_byte(b / 2)
    }
}

/// Position of the highest set bit of a little-endian byte string, counted
/// from one; zero when all bytes are zero.
pub open spec fn bitlen_bytes(s: Seq<u8>) -> nat
    decreases s.len(),
{
    if s.len() == 0 {
        0
    } else if s.last() == 0 {
        bitlen_bytes(s.drop_last())
    } else {
        (8 * (s.len() - 1) + bitlen_byte(s.last())) as nat
    }
}

/// Number of set bits in a byte, computed.
fn popcnt_byte_exec(b: u8) -> (r: u8)
    ensures
        r as nat == popcnt_byte(b),
        r <= 8,
{
    let mut x = b;
    let mut c: u8 = 0;
    proof {
        lemma_popcnt_byte_bound(b);
    }
    while x > 0
        invariant
            c as nat + popcnt_byte(x) == popcnt_byte(b),
            popcnt_byte(b) <= 8,
            c <= 8,
            popcnt_byte(x) <= 8,
        decreases x,
    {
        proof {
            lemma_popcnt_byte_bound(x / 2);
        }
        c = c + x % 2;
        x = x / 2;
    }
    c
}

/// A byte below the `k`-th power of two holds at most `k` set bits, and
/// its highest set bit is at most the `k`-th.
proof fn lemma_byte_bits_below(b: u8, k: nat)
    requires
        (b as nat) < crate::cursor::pow2u(k),
    ensures
        popcnt_byte(b) <= k,
        bitlen_byte(b) <= k,
    decreases b,
{
    if b > 0 {
        assert(k > 0) by {
            if k == 0 {
                assert(crate::cursor::pow2u(0) == 1);
            }
        }
        assert(crate::cursor::pow2u(k) == 2 * crate::cursor::pow2u((k - 1) as nat));
        lemma_byte_bits_below(b / 2, (k - 1) as nat);
    }
}

/// A byte holds at most eight set bits.
proof fn lemma_popcnt_byte_bound(b: u8)
    ensures
        popcnt_byte(b) <= 8,
{
    crate::cursor::lemma_pow2u_vals();
    lemma_byte_bits_below(b, 8);
}

/// What a comparison instruction leaves in the register file.
pub open spec fn cmp_post(op: CmpOp, v0: RegsV, v1: RegsV) -> bool {
            match op {
                CmpOp::Gt(f1, i1, f2, i2) => v1 == with_st(
                    v0,
                    match (nval(v0.slot(Reg::A(f1), i1)), nval(
                        v0.slot(Reg::A(f2), i2),
                    )) {
                        (Some(n1), Some(n2)) => n1 > n2,
                        _ => false,
                    },
                ),
                CmpOp::Lt(f1, i1, f2, i2) => v1 == with_st(
                    v0,
                    match (nval(v0.slot(Reg::R(f1), i1)), nval(
                        v0.slot(Reg::R(f2), i2),
                    )) {
                        (Some(n1), Some(n2)) => n1 < n2,
                        _ => false,
                    },
                ),
                CmpOp::EqA(f1, i1, f2, i2) => v1 == with_st(
                    v0,
                    nval(v0.slot(Reg::A(f1), i1)) == nval(
                        v0.slot(Reg::A(f2), i2),
                    ),
                ),
                CmpOp::EqR(f1, i1, f2, i2) => v1 == with_st(
                    v0,
                    nval(v0.slot(Reg::R(f1), i1)) == nval(
                        v0.slot(Reg::R(f2), i2),
                    ),
                ),
                CmpOp::Len(f, i) => v1 == v0.with_slot(
                    Reg::A(RegA::A16),
                    Reg32 { val: 0 },
                    match v0.slot(Reg::A(f), i) {
                        Some(b) => Some(crate::codec::le16(bitlen_bytes(b) as u16)),
                        None => None,
                    },
                ),
                CmpOp::Cnt(f, i) => v1 == v0.with_slot(
                    Reg::A(RegA::A16),
                    Reg32 { val: 0 },
                    match v0.slot(Reg::A(f), i) {
                        Some(b) => Some(crate::codec::le16(popcnt(b) as u16)),
                        None => None,
                    },
                ),
                CmpOp::St2A => v1 == with_st(
                    v0,
                    nval(v0.slot(Reg::A(RegA::A8), Reg32 { val: 0 })) == Some(1nat),
                ),
                CmpOp::A2St => v1 == v0.with_slot(
                    Reg::A(RegA::A8),
                    Reg32 { val: 0 },
                    Some(
                        seq![
                            if v0.st0 {
                                1u8
                            } else {
                                0u8
                            },
                        ],
                    ),
                ),
            }
}

impl CmpOp {
    /// Executes the instruction against the register file; always moves on
    /// to the next instruction. An uninitialized source makes `Gt` and `Lt`
    /// clear `st0`, makes the equality tests compare initialization states,
    /// and makes `Len` and `Cnt` clear the destination.
    pub fn exec(&self, regs: &mut Registers) -> (r: ExecStep)
        requires
            old(regs)@.wf(),
            self.wf(),
        ensures
            final(regs)@.wf(),
            r == ExecStep::Next,
            cmp_post(*self, old(regs)@, final(regs)@),
    {
        match self {
            CmpOp::Gt(f1, i1, f2, i2) => {
                let v1 = regs.get(Reg::A(*f1), *i1);
                let v2 = regs.get(Reg::A(*f2), *i2);
                let b = match (v1, v2) {
                    (Some(a), Some(b)) => b.num_lt(&a),
                    _ => false,
                };
                regs.st0 = b;
            },
            CmpOp::Lt(f1, i1, f2, i2) => {
                let v1 = regs.get(Reg::R(*f1), *i1);
                let v2 = regs.get(Reg::R(*f2), *i2);
                let b = match (v1, v2) {
                    (Some(a), Some(b)) => a.num_lt(&b),
                    _ => false,
                };
                regs.st0 = b;
            },
            CmpOp::EqA(f1, i1, f2, i2) => {
                let v1 = regs.get(Reg::A(*f1), *i1);
                let v2 = regs.get(Reg::A(*f2), *i2);
                let b = match (&v1, &v2) {
                    (Some(a), Some(b)) => a.num_eq(b),
                    (None, None) => true,
                    _ => false,
                };
                regs.st0 = b;
            },
            CmpOp::EqR(f1, i1, f2, i2) => {
                let v1 = regs.get(Reg::R(*f1), *i1);
                let v2 = regs.get(Reg::R(*f2), *i2);
                let b = match (&v1, &v2) {
                    (Some(a), Some(b)) => a.num_eq(b),
                    (None, None) => true,
                    _ => false,
                };
                regs.st0 = b;
            },
            CmpOp::Len(f, i) => {
                let v = regs.get(Reg::A(*f), *i);
                let out: Option<Value> = match &v {
                    Some(a) => Some(u16_value(bitlen_exec(&a.bytes))),
                    None => None,
                };
                proof {
                    match v {
                        Some(a) => {
                            lemma_bitlen_bound(a.bytes@);
                        },
                        None => {},
                    }
                }
                regs.set(Reg::A(RegA::A16), Reg32::with(0), out);
            },
            CmpOp::Cnt(f, i) => {
                let v = regs.get(Reg::A(*f), *i);
                let out: Option<Value> = match &v {
                    Some(a) => Some(u16_value(popcnt_exec(&a.bytes))),
                    None => None,
                };
                regs.set(Reg::A(RegA::A16), Reg32::with(0), out);
            },
            CmpOp::St2A => {
                let v = regs.get(Reg::A(RegA::A8), Reg32::with(0));
                let one = Value { bytes: make_byte(1) };
                let b = match &v {
                    Some(a) => a.num_eq(&one),
                    None => false,
                };
                proof {
                    assert(le_nat(seq![1u8].skip(1)) == 0);
                    assert(le_nat(seq![1u8]) == 1);
                }
                regs.st0 = b;
            },
            CmpOp::A2St => {
                let b: u8 = if regs.st0 {
                    1
                } else {
                    0
                };
                let v = Value { bytes: make_byte(b) };
                regs.set(Reg::A(RegA::A8), Reg32::with(0), Some(v));
            },
        }
        ExecStep::Next
    }
}

/// A one-byte vector.
fn make_byte(b: u8) -> (r: Vec<u8>)
    ensures
        r@ =~= seq![b],
{
    let mut v: Vec<u8> = Vec::new();
    v.push(b);
    v
}

/// A value holding a 16-bit number as two little-endian bytes.
fn u16_value(x: u16) -> (r: Value)
    ensures
        r.wf(),
        r.bytes@ =~= crate::codec::le16(x),
        le_nat(r.bytes@) == x,
{
    let mut bytes: Vec<u8> = Vec::new();
    bytes.push((x % 256) as u8);
    bytes.push((x / 256) as u8);
    proof {
        assert(bytes@ =~= crate::codec::le16(x));
        let s = bytes@;
        assert(s.skip(1) =~= seq![(x as int / 256) as u8]);
        assert(s.skip(1).skip(1) =~= Seq::<u8>::empty());
        assert(le_nat(s.skip(1).skip(1)) == 0);
        assert(le_nat(s.skip(1)) == x as int / 256);
        assert(le_nat(s) == (x as int % 256) + 256 * (x as int / 256));
        vstd::arithmetic::div_mod::lemma_fundamental_div_mod(x as int, 256);
    }
    Value { bytes }
}

/// The highest set bit position fits a 16-bit number for any register
/// value.
proof fn lemma_bitlen_bound(s: Seq<u8>)
    requires
        s.len() <= 1024,
    ensures
        bitlen_bytes(s) <= 8 * s.len(),
    decreases s.len(),
{
    if s.len() > 0 {
        lemma_bitlen_bound(s.drop_last());
        lemma_bitlen_byte_bound(s.last());
    }
}

/// A byte's highest set bit is at most the eighth.
proof fn lemma_bitlen_byte_bound(b: u8)
    ensures
        bitlen_byte(b) <= 8,
{
    crate::cursor::lemma_pow2u_vals();
    lemma_byte_bits_below(b, 8);
}

/// The set-bit count fits a 16-bit number for any register value.
proof fn lemma_popcnt_bound(s: Seq<u8>)
    requires
        s.len() <= 1024,
    ensures
        popcnt(s) <= 8 * s.len(),
    decreases s.len(),
{
    if s.len() > 0 {
        lemma_popcnt_bound(s.skip(1));
        lemma_popcnt_byte_bound(s[0]);
    }
}

/// The position of the highest set bit of a byte string, computed.
fn bitlen_exec(bytes: &Vec<u8>) -> (r: u16)
    requires
        bytes@.len() <= 1024,
    ensures
        r as nat == bitlen_bytes(bytes@),
{
    proof {
        lemma_bitlen_bound(bytes@);
        assert(bytes@.take(bytes@.len() as int) =~= bytes@);
    }
    let mut i = bytes.len();
    while i > 0
        invariant
            0 <= i <= bytes@.len() <= 1024,
            bitlen_bytes(bytes@) == bitlen_bytes(bytes@.take(i as int)),
        decreases i,
    {
        proof {
            assert(bytes@.take(i as int).drop_last() =~= bytes@.take(i - 1));
            assert(bytes@.take(i as int).last() == bytes@[i - 1]);
        }
        if bytes[i - 1] != 0 {
            let mut b = bytes[i - 1];
            let mut c: u16 = 0;
            proof {
                lemma_bitlen_byte_bound(bytes@[i - 1]);
            }
            while b > 0
                invariant
                    0 < i <= bytes@.len(),
                    c as nat + bitlen_byte(b) == bitlen_byte(bytes@[i as int - 1]),
                    bitlen_byte(bytes@[i as int - 1]) <= 8,
                    c <= 8,
                    bitlen_byte(b) <= 8,
                decreases b,
            {
                proof {
                    lemma_bitlen_byte_bound(b / 2);
                }
                c = c + 1;
                b = b / 2;
            }
            proof {
                lemma_bitlen_bound(bytes@.take(i as int));
                assert(bitlen_bytes(bytes@.take(i as int)) == 8 * (i - 1) + bitlen_byte(
                    bytes@[i - 1],
                ));
            }
            return (8 * (i as u16 - 1)) + c;
        }
        i = i - 1;
    }
    proof {
        assert(bytes@.take(0) =~= Seq::<u8>::empty());
    }
    0
}

/// The number of set bits of a byte string, computed.
fn popcnt_exec(bytes: &Vec<u8>) -> (r: u16)
    requires
        bytes@.len() <= 1024,
    ensures
        r as nat == popcnt(bytes@),
{
    proof {
        lemma_popcnt_bound(bytes@);
        assert(bytes@.skip(0) =~= bytes@);
    }
    let mut i: usize = 0;
    let n = bytes.len();
    let mut c: u16 = 0;
    while i < n
        invariant
            0 <= i <= n,
            n == bytes@.len() <= 1024,
            c as nat + popcnt(bytes@.skip(i as int)) == popcnt(bytes@),
            c <= 8 * i,
        decreases n - i,
    {
        proof {
            assert(bytes@.skip(i as int)[0] == bytes@[i as int]);
            assert(bytes@.skip(i as int).skip(1) =~= bytes@.skip(i + 1));
            lemma_popcnt_bound(bytes@.skip(i + 1));
            assert(popcnt(bytes@.skip(i as int)) == popcnt_byte(bytes@[i as int]) + popcnt(
                bytes@.skip(i + 1),
            ));
        }
        c = c + popcnt_byte_exec(bytes[i]) as u16;
        i = i + 1;
    }
    proof {
        assert(bytes@.skip(n as int) =~= Seq::<u8>::empty());
    }
    c
}

/// Whether the mode is unsigned integer arithmetic, the modes this core
/// computes; signed and floating-point modes stop the program.
pub open spec fn is_uint(ar: Arithmetics) -> bool {
    ||| ar == (Arithmetics::IntChecked { signed: false })
    ||| ar == (Arithmetics::IntUnchecked { signed: false })
    ||| ar == (Arithmetics::IntArbitraryPrecision { signed: false })
}

/// The flat index of the arbitrary-precision destination slot `ap[0]`.
pub open spec fn ap_slot() -> int {
    slot_of(RegA::AP.code_spec(), Reg32 { val: 0 })
}

/// Storing bytes in an `A` slot changes that slot alone, and the slot then
/// denotes the stored number reduced at the slot's width.
proof fn lemma_store_a(v: RegsV, f: RegA, i: Reg32, b: Seq<u8>)
    requires
        v.wf(),
        i.wf(),
    ensures
        same_but_a(v, v.with_slot(Reg::A(f), i, Some(b)), slot_of(f.code_spec(), i)),
        nval(v.with_slot(Reg::A(f), i, Some(b)).a[slot_of(f.code_spec(), i)]) == Some(
            le_nat(b) % pow256(f.cap_spec() as nat),
        ),
{
    crate::data::lemma_trunc_le_nat(b, f.cap_spec() as nat);
    assert(0 <= slot_of(f.code_spec(), i) < 256);
}

/// Reduction at the wide arithmetic modulus then at a register width is
/// reduction at the register width.
proof fn lemma_mod_chain(x: nat, c: nat)
    requires
        c <= 128,
    ensures
        (x % pow256(128)) % pow256(c) == x % pow256(c),
{
    crate::data::lemma_pow256_adds(c, (128 - c) as nat);
    crate::data::lemma_pow256_pos(c);
    crate::data::lemma_pow256_pos((128 - c) as nat);
    vstd::arithmetic::div_mod::lemma_mod_mod(
        x as int,
        pow256(c) as int,
        pow256((128 - c) as nat) as int,
    );
}

/// A register value is below the weight of its slot width.
proof fn lemma_slot_val_bound(v: RegsV, f: RegA, i: Reg32)
    requires
        v.wf(),
        i.wf(),
        v.slot(Reg::A(f), i) is Some,
    ensures
        nval(v.slot(Reg::A(f), i)).unwrap() < pow256(f.cap_spec() as nat),
        nval(v.slot(Reg::A(f), i)).unwrap() < pow256(128),
{
    let b = v.slot(Reg::A(f), i).unwrap();
    assert(0 <= slot_of(f.code_spec(), i) < 256);
    assert(b.len() <= crate::registers::a_slot_cap(slot_of(f.code_spec(), i)));
    assert((slot_of(f.code_spec(), i)) / 32 == f.code_spec() as int) by (nonlinear_arith)
        requires
            0 <= i.val < 32,
            0 <= f.code_spec() < 8,
    ;
    crate::regid::lemma_rega_code_inverse(f);
    crate::data::lemma_le_nat_bound(b);
    crate::data::lemma_pow256_mono(b.len(), f.cap_spec() as nat);
    crate::data::lemma_pow256_mono(f.cap_spec() as nat, 128);
}

/// The numeric result a binary unsigned operation leaves, or absent when
/// the operation stops the program.
pub open spec fn uint_bin_result(ar: Arithmetics, w: nat, n1: nat, n2: nat, exact: nat) -> Option<
    nat,
> {
    if ar == (Arithmetics::IntChecked { signed: false }) {
        if exact < w {
            Some(exact)
        } else {
            None
        }
    } else if ar == (Arithmetics::IntUnchecked { signed: false }) {
        Some(exact % w)
    } else {
        if exact < pow256(128) {
            Some(exact)
        } else {
            None
        }
    }
}

/// What an arithmetic instruction leaves in the register file, and the
/// movement it returns.
pub open spec fn arith_post(op: ArithmeticOp, v0: RegsV, v1: RegsV, r: ExecStep) -> bool {
            match op {
                ArithmeticOp::Neg(f, i) => {
                    &&& r == ExecStep::Next
                    &&& match v0.slot(Reg::A(f), i) {
                        Some(b) => if b.len() > 0 {
                            v1 == v0.with_slot(
                                Reg::A(f),
                                i,
                                Some(b.update(b.len() - 1, flip_msb(b[b.len() - 1]))),
                            )
                        } else {
                            v1 == v0
                        },
                        None => v1 == v0,
                    }
                },
                ArithmeticOp::Abs(f, i) => {
                    &&& r == ExecStep::Next
                    &&& match v0.slot(Reg::A(f), i) {
                        Some(b) => v1 == v0.with_slot(
                            Reg::A(RegA::A8),
                            Reg32 { val: 0 },
                            Some(b),
                        ),
                        None => v1 == v0,
                    }
                },
                ArithmeticOp::Stp(up, ar, f, i, step) => arith_step_post(
                    v0,
                    v1,
                    r,
                    up,
                    ar,
                    f,
                    i,
                    step,
                ),
                ArithmeticOp::Add(ar, f, s1, s2) => arith_bin_post(
                    v0,
                    v1,
                    r,
                    ar,
                    f,
                    s1,
                    s2,
                    0,
                ),
                ArithmeticOp::Sub(ar, f, s1, s2) => arith_bin_post(
                    v0,
                    v1,
                    r,
                    ar,
                    f,
                    s1,
                    s2,
                    1,
                ),
                ArithmeticOp::Mul(ar, f, s1, s2) => arith_bin_post(
                    v0,
                    v1,
                    r,
                    ar,
                    f,
                    s1,
                    s2,
                    2,
                ),
                ArithmeticOp::Div(ar, f, s1, s2) => arith_bin_post(
                    v0,
                    v1,
                    r,
                    ar,
                    f,
                    s1,
                    s2,
                    3,
                ),
                ArithmeticOp::Mod(f1, i1, f2, i2, f3, i3) => {
                    match (nval(v0.slot(Reg::A(f1), i1)), nval(
                        v0.slot(Reg::A(f2), i2),
                    )) {
                        (Some(n1), Some(n2)) => if n2 == 0 {
                            v1 == failed(v0) && r == ExecStep::Stop
                        } else {
                            &&& r == ExecStep::Next
                            &&& same_but_a(v0, v1, slot_of(f3.code_spec(), i3))
                            &&& nval(v1.a[slot_of(f3.code_spec(), i3)]) == Some(
                                (n1 % n2) % pow256(f3.cap_spec() as nat),
                            )
                        },
                        _ => v1 == v0 && r == ExecStep::Next,
                    }
                },
            }
}

impl ArithmeticOp {
    /// Executes the instruction against the register file. Unsigned
    /// integer modes are computed; the signed and floating-point modes are
    /// not part of this core and stop the program with `st0` cleared, as
    /// does an overflow under a checked mode and a zero divisor. An
    /// uninitialized operand leaves the state unchanged.
    #[verifier::rlimit(100)]
    #[verifier::spinoff_prover]
    pub fn exec(&self, regs: &mut Registers) -> (r: ExecStep)
        requires
            old(regs)@.wf(),
            self.wf(),
        ensures
            final(regs)@.wf(),
            arith_post(*self, old(regs)@, final(regs)@, r),
    {
        match self {
            ArithmeticOp::Neg(f, i) => {
                let v = regs.get(Reg::A(*f), *i);
                match v {
                    Some(val) => {
                        if val.bytes.len() > 0 {
                            let n = val.bytes.len();
                            let last = val.bytes[n - 1];
                            let mut bytes = val.bytes;
                            bytes[n - 1] = flip_msb_exec(last);
                            regs.set(Reg::A(*f), *i, Some(Value { bytes }));
                        }
                    },
                    None => {},
                }
                ExecStep::Next
            },
            ArithmeticOp::Abs(f, i) => {
                let v = regs.get(Reg::A(*f), *i);
                match v {
                    Some(val) => {
                        regs.set(Reg::A(RegA::A8), Reg32::with(0), Some(val));
                    },
                    None => {},
                }
                ExecStep::Next
            },
            ArithmeticOp::Stp(up, ar, f, i, step) => {
                let v = regs.get(Reg::A(*f), *i);
                match v {
                    Some(val) => {
                        let sv = Value { bytes: make_byte(*step) };
                        proof {
                            assert(sv.bytes@.skip(1) =~= Seq::<u8>::empty());
                            assert(le_nat(sv.bytes@.skip(1)) == 0);
                            assert(sv.bytes@[0] == *step);
                            assert(le_nat(sv.bytes@) == *step);
                            lemma_slot_val_bound(old(regs)@, *f, *i);
                            crate::data::lemma_pow256_mono(1, 128);
                            crate::data::lemma_le_nat_bound(sv.bytes@);
                        }
                        if *up {
                            uint_add(regs, *ar, *f, *i, &val, &sv)
                        } else {
                            uint_sub(regs, *ar, *f, *i, &val, &sv)
                        }
                    },
                    None => ExecStep::Next,
                }
            },
            ArithmeticOp::Add(ar, f, s1, s2) => {
                let v1 = regs.get(Reg::A(*f), *s1);
                let v2 = regs.get(Reg::A(*f), *s2);
                match (v1, v2) {
                    (Some(a), Some(b)) => {
                        proof {
                            lemma_slot_val_bound(old(regs)@, *f, *s1);
                            lemma_slot_val_bound(old(regs)@, *f, *s2);
                        }
                        uint_add(regs, *ar, *f, *s2, &a, &b)
                    },
                    _ => ExecStep::Next,
                }
            },
            ArithmeticOp::Sub(ar, f, s1, s2) => {
                let v1 = regs.get(Reg::A(*f), *s1);
                let v2 = regs.get(Reg::A(*f), *s2);
                match (v1, v2) {
                    (Some(a), Some(b)) => {
                        proof {
                            lemma_slot_val_bound(old(regs)@, *f, *s1);
                            lemma_slot_val_bound(old(regs)@, *f, *s2);
                        }
                        uint_sub(regs, *ar, *f, *s2, &a, &b)
                    },
                    _ => ExecStep::Next,
                }
            },
            ArithmeticOp::Mul(ar, f, s1, s2) => {
                let v1 = regs.get(Reg::A(*f), *s1);
                let v2 = regs.get(Reg::A(*f), *s2);
                match (v1, v2) {
                    (Some(a), Some(b)) => {
                        proof {
                            lemma_slot_val_bound(old(regs)@, *f, *s1);
                            lemma_slot_val_bound(old(regs)@, *f, *s2);
                        }
                        uint_mul(regs, *ar, *f, *s2, &a, &b)
                    },
                    _ => ExecStep::Next,
                }
            },
            ArithmeticOp::Div(ar, f, s1, s2) => {
                let v1 = regs.get(Reg::A(*f), *s1);
                let v2 = regs.get(Reg::A(*f), *s2);
                match (v1, v2) {
                    (Some(a), Some(b)) => {
                        proof {
                            lemma_slot_val_bound(old(regs)@, *f, *s1);
                            lemma_slot_val_bound(old(regs)@, *f, *s2);
                        }
                        uint_div(regs, *ar, *f, *s2, &a, &b)
                    },
                    _ => ExecStep::Next,
                }
            },
            ArithmeticOp::Mod(f1, i1, f2, i2, f3, i3) => {
                let v1 = regs.get(Reg::A(*f1), *i1);
                let v2 = regs.get(Reg::A(*f2), *i2);
                match (v1, v2) {
                    (Some(a), Some(b)) => {
                        proof {
                            lemma_slot_val_bound(old(regs)@, *f1, *i1);
                            lemma_slot_val_bound(old(regs)@, *f2, *i2);
                        }
                        match vnum_rem_checked(&a, &b) {
                            Some(m) => {
                                proof {
                                    lemma_store_a(regs@, *f3, *i3, m.bytes@);
                                }
                                regs.set(Reg::A(*f3), *i3, Some(m));
                                ExecStep::Next
                            },
                            None => {
                                regs.st0 = false;
                                ExecStep::Stop
                            },
                        }
                    },
                    _ => ExecStep::Next,
                }
            },
        }
    }
}

/// The most significant bit of a byte, flipped.
pub open spec fn flip_msb(b: u8) -> u8 {
    if b >= 128 {
        (b - 128) as u8
    } else {
        (b + 128) as u8
    }
}

/// The most significant bit of a byte, flipped, computed.
fn flip_msb_exec(b: u8) -> (r: u8)
    ensures
        r == flip_msb(b),
{
    if b >= 128 {
        b - 128
    } else {
        b + 128
    }
}

/// What a step or binary operation under an unsigned mode leaves in the
/// register file when both operands are present.
pub open spec fn uint_op_post(
    v0: RegsV,
    v1: RegsV,
    r: ExecStep,
    ar: Arithmetics,
    f: RegA,
    dst: Reg32,
    n1: nat,
    n2: nat,
    exact: nat,
) -> bool {
    if !is_uint(ar) {
        v1 == failed(v0) && r == ExecStep::Stop
    } else {
        let w = pow256(f.cap_spec() as nat);
        let to_ap = ar == (Arithmetics::IntArbitraryPrecision { signed: false });
        let slot = if to_ap {
            ap_slot()
        } else {
            slot_of(f.code_spec(), dst)
        };
        match uint_bin_result(ar, w, n1, n2, exact) {
            Some(res) => {
                &&& r == ExecStep::Next
                &&& same_but_a(v0, v1, slot)
                &&& nval(v1.a[slot]) == Some(
                    if to_ap {
                        res % pow256(128)
                    } else {
                        res % w
                    },
                )
            },
            None => v1 == failed(v0) && r == ExecStep::Stop,
        }
    }
}

/// The contract of a step instruction: an absent operand leaves the state
/// unchanged; otherwise the register is stepped under the mode.
pub open spec fn arith_step_post(
    v0: RegsV,
    v1: RegsV,
    r: ExecStep,
    up: bool,
    ar: Arithmetics,
    f: RegA,
    i: Reg32,
    step: u8,
) -> bool {
    match nval(v0.slot(Reg::A(f), i)) {
        Some(n1) => if up {
            uint_op_post(v0, v1, r, ar, f, i, n1, step as nat, (n1 + step) as nat)
        } else {
            if n1 >= step {
                uint_op_post(v0, v1, r, ar, f, i, n1, step as nat, (n1 - step) as nat)
            } else {
                sub_wrap_post(v0, v1, r, ar, f, i, n1, step as nat)
            }
        },
        None => v1 == v0 && r == ExecStep::Next,
    }
}

/// The contract of a binary arithmetic instruction: absent operands leave
/// the state unchanged; the operation kind is 0 for addition, 1 for
/// subtraction, 2 for multiplication and 3 for division.
pub open spec fn arith_bin_post(
    v0: RegsV,
    v1: RegsV,
    r: ExecStep,
    ar: Arithmetics,
    f: RegA,
    s1: Reg32,
    s2: Reg32,
    kind: int,
) -> bool {
    match (nval(v0.slot(Reg::A(f), s1)), nval(v0.slot(Reg::A(f), s2))) {
        (Some(n1), Some(n2)) => {
            if kind == 0 {
                uint_op_post(v0, v1, r, ar, f, s2, n1, n2, n1 + n2)
            } else if kind == 1 {
                if n1 >= n2 {
                    uint_op_post(v0, v1, r, ar, f, s2, n1, n2, (n1 - n2) as nat)
                } else {
                    sub_wrap_post(v0, v1, r, ar, f, s2, n1, n2)
                }
            } else if kind == 2 {
                uint_op_post(v0, v1, r, ar, f, s2, n1, n2, n1 * n2)
            } else {
                if n2 == 0 {
                    v1 == failed(v0) && r == ExecStep::Stop
                } else {
                    uint_op_post(v0, v1, r, ar, f, s2, n1, n2, n1 / n2)
                }
            }
        },
        _ => v1 == v0 && r == ExecStep::Next,
    }
}

/// What an unsigned subtraction leaves when the subtrahend exceeds the
/// minuend: checked and arbitrary-precision modes stop the program, the
/// wrapping mode wraps at the register width.
pub open spec fn sub_wrap_post(
    v0: RegsV,
    v1: RegsV,
    r: ExecStep,
    ar: Arithmetics,
    f: RegA,
    dst: Reg32,
    n1: nat,
    n2: nat,
) -> bool {
    if ar == (Arithmetics::IntUnchecked { signed: false }) {
        let w = pow256(f.cap_spec() as nat);
        &&& r == ExecStep::Next
        &&& same_but_a(v0, v1, slot_of(f.code_spec(), dst))
        &&& nval(v1.a[slot_of(f.code_spec(), dst)]) == Some(
            ((n1 + pow256(128)) - n2) as nat % pow256(128) % w,
        )
    } else {
        v1 == failed(v0) && r == ExecStep::Stop
    }
}

/// Reducing twice at one width is reducing once.
proof fn lemma_mod_idem(x: nat, w: nat)
    requires
        w >= 1,
    ensures
        (x % w) % w == x % w,
{
    vstd::arithmetic::div_mod::lemma_small_mod(x % w, w);
}

/// The wrapped sum is below the first operand exactly when the exact sum
/// overflows the wide modulus.
proof fn lemma_add_overflow(n1: nat, n2: nat)
    requires
        n1 < pow256(128),
        n2 < pow256(128),
    ensures
        ((n1 + n2) % pow256(128) < n1) <==> (n1 + n2 >= pow256(128)),
        n1 + n2 < pow256(128) ==> (n1 + n2) % pow256(128) == n1 + n2,
        n1 + n2 >= pow256(128) ==> (n1 + n2) % pow256(128) == n1 + n2 - pow256(128),
{
    let p = pow256(128);
    crate::data::lemma_pow256_pos(128);
    if n1 + n2 < p {
        vstd::arithmetic::div_mod::lemma_small_mod((n1 + n2) as nat, p);
    } else {
        vstd::arithmetic::div_mod::lemma_fundamental_div_mod_converse(
            (n1 + n2) as int,
            p as int,
            1,
            (n1 + n2 - p) as int,
        );
    }
}

/// Adds two register values under an unsigned mode, the destination slot
/// given; other modes stop the program.
#[verifier::rlimit(100)]
#[verifier::spinoff_prover]
fn uint_add(regs: &mut Registers, ar: Arithmetics, f: RegA, dst: Reg32, a: &Value, b: &Value) -> (r:
    ExecStep)
    requires
        old(regs)@.wf(),
        dst.wf(),
        a.bytes@.len() <= 128,
        b.bytes@.len() <= 128,
        le_nat(a.bytes@) < pow256(128),
        le_nat(b.bytes@) < pow256(128),
    ensures
        final(regs)@.wf(),
        uint_op_post(
            old(regs)@,
            final(regs)@,
            r,
            ar,
            f,
            dst,
            le_nat(a.bytes@),
            le_nat(b.bytes@),
            le_nat(a.bytes@) + le_nat(b.bytes@),
        ),
{
    let uint = match ar {
        Arithmetics::IntChecked { signed: false } => true,
        Arithmetics::IntUnchecked { signed: false } => true,
        Arithmetics::IntArbitraryPrecision { signed: false } => true,
        _ => false,
    };
    if !uint {
        regs.st0 = false;
        return ExecStep::Stop;
    }
    let ghost n1 = le_nat(a.bytes@);
    let ghost n2 = le_nat(b.bytes@);
    let sum = vnum_add_wrapping(a, b);
    let over = sum.num_lt(a);
    proof {
        lemma_add_overflow(n1, n2);
    }
    match ar {
        Arithmetics::IntUnchecked { signed: false } => {
            proof {
                lemma_store_a(regs@, f, dst, sum.bytes@);
                lemma_mod_chain((n1 + n2) as nat, f.cap_spec() as nat);
                crate::data::lemma_pow256_pos(f.cap_spec() as nat);
                lemma_mod_idem((n1 + n2) as nat % pow256(f.cap_spec() as nat), pow256(
                    f.cap_spec() as nat,
                ));
                lemma_mod_idem((n1 + n2) as nat, pow256(f.cap_spec() as nat));
            }
            regs.set(Reg::A(f), dst, Some(sum));
            ExecStep::Next
        },
        Arithmetics::IntChecked { signed: false } => {
            if over {
                proof {
                    crate::data::lemma_pow256_mono(f.cap_spec() as nat, 128);
                }
                regs.st0 = false;
                ExecStep::Stop
            } else if !sum.fits(f.cap()) {
                regs.st0 = false;
                ExecStep::Stop
            } else {
                proof {
                    lemma_store_a(regs@, f, dst, sum.bytes@);
                }
                regs.set(Reg::A(f), dst, Some(sum));
                ExecStep::Next
            }
        },
        _ => {
            if over {
                regs.st0 = false;
                ExecStep::Stop
            } else {
                proof {
                    lemma_store_a(regs@, RegA::AP, Reg32 { val: 0 }, sum.bytes@);
                }
                regs.set(Reg::A(RegA::AP), Reg32::with(0), Some(sum));
                ExecStep::Next
            }
        },
    }
}

/// Subtracts the second register value from the first under an unsigned
/// mode; other modes stop the program.
#[verifier::rlimit(100)]
#[verifier::spinoff_prover]
fn uint_sub(regs: &mut Registers, ar: Arithmetics, f: RegA, dst: Reg32, a: &Value, b: &Value) -> (r:
    ExecStep)
    requires
        old(regs)@.wf(),
        dst.wf(),
        a.bytes@.len() <= 128,
        b.bytes@.len() <= 128,
        le_nat(a.bytes@) < pow256(128),
        le_nat(b.bytes@) < pow256(128),
    ensures
        final(regs)@.wf(),
        ({
            let n1 = le_nat(a.bytes@);
            let n2 = le_nat(b.bytes@);
            if n1 >= n2 {
                uint_op_post(old(regs)@, final(regs)@, r, ar, f, dst, n1, n2, (n1 - n2) as nat)
            } else {
                sub_wrap_post(old(regs)@, final(regs)@, r, ar, f, dst, n1, n2)
            }
        }),
{
    let uint = match ar {
        Arithmetics::IntChecked { signed: false } => true,
        Arithmetics::IntUnchecked { signed: false } => true,
        Arithmetics::IntArbitraryPrecision { signed: false } => true,
        _ => false,
    };
    if !uint {
        regs.st0 = false;
        return ExecStep::Stop;
    }
    let ghost n1 = le_nat(a.bytes@);
    let ghost n2 = le_nat(b.bytes@);
    let under = a.num_lt(b);
    let d = vnum_sub_wrapping(a, b);
    proof {
        crate::data::lemma_pow256_pos(128);
        if n1 >= n2 {
            vstd::arithmetic::div_mod::lemma_fundamental_div_mod_converse(
                (n1 + pow256(128) - n2) as int,
                pow256(128) as int,
                1,
                (n1 - n2) as int,
            );
        }
    }
    match ar {
        Arithmetics::IntUnchecked { signed: false } => {
            proof {
                lemma_store_a(regs@, f, dst, d.bytes@);
                crate::data::lemma_pow256_pos(f.cap_spec() as nat);
                if n1 >= n2 {
                    lemma_mod_chain((n1 + pow256(128) - n2) as nat, f.cap_spec() as nat);
                    lemma_mod_idem((n1 - n2) as nat, pow256(f.cap_spec() as nat));
                    lemma_mod_chain((n1 - n2) as nat, f.cap_spec() as nat);
                }
            }
            regs.set(Reg::A(f), dst, Some(d));
            ExecStep::Next
        },
        Arithmetics::IntChecked { signed: false } => {
            if under {
                regs.st0 = false;
                ExecStep::Stop
            } else if !d.fits(f.cap()) {
                regs.st0 = false;
                ExecStep::Stop
            } else {
                proof {
                    lemma_store_a(regs@, f, dst, d.bytes@);
                }
                regs.set(Reg::A(f), dst, Some(d));
                ExecStep::Next
            }
        },
        _ => {
            if under {
                regs.st0 = false;
                ExecStep::Stop
            } else {
                proof {
                    lemma_store_a(regs@, RegA::AP, Reg32 { val: 0 }, d.bytes@);
                    vstd::arithmetic::div_mod::lemma_small_mod((n1 - n2) as nat, pow256(128));
                }
                regs.set(Reg::A(RegA::AP), Reg32::with(0), Some(d));
                ExecStep::Next
            }
        },
    }
}

/// Multiplies two register values under an unsigned mode; other modes stop
/// the program.
#[verifier::rlimit(100)]
#[verifier::spinoff_prover]
fn uint_mul(regs: &mut Registers, ar: Arithmetics, f: RegA, dst: Reg32, a: &Value, b: &Value) -> (r:
    ExecStep)
    requires
        old(regs)@.wf(),
        dst.wf(),
        a.bytes@.len() <= 128,
        b.bytes@.len() <= 128,
        le_nat(a.bytes@) < pow256(128),
        le_nat(b.bytes@) < pow256(128),
    ensures
        final(regs)@.wf(),
        uint_op_post(
            old(regs)@,
            final(regs)@,
            r,
            ar,
            f,
            dst,
            le_nat(a.bytes@),
            le_nat(b.bytes@),
            le_nat(a.bytes@) * le_nat(b.bytes@),
        ),
{
    let uint = match ar {
        Arithmetics::IntChecked { signed: false } => true,
        Arithmetics::IntUnchecked { signed: false } => true,
        Arithmetics::IntArbitraryPrecision { signed: false } => true,
        _ => false,
    };
    if !uint {
        regs.st0 = false;
        return ExecStep::Stop;
    }
    let ghost n1 = le_nat(a.bytes@);
    let ghost n2 = le_nat(b.bytes@);
    match ar {
        Arithmetics::IntUnchecked { signed: false } => {
            let p = vnum_mul_wrapping(a, b);
            proof {
                lemma_store_a(regs@, f, dst, p.bytes@);
                lemma_mod_chain((n1 * n2) as nat, f.cap_spec() as nat);
                crate::data::lemma_pow256_pos(f.cap_spec() as nat);
                lemma_mod_idem((n1 * n2) as nat, pow256(f.cap_spec() as nat));
            }
            regs.set(Reg::A(f), dst, Some(p));
            ExecStep::Next
        },
        Arithmetics::IntChecked { signed: false } => {
            match vnum_mul_checked(a, b) {
                Some(p) => {
                    if !p.fits(f.cap()) {
                        regs.st0 = false;
                        ExecStep::Stop
                    } else {
                        proof {
                            lemma_store_a(regs@, f, dst, p.bytes@);
                        }
                        regs.set(Reg::A(f), dst, Some(p));
                        ExecStep::Next
                    }
                },
                None => {
                    proof {
                        crate::data::lemma_pow256_mono(f.cap_spec() as nat, 128);
                    }
                    regs.st0 = false;
                    ExecStep::Stop
                },
            }
        },
        _ => {
            match vnum_mul_checked(a, b) {
                Some(p) => {
                    proof {
                        lemma_store_a(regs@, RegA::AP, Reg32 { val: 0 }, p.bytes@);
                    }
                    regs.set(Reg::A(RegA::AP), Reg32::with(0), Some(p));
                    ExecStep::Next
                },
                None => {
                    regs.st0 = false;
                    ExecStep::Stop
                },
            }
        },
    }
}

/// Divides the first register value by the second under an unsigned mode;
/// a zero divisor and the other modes stop the program.
#[verifier::rlimit(100)]
#[verifier::spinoff_prover]
fn uint_div(regs: &mut Registers, ar: Arithmetics, f: RegA, dst: Reg32, a: &Value, b: &Value) -> (r:
    ExecStep)
    requires
        old(regs)@.wf(),
        dst.wf(),
        a.bytes@.len() <= 128,
        b.bytes@.len() <= 128,
        le_nat(a.bytes@) < pow256(128),
        le_nat(b.bytes@) < pow256(128),
    ensures
        final(regs)@.wf(),
        ({
            let n1 = le_nat(a.bytes@);
            let n2 = le_nat(b.bytes@);
            if n2 == 0 {
                final(regs)@ == failed(old(regs)@) && r == ExecStep::Stop
            } else {
                uint_op_post(old(regs)@, final(regs)@, r, ar, f, dst, n1, n2, n1 / n2)
            }
        }),
{
    let uint = match ar {
        Arithmetics::IntChecked { signed: false } => true,
        Arithmetics::IntUnchecked { signed: false } => true,
        Arithmetics::IntArbitraryPrecision { signed: false } => true,
        _ => false,
    };
    if !uint {
        regs.st0 = false;
        return ExecStep::Stop;
    }
    let ghost n1 = le_nat(a.bytes@);
    let ghost n2 = le_nat(b.bytes@);
    match vnum_div_checked(a, b) {
        Some(q) => {
            proof {
                crate::data::lemma_pow256_pos(f.cap_spec() as nat);
            }
            match ar {
                Arithmetics::IntArbitraryPrecision { signed: false } => {
                    proof {
                        lemma_store_a(regs@, RegA::AP, Reg32 { val: 0 }, q.bytes@);
                        vstd::arithmetic::div_mod::lemma_small_mod((n1 / n2) as nat, pow256(128));
                    }
                    regs.set(Reg::A(RegA::AP), Reg32::with(0), Some(q));
                    ExecStep::Next
                },
                Arithmetics::IntUnchecked { signed: false } => {
                    proof {
                        lemma_store_a(regs@, f, dst, q.bytes@);
                        lemma_mod_idem((n1 / n2) as nat, pow256(f.cap_spec() as nat));
                    }
                    regs.set(Reg::A(f), dst, Some(q));
                    ExecStep::Next
                },
                _ => {
                    if !q.fits(f.cap()) {
                        regs.st0 = false;
                        ExecStep::Stop
                    } else {
                        proof {
                            lemma_store_a(regs@, f, dst, q.bytes@);
                            lemma_mod_idem((n1 / n2) as nat, pow256(f.cap_spec() as nat));
                        }
                        regs.set(Reg::A(f), dst, Some(q));
                        ExecStep::Next
                    }
                },
            }
        },
        None => {
            regs.st0 = false;
            ExecStep::Stop
        },
    }
}

/// The byte of a byte string at `i`, zero past its end.
pub open spec fn byte_at(s: Seq<u8>, i: int) -> u8 {
    if 0 <= i < s.len() {
        s[i]
    } else {
        0
    }
}

/// Bytewise conjunction of two values over a register width.
pub open spec fn and_bytes(b1: Seq<u8>, b2: Seq<u8>, cap: nat) -> Seq<u8> {
    Seq::new(cap, |i: int| byte_at(b1, i) & byte_at(b2, i))
}

/// Bytewise disjunction of two values over a register width.
pub open spec fn or_bytes(b1: Seq<u8>, b2: Seq<u8>, cap: nat) -> Seq<u8> {
    Seq::new(cap, |i: int| byte_at(b1, i) | byte_at(b2, i))
}

/// Bytewise exclusive disjunction of two values over a register width.
pub open spec fn xor_bytes(b1: Seq<u8>, b2: Seq<u8>, cap: nat) -> Seq<u8> {
    Seq::new(cap, |i: int| byte_at(b1, i) ^ byte_at(b2, i))
}

/// Bytewise inversion of a value over a register width.
pub open spec fn not_bytes(b: Seq<u8>, cap: nat) -> Seq<u8> {
    Seq::new(cap, |i: int| !byte_at(b, i))
}

/// The number left in the destination by a left shift: the value scaled by
/// the shift weight, wrapped at the register width.
pub open spec fn shl_num(n: nat, k: nat, cap: nat) -> nat {
    (n * crate::cursor::pow2u(k)) % pow256(cap)
}

/// The number left in the destination by a right shift.
pub open spec fn shr_num(n: nat, k: nat, cap: nat) -> nat {
    (n / crate::cursor::pow2u(k)) % pow256(cap)
}

/// The number left by a cyclic left shift: rotation by the amount reduced
/// at the bit width.
pub open spec fn scl_num(n: nat, k: nat, cap: nat) -> nat {
    let s = k % (8 * cap);
    ((n * crate::cursor::pow2u(s)) % pow256(cap) + n / crate::cursor::pow2u(
        (8 * cap - s) as nat,
    )) % pow256(cap)
}

/// The number left by a cyclic right shift.
pub open spec fn scr_num(n: nat, k: nat, cap: nat) -> nat {
    let s = k % (8 * cap);
    (n / crate::cursor::pow2u(s) + (n % crate::cursor::pow2u(s)) * crate::cursor::pow2u(
        (8 * cap - s) as nat,
    )) % pow256(cap)
}

/// What a bitwise instruction leaves in the register file.
pub open spec fn bitwise_post(op: BitwiseOp, v0: RegsV, v1: RegsV, r: ExecStep) -> bool {
    match op {
        BitwiseOp::And(f, i1, i2, d) => {
            &&& r == ExecStep::Next
            &&& match (v0.slot(Reg::A(f), i1), v0.slot(Reg::A(f), i2)) {
                (Some(b1), Some(b2)) => v1 == v0.with_slot(
                    Reg::A(f),
                    Reg32 { val: d.val },
                    Some(and_bytes(b1, b2, f.cap_spec() as nat)),
                ),
                _ => v1 == v0,
            }
        },
        BitwiseOp::Or(f, i1, i2, d) => {
            &&& r == ExecStep::Next
            &&& match (v0.slot(Reg::A(f), i1), v0.slot(Reg::A(f), i2)) {
                (Some(b1), Some(b2)) => v1 == v0.with_slot(
                    Reg::A(f),
                    Reg32 { val: d.val },
                    Some(or_bytes(b1, b2, f.cap_spec() as nat)),
                ),
                _ => v1 == v0,
            }
        },
        BitwiseOp::Xor(f, i1, i2, d) => {
            &&& r == ExecStep::Next
            &&& match (v0.slot(Reg::A(f), i1), v0.slot(Reg::A(f), i2)) {
                (Some(b1), Some(b2)) => v1 == v0.with_slot(
                    Reg::A(f),
                    Reg32 { val: d.val },
                    Some(xor_bytes(b1, b2, f.cap_spec() as nat)),
                ),
                _ => v1 == v0,
            }
        },
        BitwiseOp::Not(f, i) => {
            &&& r == ExecStep::Next
            &&& match v0.slot(Reg::A(f), i) {
                Some(b) => v1 == v0.with_slot(
                    Reg::A(f),
                    i,
                    Some(not_bytes(b, f.cap_spec() as nat)),
                ),
                None => v1 == v0,
            }
        },
        BitwiseOp::Shl(f, i1, i2, d) => shift_post(v0, v1, r, f, i1, i2, d, 0),
        BitwiseOp::Shr(f, i1, i2, d) => shift_post(v0, v1, r, f, i1, i2, d, 1),
        BitwiseOp::Scl(f, i1, i2, d) => shift_post(v0, v1, r, f, i1, i2, d, 2),
        BitwiseOp::Scr(f, i1, i2, d) => shift_post(v0, v1, r, f, i1, i2, d, 3),
    }
}

/// What a shift instruction leaves: the source number shifted by the
/// amount in the 8-bit bank, into the destination slot; an absent source
/// or amount leaves the state unchanged. The kind is 0 for a left shift, 1
/// for a right shift, 2 and 3 for the cyclic shifts.
pub open spec fn shift_post(
    v0: RegsV,
    v1: RegsV,
    r: ExecStep,
    f: RegA,
    i1: Reg32,
    i2: Reg32,
    d: Reg8,
    kind: int,
) -> bool {
    &&& r == ExecStep::Next
    &&& match (nval(v0.slot(Reg::A(f), i1)), nval(v0.slot(Reg::A(RegA::A8), i2))) {
        (Some(n), Some(k)) => {
            let cap = f.cap_spec() as nat;
            let dst = slot_of(f.code_spec(), Reg32 { val: d.val });
            &&& same_but_a(v0, v1, dst)
            &&& nval(v1.a[dst]) == Some(
                if kind == 0 {
                    shl_num(n, k, cap)
                } else if kind == 1 {
                    shr_num(n, k, cap)
                } else if kind == 2 {
                    scl_num(n, k, cap)
                } else {
                    scr_num(n, k, cap)
                },
            )
        },
        _ => v1 == v0,
    }
}

/// Powers of two grow by factors of 256 over whole bytes.
proof fn lemma_pow2u_pow256(c: nat)
    ensures
        crate::cursor::pow2u(8 * c) == pow256(c),
    decreases c,
{
    if c > 0 {
        lemma_pow2u_pow256((c - 1) as nat);
        crate::cursor::lemma_pow2u_adds(8, (8 * c - 8) as nat);
        crate::cursor::lemma_pow2u_vals();
    }
}

/// A value holding the weight of bit `k`.
fn pw2_value(k: u16) -> (r: Value)
    requires
        k < 1024,
    ensures
        r.wf(),
        r.bytes@.len() <= 128,
        le_nat(r.bytes@) == crate::cursor::pow2u(k as nat),
        le_nat(r.bytes@) >= 1,
{
    let q = k / 8;
    let rem = k % 8;
    let b: u8 = if rem == 0 {
        1
    } else if rem == 1 {
        2
    } else if rem == 2 {
        4
    } else if rem == 3 {
        8
    } else if rem == 4 {
        16
    } else if rem == 5 {
        32
    } else if rem == 6 {
        64
    } else {
        128
    };
    let mut bytes: Vec<u8> = Vec::new();
    let mut i: u16 = 0;
    while i < q
        invariant
            0 <= i <= q,
            q < 128,
            bytes@.len() == i,
            forall|t: int| 0 <= t < i ==> bytes@[t] == 0,
        decreases q - i,
    {
        bytes.push(0);
        i = i + 1;
    }
    bytes.push(b);
    proof {
        crate::cursor::lemma_pow2u_vals();
        let s = bytes@;
        crate::data::lemma_le_nat_split(s, q as int);
        crate::data::lemma_le_nat_zero(s.take(q as int));
        assert(s.skip(q as int) =~= seq![b]);
        assert(seq![b].skip(1) =~= Seq::<u8>::empty());
        assert(le_nat(seq![b].skip(1)) == 0);
        assert(le_nat(seq![b]) == b);
        assert(le_nat(s) == pow256(q as nat) * (b as nat));
        lemma_pow2u_pow256(q as nat);
        crate::cursor::lemma_pow2u_adds((8 * q) as nat, rem as nat);
        vstd::arithmetic::div_mod::lemma_fundamental_div_mod(k as int, 8);
        assert(le_nat(s) == crate::cursor::pow2u(k as nat));
        crate::cursor::lemma_pow2u_pos(k as nat);
    }
    Value { bytes }
}

/// The one byte a slot of the 8-bit bank holds, as a number.
fn byte_of_a8(v: &Value) -> (r: u8)
    requires
        v.bytes@.len() <= 1,
    ensures
        r as nat == le_nat(v.bytes@),
{
    if v.bytes.len() == 0 {
        proof {
            assert(le_nat(v.bytes@) == 0);
        }
        0
    } else {
        proof {
            assert(v.bytes@.skip(1) =~= Seq::<u8>::empty());
            assert(le_nat(v.bytes@.skip(1)) == 0);
        }
        v.bytes[0]
    }
}

/// The bytewise combination of two values over a register width, computed;
/// the kind is 0 for conjunction, 1 for disjunction, 2 for exclusive
/// disjunction.
fn bytes_bin_exec(b1: &Value, b2: &Value, cap: u16, kind: u8) -> (r: Value)
    requires
        cap <= 1024,
        kind < 3,
    ensures
        r.wf(),
        r.bytes@ =~= (if kind == 0 {
            and_bytes(b1.bytes@, b2.bytes@, cap as nat)
        } else if kind == 1 {
            or_bytes(b1.bytes@, b2.bytes@, cap as nat)
        } else {
            xor_bytes(b1.bytes@, b2.bytes@, cap as nat)
        }),
{
    let mut bytes: Vec<u8> = Vec::new();
    let mut i: usize = 0;
    while i < cap as usize
        invariant
            0 <= i <= cap as usize,
            kind < 3,
            bytes@.len() == i,
            forall|t: int|
                0 <= t < i ==> bytes@[t] == (if kind == 0 {
                    byte_at(b1.bytes@, t) & byte_at(b2.bytes@, t)
                } else if kind == 1 {
                    byte_at(b1.bytes@, t) | byte_at(b2.bytes@, t)
                } else {
                    byte_at(b1.bytes@, t) ^ byte_at(b2.bytes@, t)
                }),
        decreases cap as usize - i,
    {
        let x: u8 = if i < b1.bytes.len() {
            b1.bytes[i]
        } else {
            0
        };
        let y: u8 = if i < b2.bytes.len() {
            b2.bytes[i]
        } else {
            0
        };
        let z: u8 = if kind == 0 {
            x & y
        } else if kind == 1 {
            x | y
        } else {
            x ^ y
        };
        bytes.push(z);
        i = i + 1;
    }
    Value { bytes }
}

/// The bytewise inversion of a value over a register width, computed.
fn bytes_not_exec(b: &Value, cap: u16) -> (r: Value)
    requires
        cap <= 1024,
    ensures
        r.wf(),
        r.bytes@ =~= not_bytes(b.bytes@, cap as nat),
{
    let mut bytes: Vec<u8> = Vec::new();
    let mut i: usize = 0;
    while i < cap as usize
        invariant
            0 <= i <= cap as usize,
            bytes@.len() == i,
            forall|t: int| 0 <= t < i ==> bytes@[t] == !byte_at(b.bytes@, t),
        decreases cap as usize - i,
    {
        let x: u8 = if i < b.bytes.len() {
            b.bytes[i]
        } else {
            0
        };
        bytes.push(!x);
        i = i + 1;
    }
    Value { bytes }
}

impl BitwiseOp {
    /// Executes the instruction against the register file; always moves on
    /// to the next instruction. The logic instructions combine the two
    /// sources bytewise over the register width into the destination; the
    /// shifts take their amount from the 8-bit bank, the plain ones
    /// filling with zeroes and the cyclic ones rotating at the bit width.
    /// An absent source leaves the state unchanged.
    #[verifier::rlimit(100)]
    #[verifier::spinoff_prover]
    pub fn exec(&self, regs: &mut Registers) -> (r: ExecStep)
        requires
            old(regs)@.wf(),
            self.wf(),
        ensures
            final(regs)@.wf(),
            bitwise_post(*self, old(regs)@, final(regs)@, r),
    {
        match self {
            BitwiseOp::And(f, i1, i2, d) => {
                let v1 = regs.get(Reg::A(*f), *i1);
                let v2 = regs.get(Reg::A(*f), *i2);
                match (v1, v2) {
                    (Some(a), Some(b)) => {
                        let out = bytes_bin_exec(&a, &b, f.cap(), 0);
                        regs.set(Reg::A(*f), Reg32::with(d.val), Some(out));
                    },
                    _ => {},
                }
                ExecStep::Next
            },
            BitwiseOp::Or(f, i1, i2, d) => {
                let v1 = regs.get(Reg::A(*f), *i1);
                let v2 = regs.get(Reg::A(*f), *i2);
                match (v1, v2) {
                    (Some(a), Some(b)) => {
                        let out = bytes_bin_exec(&a, &b, f.cap(), 1);
                        regs.set(Reg::A(*f), Reg32::with(d.val), Some(out));
                    },
                    _ => {},
                }
                ExecStep::Next
            },
            BitwiseOp::Xor(f, i1, i2, d) => {
                let v1 = regs.get(Reg::A(*f), *i1);
                let v2 = regs.get(Reg::A(*f), *i2);
                match (v1, v2) {
                    (Some(a), Some(b)) => {
                        let out = bytes_bin_exec(&a, &b, f.cap(), 2);
                        regs.set(Reg::A(*f), Reg32::with(d.val), Some(out));
                    },
                    _ => {},
                }
                ExecStep::Next
            },
            BitwiseOp::Not(f, i) => {
                let v = regs.get(Reg::A(*f), *i);
                match v {
                    Some(a) => {
                        let out = bytes_not_exec(&a, f.cap());
                        regs.set(Reg::A(*f), *i, Some(out));
                    },
                    None => {},
                }
                ExecStep::Next
            },
            BitwiseOp::Shl(f, i1, i2, d) => shift_exec(regs, *f, *i1, *i2, *d, 0),
            BitwiseOp::Shr(f, i1, i2, d) => shift_exec(regs, *f, *i1, *i2, *d, 1),
            BitwiseOp::Scl(f, i1, i2, d) => shift_exec(regs, *f, *i1, *i2, *d, 2),
            BitwiseOp::Scr(f, i1, i2, d) => shift_exec(regs, *f, *i1, *i2, *d, 3),
        }
    }
}

/// Performs one shift instruction against the register file.
#[verifier::rlimit(100)]
#[verifier::spinoff_prover]
fn shift_exec(regs: &mut Registers, f: RegA, i1: Reg32, i2: Reg32, d: Reg8, kind: u8) -> (r:
    ExecStep)
    requires
        old(regs)@.wf(),
        i1.wf(),
        i2.wf(),
        d.wf(),
        kind < 4,
    ensures
        final(regs)@.wf(),
        shift_post(old(regs)@, final(regs)@, r, f, i1, i2, d, kind as int),
{
    let v = regs.get(Reg::A(f), i1);
    let amt = regs.get(Reg::A(RegA::A8), i2);
    match (v, amt) {
        (Some(a), Some(am)) => {
            proof {
                lemma_slot_val_bound(old(regs)@, f, i1);
                assert(0 <= slot_of(RegA::A8.code_spec(), i2) < 256);
                assert((slot_of(RegA::A8.code_spec(), i2)) / 32 == 0) by (nonlinear_arith)
                    requires
                        0 <= i2.val < 32,
                ;
                assert(am.bytes@.len() <= 1);
            }
            let k = byte_of_a8(&am);
            let ghost n = le_nat(a.bytes@);
            let cap = f.cap();
            let dst = Reg32::with(d.val);
            proof {
                crate::data::lemma_pow256_pos(cap as nat);
                crate::cursor::lemma_pow2u_pos(k as nat);
            }
            if kind == 0 {
                let p2 = pw2_value(k as u16);
                let prod = vnum_mul_wrapping(&a, &p2);
                proof {
                    lemma_store_a(regs@, f, dst, prod.bytes@);
                    lemma_mod_chain((n * crate::cursor::pow2u(k as nat)) as nat, cap as nat);
                }
                regs.set(Reg::A(f), dst, Some(prod));
                ExecStep::Next
            } else if kind == 1 {
                let p2 = pw2_value(k as u16);
                match vnum_div_checked(&a, &p2) {
                    Some(q) => {
                        proof {
                            lemma_store_a(regs@, f, dst, q.bytes@);
                        }
                        regs.set(Reg::A(f), dst, Some(q));
                        ExecStep::Next
                    },
                    None => {
                        proof {
                            assert(false);
                        }
                        ExecStep::Stop
                    },
                }
            } else {
                let wbits: u16 = cap * 8;
                let s2: u16 = (k as u16) % wbits;
                proof {
                    vstd::arithmetic::div_mod::lemma_mod_division_less_than_divisor(
                        k as int,
                        wbits as int,
                    );
                    lemma_pow2u_pow256(cap as nat);
                }
                if s2 == 0 {
                    proof {
                        vstd::arithmetic::div_mod::lemma_fundamental_div_mod_converse(
                            n as int,
                            pow256(cap as nat) as int,
                            0,
                            n as int,
                        );
                        crate::cursor::lemma_pow2u_vals();
                        vstd::arithmetic::div_mod::lemma_fundamental_div_mod_converse(
                            n as int,
                            1,
                            n as int,
                            0,
                        );
                        lemma_store_a(regs@, f, dst, a.bytes@);
                    }
                    regs.set(Reg::A(f), dst, Some(a));
                    ExecStep::Next
                } else if kind == 2 {
                    let p_mul = pw2_value(s2);
                    let p_div = pw2_value(wbits - s2);
                    let part1 = vnum_mul_wrapping(&a, &p_mul);
                    let t1 = part1.trunc(cap);
                    let part2 = match vnum_div_checked(&a, &p_div) {
                        Some(q) => q,
                        None => {
                            proof {
                                assert(false);
                            }
                            return ExecStep::Stop;
                        },
                    };
                    let sum = vnum_add_wrapping(&t1, &part2);
                    proof {
                        let s2n = s2 as nat;
                        let p1 = (n * crate::cursor::pow2u(s2n)) % pow256(cap as nat);
                        let p2v = n / crate::cursor::pow2u((wbits - s2) as nat);
                        crate::data::lemma_trunc_le_nat(part1.bytes@, cap as nat);
                        lemma_mod_chain((n * crate::cursor::pow2u(s2n)) as nat, cap as nat);
                        assert(le_nat(t1.bytes@) == p1);
                        lemma_mod_chain((p1 + p2v) as nat, cap as nat);
                        lemma_store_a(regs@, f, dst, sum.bytes@);
                    }
                    regs.set(Reg::A(f), dst, Some(sum));
                    ExecStep::Next
                } else {
                    let p2 = pw2_value(s2);
                    let p_mul = pw2_value(wbits - s2);
                    let part1 = match vnum_div_checked(&a, &p2) {
                        Some(q) => q,
                        None => {
                            proof {
                                assert(false);
                            }
                            return ExecStep::Stop;
                        },
                    };
                    let rem = match vnum_rem_checked(&a, &p2) {
                        Some(m) => m,
                        None => {
                            proof {
                                assert(false);
                            }
                            return ExecStep::Stop;
                        },
                    };
                    let t2 = vnum_mul_wrapping(&rem, &p_mul);
                    let sum = vnum_add_wrapping(&part1, &t2);
                    proof {
                        let s2n = s2 as nat;
                        let q = n / crate::cursor::pow2u(s2n);
                        let m = n % crate::cursor::pow2u(s2n);
                        let w = crate::cursor::pow2u((wbits - s2) as nat);
                        let big = arith_mod();
                        assert(q < big) by {
                            crate::data::lemma_pow256_mono(f.cap_spec() as nat, 128);
                            vstd::arithmetic::div_mod::lemma_fundamental_div_mod(
                                n as int,
                                crate::cursor::pow2u(s2n) as int,
                            );
                            assert(q * crate::cursor::pow2u(s2n) <= n) by (nonlinear_arith)
                                requires
                                    n as int == q * crate::cursor::pow2u(s2n) + m,
                                    m >= 0,
                            ;
                            assert(q <= q * crate::cursor::pow2u(s2n)) by (nonlinear_arith)
                                requires
                                    crate::cursor::pow2u(s2n) >= 1,
                                    q >= 0,
                            ;
                        }
                        vstd::arithmetic::div_mod::lemma_small_mod(q, big);
                        vstd::arithmetic::div_mod::lemma_add_mod_noop(
                            q as int,
                            ((m * w) % big) as int,
                            big as int,
                        );
                        vstd::arithmetic::div_mod::lemma_small_mod(((m * w) % big) as nat, big);
                        vstd::arithmetic::div_mod::lemma_add_mod_noop(
                            q as int,
                            (m * w) as int,
                            big as int,
                        );
                        lemma_mod_chain((q + m * w) as nat, cap as nat);
                        lemma_store_a(regs@, f, dst, sum.bytes@);
                    }
                    regs.set(Reg::A(f), dst, Some(sum));
                    ExecStep::Next
                }
            }
        },
        _ => ExecStep::Next,
    }
}


/// The number of occurrences of a byte within a byte string.
pub open spec fn count_occ(s: Seq<u8>, b: u8) -> nat
    decreases s.len(),
{
    if s.len() == 0 {
        0
    } else {
        (if s[0] == b {
            1nat
        } else {
            0nat
        }) + count_occ(s.skip(1), b)
    }
}

/// The number of occurrences of a byte within a byte string, computed.
fn count_occ_exec(bytes: &Vec<u8>, b: u8) -> (r: u16)
    requires
        bytes@.len() <= 0xFFFF,
    ensures
        r as nat == count_occ(bytes@, b),
{
    proof {
        lemma_count_occ_bound(bytes@, b);
        assert(bytes@.skip(0) =~= bytes@);
    }
    let n = bytes.len();
    let mut i: usize = 0;
    let mut c: u16 = 0;
    while i < n
        invariant
            0 <= i <= n,
            n == bytes@.len() <= 0xFFFF,
            c as nat + count_occ(bytes@.skip(i as int), b) == count_occ(bytes@, b),
            c <= i,
        decreases n - i,
    {
        proof {
            assert(bytes@.skip(i as int)[0] == bytes@[i as int]);
            assert(bytes@.skip(i as int).skip(1) =~= bytes@.skip(i + 1));
            lemma_count_occ_bound(bytes@.skip(i + 1), b);
        }
        if bytes[i] == b {
            c = c + 1;
        }
        i = i + 1;
    }
    proof {
        assert(bytes@.skip(n as int) =~= Seq::<u8>::empty());
    }
    c
}

/// A byte occurs at most once per position.
proof fn lemma_count_occ_bound(s: Seq<u8>, b: u8)
    ensures
        count_occ(s, b) <= s.len(),
    decreases s.len(),
{
    if s.len() > 0 {
        lemma_count_occ_bound(s.skip(1), b);
    }
}

/// What a string instruction leaves in the register file. The operations
/// whose effects the interface leaves open — range fills and edits,
/// comparisons, searches, splits and extractions — stop the program with
/// `st0` cleared.
pub open spec fn bytes_post(op: BytesOpV, v0: RegsV, v1: RegsV, r: ExecStep) -> bool {
    match op {
        BytesOpV::Put(i, b) => r == ExecStep::Next && v1 == (RegsV {
            s: v0.s.update(i as int, Some(b)),
            ..v0
        }),
        BytesOpV::Mov(x, y) => r == ExecStep::Next && v1 == (RegsV {
            s: v0.s.update(y as int, v0.s[x as int]),
            ..v0
        }),
        BytesOpV::Swp(x, y) => r == ExecStep::Next && v1 == (RegsV {
            s: v0.s.update(x as int, v0.s[y as int]).update(y as int, v0.s[x as int]),
            ..v0
        }),
        BytesOpV::LenS(i) => r == ExecStep::Next && v1 == v0.with_slot(
            Reg::A(RegA::A16),
            Reg32 { val: 0 },
            match v0.s[i as int] {
                Some(b) => Some(crate::codec::le16(b.len() as u16)),
                None => None,
            },
        ),
        BytesOpV::Count(i, c) => r == ExecStep::Next && v1 == v0.with_slot(
            Reg::A(RegA::A16),
            Reg32 { val: 0 },
            match v0.s[i as int] {
                Some(b) => Some(crate::codec::le16(count_occ(b, c) as u16)),
                None => None,
            },
        ),
        BytesOpV::Join(x, y, d) => match (v0.s[x as int], v0.s[y as int]) {
            (Some(bx), Some(by)) => if bx.len() + by.len() <= 0xFFFF {
                r == ExecStep::Next && v1 == (RegsV {
                    s: v0.s.update(d as int, Some(bx + by)),
                    ..v0
                })
            } else {
                v1 == failed(v0) && r == ExecStep::Stop
            },
            _ => v1 == v0 && r == ExecStep::Next,
        },
        _ => v1 == failed(v0) && r == ExecStep::Stop,
    }
}

impl BytesOp {
    /// Executes the instruction against the string bank: stores, copies,
    /// swaps, lengths, byte counts and joins are computed; the operations
    /// whose effects the interface leaves open stop the program with
    /// `st0` cleared.
    #[verifier::rlimit(100)]
    #[verifier::spinoff_prover]
    pub fn exec(&self, regs: &mut Registers) -> (r: ExecStep)
        requires
            old(regs)@.wf(),
            self@.wf(),
        ensures
            final(regs)@.wf(),
            bytes_post(self@, old(regs)@, final(regs)@, r),
    {
        match self {
            BytesOp::Put(i, b) => {
                regs.set_s(*i, Some(b.clone_blob()));
                ExecStep::Next
            },
            BytesOp::Mov(x, y) => {
                let v = regs.get_s(*x);
                regs.set_s(*y, v);
                ExecStep::Next
            },
            BytesOp::Swp(x, y) => {
                let vx = regs.get_s(*x);
                let vy = regs.get_s(*y);
                regs.set_s(*x, vy);
                regs.set_s(*y, vx);
                ExecStep::Next
            },
            BytesOp::LenS(i) => {
                let v = regs.get_s(*i);
                let out: Option<Value> = match &v {
                    Some(b) => Some(u16_value(b.len())),
                    None => None,
                };
                regs.set(Reg::A(RegA::A16), Reg32::with(0), out);
                ExecStep::Next
            },
            BytesOp::Count(i, c) => {
                let v = regs.get_s(*i);
                let out: Option<Value> = match &v {
                    Some(b) => Some(u16_value(count_occ_exec(&b.bytes, *c))),
                    None => None,
                };
                regs.set(Reg::A(RegA::A16), Reg32::with(0), out);
                ExecStep::Next
            },
            BytesOp::Join(x, y, d) => {
                let vx = regs.get_s(*x);
                let vy = regs.get_s(*y);
                match (vx, vy) {
                    (Some(bx), Some(by)) => {
                        if bx.bytes.len() + by.bytes.len() > 0xFFFF {
                            regs.st0 = false;
                            ExecStep::Stop
                        } else {
                            let joined = concat_blobs(&bx, &by);
                            regs.set_s(*d, Some(joined));
                            ExecStep::Next
                        }
                    },
                    _ => ExecStep::Next,
                }
            },
            _ => {
                regs.st0 = false;
                ExecStep::Stop
            },
        }
    }
}

/// The bytes of one blob followed by the bytes of another.
fn concat_blobs(x: &Blob, y: &Blob) -> (r: Blob)
    requires
        x.bytes@.len() + y.bytes@.len() <= 0xFFFF,
    ensures
        r.wf(),
        r.bytes@ =~= x.bytes@ + y.bytes@,
{
    let mut bytes: Vec<u8> = Vec::new();
    let mut i: usize = 0;
    let nx = x.bytes.len();
    while i < nx
        invariant
            0 <= i <= nx,
            nx == x.bytes@.len(),
            bytes@ =~= x.bytes@.take(i as int),
        decreases nx - i,
    {
        bytes.push(x.bytes[i]);
        i = i + 1;
    }
    let ny = y.bytes.len();
    let mut j: usize = 0;
    while j < ny
        invariant
            0 <= j <= ny,
            ny == y.bytes@.len(),
            nx == x.bytes@.len(),
            bytes@ =~= x.bytes@ + y.bytes@.take(j as int),
        decreases ny - j,
    {
        bytes.push(y.bytes[j]);
        j = j + 1;
    }
    Blob { bytes }
}

impl DigestOp {
    /// Digests are host collaborations outside this core; executing one
    /// stops the program with `st0` cleared.
    pub fn exec(&self, regs: &mut Registers) -> (r: ExecStep)
        requires
            old(regs)@.wf(),
        ensures
            final(regs)@.wf(),
            final(regs)@ == failed(old(regs)@),
            r == ExecStep::Stop,
    {
        regs.st0 = false;
        ExecStep::Stop
    }
}

impl SecpOp {
    /// Curve operations are host collaborations outside this core;
    /// executing one stops the program with `st0` cleared.
    pub fn exec(&self, regs: &mut Registers) -> (r: ExecStep)
        requires
            old(regs)@.wf(),
        ensures
            final(regs)@.wf(),
            final(regs)@ == failed(old(regs)@),
            r == ExecStep::Stop,
    {
        regs.st0 = false;
        ExecStep::Stop
    }
}

impl Curve25519Op {
    /// Curve operations are host collaborations outside this core;
    /// executing one stops the program with `st0` cleared.
    pub fn exec(&self, regs: &mut Registers) -> (r: ExecStep)
        requires
            old(regs)@.wf(),
        ensures
            final(regs)@.wf(),
            final(regs)@ == failed(old(regs)@),
            r == ExecStep::Stop,
    {
        regs.st0 = false;
        ExecStep::Stop
    }
}

/// What executing one instruction leaves in the register file, and the
/// movement it returns: the category posts above, movement to the next
/// instruction for a no-operation, and a failure stop for the categories
/// this core does not compute.
pub open spec fn instr_post(i: InstrV, v0: RegsV, v1: RegsV, site: SiteV, r: ExecStep) -> bool {
    match i {
        InstrV::ControlFlow(op) => cf_post(op, v0, v1, site, r),
        InstrV::Put(op) => put_post(op, v0, v1) && r == ExecStep::Next,
        InstrV::Move(op) => move_post(op, v0, v1) && r == ExecStep::Next,
        InstrV::Cmp(op) => cmp_post(op, v0, v1) && r == ExecStep::Next,
        InstrV::Arithmetic(op) => arith_post(op, v0, v1, r),
        InstrV::Bitwise(op) => bitwise_post(op, v0, v1, r),
        InstrV::Bytes(op) => bytes_post(op, v0, v1, r),
        InstrV::Digest(_) => v1 == failed(v0) && r == ExecStep::Stop,
        InstrV::Secp256k1(_) => v1 == failed(v0) && r == ExecStep::Stop,
        InstrV::Curve25519(_) => v1 == failed(v0) && r == ExecStep::Stop,
        InstrV::Nop => v1 == v0 && r == ExecStep::Next,
    }
}

impl Instr {
    /// Executes the instruction, dispatching to its category.
    pub fn exec(&self, regs: &mut Registers, site: LibSite) -> (r: ExecStep)
        requires
            old(regs)@.wf(),
            site.lib.bytes@.len() == 32,
            self@.wf(),
        ensures
            final(regs)@.wf(),
            instr_post(self@, old(regs)@, final(regs)@, site@, r),
    {
        match self {
            Instr::ControlFlow(op) => op.exec(regs, site),
            Instr::Put(op) => op.exec(regs),
            Instr::Move(op) => op.exec(regs),
            Instr::Cmp(op) => op.exec(regs),
            Instr::Arithmetic(op) => op.exec(regs),
            Instr::Bitwise(op) => op.exec(regs),
            Instr::Bytes(op) => op.exec(regs),
            Instr::Digest(op) => op.exec(regs),
            Instr::Secp256k1(op) => op.exec(regs),
            Instr::Curve25519(op) => op.exec(regs),
            Instr::Nop => ExecStep::Next,
        }
    }
}


/// One continuing machine step at counter `pc0` in the code of the library
/// with hash `lib`: the instruction there decodes, its execution moves the
/// register file per its post, and the returned movement continues at
/// `pc1` — the following instruction, a jump offset, or a call site within
/// the same library.
pub open spec fn step_cont(
    code: Seq<u8>,
    lib: Seq<u8>,
    v0: RegsV,
    pc0: u16,
    v1: RegsV,
    pc1: u16,
) -> bool {
    exists|i: InstrV, p: int, r: ExecStep|
        {
            &&& #[trigger] crate::codec::parse_instr(code, pc0 as int) == Some((i, p))
            &&& #[trigger] instr_post(i, v0, v1, SiteV { pos: p as u16, lib }, r)
            &&& match r {
                ExecStep::Next => pc1 as int == p,
                ExecStep::Jump(o) => pc1 == o,
                ExecStep::Call(t) => t@.lib == lib && pc1 == t.pos,
                ExecStep::Stop => false,
            }
        }
}

/// A run ends at counter `pc0`: the counter stands at or past the end of
/// the code, the instruction there does not decode and the status is
/// cleared, or the instruction executes to a stop or to a call that leaves
/// the library.
pub open spec fn step_end(code: Seq<u8>, lib: Seq<u8>, v0: RegsV, pc0: u16, v1: RegsV) -> bool {
    ||| ((pc0 as int) >= code.len() && v1 == v0)
    ||| ((pc0 as int) < code.len() && crate::codec::parse_instr(code, pc0 as int) is None && v1
        == failed(v0))
    ||| exists|i: InstrV, p: int, r: ExecStep|
        {
            &&& #[trigger] crate::codec::parse_instr(code, pc0 as int) == Some((i, p))
            &&& #[trigger] instr_post(i, v0, v1, SiteV { pos: p as u16, lib }, r)
            &&& match r {
                ExecStep::Stop => true,
                ExecStep::Call(t) => t@.lib != lib,
                _ => false,
            }
        }
}

/// The machine moves from `(v0, pc0)` to `(v1, pc1)` in exactly `n`
/// continuing steps.
pub open spec fn steps_between(
    code: Seq<u8>,
    lib: Seq<u8>,
    v0: RegsV,
    pc0: u16,
    v1: RegsV,
    pc1: u16,
    n: nat,
) -> bool
    decreases n,
{
    if n == 0 {
        v1 == v0 && pc1 == pc0
    } else {
        exists|vm: RegsV, pcm: u16|
            #[trigger] step_cont(code, lib, v0, pc0, vm, pcm) && steps_between(
                code,
                lib,
                vm,
                pcm,
                v1,
                pc1,
                (n - 1) as nat,
            )
    }
}

/// The run started at `(v0, pc0)` terminates in the state `v1` after at
/// most `n` continuing steps and one ending step.
pub open spec fn run_reaches(
    code: Seq<u8>,
    lib: Seq<u8>,
    v0: RegsV,
    pc0: u16,
    v1: RegsV,
    n: nat,
) -> bool
    decreases n,
{
    ||| step_end(code, lib, v0, pc0, v1)
    ||| (n > 0 && exists|vm: RegsV, pcm: u16|
        #[trigger] step_cont(code, lib, v0, pc0, vm, pcm) && run_reaches(
            code,
            lib,
            vm,
            pcm,
            v1,
            (n - 1) as nat,
        ))
}

/// Steps compose: a step taken after `n` steps makes `n + 1` steps.
proof fn lemma_steps_snoc(
    code: Seq<u8>,
    lib: Seq<u8>,
    v0: RegsV,
    pc0: u16,
    v1: RegsV,
    pc1: u16,
    v2: RegsV,
    pc2: u16,
    n: nat,
)
    requires
        steps_between(code, lib, v0, pc0, v1, pc1, n),
        step_cont(code, lib, v1, pc1, v2, pc2),
    ensures
        steps_between(code, lib, v0, pc0, v2, pc2, n + 1),
    decreases n,
{
    if n == 0 {
        assert(steps_between(code, lib, v2, pc2, v2, pc2, 0));
    } else {
        let (vm, pcm) = choose|vm: RegsV, pcm: u16|
            #[trigger] step_cont(code, lib, v0, pc0, vm, pcm) && steps_between(
                code,
                lib,
                vm,
                pcm,
                v1,
                pc1,
                (n - 1) as nat,
            );
        lemma_steps_snoc(code, lib, vm, pcm, v1, pc1, v2, pc2, (n - 1) as nat);
    }
}

/// A termination after a prefix of steps is a termination of the whole
/// run.
proof fn lemma_steps_reach(
    code: Seq<u8>,
    lib: Seq<u8>,
    v0: RegsV,
    pc0: u16,
    v1: RegsV,
    pc1: u16,
    v2: RegsV,
    n: nat,
    m: nat,
)
    requires
        steps_between(code, lib, v0, pc0, v1, pc1, n),
        run_reaches(code, lib, v1, pc1, v2, m),
    ensures
        run_reaches(code, lib, v0, pc0, v2, n + m),
    decreases n,
{
    if n > 0 {
        let (vm, pcm) = choose|vm: RegsV, pcm: u16|
            #[trigger] step_cont(code, lib, v0, pc0, vm, pcm) && steps_between(
                code,
                lib,
                vm,
                pcm,
                v1,
                pc1,
                (n - 1) as nat,
            );
        lemma_steps_reach(code, lib, vm, pcm, v1, pc1, v2, (n - 1) as nat, m);
    } else {
        lemma_run_reaches_mono(code, lib, v0, pc0, v2, m, n + m);
    }
}

/// A run that terminates within `m` steps terminates within any larger
/// bound.
proof fn lemma_run_reaches_mono(
    code: Seq<u8>,
    lib: Seq<u8>,
    v0: RegsV,
    pc0: u16,
    v1: RegsV,
    m: nat,
    k: nat,
)
    requires
        run_reaches(code, lib, v0, pc0, v1, m),
        m <= k,
    ensures
        run_reaches(code, lib, v0, pc0, v1, k),
    decreases m,
{
    if !step_end(code, lib, v0, pc0, v1) {
        let (vm, pcm) = choose|vm: RegsV, pcm: u16|
            #[trigger] step_cont(code, lib, v0, pc0, vm, pcm) && run_reaches(
                code,
                lib,
                vm,
                pcm,
                v1,
                (m - 1) as nat,
            );
        lemma_run_reaches_mono(code, lib, vm, pcm, v1, (m - 1) as nat, (k - 1) as nat);
    }
}

/// Whether two 32-byte blocks hold the same bytes.
fn eq32(a: &[u8; 32], b: &[u8; 32]) -> (r: bool)
    ensures
        r == (a@ =~= b@),
{
    let mut k: usize = 0;
    while k < 32
        invariant
            0 <= k <= 32,
            forall|j: int| 0 <= j < k ==> a@[j] == b@[j],
        decreases 32 - k,
    {
        if a[k] != b[k] {
            return false;
        }
        k = k + 1;
    }
    true
}

/// Runs a program: decodes the instruction under the program counter,
/// executes it, and follows the returned movement, until the program
/// stops, leaves the library, fails to decode, or falls off the end of the
/// code. The result is `st0` at termination, and the final register file
/// is reached from the initial one by the decoded instructions' own
/// transitions (`run_reaches`). The loop provably terminates: every jump
/// spends a cycle of the bounded counter and every return pops the bounded
/// call stack.
pub fn run(code: &Vec<u8>, lib: &LibHash, regs: &mut Registers) -> (r: bool)
    requires
        old(regs)@.wf(),
        code@.len() <= 0xFFFF,
    ensures
        final(regs)@.wf(),
        r == final(regs)@.st0,
        exists|n: nat|
            run_reaches(code@, lib.bytes@, old(regs)@, 0, final(regs)@, n),
{
    let mut owned: Vec<u8> = Vec::new();
    let n = code.len();
    let mut ci: usize = 0;
    while ci < n
        invariant
            0 <= ci <= n,
            n == code@.len(),
            owned@ =~= code@.take(ci as int),
        decreases n - ci,
    {
        owned.push(code[ci]);
        ci = ci + 1;
    }
    proof {
        assert(owned@ =~= code@);
    }
    let mut cur = Cursor::with(owned);
    let mut pc: u16 = 0;
    let ghost mut gn: nat = 0nat;
    loop
        invariant
            regs@.wf(),
            cur.wf(),
            cur.data() == code@,
            code@.len() <= 0xFFFF,
            steps_between(code@, lib.bytes@, old(regs)@, 0, regs@, pc, gn),
        decreases 0xFFFF - regs@.cy0, regs@.cs0.len(), code@.len() - pc,
    {
        let ghost vpre = regs@;
        let ghost pcpre = pc;
        if pc as usize >= cur.data_len() {
            proof {
                assert(step_end(code@, lib.bytes@, vpre, pcpre, regs@));
                assert(run_reaches(code@, lib.bytes@, vpre, pcpre, regs@, 0));
                lemma_steps_reach(
                    code@,
                    lib.bytes@,
                    old(regs)@,
                    0,
                    vpre,
                    pcpre,
                    regs@,
                    gn,
                    0,
                );
            }
            return regs.st0;
        }
        cur.seek(pc);
        let i = match Instr::read(&mut cur) {
            Ok(i) => i,
            Err(_) => {
                regs.st0 = false;
                proof {
                    assert(regs@ == failed(vpre));
                    assert(step_end(code@, lib.bytes@, vpre, pcpre, regs@));
                    assert(run_reaches(code@, lib.bytes@, vpre, pcpre, regs@, 0));
                    lemma_steps_reach(
                        code@,
                        lib.bytes@,
                        old(regs)@,
                        0,
                        vpre,
                        pcpre,
                        regs@,
                        gn,
                        0,
                    );
                }
                return regs.st0;
            },
        };
        let newpc = cur.byte_pos();
        proof {
            crate::codec::lemma_encode_of_decode(code@, pc as int);
        }
        let site = LibSite::with(newpc, *lib);
        let ghost iv = i@;
        let ghost pspec = crate::codec::parse_instr(code@, pcpre as int).unwrap().1;
        let step = i.exec(regs, site);
        proof {
            assert(site@ == SiteV { pos: pspec as u16, lib: lib.bytes@ });
            assert(instr_post(iv, vpre, regs@, site@, step));
        }
        match step {
            ExecStep::Stop => {
                proof {
                    assert(step_end(code@, lib.bytes@, vpre, pcpre, regs@));
                    assert(run_reaches(code@, lib.bytes@, vpre, pcpre, regs@, 0));
                    lemma_steps_reach(
                        code@,
                        lib.bytes@,
                        old(regs)@,
                        0,
                        vpre,
                        pcpre,
                        regs@,
                        gn,
                        0,
                    );
                }
                return regs.st0;
            },
            ExecStep::Next => {
                proof {
                    assert(step_cont(code@, lib.bytes@, vpre, pcpre, regs@, newpc));
                    lemma_steps_snoc(
                        code@,
                        lib.bytes@,
                        old(regs)@,
                        0,
                        vpre,
                        pcpre,
                        regs@,
                        newpc,
                        gn,
                    );
                    gn = gn + 1;
                }
                pc = newpc;
            },
            ExecStep::Jump(o) => {
                proof {
                    assert(step_cont(code@, lib.bytes@, vpre, pcpre, regs@, o));
                    lemma_steps_snoc(
                        code@,
                        lib.bytes@,
                        old(regs)@,
                        0,
                        vpre,
                        pcpre,
                        regs@,
                        o,
                        gn,
                    );
                    gn = gn + 1;
                }
                pc = o;
            },
            ExecStep::Call(target) => {
                if eq32(&target.lib.bytes, &lib.bytes) {
                    proof {
                        assert(target.lib.bytes@ == lib.bytes@);
                        assert(step_cont(code@, lib.bytes@, vpre, pcpre, regs@, target.pos));
                        lemma_steps_snoc(
                            code@,
                            lib.bytes@,
                            old(regs)@,
                            0,
                            vpre,
                            pcpre,
                            regs@,
                            target.pos,
                            gn,
                        );
                        gn = gn + 1;
                    }
                    pc = target.pos;
                } else {
                    proof {
                        assert(target.lib.bytes@ != lib.bytes@);
                        assert(step_end(code@, lib.bytes@, vpre, pcpre, regs@));
                        assert(run_reaches(code@, lib.bytes@, vpre, pcpre, regs@, 0));
                        lemma_steps_reach(
                            code@,
                            lib.bytes@,
                            old(regs)@,
                            0,
                            vpre,
                            pcpre,
                            regs@,
                            gn,
                            0,
                        );
                    }
                    return regs.st0;
                }
            },
        }
    }
}

} // verus!
