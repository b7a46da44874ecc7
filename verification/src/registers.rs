//! The register file: eight general-purpose 16-bit registers, the program
//! counter, and the three-state condition-flag register.

use vstd::prelude::*;

verus! {

/// The condition-flag register. Exactly one of the three states holds at any
/// time; it reflects the sign of the most recently written general register.
#[derive(Clone, Copy, Debug, PartialEq, Eq, Structural)]
pub enum Cond {
    Negative,
    Zero,
    Positive,
}

/// The condition flag that a freshly written register value produces:
/// `0` is `Zero`, a value with the high bit set is `Negative` (it is negative
/// in two's complement), anything else is `Positive`.
pub open spec fn cond_of(v: u16) -> Cond {
    if v == 0 {
        Cond::Zero
    } else if v >= 0x8000 {
        Cond::Negative
    } else {
        Cond::Positive
    }
}

/// The register file: general registers `R0`..`R7`, the program counter, and
/// the condition flags. `pc` always holds the address of the *next*
/// instruction to fetch.
#[derive(Clone, Copy, Debug, PartialEq, Eq, Structural)]
pub struct Registers {
    pub r0: u16,
    pub r1: u16,
    pub r2: u16,
    pub r3: u16,
    pub r4: u16,
    pub r5: u16,
    pub r6: u16,
    pub r7: u16,
    pub pc: u16,
    pub cond: Cond,
}

impl Registers {
    /// The value of general register `r`.
    pub open spec fn reg(self, r: int) -> u16 {
        if r == 0 {
            self.r0
        } else if r == 1 {
            self.r1
        } else if r == 2 {
            self.r2
        } else if r == 3 {
            self.r3
        } else if r == 4 {
            self.r4
        } else if r == 5 {
            self.r5
        } else if r == 6 {
            self.r6
        } else {
            self.r7
        }
    }

    /// This register file with general register `r` set to `v`; the program
    /// counter and the condition flags are untouched.
    pub open spec fn spec_set(self, r: int, v: u16) -> Registers {
        Registers {
            r0: if r == 0 { v } else { self.r0 },
            r1: if r == 1 { v } else { self.r1 },
            r2: if r == 2 { v } else { self.r2 },
            r3: if r == 3 { v } else { self.r3 },
            r4: if r == 4 { v } else { self.r4 },
            r5: if r == 5 { v } else { self.r5 },
            r6: if r == 6 { v } else { self.r6 },
            r7: if r == 7 { v } else { self.r7 },
            pc: self.pc,
            cond: self.cond,
        }
    }

    /// This register file with the condition flags set to `c`.
    pub open spec fn with_cond(self, c: Cond) -> Registers {
        Registers { cond: c, ..self }
    }

    /// This register file with the program counter set to `p`.
    pub open spec fn with_pc(self, p: u16) -> Registers {
        Registers { pc: p, ..self }
    }

    /// A fresh register file: every register zero, flags `Zero`.
    pub fn new() -> (r: Registers)
        ensures
            forall|i: int| 0 <= i < 8 ==> r.reg(i) == 0,
            r.pc == 0,
            r.cond == Cond::Zero,
    {
        Registers {
            r0: 0,
            r1: 0,
            r2: 0,
            r3: 0,
            r4: 0,
            r5: 0,
            r6: 0,
            r7: 0,
            pc: 0,
            cond: Cond::Zero,
        }
    }

    /// Read general register `r`.
    pub fn get(&self, r: u16) -> (v: u16)
        requires
            r < 8,
        ensures
            v == self.reg(r as int),
    {
        if r == 0 {
            self.r0
        } else if r == 1 {
            self.r1
        } else if r == 2 {
            self.r2
        } else if r == 3 {
            self.r3
        } else if r == 4 {
            self.r4
        } else if r == 5 {
            self.r5
        } else if r == 6 {
            self.r6
        } else {
            self.r7
        }
    }

    /// Write `v` to general register `r`, leaving the program counter and the
    /// condition flags alone.
    pub fn update(&mut self, r: u16, v: u16)
        requires
            r < 8,
        ensures
            *final(self) == old(self).spec_set(r as int, v),
    {
        if r == 0 {
            self.r0 = v;
        } else if r == 1 {
            self.r1 = v;
        } else if r == 2 {
            self.r2 = v;
        } else if r == 3 {
            self.r3 = v;
        } else if r == 4 {
            self.r4 = v;
        } else if r == 5 {
            self.r5 = v;
        } else if r == 6 {
            self.r6 = v;
        } else {
            self.r7 = v;
        }
    }

    /// Refresh the condition flags from the sign of general register `r`.
    /// Every instruction that writes a general register calls this right
    /// afterwards.
    pub fn update_r_cond_register(&mut self, r: u16)
        requires
            r < 8,
        ensures
            *final(self) == old(self).with_cond(cond_of(old(self).reg(r as int))),
    {
        let v = self.get(r);
        if v == 0 {
            self.cond = Cond::Zero;
        } else if v >= 0x8000 {
            self.cond = Cond::Negative;
        } else {
            self.cond = Cond::Positive;
        }
    }
}

/// The condition-flag rule, stated on its own: the flag computed for a written
/// value `v` is `Zero` exactly when `v == 0`, `Negative` exactly when the high
/// bit of `v` is set, and `Positive` otherwise — one state for every value.
pub proof fn lemma_cond_of_sign(v: u16)
    ensures
        cond_of(v) == Cond::Zero <==> v == 0,
        cond_of(v) == Cond::Negative <==> v & 0x8000 == 0x8000,
        cond_of(v) == Cond::Positive <==> (v != 0 && v & 0x8000 == 0),
{
    assert(v >= 0x8000 <==> v & 0x8000 == 0x8000) by (bit_vector);
    assert(v < 0x8000 <==> v & 0x8000 == 0) by (bit_vector);
}

} // verus!
