use vstd::prelude::*;

use crate::hardware::instruction;
use crate::hardware::instruction::ConditionFlag;

verus! {

/// Where the program counter starts when no image sets it otherwise.
pub const PC_START: u16 = 0x3000;

/// The register file: eight general-purpose registers, the program counter
/// and the condition register.
#[derive(Debug, Clone, Copy, PartialEq, Eq, Structural)]
pub struct Registers {
    pub r0: u16,
    pub r1: u16,
    pub r2: u16,
    pub r3: u16,
    pub r4: u16,
    pub r5: u16,
    pub r6: u16,
    pub r7: u16,
    pub pc: u16,
    pub cond: u16,
}

impl Registers {
    /// The register with the given number: `0..=7` are `r0..=r7`,
    /// `8` is the program counter and `9` the condition register.
    pub open spec fn spec_get(self, index: u16) -> u16
        recommends
            index <= 9,
    {
        if index == 0 {
            self.r0
        } else if index == 1 {
            self.r1
        } else if index == 2 {
            self.r2
        } else if index == 3 {
            self.r3
        } else if index == 4 {
            self.r4
        } else if index == 5 {
            self.r5
        } else if index == 6 {
            self.r6
        } else if index == 7 {
            self.r7
        } else if index == 8 {
            self.pc
        } else {
            self.cond
        }
    }

    /// The register file with register `index` set to `value`, all others kept.
    pub open spec fn spec_update(self, index: u16, value: u16) -> Registers
        recommends
            index <= 9,
    {
        if index == 0 {
            Registers { r0: value, ..self }
        } else if index == 1 {
            Registers { r1: value, ..self }
        } else if index == 2 {
            Registers { r2: value, ..self }
        } else if index == 3 {
            Registers { r3: value, ..self }
        } else if index == 4 {
            Registers { r4: value, ..self }
        } else if index == 5 {
            Registers { r5: value, ..self }
        } else if index == 6 {
            Registers { r6: value, ..self }
        } else if index == 7 {
            Registers { r7: value, ..self }
        } else if index == 8 {
            Registers { pc: value, ..self }
        } else {
            Registers { cond: value, ..self }
        }
    }

    /// The register file with `cond` set from the sign of register `index`.
    pub open spec fn spec_set_cond(self, index: u16) -> Registers
        recommends
            index <= 9,
    {
        Registers { cond: instruction::flag_of(self.spec_get(index)).spec_bits(), ..self }
    }

    /// The register file of a fresh machine.
    pub open spec fn new_spec() -> Registers {
        Registers { r0: 0, r1: 0, r2: 0, r3: 0, r4: 0, r5: 0, r6: 0, r7: 0, pc: PC_START, cond: 0 }
    }

    /// All registers zero, the program counter at `PC_START`.
    pub fn new() -> (r: Registers)
        ensures
            r == Registers::new_spec(),
    {
        Registers { r0: 0, r1: 0, r2: 0, r3: 0, r4: 0, r5: 0, r6: 0, r7: 0, pc: PC_START, cond: 0 }
    }

    /// Reads register `index`.
    pub fn get(&self, index: u16) -> (r: u16)
        requires
            index <= 9,
        ensures
            r == self.spec_get(index),
    {
        match index {
            0 => self.r0,
            1 => self.r1,
            2 => self.r2,
            3 => self.r3,
            4 => self.r4,
            5 => self.r5,
            6 => self.r6,
            7 => self.r7,
            8 => self.pc,
            _ => self.cond,
        }
    }

    /// Writes `value` into register `index`.
    pub fn update(&mut self, index: u16, value: u16)
        requires
            index <= 9,
        ensures
            *final(self) == old(self).spec_update(index, value),
    {
        match index {
            0 => self.r0 = value,
            1 => self.r1 = value,
            2 => self.r2 = value,
            3 => self.r3 = value,
            4 => self.r4 = value,
            5 => self.r5 = value,
            6 => self.r6 = value,
            7 => self.r7 = value,
            8 => self.pc = value,
            _ => self.cond = value,
        }
    }

    /// Sets the condition register from the sign of register `index`.
    pub fn update_r_cond_register(&mut self, index: u16)
        requires
            index <= 9,
        ensures
            *final(self) == old(self).spec_set_cond(index),
    {
        let value = self.get(index);
        let flag = if value == 0 {
            ConditionFlag::ZRO
        } else if (value >> 15u16) != 0 {
            ConditionFlag::NEG
        } else {
            ConditionFlag::POS
        };
        self.cond = flag.bits();
    }
}

/// Reading a register gives back what was last written to it, and writing
/// one register leaves every other register as it was.
pub proof fn lemma_update_then_get(regs: Registers, index: u16, value: u16, other: u16)
    requires
        index <= 9,
        other <= 9,
    ensures
        regs.spec_update(index, value).spec_get(index) == value,
        other != index ==> regs.spec_update(index, value).spec_get(other) == regs.spec_get(other),
{
}

/// After the condition codes are set, the condition register holds exactly
/// one of the three flags, and it is the one that matches the sign of the
/// register they were set from.
pub proof fn lemma_cond_one_flag(regs: Registers, index: u16)
    requires
        index <= 9,
    ensures
        ({
            let c = regs.spec_set_cond(index).cond;
            &&& c == 1 || c == 2 || c == 4
            &&& (c == 2) == (regs.spec_get(index) == 0)
            &&& (c == 4) == (regs.spec_get(index) >= 0x8000)
        }),
{
    let v = regs.spec_get(index);
    assert((v >> 15u16) != 0 <==> v >= 0x8000) by (bit_vector);
}

} // verus!
