//! What each instruction does, stated over the instruction's bits read as
//! numbers and over the machine's registers and memory, and proved of the
//! machine's model.

use vstd::prelude::*;

use crate::hardware::instruction;
use crate::hardware::instruction::{Effect, Fault, InstructionSet, Run, StrRun};
use crate::hardware::vm;
use crate::hardware::vm::{Machine, KBDR, KBSR, MCR};

verus! {

/// Register `i` (0..=7 are R0..R7).
pub open spec fn reg(m: Machine, i: u16) -> u16 {
    m.regs.spec_get(i)
}

/// The low bits of `instr` below `modulus` (a power of two), read as a
/// two's-complement number.
pub open spec fn signed_low(instr: u16, modulus: int) -> int {
    let f = instr as int % modulus;
    if 2 * f >= modulus {
        f - modulus
    } else {
        f
    }
}

/// The flag that a result sets: 2 for zero, 4 when bit 15 is set, else 1.
pub open spec fn sign_flag(v: int) -> u16 {
    if v == 0 {
        2
    } else if v >= 0x8000 {
        4
    } else {
        1
    }
}

/// Registers R0..R7 other than `dr`, and PC, are as they were.
pub open spec fn others_kept(m: Machine, m2: Machine, dr: u16) -> bool {
    &&& forall|i: u16| 0 <= i < 8 && i != dr ==> #[trigger] reg(m2, i) == reg(m, i)
    &&& m2.regs.pc == m.regs.pc
}

/// Neither keyboard register.
pub open spec fn plain(addr: int) -> bool {
    addr != KBSR && addr != KBDR
}

proof fn lemma_decode(instr: u16)
    ensures
        instr >> 12u16 == instr / 4096,
        instruction::dr_field(instr) == (instr / 512) % 8,
        instruction::sr1_field(instr) == (instr / 64) % 8,
        instruction::sr2_field(instr) == instr % 8,
        instruction::imm_flag(instr) == ((instr / 32) % 2 == 1),
        instruction::long_flag(instr) == ((instr / 2048) % 2 == 1),
        instruction::cond_field(instr) == (instr / 512) % 8,
        instruction::trap_vector(instr) == instr % 256,
{
    assert({
        &&& instr >> 12u16 == instr / 4096
        &&& (instr >> 9u16) & 0x7 == (instr / 512) % 8
        &&& (instr >> 6u16) & 0x7 == (instr / 64) % 8
        &&& instr & 0x7 == instr % 8
        &&& ((instr >> 5u16) & 0x1 != 0) == ((instr / 32) % 2 == 1)
        &&& ((instr >> 11u16) & 0x1 != 0) == ((instr / 2048) % 2 == 1)
        &&& instr & 0xFF == instr % 256
    }) by (bit_vector);
}

/// The sign-extended immediate and offset fields, as 16-bit words of the
/// two's-complement numbers in those fields.
proof fn lemma_offsets(instr: u16)
    ensures
        instruction::imm5(instr) as int == (if signed_low(instr, 32) < 0 {
            signed_low(instr, 32) + 65536
        } else {
            signed_low(instr, 32)
        }),
        instruction::offset6(instr) as int == (if signed_low(instr, 64) < 0 {
            signed_low(instr, 64) + 65536
        } else {
            signed_low(instr, 64)
        }),
        instruction::offset9(instr) as int == (if signed_low(instr, 512) < 0 {
            signed_low(instr, 512) + 65536
        } else {
            signed_low(instr, 512)
        }),
        instruction::offset11(instr) as int == (if signed_low(instr, 2048) < 0 {
            signed_low(instr, 2048) + 65536
        } else {
            signed_low(instr, 2048)
        }),
{
    let x = instr;
    assert({
        &&& x & 0x1F == x % 32
        &&& ((((x & 0x1F) >> 4u16) & 1) != 0) == (x % 32 >= 16)
        &&& (x % 32 >= 16 ==> ((x & 0x1F) | (0xFFFFu16 << 5u16)) == x % 32 + 65504)
    }) by (bit_vector);
    assert({
        &&& x & 0x3F == x % 64
        &&& ((((x & 0x3F) >> 5u16) & 1) != 0) == (x % 64 >= 32)
        &&& (x % 64 >= 32 ==> ((x & 0x3F) | (0xFFFFu16 << 6u16)) == x % 64 + 65472)
    }) by (bit_vector);
    assert({
        &&& x & 0x1FF == x % 512
        &&& ((((x & 0x1FF) >> 8u16) & 1) != 0) == (x % 512 >= 256)
        &&& (x % 512 >= 256 ==> ((x & 0x1FF) | (0xFFFFu16 << 9u16)) == x % 512 + 65024)
    }) by (bit_vector);
    assert({
        &&& x & 0x7FF == x % 2048
        &&& ((((x & 0x7FF) >> 10u16) & 1) != 0) == (x % 2048 >= 1024)
        &&& (x % 2048 >= 1024 ==> ((x & 0x7FF) | (0xFFFFu16 << 11u16)) == x % 2048 + 63488)
    }) by (bit_vector);
}

/// Adding the word of a signed number is adding the number, modulo 2^16.
proof fn lemma_wrap(a: u16, b: u16, s: int)
    requires
        -65536 < s < 65536,
        b as int == (if s < 0 {
            s + 65536
        } else {
            s
        }),
    ensures
        instruction::wrap_add(a, b) as int == (a + s) % 65536,
{
}

/// The condition codes set from a word are the flag of its sign.
proof fn lemma_flag(v: u16)
    ensures
        instruction::flag_of(v).spec_bits() == sign_flag(v as int),
{
    assert(((v >> 15u16) != 0) == (v >= 0x8000)) by (bit_vector);
}

/// ADD: DR gets SR1 plus the second operand, modulo 2^16: the 5-bit
/// two's-complement number in bits 4:0 when bit 5 is set, else register
/// SR2. The condition codes give the sign of the result; nothing else changes.
pub proof fn law_add(m: Machine, instr: u16, polls: Seq<Option<u8>>, used: nat)
    requires
        instr / 4096 == 1,
    ensures
        ({
            let dr = (instr / 512) % 8;
            let b: int = if (instr / 32) % 2 == 1 {
                signed_low(instr, 32)
            } else {
                reg(m, instr % 8) as int
            };
            let v = (reg(m, (instr / 64) % 8) + b) % 65536;
            match instruction::exec_spec(m, instr, polls, used) {
                Run::Done(m2, u2, e) => {
                    &&& e == Effect::Nothing && u2 == used
                    &&& reg(m2, dr) == v
                    &&& m2.regs.cond == sign_flag(v)
                    &&& others_kept(m, m2, dr)
                    &&& m2.mem == m.mem && m2.running == m.running
                },
                _ => false,
            }
        }),
{
    lemma_decode(instr);
    lemma_offsets(instr);
    let b = instruction::second_operand(m.regs, instr);
    let a = m.regs.spec_get(instruction::sr1_field(instr));
    if (instr / 32) % 2 == 1 {
        lemma_wrap(a, b, signed_low(instr, 32));
    } else {
        lemma_wrap(a, b, b as int);
    }
    lemma_flag(instruction::wrap_add(a, b));
}

proof fn lemma_bits(v: u16, instr: u16, cond: u16)
    ensures
        !v == 65535 - v,
        (v & 0x8000 == 0) == (v < 0x8000),
        ((((instr >> 9u16) & 0x7) & cond) != 0) == (((instr / 2048) % 2 == 1 && (cond / 4) % 2
            == 1) || ((instr / 1024) % 2 == 1 && (cond / 2) % 2 == 1) || ((instr / 512) % 2 == 1
            && cond % 2 == 1)),
{
    assert({
        &&& !v == 65535 - v
        &&& (v & 0x8000 == 0) == (v < 0x8000)
        &&& ((((instr >> 9u16) & 0x7) & cond) != 0) == (((instr / 2048) % 2 == 1 && (cond / 4) % 2
            == 1) || ((instr / 1024) % 2 == 1 && (cond / 2) % 2 == 1) || ((instr / 512) % 2 == 1
            && cond % 2 == 1))
    }) by (bit_vector);
}

/// AND: DR gets SR1 AND the second operand, bit by bit: the 5-bit
/// two's-complement number in bits 4:0 (as a 16-bit word) when bit 5 is
/// set, else register SR2. The condition codes give the sign of the result.
pub proof fn law_and(m: Machine, instr: u16, polls: Seq<Option<u8>>, used: nat)
    requires
        instr / 4096 == 5,
    ensures
        ({
            let dr = (instr / 512) % 8;
            let b: u16 = if (instr / 32) % 2 == 1 {
                ((signed_low(instr, 32) + 65536) % 65536) as u16
            } else {
                reg(m, instr % 8)
            };
            let v = reg(m, (instr / 64) % 8) & b;
            match instruction::exec_spec(m, instr, polls, used) {
                Run::Done(m2, u2, e) => {
                    &&& e == Effect::Nothing && u2 == used
                    &&& reg(m2, dr) == v
                    &&& m2.regs.cond == sign_flag(v as int)
                    &&& others_kept(m, m2, dr)
                    &&& m2.mem == m.mem && m2.running == m.running
                },
                _ => false,
            }
        }),
{
    lemma_decode(instr);
    lemma_offsets(instr);
    let b = instruction::second_operand(m.regs, instr);
    let a = m.regs.spec_get(instruction::sr1_field(instr));
    lemma_flag(a & b);
}

/// NOT: DR gets 65535 - SR1 (every bit of SR1 flipped). The condition codes
/// give the sign of the result.
pub proof fn law_not(m: Machine, instr: u16, polls: Seq<Option<u8>>, used: nat)
    requires
        instr / 4096 == 9,
    ensures
        ({
            let dr = (instr / 512) % 8;
            let v = 65535 - reg(m, (instr / 64) % 8);
            match instruction::exec_spec(m, instr, polls, used) {
                Run::Done(m2, u2, e) => {
                    &&& e == Effect::Nothing && u2 == used
                    &&& reg(m2, dr) == v
                    &&& m2.regs.cond == sign_flag(v)
                    &&& others_kept(m, m2, dr)
                    &&& m2.mem == m.mem && m2.running == m.running
                },
                _ => false,
            }
        }),
{
    lemma_decode(instr);
    let a = m.regs.spec_get(instruction::sr1_field(instr));
    lemma_bits(a, instr, 0);
    lemma_flag(!a);
}

/// BR: the branch is taken exactly when one of the tested codes is set in
/// the condition register: bit 11 tests N (4), bit 10 Z (2), bit 9 P (1).
/// Taken, PC moves by the 9-bit two's-complement offset, modulo 2^16;
/// otherwise, and in every other respect, the machine is unchanged.
pub proof fn law_br(m: Machine, instr: u16, polls: Seq<Option<u8>>, used: nat)
    requires
        instr / 4096 == 0,
    ensures
        ({
            let c = m.regs.cond;
            let taken = ((instr / 2048) % 2 == 1 && (c / 4) % 2 == 1) || ((instr / 1024) % 2 == 1
                && (c / 2) % 2 == 1) || ((instr / 512) % 2 == 1 && c % 2 == 1);
            match instruction::exec_spec(m, instr, polls, used) {
                Run::Done(m2, u2, e) => {
                    &&& e == Effect::Nothing && u2 == used
                    &&& m2.regs.pc == (if taken {
                        (m.regs.pc + signed_low(instr, 512)) % 65536
                    } else {
                        m.regs.pc as int
                    })
                    &&& forall|i: u16| 0 <= i < 8 ==> #[trigger] reg(m2, i) == reg(m, i)
                    &&& m2.regs.cond == c
                    &&& m2.mem == m.mem && m2.running == m.running
                },
                _ => false,
            }
        }),
{
    lemma_decode(instr);
    lemma_offsets(instr);
    lemma_bits(0, instr, m.regs.cond);
    lemma_wrap(m.regs.pc, instruction::offset9(instr), signed_low(instr, 512));
}

/// JMP (RET with base R7): PC gets the base register of bits 8:6; nothing
/// else changes.
pub proof fn law_jmp(m: Machine, instr: u16, polls: Seq<Option<u8>>, used: nat)
    requires
        instr / 4096 == 12,
    ensures
        match instruction::exec_spec(m, instr, polls, used) {
            Run::Done(m2, u2, e) => {
                &&& e == Effect::Nothing && u2 == used
                &&& m2.regs.pc == reg(m, (instr / 64) % 8)
                &&& forall|i: u16| 0 <= i < 8 ==> #[trigger] reg(m2, i) == reg(m, i)
                &&& m2.regs.cond == m.regs.cond
                &&& m2.mem == m.mem && m2.running == m.running
            },
            _ => false,
        },
{
    lemma_decode(instr);
}

/// JSR / JSRR: R7 gets the old PC; PC moves by the 11-bit two's-complement
/// offset when bit 11 is set, else gets the base register (read after R7 is
/// written, so base R7 gives the old PC). Nothing else changes.
pub proof fn law_jsr(m: Machine, instr: u16, polls: Seq<Option<u8>>, used: nat)
    requires
        instr / 4096 == 4,
    ensures
        ({
            let base = (instr / 64) % 8;
            match instruction::exec_spec(m, instr, polls, used) {
                Run::Done(m2, u2, e) => {
                    &&& e == Effect::Nothing && u2 == used
                    &&& m2.regs.r7 == m.regs.pc
                    &&& m2.regs.pc == (if (instr / 2048) % 2 == 1 {
                        (m.regs.pc + signed_low(instr, 2048)) % 65536
                    } else if base == 7 {
                        m.regs.pc as int
                    } else {
                        reg(m, base) as int
                    })
                    &&& forall|i: u16| 0 <= i < 7 ==> #[trigger] reg(m2, i) == reg(m, i)
                    &&& m2.regs.cond == m.regs.cond
                    &&& m2.mem == m.mem && m2.running == m.running
                },
                _ => false,
            }
        }),
{
    lemma_decode(instr);
    lemma_offsets(instr);
    lemma_wrap(m.regs.pc, instruction::offset11(instr), signed_low(instr, 2048));
}

/// LEA: DR gets PC plus the 9-bit two's-complement offset, modulo 2^16;
/// the condition codes give its sign. Memory is not read.
pub proof fn law_lea(m: Machine, instr: u16, polls: Seq<Option<u8>>, used: nat)
    requires
        instr / 4096 == 14,
    ensures
        ({
            let dr = (instr / 512) % 8;
            let v = (m.regs.pc + signed_low(instr, 512)) % 65536;
            match instruction::exec_spec(m, instr, polls, used) {
                Run::Done(m2, u2, e) => {
                    &&& e == Effect::Nothing && u2 == used
                    &&& reg(m2, dr) == v
                    &&& m2.regs.cond == sign_flag(v)
                    &&& others_kept(m, m2, dr)
                    &&& m2.mem == m.mem && m2.running == m.running
                },
                _ => false,
            }
        }),
{
    lemma_decode(instr);
    lemma_offsets(instr);
    lemma_wrap(m.regs.pc, instruction::offset9(instr), signed_low(instr, 512));
    lemma_flag(instruction::wrap_add(m.regs.pc, instruction::offset9(instr)));
}

/// LD: DR gets the word at PC plus the 9-bit two's-complement offset,
/// modulo 2^16, when that is a plain memory word; the condition codes give
/// its sign.
pub proof fn law_ld(m: Machine, instr: u16, polls: Seq<Option<u8>>, used: nat)
    requires
        m.wf(),
        instr / 4096 == 2,
    ensures
        ({
            let dr = (instr / 512) % 8;
            let a = (m.regs.pc + signed_low(instr, 512)) % 65536;
            plain(a) ==> match instruction::exec_spec(m, instr, polls, used) {
                Run::Done(m2, u2, e) => {
                    &&& e == Effect::Nothing && u2 == used
                    &&& reg(m2, dr) == m.mem[a]
                    &&& m2.regs.cond == sign_flag(m.mem[a] as int)
                    &&& others_kept(m, m2, dr)
                    &&& m2.mem == m.mem && m2.running == m.running
                },
                _ => false,
            }
        }),
{
    lemma_decode(instr);
    lemma_offsets(instr);
    let a = instruction::wrap_add(m.regs.pc, instruction::offset9(instr));
    lemma_wrap(m.regs.pc, instruction::offset9(instr), signed_low(instr, 512));
    lemma_flag(m.word(a));
}

/// LDR: DR gets the word at the base register (bits 8:6) plus the 6-bit
/// two's-complement offset, modulo 2^16, whatever PC is, when that is a
/// plain memory word; the condition codes give its sign.
pub proof fn law_ldr(m: Machine, instr: u16, polls: Seq<Option<u8>>, used: nat)
    requires
        m.wf(),
        instr / 4096 == 6,
    ensures
        ({
            let dr = (instr / 512) % 8;
            let a = (reg(m, (instr / 64) % 8) + signed_low(instr, 64)) % 65536;
            plain(a) ==> match instruction::exec_spec(m, instr, polls, used) {
                Run::Done(m2, u2, e) => {
                    &&& e == Effect::Nothing && u2 == used
                    &&& reg(m2, dr) == m.mem[a]
                    &&& m2.regs.cond == sign_flag(m.mem[a] as int)
                    &&& others_kept(m, m2, dr)
                    &&& m2.mem == m.mem && m2.running == m.running
                },
                _ => false,
            }
        }),
{
    lemma_decode(instr);
    lemma_offsets(instr);
    let base = m.regs.spec_get(instruction::sr1_field(instr));
    let a = instruction::wrap_add(base, instruction::offset6(instr));
    lemma_wrap(base, instruction::offset6(instr), signed_low(instr, 64));
    lemma_flag(m.word(a));
}

/// LDI: DR gets the word at the address held at PC plus the 9-bit offset,
/// when both addresses are plain memory words.
pub proof fn law_ldi(m: Machine, instr: u16, polls: Seq<Option<u8>>, used: nat)
    requires
        m.wf(),
        instr / 4096 == 10,
    ensures
        ({
            let dr = (instr / 512) % 8;
            let a = (m.regs.pc + signed_low(instr, 512)) % 65536;
            plain(a) && plain(m.mem[a] as int) ==> match instruction::exec_spec(m, instr, polls, used) {
                Run::Done(m2, u2, e) => {
                    &&& e == Effect::Nothing && u2 == used
                    &&& reg(m2, dr) == m.mem[m.mem[a] as int]
                    &&& m2.regs.cond == sign_flag(m.mem[m.mem[a] as int] as int)
                    &&& others_kept(m, m2, dr)
                    &&& m2.mem == m.mem && m2.running == m.running
                },
                _ => false,
            }
        }),
{
    lemma_decode(instr);
    lemma_offsets(instr);
    let a = instruction::wrap_add(m.regs.pc, instruction::offset9(instr));
    lemma_wrap(m.regs.pc, instruction::offset9(instr), signed_low(instr, 512));
    lemma_flag(m.word(m.word(a)));
}

/// The machine after a store of `value` at `a`: the word is replaced, the
/// registers are kept, and a value below 0x8000 stored at the machine
/// control register stops the machine.
pub open spec fn stored(m: Machine, m2: Machine, a: int, value: u16) -> bool {
    &&& m2.mem == m.mem.update(a, value)
    &&& m2.regs == m.regs
    &&& m2.running == (m.running && !(a == MCR && value < 0x8000))
}

/// ST: the register of bits 11:9 is stored at PC plus the 9-bit offset.
pub proof fn law_st(m: Machine, instr: u16, polls: Seq<Option<u8>>, used: nat)
    requires
        instr / 4096 == 3,
    ensures
        match instruction::exec_spec(m, instr, polls, used) {
            Run::Done(m2, u2, e) => {
                &&& e == Effect::Nothing && u2 == used
                &&& stored(
                    m,
                    m2,
                    (m.regs.pc + signed_low(instr, 512)) % 65536,
                    reg(m, (instr / 512) % 8),
                )
            },
            _ => false,
        },
{
    lemma_decode(instr);
    lemma_offsets(instr);
    lemma_wrap(m.regs.pc, instruction::offset9(instr), signed_low(instr, 512));
    lemma_bits(m.regs.spec_get(instruction::dr_field(instr)), instr, 0);
}

/// STR: the register of bits 11:9 is stored at the base register plus the
/// 6-bit offset.
pub proof fn law_str(m: Machine, instr: u16, polls: Seq<Option<u8>>, used: nat)
    requires
        instr / 4096 == 7,
    ensures
        match instruction::exec_spec(m, instr, polls, used) {
            Run::Done(m2, u2, e) => {
                &&& e == Effect::Nothing && u2 == used
                &&& stored(
                    m,
                    m2,
                    (reg(m, (instr / 64) % 8) + signed_low(instr, 64)) % 65536,
                    reg(m, (instr / 512) % 8),
                )
            },
            _ => false,
        },
{
    lemma_decode(instr);
    lemma_offsets(instr);
    let base = m.regs.spec_get(instruction::sr1_field(instr));
    lemma_wrap(base, instruction::offset6(instr), signed_low(instr, 64));
    lemma_bits(m.regs.spec_get(instruction::dr_field(instr)), instr, 0);
}

/// STI: the register of bits 11:9 is stored at the address held at PC plus
/// the 9-bit offset, when that is a plain memory word.
pub proof fn law_sti(m: Machine, instr: u16, polls: Seq<Option<u8>>, used: nat)
    requires
        m.wf(),
        instr / 4096 == 11,
    ensures
        ({
            let a = (m.regs.pc + signed_low(instr, 512)) % 65536;
            plain(a) ==> match instruction::exec_spec(m, instr, polls, used) {
                Run::Done(m2, u2, e) => {
                    &&& e == Effect::Nothing && u2 == used
                    &&& stored(m, m2, m.mem[a] as int, reg(m, (instr / 512) % 8))
                },
                _ => false,
            }
        }),
{
    lemma_decode(instr);
    lemma_offsets(instr);
    lemma_wrap(m.regs.pc, instruction::offset9(instr), signed_low(instr, 512));
    lemma_bits(m.regs.spec_get(instruction::dr_field(instr)), instr, 0);
}

/// RTI and RES are refused, with the machine unchanged.
pub proof fn law_reserved(m: Machine, instr: u16, polls: Seq<Option<u8>>, used: nat)
    requires
        instr / 4096 == 8 || instr / 4096 == 13,
    ensures
        instruction::exec_spec(m, instr, polls, used) == Run::Fault(m, Fault::InvalidOpcode),
{
    lemma_decode(instr);
}

/// Each opcode number names its instruction.
pub proof fn law_opcode_names(instr: u16)
    ensures
        instr / 4096 == 0 ==> instruction::opcode_of(instr) == InstructionSet::BR,
        instr / 4096 == 1 ==> instruction::opcode_of(instr) == InstructionSet::ADD,
        instr / 4096 == 2 ==> instruction::opcode_of(instr) == InstructionSet::LD,
        instr / 4096 == 3 ==> instruction::opcode_of(instr) == InstructionSet::ST,
        instr / 4096 == 4 ==> instruction::opcode_of(instr) == InstructionSet::JSR,
        instr / 4096 == 5 ==> instruction::opcode_of(instr) == InstructionSet::AND,
        instr / 4096 == 6 ==> instruction::opcode_of(instr) == InstructionSet::LDR,
        instr / 4096 == 7 ==> instruction::opcode_of(instr) == InstructionSet::STR,
        instr / 4096 == 8 ==> instruction::opcode_of(instr) == InstructionSet::RTI,
        instr / 4096 == 9 ==> instruction::opcode_of(instr) == InstructionSet::NOT,
        instr / 4096 == 10 ==> instruction::opcode_of(instr) == InstructionSet::LDI,
        instr / 4096 == 11 ==> instruction::opcode_of(instr) == InstructionSet::STI,
        instr / 4096 == 12 ==> instruction::opcode_of(instr) == InstructionSet::JMP,
        instr / 4096 == 13 ==> instruction::opcode_of(instr) == InstructionSet::RES,
        instr / 4096 == 14 ==> instruction::opcode_of(instr) == InstructionSet::LEA,
        instr / 4096 == 15 ==> instruction::opcode_of(instr) == InstructionSet::TRAP,
{
    lemma_decode(instr);
}

/// A string of words from `start`: `k` non-zero words, then a zero word,
/// all at plain memory addresses below 0x10000.
pub open spec fn plain_string(m: Machine, start: int, k: nat) -> bool {
    &&& 0 <= start
    &&& start + k <= 0xFFFF
    &&& forall|j: int| 0 <= j <= k ==> plain(#[trigger] (start + j))
    &&& forall|j: int| 0 <= j < k ==> m.mem[#[trigger] (start + j)] != 0
    &&& m.mem[start + k] == 0
}

proof fn lemma_plain_string(
    m: Machine,
    start: int,
    k: nat,
    polls: Seq<Option<u8>>,
    used: nat,
    packed: bool,
)
    requires
        m.wf(),
        plain_string(m, start, k),
    ensures
        instruction::string_spec(m, start as u16, polls, used, packed) == StrRun::Done(
            m,
            used,
            Seq::new(k, |j: int| instruction::word_chars(m.mem[start + j], packed)).flatten(),
        ),
    decreases k,
{
    let f = Seq::new(k, |j: int| instruction::word_chars(m.mem[start + j], packed));
    assert(plain(start + 0));
    if k == 0 {
        assert(f.flatten() =~= Seq::<u8>::empty());
    } else {
        assert(m.mem[start + 0] != 0);
        assert forall|j: int| 0 <= j <= k - 1 implies plain(#[trigger] (start + 1 + j)) by {
            assert(plain(start + (j + 1)));
        }
        assert forall|j: int| 0 <= j < k - 1 implies m.mem[#[trigger] (start + 1 + j)] != 0 by {
            assert(m.mem[start + (j + 1)] != 0);
        }
        lemma_plain_string(m, start + 1, (k - 1) as nat, polls, used, packed);
        let g = Seq::new((k - 1) as nat, |j: int| instruction::word_chars(m.mem[start + 1 + j], packed));
        assert(f.drop_first() =~= g);
        assert(((start as u16) + 1) as u16 == (start + 1) as u16);
        let w = instruction::word_chars(m.mem[start], packed);
        assert(f.flatten() == w + g.flatten());
    }
}

/// The bytes PUTSP shows for one word: its low byte, then its high byte
/// unless that is zero.
pub open spec fn packed_bytes(w: u16) -> Seq<u8> {
    if w / 256 != 0 {
        seq![(w % 256) as u8, (w / 256) as u8]
    } else {
        seq![(w % 256) as u8]
    }
}

proof fn lemma_bytes(w: u16)
    ensures
        instruction::word_chars(w, true) == packed_bytes(w),
        instruction::word_chars(w, false) == seq![(w % 256) as u8],
{
    assert((w >> 8u16) == w / 256 && (w & 0xFF) == w % 256 && w / 256 < 256) by (bit_vector);
    assert((w as u8) == ((w % 256) as u8)) by (bit_vector);
}

/// PUTSP (TRAP x24): for a string at R0 of `k` non-zero words ended by a
/// zero word in plain memory, the bytes shown are, word after word, the low
/// byte and then the high byte unless it is zero. R7 gets PC; memory is
/// unchanged.
pub proof fn law_putsp(m: Machine, instr: u16, polls: Seq<Option<u8>>, used: nat, k: nat)
    requires
        m.wf(),
        instr / 4096 == 15,
        instr % 256 == 0x24,
        plain_string(m, m.regs.r0 as int, k),
    ensures
        match instruction::exec_spec(m, instr, polls, used) {
            Run::Done(m2, u2, Effect::Output(out)) => {
                &&& out == Seq::new(k, |j: int| packed_bytes(m.mem[m.regs.r0 + j])).flatten()
                &&& m2.regs.r7 == m.regs.pc
                &&& m2.mem == m.mem
                &&& u2 == used
            },
            _ => false,
        },
{
    lemma_decode(instr);
    let m1 = m.with_regs(crate::hardware::register::Registers { r7: m.regs.pc, ..m.regs });
    lemma_plain_string(m1, m.regs.r0 as int, k, polls, used, true);
    let a = Seq::new(k, |j: int| instruction::word_chars(m1.mem[m.regs.r0 + j], true));
    let b = Seq::new(k, |j: int| packed_bytes(m.mem[m.regs.r0 + j]));
    assert forall|j: int| 0 <= j < k implies a[j] == b[j] by {
        lemma_bytes(m.mem[m.regs.r0 + j]);
    }
    assert(a =~= b);
}

proof fn lemma_flatten_singletons(t: Seq<Seq<u8>>)
    requires
        forall|i: int| 0 <= i < t.len() ==> (#[trigger] t[i]).len() == 1,
    ensures
        t.flatten().len() == t.len(),
        forall|i: int| 0 <= i < t.len() ==> t.flatten()[i] == (#[trigger] t[i])[0],
    decreases t.len(),
{
    if t.len() > 0 {
        lemma_flatten_singletons(t.drop_first());
        assert(t.flatten() == t[0] + t.drop_first().flatten());
        assert forall|i: int| 0 <= i < t.len() implies t.flatten()[i] == (#[trigger] t[i])[0] by {
            if i > 0 {
                assert(t.drop_first()[i - 1] == t[i]);
            }
        }
    }
}

/// PUTS (TRAP x22): for a string at R0 of `k` non-zero words ended by a zero
/// word in plain memory, one byte is shown per word: its low byte. R7 gets
/// PC; memory is unchanged.
pub proof fn law_puts(m: Machine, instr: u16, polls: Seq<Option<u8>>, used: nat, k: nat)
    requires
        m.wf(),
        instr / 4096 == 15,
        instr % 256 == 0x22,
        plain_string(m, m.regs.r0 as int, k),
    ensures
        match instruction::exec_spec(m, instr, polls, used) {
            Run::Done(m2, u2, Effect::Output(out)) => {
                &&& out.len() == k
                &&& forall|j: int| 0 <= j < k ==> out[j] == (m.mem[m.regs.r0 + j] % 256) as u8
                &&& m2.regs.r7 == m.regs.pc
                &&& m2.mem == m.mem
                &&& u2 == used
            },
            _ => false,
        },
{
    lemma_decode(instr);
    let m1 = m.with_regs(crate::hardware::register::Registers { r7: m.regs.pc, ..m.regs });
    lemma_plain_string(m1, m.regs.r0 as int, k, polls, used, false);
    let a = Seq::new(k, |j: int| instruction::word_chars(m1.mem[m.regs.r0 + j], false));
    assert forall|j: int| 0 <= j < k implies (#[trigger] a[j]).len() == 1 && a[j][0] == (m.mem[m.regs.r0 + j] % 256) as u8 by {
        lemma_bytes(m.mem[m.regs.r0 + j]);
    }
    lemma_flatten_singletons(a);
    assert forall|j: int| 0 <= j < k implies a.flatten()[j] == (m.mem[m.regs.r0 + j] % 256) as u8 by {
        assert(a[j].len() == 1);
    }
}

/// The other trap routines: each saves PC in R7. GETC (x20) and IN (x23)
/// ask the host for a byte (IN with prompt and echo); OUT (x21) shows the
/// low byte of R0; HALT (x25) stops the machine. No register but R7 and no
/// memory changes. A vector outside x20..x25 is refused, changing nothing.
pub proof fn law_trap(m: Machine, instr: u16, polls: Seq<Option<u8>>, used: nat)
    requires
        instr / 4096 == 15,
    ensures
        ({
            let v = instr % 256;
            let r = instruction::exec_spec(m, instr, polls, used);
            &&& (v < 0x20 || v > 0x25) ==> r == Run::Fault(m, Fault::UnknownTrap)
            &&& (v == 0x20 || v == 0x21 || v == 0x23 || v == 0x25) ==> match r {
                Run::Done(m2, u2, e) => {
                    &&& u2 == used
                    &&& m2.regs.r7 == m.regs.pc
                    &&& forall|i: u16| 0 <= i < 7 ==> #[trigger] reg(m2, i) == reg(m, i)
                    &&& m2.regs.pc == m.regs.pc && m2.regs.cond == m.regs.cond
                    &&& m2.mem == m.mem
                    &&& m2.running == (m.running && v != 0x25)
                    &&& v == 0x20 ==> e == Effect::ReadChar
                    &&& v == 0x21 ==> e == Effect::Output(seq![(m.regs.r0 % 256) as u8])
                    &&& v == 0x23 ==> e == Effect::ReadCharEchoed
                    &&& v == 0x25 ==> e == Effect::Halt
                },
                _ => false,
            }
        }),
{
    lemma_decode(instr);
    lemma_bytes(m.regs.r0);
}

/// GETC and IN after the host's read: a byte goes into R0 (nothing else
/// changes); no byte stops the machine (nothing else changes).
pub proof fn law_getc(m: Machine, key: Option<u8>)
    ensures
        ({
            let m2 = instruction::getc_spec(m, key);
            &&& m2.mem == m.mem
            &&& forall|i: u16| 1 <= i < 8 ==> #[trigger] reg(m2, i) == reg(m, i)
            &&& m2.regs.pc == m.regs.pc && m2.regs.cond == m.regs.cond
            &&& match key {
                Some(b) => reg(m2, 0) == b as u16 && m2.running == m.running,
                None => reg(m2, 0) == reg(m, 0) && !m2.running,
            }
        }),
{
}

/// Register numbers: 0..=7 are R0..R7, 8 is PC and 9 the condition
/// register; an update changes the numbered register and no other.
pub proof fn law_register_names(regs: crate::hardware::register::Registers, v: u16)
    ensures
        regs.spec_get(0) == regs.r0 && regs.spec_get(1) == regs.r1 && regs.spec_get(2) == regs.r2
            && regs.spec_get(3) == regs.r3,
        regs.spec_get(4) == regs.r4 && regs.spec_get(5) == regs.r5 && regs.spec_get(6) == regs.r6
            && regs.spec_get(7) == regs.r7,
        regs.spec_get(8) == regs.pc && regs.spec_get(9) == regs.cond,
        forall|i: u16, j: u16|
            i <= 9 && j <= 9 ==> #[trigger] regs.spec_update(i, v).spec_get(j) == if i == j {
                v
            } else {
                regs.spec_get(j)
            },
{
}

/// A machine cycle fetches the word at PC (a plain memory word) and runs
/// it with PC already advanced by one, modulo 2^16; RTI and RES are refused
/// with PC advanced and nothing else changed.
pub proof fn law_step(m: Machine, polls: Seq<Option<u8>>)
    requires
        m.wf(),
        plain(m.regs.pc as int),
    ensures
        ({
            let instr = m.mem[m.regs.pc as int];
            let advanced = m.with_regs(
                crate::hardware::register::Registers {
                    pc: ((m.regs.pc + 1) % 65536) as u16,
                    ..m.regs
                },
            );
            &&& instruction::supported(instr) ==> vm::step_spec(m, polls) == instruction::exec_spec(
                advanced,
                instr,
                polls,
                0,
            )
            &&& (instr / 4096 == 8 || instr / 4096 == 13) ==> vm::step_spec(m, polls) == Run::Fault(
                advanced,
                Fault::InvalidOpcode,
            )
        }),
{
    let instr = m.mem[m.regs.pc as int];
    lemma_decode(instr);
}

/// Running a cycles and then b more is running a + b cycles: when a run
/// uses up its budget, a second run from where it left off continues it.
pub proof fn law_run_split(m: Machine, polls: Seq<Option<u8>>, a: nat, b: nat)
    ensures
        ({
            let (m1, p1, e1) = vm::run_spec(m, polls, a);
            e1 == instruction::ExitView::OutOfSteps ==> vm::run_spec(m, polls, a + b) == vm::run_spec(
                m1,
                p1,
                b,
            )
        }),
    decreases a,
{
    if m.running && a > 0 {
        if let Run::Done(m2, _, e) = vm::step_spec(m, polls) {
            if e == Effect::Nothing {
                law_run_split(m2, Seq::empty(), (a - 1) as nat, b);
                assert((a + b - 1) as nat == ((a - 1) as nat + b));
            }
        }
    }
}

} // verus!
