use vstd::prelude::*;

use crate::hardware::register::Registers;
use crate::hardware::vm;
use crate::hardware::vm::{Machine, VM, KBSR, KBDR, MEMORY_SIZE};

verus! {

/// The condition flags. Exactly one is held in `cond` after any instruction
/// that sets the condition codes: it records the sign of the last result.
#[derive(Debug, Clone, Copy, PartialEq, Eq, Structural)]
pub enum ConditionFlag {
    POS,
    ZRO,
    NEG,
}

impl ConditionFlag {
    /// The bit that stands for this flag in the `cond` register.
    pub open spec fn spec_bits(self) -> u16 {
        match self {
            ConditionFlag::POS => 1,
            ConditionFlag::ZRO => 2,
            ConditionFlag::NEG => 4,
        }
    }

    /// The bit that stands for this flag in the `cond` register:
    /// `POS` is `1 << 0`, `ZRO` is `1 << 1`, `NEG` is `1 << 2`.
    pub fn bits(&self) -> (r: u16)
        ensures
            r == self.spec_bits(),
    {
        match self {
            ConditionFlag::POS => 1,
            ConditionFlag::ZRO => 2,
            ConditionFlag::NEG => 4,
        }
    }
}

/// The flag that a 16-bit result sets: zero, negative (bit 15 set) or positive.
pub open spec fn flag_of(value: u16) -> ConditionFlag {
    if value == 0 {
        ConditionFlag::ZRO
    } else if (value >> 15u16) != 0 {
        ConditionFlag::NEG
    } else {
        ConditionFlag::POS
    }
}

/// The sixteen opcodes of the LC-3, held in the top four bits of an instruction.
#[derive(Debug, Clone, Copy, PartialEq, Eq, Structural)]
pub enum InstructionSet {
    BR,
    ADD,
    LD,
    ST,
    JSR,
    AND,
    LDR,
    STR,
    RTI,
    NOT,
    LDI,
    STI,
    JMP,
    RES,
    LEA,
    TRAP,
}

/// The opcode with number `code` (its place in the list above).
pub open spec fn opcode_from_number(code: u16) -> InstructionSet {
    if code == 0 {
        InstructionSet::BR
    } else if code == 1 {
        InstructionSet::ADD
    } else if code == 2 {
        InstructionSet::LD
    } else if code == 3 {
        InstructionSet::ST
    } else if code == 4 {
        InstructionSet::JSR
    } else if code == 5 {
        InstructionSet::AND
    } else if code == 6 {
        InstructionSet::LDR
    } else if code == 7 {
        InstructionSet::STR
    } else if code == 8 {
        InstructionSet::RTI
    } else if code == 9 {
        InstructionSet::NOT
    } else if code == 10 {
        InstructionSet::LDI
    } else if code == 11 {
        InstructionSet::STI
    } else if code == 12 {
        InstructionSet::JMP
    } else if code == 13 {
        InstructionSet::RES
    } else if code == 14 {
        InstructionSet::LEA
    } else {
        InstructionSet::TRAP
    }
}

/// The number of an opcode: its place in the list above.
pub open spec fn opcode_number(op: InstructionSet) -> u16 {
    match op {
        InstructionSet::BR => 0,
        InstructionSet::ADD => 1,
        InstructionSet::LD => 2,
        InstructionSet::ST => 3,
        InstructionSet::JSR => 4,
        InstructionSet::AND => 5,
        InstructionSet::LDR => 6,
        InstructionSet::STR => 7,
        InstructionSet::RTI => 8,
        InstructionSet::NOT => 9,
        InstructionSet::LDI => 10,
        InstructionSet::STI => 11,
        InstructionSet::JMP => 12,
        InstructionSet::RES => 13,
        InstructionSet::LEA => 14,
        InstructionSet::TRAP => 15,
    }
}

/// The opcode of an instruction: its top four bits.
pub open spec fn opcode_of(instr: u16) -> InstructionSet {
    opcode_from_number(instr >> 12u16)
}

/// Bits [11:9]: the destination (or source) register.
pub open spec fn dr_field(instr: u16) -> u16 {
    (instr >> 9u16) & 0x7
}

/// Bits [8:6]: the first source (or base) register.
pub open spec fn sr1_field(instr: u16) -> u16 {
    (instr >> 6u16) & 0x7
}

/// Bits [2:0]: the second source register.
pub open spec fn sr2_field(instr: u16) -> u16 {
    instr & 0x7
}

/// Bit 5: the immediate mode of ADD and AND.
pub open spec fn imm_flag(instr: u16) -> bool {
    (instr >> 5u16) & 0x1 != 0
}

/// Bits [11:9] of a branch: the condition codes it tests.
pub open spec fn cond_field(instr: u16) -> u16 {
    (instr >> 9u16) & 0x7
}

/// Bit 11 of JSR: whether the target is PC-relative.
pub open spec fn long_flag(instr: u16) -> bool {
    (instr >> 11u16) & 0x1 != 0
}

/// Bits [7:0] of a TRAP: the trap vector.
pub open spec fn trap_vector(instr: u16) -> u16 {
    instr & 0xFF
}

/// Sign extension of the low `bit_count` bits of `x` to 16 bits: when bit
/// `bit_count - 1` is set, every bit from `bit_count` up is set.
pub open spec fn sign_extend_spec(x: u16, bit_count: u16) -> u16 {
    if (x >> ((bit_count - 1) as u16)) & 1 != 0 {
        x | (0xFFFFu16 << bit_count)
    } else {
        x
    }
}

/// The sign-extended imm5 field.
pub open spec fn imm5(instr: u16) -> u16 {
    sign_extend_spec(instr & 0x1F, 5)
}

/// The sign-extended offset6 field.
pub open spec fn offset6(instr: u16) -> u16 {
    sign_extend_spec(instr & 0x3F, 6)
}

/// The sign-extended PCoffset9 field.
pub open spec fn offset9(instr: u16) -> u16 {
    sign_extend_spec(instr & 0x1FF, 9)
}

/// The sign-extended PCoffset11 field.
pub open spec fn offset11(instr: u16) -> u16 {
    sign_extend_spec(instr & 0x7FF, 11)
}

/// Addition modulo 2^16.
pub open spec fn wrap_add(a: u16, b: u16) -> u16 {
    if a + b > 0xFFFF {
        (a + b - 0x10000) as u16
    } else {
        (a + b) as u16
    }
}

/// The second operand of ADD and AND: the immediate or register SR2.
pub open spec fn second_operand(regs: Registers, instr: u16) -> u16 {
    if imm_flag(instr) {
        imm5(instr)
    } else {
        regs.spec_get(sr2_field(instr))
    }
}

/// The machine after `value` is stored in register DR and the condition
/// codes are set from it.
pub open spec fn set_dr(m: Machine, instr: u16, value: u16) -> Machine {
    m.with_regs(m.regs.spec_update(dr_field(instr), value).spec_set_cond(dr_field(instr)))
}

pub open spec fn add_spec(m: Machine, instr: u16) -> Machine {
    set_dr(m, instr, wrap_add(m.regs.spec_get(sr1_field(instr)), second_operand(m.regs, instr)))
}

pub open spec fn and_spec(m: Machine, instr: u16) -> Machine {
    set_dr(m, instr, m.regs.spec_get(sr1_field(instr)) & second_operand(m.regs, instr))
}

pub open spec fn not_spec(m: Machine, instr: u16) -> Machine {
    set_dr(m, instr, !m.regs.spec_get(sr1_field(instr)))
}

pub open spec fn br_spec(m: Machine, instr: u16) -> Machine {
    if cond_field(instr) & m.regs.cond != 0 {
        m.with_regs(Registers { pc: wrap_add(m.regs.pc, offset9(instr)), ..m.regs })
    } else {
        m
    }
}

pub open spec fn jmp_spec(m: Machine, instr: u16) -> Machine {
    m.with_regs(Registers { pc: m.regs.spec_get(sr1_field(instr)), ..m.regs })
}

pub open spec fn jsr_spec(m: Machine, instr: u16) -> Machine {
    let linked = Registers { r7: m.regs.pc, ..m.regs };
    if long_flag(instr) {
        m.with_regs(Registers { pc: wrap_add(m.regs.pc, offset11(instr)), ..linked })
    } else {
        m.with_regs(Registers { pc: linked.spec_get(sr1_field(instr)), ..linked })
    }
}

pub open spec fn lea_spec(m: Machine, instr: u16) -> Machine {
    set_dr(m, instr, wrap_add(m.regs.pc, offset9(instr)))
}

pub open spec fn st_spec(m: Machine, instr: u16) -> Machine {
    vm::write_spec(m, wrap_add(m.regs.pc, offset9(instr)), m.regs.spec_get(dr_field(instr)))
}

pub open spec fn str_spec(m: Machine, instr: u16) -> Machine {
    vm::write_spec(
        m,
        wrap_add(m.regs.spec_get(sr1_field(instr)), offset6(instr)),
        m.regs.spec_get(dr_field(instr)),
    )
}

/// LD: the word at PC + offset9 into DR. `None` when the read needs a poll
/// that `polls` does not hold.
pub open spec fn ld_spec(m: Machine, instr: u16, polls: Seq<Option<u8>>, used: nat) -> Option<
    (Machine, nat),
> {
    match vm::read_spec(m, wrap_add(m.regs.pc, offset9(instr)), polls, used) {
        Some((m2, v, u)) => Some((set_dr(m2, instr, v), u)),
        None => None,
    }
}

/// LDR: the word at BaseR + offset6 into DR.
pub open spec fn ldr_spec(m: Machine, instr: u16, polls: Seq<Option<u8>>, used: nat) -> Option<
    (Machine, nat),
> {
    match vm::read_spec(m, wrap_add(m.regs.spec_get(sr1_field(instr)), offset6(instr)), polls, used) {
        Some((m2, v, u)) => Some((set_dr(m2, instr, v), u)),
        None => None,
    }
}

/// LDI: the word at the address held at PC + offset9 into DR.
pub open spec fn ldi_spec(m: Machine, instr: u16, polls: Seq<Option<u8>>, used: nat) -> Option<
    (Machine, nat),
> {
    match vm::read_spec(m, wrap_add(m.regs.pc, offset9(instr)), polls, used) {
        Some((m2, a, u2)) => match vm::read_spec(m2, a, polls, u2) {
            Some((m3, v, u3)) => Some((set_dr(m3, instr, v), u3)),
            None => None,
        },
        None => None,
    }
}

/// STI: register SR stored at the address held at PC + offset9.
pub open spec fn sti_spec(m: Machine, instr: u16, polls: Seq<Option<u8>>, used: nat) -> Option<
    (Machine, nat),
> {
    match vm::read_spec(m, wrap_add(m.regs.pc, offset9(instr)), polls, used) {
        Some((m2, a, u2)) => Some((vm::write_spec(m2, a, m2.regs.spec_get(dr_field(instr))), u2)),
        None => None,
    }
}

/// The register fields of an instruction name one of R0..R7.
pub proof fn lemma_fields(instr: u16)
    ensures
        dr_field(instr) <= 7,
        sr1_field(instr) <= 7,
        sr2_field(instr) <= 7,
        instr >> 12u16 <= 15,
{
    assert((instr >> 9u16) & 0x7 <= 7) by (bit_vector);
    assert((instr >> 6u16) & 0x7 <= 7) by (bit_vector);
    assert(instr & 0x7 <= 7) by (bit_vector);
    assert(instr >> 12u16 <= 15) by (bit_vector);
}

/// Sign extension keeps the two's-complement value of an n-bit field: a
/// field below 2^(n-1) is unchanged, and a field from 2^(n-1) on becomes
/// the 16-bit word of the negative number field - 2^n.
pub proof fn lemma_sign_extend_value(x: u16, n: u16)
    requires
        1 <= n <= 15,
        x < (1u16 << n),
    ensures
        x < (1u16 << ((n - 1) as u16)) ==> sign_extend_spec(x, n) == x,
        x >= (1u16 << ((n - 1) as u16)) ==> sign_extend_spec(x, n) as int == x + 0x10000 - (1u16 << n),
{
    let m = (n - 1) as u16;
    assert(x < (1u16 << m) ==> (x >> m) & 1 == 0) by (bit_vector)
        requires
            1 <= n <= 15,
            m == n - 1,
            x < (1u16 << n),
    ;
    assert(x >= (1u16 << m) ==> ((x >> m) & 1 != 0 && (x | (0xFFFFu16 << n)) as int == x + 0x10000 - (1u16 << n))) by (bit_vector)
        requires
            1 <= n <= 15,
            m == n - 1,
            x < (1u16 << n),
    ;
}

/// Extracts the opcode: the top four bits. Every instruction has one.
pub fn get_op_code(instruction: &u16) -> (r: Option<InstructionSet>)
    ensures
        r == Some(opcode_of(*instruction)),
{
    proof {
        lemma_fields(*instruction);
    }
    match *instruction >> 12u16 {
        0 => Some(InstructionSet::BR),
        1 => Some(InstructionSet::ADD),
        2 => Some(InstructionSet::LD),
        3 => Some(InstructionSet::ST),
        4 => Some(InstructionSet::JSR),
        5 => Some(InstructionSet::AND),
        6 => Some(InstructionSet::LDR),
        7 => Some(InstructionSet::STR),
        8 => Some(InstructionSet::RTI),
        9 => Some(InstructionSet::NOT),
        10 => Some(InstructionSet::LDI),
        11 => Some(InstructionSet::STI),
        12 => Some(InstructionSet::JMP),
        13 => Some(InstructionSet::RES),
        14 => Some(InstructionSet::LEA),
        15 => Some(InstructionSet::TRAP),
        _ => None,
    }
}

/// Sign-extends the low `bit_count` bits of `x` to 16 bits.
pub fn sign_extend(x: u16, bit_count: u16) -> (r: u16)
    requires
        1 <= bit_count <= 16,
        bit_count == 16 ==> (x >> 15u16) & 1 == 0,
    ensures
        r == sign_extend_spec(x, bit_count),
{
    let mut val: u16 = x;
    if (x >> (bit_count - 1)) & 1 != 0 {
        val |= 0xFFFFu16 << bit_count;
    }
    val
}

/// ADD: DR = SR1 + (imm5 or SR2), modulo 2^16; sets the condition codes.
pub fn add(instr: u16, vm: &mut VM)
    requires
        old(vm).wf(),
    ensures
        final(vm).wf(),
        final(vm)@ == add_spec(old(vm)@, instr),
{
    proof {
        lemma_fields(instr);
    }
    let r0 = (instr >> 9u16) & 0x7;
    let r1 = (instr >> 6u16) & 0x7;
    let imm_flag: bool = ((instr >> 5u16) & 0x1) != 0;
    let a = vm.registers.get(r1);
    let b = if imm_flag {
        sign_extend(instr & 0x1F, 5)
    } else {
        let r2 = instr & 0x7;
        vm.registers.get(r2)
    };
    vm.registers.update(r0, a.wrapping_add(b));
    vm.registers.update_r_cond_register(r0);
}

/// AND: DR = SR1 & (imm5 or SR2); sets the condition codes.
pub fn and(instr: u16, vm: &mut VM)
    requires
        old(vm).wf(),
    ensures
        final(vm).wf(),
        final(vm)@ == and_spec(old(vm)@, instr),
{
    proof {
        lemma_fields(instr);
    }
    let r0 = (instr >> 9u16) & 0x7;
    let r1 = (instr >> 6u16) & 0x7;
    let imm_flag: bool = ((instr >> 5u16) & 0x1) != 0;
    let a = vm.registers.get(r1);
    let b = if imm_flag {
        sign_extend(instr & 0x1F, 5)
    } else {
        let r2 = instr & 0x7;
        vm.registers.get(r2)
    };
    let result = a & b;
    vm.registers.update(r0, result);
    vm.registers.update_r_cond_register(r0);
}

/// NOT: DR = !SR; sets the condition codes.
pub fn not(instr: u16, vm: &mut VM)
    requires
        old(vm).wf(),
    ensures
        final(vm).wf(),
        final(vm)@ == not_spec(old(vm)@, instr),
{
    proof {
        lemma_fields(instr);
    }
    let r0 = (instr >> 9u16) & 0x7;
    let r1 = (instr >> 6u16) & 0x7;
    let value = !vm.registers.get(r1);
    vm.registers.update(r0, value);
    vm.registers.update_r_cond_register(r0);
}

/// BR: when any of the tested condition codes is set, PC += offset9.
pub fn br(instr: u16, vm: &mut VM)
    requires
        old(vm).wf(),
    ensures
        final(vm).wf(),
        final(vm)@ == br_spec(old(vm)@, instr),
{
    let pc_offset = sign_extend(instr & 0x1FF, 9);
    let cond_flag = (instr >> 9u16) & 0x7;
    if cond_flag & vm.registers.cond != 0 {
        let offset = vm.registers.pc.wrapping_add(pc_offset);
        vm.registers.pc = offset;
    }
}

/// JMP (and RET, with base register R7): PC = BaseR.
pub fn jmp(instr: u16, vm: &mut VM)
    requires
        old(vm).wf(),
    ensures
        final(vm).wf(),
        final(vm)@ == jmp_spec(old(vm)@, instr),
{
    proof {
        lemma_fields(instr);
    }
    let base_reg = (instr >> 6u16) & 0x7;
    vm.registers.pc = vm.registers.get(base_reg);
}

/// JSR / JSRR: R7 = PC, then PC = PC + offset11 or PC = BaseR.
pub fn jsr(instr: u16, vm: &mut VM)
    requires
        old(vm).wf(),
    ensures
        final(vm).wf(),
        final(vm)@ == jsr_spec(old(vm)@, instr),
{
    proof {
        lemma_fields(instr);
    }
    let long_flag = (instr >> 11u16) & 0x1 != 0;
    vm.registers.r7 = vm.registers.pc;
    if long_flag {
        let long_pc_offset = sign_extend(instr & 0x7FF, 11);
        vm.registers.pc = vm.registers.pc.wrapping_add(long_pc_offset);
    } else {
        let r1 = (instr >> 6u16) & 0x7;
        vm.registers.pc = vm.registers.get(r1);
    }
}

/// LEA: DR = PC + offset9; sets the condition codes.
pub fn lea(instr: u16, vm: &mut VM)
    requires
        old(vm).wf(),
    ensures
        final(vm).wf(),
        final(vm)@ == lea_spec(old(vm)@, instr),
{
    proof {
        lemma_fields(instr);
    }
    let r0 = (instr >> 9u16) & 0x7;
    let pc_offset = sign_extend(instr & 0x1FF, 9);
    let value = vm.registers.pc.wrapping_add(pc_offset);
    vm.registers.update(r0, value);
    vm.registers.update_r_cond_register(r0);
}

/// ST: SR stored at PC + offset9.
pub fn st(instr: u16, vm: &mut VM)
    requires
        old(vm).wf(),
    ensures
        final(vm).wf(),
        final(vm)@ == st_spec(old(vm)@, instr),
{
    proof {
        lemma_fields(instr);
    }
    let r0 = (instr >> 9u16) & 0x7;
    let pc_offset = sign_extend(instr & 0x1FF, 9);
    let value = vm.registers.get(r0);
    let address = vm.registers.pc.wrapping_add(pc_offset);
    vm.write_memory(address, value);
}

/// STR: SR stored at BaseR + offset6.
pub fn str(instr: u16, vm: &mut VM)
    requires
        old(vm).wf(),
    ensures
        final(vm).wf(),
        final(vm)@ == str_spec(old(vm)@, instr),
{
    proof {
        lemma_fields(instr);
    }
    let r0 = (instr >> 9u16) & 0x7;
    let r1 = (instr >> 6u16) & 0x7;
    let pc_offset = sign_extend(instr & 0x3F, 6);
    let value = vm.registers.get(r0);
    let address = vm.registers.get(r1).wrapping_add(pc_offset);
    vm.write_memory(address, value);
}

/// How a loading instruction ended: `true` when it ran; `false` when a read
/// needed a keyboard poll beyond `polls`, and then nothing changed.
pub open spec fn load_result(
    r: bool,
    spec: Option<(Machine, nat)>,
    before: Machine,
    after: Machine,
    used_before: usize,
    used_after: usize,
) -> bool {
    match spec {
        Some((m, u)) => r && after == m && used_after == u,
        None => !r && after == before && used_after == used_before,
    }
}

/// LD: DR = the word at PC + offset9; sets the condition codes.
pub fn ld(instr: u16, vm: &mut VM, polls: &[Option<u8>], used: &mut usize) -> (r: bool)
    requires
        old(vm).wf(),
        *old(used) <= polls@.len(),
    ensures
        final(vm).wf(),
        *final(used) <= polls@.len(),
        load_result(
            r,
            ld_spec(old(vm)@, instr, polls@, *old(used) as nat),
            old(vm)@,
            final(vm)@,
            *old(used),
            *final(used),
        ),
{
    proof {
        lemma_fields(instr);
    }
    let r0 = (instr >> 9u16) & 0x7;
    let pc_offset = sign_extend(instr & 0x1FF, 9);
    let address = vm.registers.pc.wrapping_add(pc_offset);
    match vm.read_memory(address, polls, used) {
        Some(value) => {
            vm.registers.update(r0, value);
            vm.registers.update_r_cond_register(r0);
            true
        },
        None => false,
    }
}

/// LDR: DR = the word at BaseR + offset6; sets the condition codes.
pub fn ldr(instr: u16, vm: &mut VM, polls: &[Option<u8>], used: &mut usize) -> (r: bool)
    requires
        old(vm).wf(),
        *old(used) <= polls@.len(),
    ensures
        final(vm).wf(),
        *final(used) <= polls@.len(),
        load_result(
            r,
            ldr_spec(old(vm)@, instr, polls@, *old(used) as nat),
            old(vm)@,
            final(vm)@,
            *old(used),
            *final(used),
        ),
{
    proof {
        lemma_fields(instr);
    }
    let r0 = (instr >> 9u16) & 0x7;
    let r1 = (instr >> 6u16) & 0x7;
    let pc_offset = sign_extend(instr & 0x3F, 6);
    let address = vm.registers.get(r1).wrapping_add(pc_offset);
    match vm.read_memory(address, polls, used) {
        Some(value) => {
            vm.registers.update(r0, value);
            vm.registers.update_r_cond_register(r0);
            true
        },
        None => false,
    }
}

/// Puts the two keyboard words back; with the rest unchanged since `before`,
/// the machine is `before` again.
pub(crate) fn restore_keyboard(vm: &mut VM, kbsr: u16, kbdr: u16, Ghost(before): Ghost<Machine>)
    requires
        old(vm).wf(),
        before.wf(),
        before.word(KBSR) == kbsr,
        before.word(KBDR) == kbdr,
        old(vm).registers == before.regs,
        old(vm).running == before.running,
        forall|i: int|
            0 <= i < MEMORY_SIZE && i != KBSR && i != KBDR ==> old(vm)@.mem[i] == before.mem[i],
    ensures
        final(vm).wf(),
        final(vm)@ == before,
{
    vm.memory.set(KBSR as usize, kbsr);
    vm.memory.set(KBDR as usize, kbdr);
    assert(vm.memory@ =~= before.mem);
}

/// LDI: DR = the word at the address held at PC + offset9; sets the
/// condition codes.
pub fn ldi(instr: u16, vm: &mut VM, polls: &[Option<u8>], used: &mut usize) -> (r: bool)
    requires
        old(vm).wf(),
        *old(used) <= polls@.len(),
    ensures
        final(vm).wf(),
        *final(used) <= polls@.len(),
        load_result(
            r,
            ldi_spec(old(vm)@, instr, polls@, *old(used) as nat),
            old(vm)@,
            final(vm)@,
            *old(used),
            *final(used),
        ),
{
    proof {
        lemma_fields(instr);
    }
    let ghost before = vm@;
    let kbsr = vm.memory[KBSR as usize];
    let kbdr = vm.memory[KBDR as usize];
    let used_before = *used;
    let r0 = (instr >> 9u16) & 0x7;
    let pc_offset = sign_extend(instr & 0x1FF, 9);
    let first = vm.registers.pc.wrapping_add(pc_offset);
    let first_read = match vm.read_memory(first, polls, used) {
        Some(v) => v,
        None => {
            return false;
        },
    };
    proof {
        vm::lemma_read_frame(before, first, polls@, used_before as nat);
    }
    match vm.read_memory(first_read, polls, used) {
        Some(second_read) => {
            vm.registers.update(r0, second_read);
            vm.registers.update_r_cond_register(r0);
            true
        },
        None => {
            restore_keyboard(vm, kbsr, kbdr, Ghost(before));
            *used = used_before;
            false
        },
    }
}

/// STI: SR stored at the address held at PC + offset9.
pub fn sti(instr: u16, vm: &mut VM, polls: &[Option<u8>], used: &mut usize) -> (r: bool)
    requires
        old(vm).wf(),
        *old(used) <= polls@.len(),
    ensures
        final(vm).wf(),
        *final(used) <= polls@.len(),
        load_result(
            r,
            sti_spec(old(vm)@, instr, polls@, *old(used) as nat),
            old(vm)@,
            final(vm)@,
            *old(used),
            *final(used),
        ),
{
    proof {
        lemma_fields(instr);
    }
    let ghost before = vm@;
    let r0 = (instr >> 9u16) & 0x7;
    let pc_offset = sign_extend(instr & 0x1FF, 9);
    let first = vm.registers.pc.wrapping_add(pc_offset);
    match vm.read_memory(first, polls, used) {
        Some(address) => {
            proof {
                vm::lemma_read_frame(before, first, polls@, *old(used) as nat);
            }
            let value = vm.registers.get(r0);
            vm.write_memory(address, value);
            true
        },
        None => false,
    }
}

/// The outside work that an instruction leaves for the host to do.
pub enum Effect {
    /// Nothing: the next instruction can run.
    Nothing,
    /// These bytes go to the display, each shown as one character.
    Output(Seq<u8>),
    /// One byte is to be read from the keyboard and handed to `trap_getc`.
    ReadChar,
    /// As `ReadChar`, with a prompt before and the byte echoed after.
    ReadCharEchoed,
    /// The machine halted; the host reports it.
    Halt,
}

/// Why an instruction cannot run.
pub enum Fault {
    /// The opcode is RTI or RES, which this machine does not implement.
    InvalidOpcode,
    /// The trap vector names no trap routine.
    UnknownTrap,
    /// A string ran past address 0xFFFF without its terminating zero; these
    /// bytes were shown before.
    IndexOverflow(Seq<u8>),
}

/// What became of an instruction, as the host sees it.
pub enum Status {
    Done(Effect),
    /// A read of `KBSR` needs one more keyboard poll than was handed in.
    NeedPoll,
    Fault(Fault),
}

/// The result of running an instruction: the machine after it and the polls
/// used; or that one more poll is needed; or a fault and the machine then.
pub enum Run {
    Done(Machine, nat, Effect),
    NeedPoll,
    Fault(Machine, Fault),
}

/// The work that an instruction leaves for the host.
#[derive(Debug, Clone, PartialEq, Eq)]
pub enum Request {
    Nothing,
    Output(Vec<u8>),
    ReadChar,
    ReadCharEchoed,
    Halt,
}

impl View for Request {
    type V = Effect;

    open spec fn view(&self) -> Effect {
        match self {
            Request::Nothing => Effect::Nothing,
            Request::Output(v) => Effect::Output(v@),
            Request::ReadChar => Effect::ReadChar,
            Request::ReadCharEchoed => Effect::ReadCharEchoed,
            Request::Halt => Effect::Halt,
        }
    }
}

/// How an instruction ended.
#[derive(Debug, Clone, PartialEq, Eq)]
pub enum Outcome {
    Done(Request),
    NeedPoll,
    InvalidOpcode,
    UnknownTrap,
    IndexOverflow(Vec<u8>),
}

impl View for Outcome {
    type V = Status;

    open spec fn view(&self) -> Status {
        match self {
            Outcome::Done(r) => Status::Done(r@),
            Outcome::NeedPoll => Status::NeedPoll,
            Outcome::InvalidOpcode => Status::Fault(Fault::InvalidOpcode),
            Outcome::UnknownTrap => Status::Fault(Fault::UnknownTrap),
            Outcome::IndexOverflow(v) => Status::Fault(Fault::IndexOverflow(v@)),
        }
    }
}

/// `o`, `after` and `used_after` are what `run` says: on `NeedPoll` the
/// machine and the poll count are as they were.
pub open spec fn realizes(
    run: Run,
    before: Machine,
    after: Machine,
    used_before: nat,
    used_after: nat,
    o: Status,
) -> bool {
    match run {
        Run::Done(m, u, e) => o == Status::Done(e) && after == m && used_after == u,
        Run::NeedPoll => o == Status::NeedPoll && after == before && used_after == used_before,
        Run::Fault(m, f) => o == Status::Fault(f) && after == m,
    }
}

/// Where a run of the machine stopped.
pub enum ExitView {
    /// The machine is not running.
    Stopped,
    /// The cycle budget ran out.
    OutOfSteps,
    /// A cycle left work for the host.
    Paused(Status),
}

/// Where a run of the machine stopped.
#[derive(Debug, Clone, PartialEq, Eq)]
pub enum Exit {
    Stopped,
    OutOfSteps,
    Paused(Outcome),
}

impl View for Exit {
    type V = ExitView;

    open spec fn view(&self) -> ExitView {
        match self {
            Exit::Stopped => ExitView::Stopped,
            Exit::OutOfSteps => ExitView::OutOfSteps,
            Exit::Paused(o) => ExitView::Paused(o@),
        }
    }
}

/// The result of printing a string.
pub enum StrRun {
    Done(Machine, nat, Seq<u8>),
    NeedPoll,
    Overflow(Machine, Seq<u8>),
}

/// The bytes shown for one word of a string: PUTS shows its low byte;
/// PUTSP shows the low byte and then the high byte unless it is zero.
pub open spec fn word_chars(c: u16, packed: bool) -> Seq<u8> {
    if !packed {
        seq![c as u8]
    } else if (c >> 8u16) as u8 != 0 {
        seq![(c & 0xFF) as u8, (c >> 8u16) as u8]
    } else {
        seq![(c & 0xFF) as u8]
    }
}

/// `r` with `out` shown before it.
pub open spec fn prepend(out: Seq<u8>, r: StrRun) -> StrRun {
    match r {
        StrRun::Done(m, u, s) => StrRun::Done(m, u, out + s),
        StrRun::NeedPoll => StrRun::NeedPoll,
        StrRun::Overflow(m, s) => StrRun::Overflow(m, out + s),
    }
}

/// The string of words from `index` up to the first zero word, shown by
/// PUTS (`packed` false) or PUTSP (`packed` true). A non-zero word at 0xFFFF
/// overflows the index.
pub open spec fn string_spec(
    m: Machine,
    index: u16,
    polls: Seq<Option<u8>>,
    used: nat,
    packed: bool,
) -> StrRun
    decreases 0x10000 - index,
{
    match vm::read_spec(m, index, polls, used) {
        None => StrRun::NeedPoll,
        Some((m2, c, u2)) => if c == 0 {
            StrRun::Done(m2, u2, seq![])
        } else if index == 0xFFFF {
            StrRun::Overflow(m2, word_chars(c, packed))
        } else {
            prepend(word_chars(c, packed), string_spec(m2, (index + 1) as u16, polls, u2, packed))
        },
    }
}

/// A string shown by a trap, as the result of that trap.
pub open spec fn string_run(r: StrRun) -> Run {
    match r {
        StrRun::Done(m, u, s) => Run::Done(m, u, Effect::Output(s)),
        StrRun::NeedPoll => Run::NeedPoll,
        StrRun::Overflow(m, s) => Run::Fault(m, Fault::IndexOverflow(s)),
    }
}

/// The trap vectors that name a trap routine: GETC, OUT, PUTS, IN, PUTSP, HALT.
pub open spec fn known_trap(instr: u16) -> bool {
    0x20 <= trap_vector(instr) <= 0x25
}

/// TRAP: R7 = PC, then the routine named by the trap vector.
pub open spec fn trap_spec(m: Machine, instr: u16, polls: Seq<Option<u8>>, used: nat) -> Run {
    let m1 = m.with_regs(Registers { r7: m.regs.pc, ..m.regs });
    let v = trap_vector(instr);
    if v == 0x20 {
        Run::Done(m1, used, Effect::ReadChar)
    } else if v == 0x21 {
        Run::Done(m1, used, Effect::Output(seq![m1.regs.r0 as u8]))
    } else if v == 0x22 {
        string_run(string_spec(m1, m1.regs.r0, polls, used, false))
    } else if v == 0x23 {
        Run::Done(m1, used, Effect::ReadCharEchoed)
    } else if v == 0x24 {
        string_run(string_spec(m1, m1.regs.r0, polls, used, true))
    } else if v == 0x25 {
        Run::Done(Machine { running: false, ..m1 }, used, Effect::Halt)
    } else {
        Run::Fault(m, Fault::UnknownTrap)
    }
}

/// GETC (and IN): a byte read puts its code in R0; no byte (end of input)
/// stops the machine.
pub open spec fn getc_spec(m: Machine, key: Option<u8>) -> Machine {
    match key {
        Some(b) => m.with_regs(m.regs.spec_update(0, b as u16)),
        None => Machine { running: false, ..m },
    }
}

proof fn lemma_prepend_assoc(a: Seq<u8>, b: Seq<u8>, r: StrRun)
    ensures
        prepend(a, prepend(b, r)) == prepend(a + b, r),
{
    match r {
        StrRun::Done(m, u, s) => {
            assert(a + (b + s) =~= (a + b) + s);
        },
        StrRun::Overflow(m, s) => {
            assert(a + (b + s) =~= (a + b) + s);
        },
        StrRun::NeedPoll => {},
    }
}

/// How reading a string ended.
enum StringRead {
    Done(Vec<u8>),
    NeedPoll,
    Overflow(Vec<u8>),
}

/// Reads the string at `start` and collects the bytes to show, as
/// `string_spec` says; on `NeedPoll` nothing changed.
fn read_string(
    vm: &mut VM,
    start: u16,
    polls: &[Option<u8>],
    used: &mut usize,
    packed: bool,
) -> (r: StringRead)
    requires
        old(vm).wf(),
        *old(used) <= polls@.len(),
    ensures
        final(vm).wf(),
        *final(used) <= polls@.len(),
        match string_spec(old(vm)@, start, polls@, *old(used) as nat, packed) {
            StrRun::Done(m, u, s) => {
                &&& r matches StringRead::Done(out) && out@ == s
                &&& final(vm)@ == m
                &&& *final(used) == u
            },
            StrRun::NeedPoll => {
                &&& r is NeedPoll
                &&& final(vm)@ == old(vm)@
                &&& *final(used) == *old(used)
            },
            StrRun::Overflow(m, s) => {
                &&& r matches StringRead::Overflow(out) && out@ == s
                &&& final(vm)@ == m
            },
        },
{
    let ghost before = vm@;
    let ghost total = string_spec(before, start, polls@, *used as nat, packed);
    let kbsr = vm.memory[KBSR as usize];
    let kbdr = vm.memory[KBDR as usize];
    let used_before = *used;
    let mut index: u16 = start;
    let mut out: Vec<u8> = Vec::new();
    assert(out@ + seq![] =~= seq![]);
    loop
        invariant
            vm.wf(),
            before.wf(),
            before.word(KBSR) == kbsr,
            before.word(KBDR) == kbdr,
            vm.registers == before.regs,
            vm.running == before.running,
            forall|i: int|
                0 <= i < MEMORY_SIZE && i != KBSR && i != KBDR ==> vm@.mem[i] == before.mem[i],
            used_before <= *used <= polls@.len(),
            before == old(vm)@,
            used_before == *old(used),
            total == string_spec(before, start, polls@, used_before as nat, packed),
            total == prepend(out@, string_spec(vm@, index, polls@, *used as nat, packed)),
        decreases 0x10000 - index,
    {
        let ghost prev = vm@;
        let ghost prev_used = *used;
        match vm.read_memory(index, polls, used) {
            None => {
                assert(string_spec(prev, index, polls@, prev_used as nat, packed) == StrRun::NeedPoll);
                restore_keyboard(vm, kbsr, kbdr, Ghost(before));
                *used = used_before;
                return StringRead::NeedPoll;
            },
            Some(c) => {
                proof {
                    vm::lemma_read_frame(prev, index, polls@, prev_used as nat);
                }
                if c == 0 {
                    assert(out@ + seq![] =~= out@);
                    return StringRead::Done(out);
                }
                let ghost out_before = out@;
                if packed {
                    let low = (c & 0xFF) as u8;
                    let high = (c >> 8u16) as u8;
                    out.push(low);
                    if high != 0u8 {
                        out.push(high);
                    }
                } else {
                    out.push(c as u8);
                }
                assert(out@ =~= out_before + word_chars(c, packed));
                if index == 0xFFFF {
                    assert(string_spec(prev, index, polls@, prev_used as nat, packed) == StrRun::Overflow(vm@, word_chars(c, packed)));
                    assert(total == StrRun::Overflow(vm@, out@));
                    return StringRead::Overflow(out);
                }
                proof {
                    lemma_prepend_assoc(
                        out_before,
                        word_chars(c, packed),
                        string_spec(vm@, (index + 1) as u16, polls@, *used as nat, packed),
                    );
                }
                index = index + 1;
            },
        }
    }
}

/// PUTS: the string of words starting at the address in R0, one character
/// per word, up to the first zero word.
pub fn trap_puts(vm: &mut VM, polls: &[Option<u8>], used: &mut usize) -> (r: Outcome)
    requires
        old(vm).wf(),
        *old(used) <= polls@.len(),
    ensures
        final(vm).wf(),
        *final(used) <= polls@.len(),
        realizes(
            string_run(string_spec(old(vm)@, old(vm).registers.r0, polls@, *old(used) as nat, false)),
            old(vm)@,
            final(vm)@,
            *old(used) as nat,
            *final(used) as nat,
            r@,
        ),
{
    let start = vm.registers.r0;
    match read_string(vm, start, polls, used, false) {
        StringRead::Done(out) => Outcome::Done(Request::Output(out)),
        StringRead::NeedPoll => Outcome::NeedPoll,
        StringRead::Overflow(out) => Outcome::IndexOverflow(out),
    }
}

/// PUTSP: the string of words starting at the address in R0, two characters
/// per word (low byte first; a zero high byte is not shown), up to the first
/// zero word.
pub fn trap_putsp(vm: &mut VM, polls: &[Option<u8>], used: &mut usize) -> (r: Outcome)
    requires
        old(vm).wf(),
        *old(used) <= polls@.len(),
    ensures
        final(vm).wf(),
        *final(used) <= polls@.len(),
        realizes(
            string_run(string_spec(old(vm)@, old(vm).registers.r0, polls@, *old(used) as nat, true)),
            old(vm)@,
            final(vm)@,
            *old(used) as nat,
            *final(used) as nat,
            r@,
        ),
{
    let start = vm.registers.r0;
    match read_string(vm, start, polls, used, true) {
        StringRead::Done(out) => Outcome::Done(Request::Output(out)),
        StringRead::NeedPoll => Outcome::NeedPoll,
        StringRead::Overflow(out) => Outcome::IndexOverflow(out),
    }
}

/// OUT: the character whose code is the low byte of R0.
pub fn trap_out(vm: &VM) -> (r: Request)
    ensures
        r@ == Effect::Output(seq![vm.registers.r0 as u8]),
{
    let c = vm.registers.r0 as u8;
    let mut out: Vec<u8> = Vec::new();
    out.push(c);
    assert(out@ =~= seq![c]);
    Request::Output(out)
}

/// HALT: stops the machine; the host reports the halt.
pub fn trap_halt(vm: &mut VM) -> (r: Request)
    requires
        old(vm).wf(),
    ensures
        final(vm).wf(),
        final(vm)@ == (Machine { running: false, ..old(vm)@ }),
        r@ == Effect::Halt,
{
    vm.running = false;
    Request::Halt
}

/// GETC and IN, once the host has read the keyboard: a byte read goes into
/// R0 (the condition codes are left as they are); no byte, at the end of the
/// input, stops the machine.
pub fn trap_getc(vm: &mut VM, key: Option<u8>)
    requires
        old(vm).wf(),
    ensures
        final(vm).wf(),
        final(vm)@ == getc_spec(old(vm)@, key),
{
    match key {
        Some(b) => vm.registers.update(0, b as u16),
        None => vm.running = false,
    }
}

/// TRAP: R7 = PC, then the trap routine named by bits [7:0]. GETC, IN, OUT
/// and HALT leave their input and output to the host; PUTS and PUTSP read
/// their string here. On `NeedPoll` nothing changed.
pub fn trap(instr: u16, vm: &mut VM, polls: &[Option<u8>], used: &mut usize) -> (r: Outcome)
    requires
        old(vm).wf(),
        *old(used) <= polls@.len(),
        known_trap(instr),
    ensures
        final(vm).wf(),
        *final(used) <= polls@.len(),
        realizes(
            trap_spec(old(vm)@, instr, polls@, *old(used) as nat),
            old(vm)@,
            final(vm)@,
            *old(used) as nat,
            *final(used) as nat,
            r@,
        ),
{
    let trap_vector = instr & 0xFF;
    let saved_r7 = vm.registers.r7;
    vm.registers.r7 = vm.registers.pc;
    match trap_vector {
        0x20 => Outcome::Done(Request::ReadChar),
        0x21 => Outcome::Done(trap_out(vm)),
        0x22 => {
            let r = trap_puts(vm, polls, used);
            if let Outcome::NeedPoll = r {
                vm.registers.r7 = saved_r7;
            }
            r
        },
        0x23 => Outcome::Done(Request::ReadCharEchoed),
        0x24 => {
            let r = trap_putsp(vm, polls, used);
            if let Outcome::NeedPoll = r {
                vm.registers.r7 = saved_r7;
            }
            r
        },
        _ => Outcome::Done(trap_halt(vm)),
    }
}

/// The instructions this machine runs: every opcode but RTI and RES, and
/// for TRAP, a known trap vector.
pub open spec fn supported(instr: u16) -> bool {
    &&& opcode_of(instr) != InstructionSet::RTI
    &&& opcode_of(instr) != InstructionSet::RES
    &&& opcode_of(instr) == InstructionSet::TRAP ==> known_trap(instr)
}

/// A loading or storing instruction as a run: `None` needs a poll.
pub open spec fn load_run(r: Option<(Machine, nat)>) -> Run {
    match r {
        Some((m, u)) => Run::Done(m, u, Effect::Nothing),
        None => Run::NeedPoll,
    }
}

/// One instruction, dispatched on its opcode.
pub open spec fn exec_spec(m: Machine, instr: u16, polls: Seq<Option<u8>>, used: nat) -> Run {
    match opcode_of(instr) {
        InstructionSet::ADD => Run::Done(add_spec(m, instr), used, Effect::Nothing),
        InstructionSet::AND => Run::Done(and_spec(m, instr), used, Effect::Nothing),
        InstructionSet::NOT => Run::Done(not_spec(m, instr), used, Effect::Nothing),
        InstructionSet::BR => Run::Done(br_spec(m, instr), used, Effect::Nothing),
        InstructionSet::JMP => Run::Done(jmp_spec(m, instr), used, Effect::Nothing),
        InstructionSet::JSR => Run::Done(jsr_spec(m, instr), used, Effect::Nothing),
        InstructionSet::LD => load_run(ld_spec(m, instr, polls, used)),
        InstructionSet::LDI => load_run(ldi_spec(m, instr, polls, used)),
        InstructionSet::LDR => load_run(ldr_spec(m, instr, polls, used)),
        InstructionSet::LEA => Run::Done(lea_spec(m, instr), used, Effect::Nothing),
        InstructionSet::ST => Run::Done(st_spec(m, instr), used, Effect::Nothing),
        InstructionSet::STI => load_run(sti_spec(m, instr, polls, used)),
        InstructionSet::STR => Run::Done(str_spec(m, instr), used, Effect::Nothing),
        InstructionSet::TRAP => trap_spec(m, instr, polls, used),
        _ => Run::Fault(m, Fault::InvalidOpcode),
    }
}

/// Runs one instruction. On `NeedPoll` nothing changed: the host polls the
/// keyboard once more, appends the result to `polls`, and runs it again.
pub fn execute_instruction(
    instr: u16,
    vm: &mut VM,
    polls: &[Option<u8>],
    used: &mut usize,
) -> (r: Outcome)
    requires
        old(vm).wf(),
        *old(used) <= polls@.len(),
        supported(instr),
    ensures
        final(vm).wf(),
        *final(used) <= polls@.len(),
        realizes(
            exec_spec(old(vm)@, instr, polls@, *old(used) as nat),
            old(vm)@,
            final(vm)@,
            *old(used) as nat,
            *final(used) as nat,
            r@,
        ),
{
    let op_code = get_op_code(&instr);
    match op_code {
        Some(InstructionSet::ADD) => {
            self::add(instr, vm);
            Outcome::Done(Request::Nothing)
        },
        Some(InstructionSet::AND) => {
            and(instr, vm);
            Outcome::Done(Request::Nothing)
        },
        Some(InstructionSet::NOT) => {
            not(instr, vm);
            Outcome::Done(Request::Nothing)
        },
        Some(InstructionSet::BR) => {
            br(instr, vm);
            Outcome::Done(Request::Nothing)
        },
        Some(InstructionSet::JMP) => {
            jmp(instr, vm);
            Outcome::Done(Request::Nothing)
        },
        Some(InstructionSet::JSR) => {
            jsr(instr, vm);
            Outcome::Done(Request::Nothing)
        },
        Some(InstructionSet::LD) => {
            if ld(instr, vm, polls, used) {
                Outcome::Done(Request::Nothing)
            } else {
                Outcome::NeedPoll
            }
        },
        Some(InstructionSet::LDI) => {
            if ldi(instr, vm, polls, used) {
                Outcome::Done(Request::Nothing)
            } else {
                Outcome::NeedPoll
            }
        },
        Some(InstructionSet::LDR) => {
            if ldr(instr, vm, polls, used) {
                Outcome::Done(Request::Nothing)
            } else {
                Outcome::NeedPoll
            }
        },
        Some(InstructionSet::LEA) => {
            lea(instr, vm);
            Outcome::Done(Request::Nothing)
        },
        Some(InstructionSet::ST) => {
            st(instr, vm);
            Outcome::Done(Request::Nothing)
        },
        Some(InstructionSet::STI) => {
            if sti(instr, vm, polls, used) {
                Outcome::Done(Request::Nothing)
            } else {
                Outcome::NeedPoll
            }
        },
        Some(InstructionSet::STR) => {
            str(instr, vm);
            Outcome::Done(Request::Nothing)
        },
        _ => trap(instr, vm, polls, used),
    }
}

/// Whether this machine runs `instr`: not RTI or RES, and a known trap.
pub fn is_supported(instr: u16) -> (r: bool)
    ensures
        r == supported(instr),
{
    proof {
        lemma_fields(instr);
    }
    let code = instr >> 12u16;
    if code == 8 || code == 13 {
        false
    } else if code == 15 {
        let v = instr & 0xFF;
        0x20 <= v && v <= 0x25
    } else {
        true
    }
}

/// A string that did not stop for a poll reads the same with more polls.
pub proof fn lemma_string_more_polls(
    m: Machine,
    index: u16,
    polls: Seq<Option<u8>>,
    extra: Seq<Option<u8>>,
    used: nat,
    packed: bool,
)
    ensures
        !(string_spec(m, index, polls, used, packed) is NeedPoll) ==> string_spec(
            m,
            index,
            polls + extra,
            used,
            packed,
        ) == string_spec(m, index, polls, used, packed),
    decreases 0x10000 - index,
{
    vm::lemma_read_more_polls(m, index, polls, extra, used);
    if let Some((m2, c, u2)) = vm::read_spec(m, index, polls, used) {
        if c != 0 && index != 0xFFFF {
            lemma_string_more_polls(m2, (index + 1) as u16, polls, extra, u2, packed);
        }
    }
}

/// An instruction that did not stop for a poll runs the same with more polls.
pub proof fn lemma_exec_more_polls(
    m: Machine,
    instr: u16,
    polls: Seq<Option<u8>>,
    extra: Seq<Option<u8>>,
    used: nat,
)
    requires
        m.wf(),
    ensures
        !(exec_spec(m, instr, polls, used) is NeedPoll) ==> exec_spec(m, instr, polls + extra, used)
            == exec_spec(m, instr, polls, used),
{
    let a9 = wrap_add(m.regs.pc, offset9(instr));
    let a6 = wrap_add(m.regs.spec_get(sr1_field(instr)), offset6(instr));
    vm::lemma_read_more_polls(m, a9, polls, extra, used);
    vm::lemma_read_more_polls(m, a6, polls, extra, used);
    if let Some((m2, a, u2)) = vm::read_spec(m, a9, polls, used) {
        vm::lemma_read_more_polls(m2, a, polls, extra, u2);
    }
    let m1 = m.with_regs(Registers { r7: m.regs.pc, ..m.regs });
    lemma_string_more_polls(m1, m1.regs.r0, polls, extra, used, false);
    lemma_string_more_polls(m1, m1.regs.r0, polls, extra, used, true);
}

/// Decoding is exact: the opcode found in an instruction has the number of
/// its top four bits, and each opcode number decodes to its opcode.
pub proof fn lemma_opcode_roundtrip(instr: u16, op: InstructionSet)
    ensures
        opcode_number(opcode_of(instr)) == instr >> 12u16,
        opcode_from_number(opcode_number(op)) == op,
{
    lemma_fields(instr);
}

/// JSR and JSRR save the address of the next instruction in R7 before they
/// jump; TRAP saves it likewise for every routine.
pub proof fn lemma_linkage(m: Machine, instr: u16, polls: Seq<Option<u8>>, used: nat)
    ensures
        jsr_spec(m, instr).regs.r7 == m.regs.pc,
        known_trap(instr) ==> match trap_spec(m, instr, polls, used) {
            Run::Done(m2, _, _) => m2.regs.r7 == m.regs.pc,
            Run::Fault(m2, _) => m2.regs.r7 == m.regs.pc,
            Run::NeedPoll => true,
        },
{
    let m1 = m.with_regs(Registers { r7: m.regs.pc, ..m.regs });
    lemma_string_keeps_regs(m1, m1.regs.r0, polls, used, false);
    lemma_string_keeps_regs(m1, m1.regs.r0, polls, used, true);
}

/// Reading a string changes no register.
pub proof fn lemma_string_keeps_regs(
    m: Machine,
    index: u16,
    polls: Seq<Option<u8>>,
    used: nat,
    packed: bool,
)
    ensures
        match string_spec(m, index, polls, used, packed) {
            StrRun::Done(m2, _, _) => m2.regs == m.regs,
            StrRun::Overflow(m2, _) => m2.regs == m.regs,
            StrRun::NeedPoll => true,
        },
    decreases 0x10000 - index,
{
    if let Some((m2, c, u2)) = vm::read_spec(m, index, polls, used) {
        if c != 0 && index != 0xFFFF {
            lemma_string_keeps_regs(m2, (index + 1) as u16, polls, u2, packed);
        }
    }
}

/// HALT stops the machine.
pub proof fn lemma_halt_stops(m: Machine, instr: u16, polls: Seq<Option<u8>>, used: nat)
    requires
        trap_vector(instr) == 0x25,
    ensures
        trap_spec(m, instr, polls, used) matches Run::Done(m2, _, Effect::Halt) && !m2.running,
{
}

/// BR with all of n, z and p tested always branches once the condition codes
/// hold a flag; BR with none tested never branches.
pub proof fn lemma_branch(m: Machine, instr: u16)
    ensures
        cond_field(instr) == 7 && (m.regs.cond == 1 || m.regs.cond == 2 || m.regs.cond == 4)
            ==> br_spec(m, instr).regs.pc == wrap_add(m.regs.pc, offset9(instr)),
        cond_field(instr) == 0 ==> br_spec(m, instr) == m,
{
    let c = m.regs.cond;
    assert((c == 1 || c == 2 || c == 4) ==> (7u16 & c) != 0) by (bit_vector);
    assert((0u16 & c) == 0) by (bit_vector);
}

/// LDI loads through a pointer: when neither the pointer's address nor the
/// address it holds is a keyboard register, DR gets the word at the address
/// held at PC + offset9, and memory is unchanged.
pub proof fn lemma_ldi_indirect(m: Machine, instr: u16, polls: Seq<Option<u8>>, used: nat)
    requires
        m.wf(),
        ({
            let p = wrap_add(m.regs.pc, offset9(instr));
            p != KBSR && p != KBDR && m.word(p) != KBSR && m.word(p) != KBDR
        }),
    ensures
        ({
            let p = wrap_add(m.regs.pc, offset9(instr));
            let target = m.word(m.word(p));
            ldi_spec(m, instr, polls, used) == Some((set_dr(m, instr, target), used))
        }),
{
}

/// Showing a string never halts the machine: its only effect is output.
pub proof fn lemma_string_effect(
    m: Machine,
    index: u16,
    polls: Seq<Option<u8>>,
    used: nat,
    packed: bool,
)
    ensures
        match string_run(string_spec(m, index, polls, used, packed)) {
            Run::Done(_, _, e) => e != Effect::Halt,
            _ => true,
        },
{
    match string_spec(m, index, polls, used, packed) {
        StrRun::Done(_, _, s) => {
            assert(Effect::Output(s) != Effect::Halt);
        },
        _ => {},
    }
}

} // verus!
