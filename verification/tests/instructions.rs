use lc3_vm::hardware::instruction::{
    add, and, br, get_op_code, is_supported, jmp, jsr, ld, ldi, ldr, lea, not, sign_extend, st, sti,
    str, ConditionFlag, InstructionSet,
};
use lc3_vm::hardware::register::{Registers, PC_START};
use lc3_vm::hardware::vm::{VM, KBSR, KBDR, MEMORY_SIZE};

const POS: u16 = 1;
const ZRO: u16 = 2;
const NEG: u16 = 4;

#[test]
fn sign_extend_positive_field_is_unchanged() {
    assert_eq!(sign_extend(0x0F, 5), 0x000F);
    assert_eq!(sign_extend(0x00FF, 9), 0x00FF);
    assert_eq!(sign_extend(0, 6), 0);
}

#[test]
fn sign_extend_negative_field_fills_high_bits() {
    assert_eq!(sign_extend(0x1F, 5), 0xFFFF);
    assert_eq!(sign_extend(0x10, 5), 0xFFF0);
    assert_eq!(sign_extend(0x100, 9), 0xFF00);
    assert_eq!(sign_extend(0x7FF, 11), 0xFFFF);
    assert_eq!(sign_extend(0x20, 6), 0xFFE0);
}

#[test]
fn sign_extend_edge_widths() {
    assert_eq!(sign_extend(1, 1), 0xFFFF);
    assert_eq!(sign_extend(0x7FFF, 16), 0x7FFF);
    assert_eq!(sign_extend(0x4000, 15), 0xC000);
}

#[test]
fn op_codes_come_from_the_top_four_bits() {
    let expected = [
        InstructionSet::BR,
        InstructionSet::ADD,
        InstructionSet::LD,
        InstructionSet::ST,
        InstructionSet::JSR,
        InstructionSet::AND,
        InstructionSet::LDR,
        InstructionSet::STR,
        InstructionSet::RTI,
        InstructionSet::NOT,
        InstructionSet::LDI,
        InstructionSet::STI,
        InstructionSet::JMP,
        InstructionSet::RES,
        InstructionSet::LEA,
        InstructionSet::TRAP,
    ];
    for (code, op) in expected.iter().enumerate() {
        let instr = ((code as u16) << 12) | 0x0ABC;
        assert_eq!(get_op_code(&instr), Some(op.clone()));
    }
}

#[test]
fn condition_flag_bits() {
    assert_eq!(ConditionFlag::POS.bits(), 1);
    assert_eq!(ConditionFlag::ZRO.bits(), 2);
    assert_eq!(ConditionFlag::NEG.bits(), 4);
}

#[test]
fn supported_instructions() {
    assert!(is_supported(0x1401));
    assert!(!is_supported(0x8000));
    assert!(!is_supported(0xD000));
    assert!(is_supported(0xF020));
    assert!(is_supported(0xF025));
    assert!(!is_supported(0xF026));
    assert!(!is_supported(0xF01F));
}

#[test]
fn registers_start_zero_at_pc_start() {
    let r = Registers::new();
    for i in 0..8 {
        assert_eq!(r.get(i), 0);
    }
    assert_eq!(r.pc, PC_START);
    assert_eq!(r.pc, 0x3000);
    assert_eq!(r.cond, 0);
}

#[test]
fn register_update_then_get() {
    let mut r = Registers::new();
    r.update(3, 42);
    r.update(8, 0x4000);
    r.update(9, 4);
    assert_eq!(r.get(3), 42);
    assert_eq!(r.r3, 42);
    assert_eq!(r.get(2), 0);
    assert_eq!(r.pc, 0x4000);
    assert_eq!(r.get(8), 0x4000);
    assert_eq!(r.get(9), 4);
}

#[test]
fn condition_register_follows_sign() {
    let mut r = Registers::new();
    r.update(1, 0);
    r.update_r_cond_register(1);
    assert_eq!(r.cond, ZRO);
    r.update(1, 0x8000);
    r.update_r_cond_register(1);
    assert_eq!(r.cond, NEG);
    r.update(1, 0x7FFF);
    r.update_r_cond_register(1);
    assert_eq!(r.cond, POS);
}

fn machine() -> VM {
    VM::new()
}

#[test]
fn new_machine_is_zeroed_and_running() {
    let vm = machine();
    assert_eq!(vm.memory.len(), MEMORY_SIZE);
    assert!(vm.memory.iter().all(|w| *w == 0));
    assert!(vm.running);
    assert_eq!(vm.registers, Registers::new());
    let d = VM::default();
    assert_eq!(d.memory.len(), MEMORY_SIZE);
    assert!(d.running);
}

#[test]
fn add_register_mode() {
    let mut vm = machine();
    vm.registers.r0 = 3;
    vm.registers.r1 = 4;
    // ADD R2, R0, R1
    add(0x1401, &mut vm);
    assert_eq!(vm.registers.r2, 7);
    assert_eq!(vm.registers.cond, POS);
}

#[test]
fn add_immediate_negative_decrements() {
    let mut vm = machine();
    vm.registers.r1 = 1;
    // ADD R1, R1, #-1
    add(0x127F, &mut vm);
    assert_eq!(vm.registers.r1, 0);
    assert_eq!(vm.registers.cond, ZRO);
    add(0x127F, &mut vm);
    assert_eq!(vm.registers.r1, 0xFFFF);
    assert_eq!(vm.registers.cond, NEG);
}

#[test]
fn add_wraps_around() {
    let mut vm = machine();
    vm.registers.r0 = 0xFFFF;
    vm.registers.r1 = 1;
    add(0x1401, &mut vm);
    assert_eq!(vm.registers.r2, 0);
    assert_eq!(vm.registers.cond, ZRO);
}

#[test]
fn and_register_and_immediate() {
    let mut vm = machine();
    vm.registers.r0 = 0b1100;
    vm.registers.r1 = 0b1010;
    // AND R2, R0, R1
    and(0x5401, &mut vm);
    assert_eq!(vm.registers.r2, 0b1000);
    assert_eq!(vm.registers.cond, POS);
    // AND R0, R0, #0
    and(0x5020, &mut vm);
    assert_eq!(vm.registers.r0, 0);
    assert_eq!(vm.registers.cond, ZRO);
    // AND R3, R1, #-1 (all ones)
    and(0x567F, &mut vm);
    assert_eq!(vm.registers.r3, 0b1010);
}

#[test]
fn not_complements() {
    let mut vm = machine();
    vm.registers.r2 = 0x00FF;
    // NOT R1, R2
    not(0x92BF, &mut vm);
    assert_eq!(vm.registers.r1, 0xFF00);
    assert_eq!(vm.registers.cond, NEG);
    // NOT R1, R1 twice gives the value back
    not(0x927F, &mut vm);
    assert_eq!(vm.registers.r1, 0x00FF);
    assert_eq!(vm.registers.cond, POS);
}

#[test]
fn branch_taken_and_not_taken() {
    let mut vm = machine();
    vm.registers.pc = 0x3001;
    vm.registers.cond = ZRO;
    // BRz #3
    br(0x0403, &mut vm);
    assert_eq!(vm.registers.pc, 0x3004);
    vm.registers.cond = POS;
    br(0x0403, &mut vm);
    assert_eq!(vm.registers.pc, 0x3004);
    // BRnzp #-1
    br(0x0FFF, &mut vm);
    assert_eq!(vm.registers.pc, 0x3003);
    // BR with no condition tested never branches
    br(0x0005, &mut vm);
    assert_eq!(vm.registers.pc, 0x3003);
}

#[test]
fn jump_and_return() {
    let mut vm = machine();
    vm.registers.r3 = 0x4000;
    vm.registers.r7 = 0x3010;
    // JMP R3
    jmp(0xC0C0, &mut vm);
    assert_eq!(vm.registers.pc, 0x4000);
    // RET
    jmp(0xC1C0, &mut vm);
    assert_eq!(vm.registers.pc, 0x3010);
}

#[test]
fn jsr_links_and_jumps() {
    let mut vm = machine();
    vm.registers.pc = 0x3001;
    // JSR #5
    jsr(0x4805, &mut vm);
    assert_eq!(vm.registers.r7, 0x3001);
    assert_eq!(vm.registers.pc, 0x3006);
    vm.registers.r2 = 0x5000;
    // JSRR R2
    jsr(0x4080, &mut vm);
    assert_eq!(vm.registers.r7, 0x3006);
    assert_eq!(vm.registers.pc, 0x5000);
    // JSRR R7 jumps to the linked address
    jsr(0x41C0, &mut vm);
    assert_eq!(vm.registers.r7, 0x5000);
    assert_eq!(vm.registers.pc, 0x5000);
}

#[test]
fn jsr_backwards_offset() {
    let mut vm = machine();
    vm.registers.pc = 0x3001;
    // JSR #-1
    jsr(0x4FFF, &mut vm);
    assert_eq!(vm.registers.pc, 0x3000);
    assert_eq!(vm.registers.r7, 0x3001);
}

#[test]
fn lea_loads_address() {
    let mut vm = machine();
    vm.registers.pc = 0x3001;
    // LEA R0, #3
    lea(0xE003, &mut vm);
    assert_eq!(vm.registers.r0, 0x3004);
    assert_eq!(vm.registers.cond, POS);
}

#[test]
fn ld_loads_pc_relative() {
    let mut vm = machine();
    vm.registers.pc = 0x3001;
    vm.memory[0x3003] = 0x8001;
    let mut used = 0;
    // LD R3, #2
    assert!(ld(0x2602, &mut vm, &[], &mut used));
    assert_eq!(vm.registers.r3, 0x8001);
    assert_eq!(vm.registers.cond, NEG);
    assert_eq!(used, 0);
}

#[test]
fn ldr_loads_base_relative() {
    let mut vm = machine();
    vm.registers.r2 = 0x4002;
    vm.memory[0x4000] = 9;
    let mut used = 0;
    // LDR R4, R2, #-2
    assert!(ldr(0x68BE, &mut vm, &[], &mut used));
    assert_eq!(vm.registers.r4, 9);
    assert_eq!(vm.registers.cond, POS);
}

#[test]
fn ldi_loads_indirect() {
    let mut vm = machine();
    vm.registers.pc = 0x3000;
    vm.memory[0x3020] = 0x9000;
    vm.memory[0x9000] = 42;
    let mut used = 0;
    // LDI R0, #0x20
    assert!(ldi(0xA020, &mut vm, &[], &mut used));
    assert_eq!(vm.registers.r0, 42);
    assert_eq!(vm.registers.cond, POS);
}

#[test]
fn st_sti_str_store_register_contents() {
    let mut vm = machine();
    vm.registers.pc = 0x3001;
    vm.registers.r1 = 0xBEEF;
    vm.registers.r2 = 0x4000;
    // ST R1, #4
    st(0x3204, &mut vm);
    assert_eq!(vm.memory[0x3005], 0xBEEF);
    // STR R1, R2, #3
    str(0x7283, &mut vm);
    assert_eq!(vm.memory[0x4003], 0xBEEF);
    // STI R1, #1: the address is at PC + 1
    vm.memory[0x3002] = 0x5000;
    let mut used = 0;
    assert!(sti(0xB201, &mut vm, &[], &mut used));
    assert_eq!(vm.memory[0x5000], 0xBEEF);
}

#[test]
fn load_from_keyboard_status_needs_a_poll() {
    let mut vm = machine();
    vm.registers.pc = 0x3001;
    vm.memory[0x3002] = KBSR;
    let before = vm.clone();
    let mut used = 0;
    // LDI R0, #1 reads KBSR through the pointer at PC + 1
    assert!(!ldi(0xA001, &mut vm, &[], &mut used));
    assert_eq!(vm.memory, before.memory);
    assert_eq!(vm.registers, before.registers);
    assert_eq!(used, 0);
    assert!(ldi(0xA001, &mut vm, &[Some(b'x')], &mut used));
    assert_eq!(used, 1);
    assert_eq!(vm.registers.r0, 0x8000);
    assert_eq!(vm.memory[KBDR as usize], b'x' as u16);
    assert_eq!(vm.registers.cond, NEG);
}

#[test]
fn ldi_second_read_needing_a_poll_changes_nothing() {
    let mut vm = machine();
    // The pointer is read from KBDR (which clears KBSR), and KBDR holds KBSR.
    vm.registers.pc = KBDR - 1;
    vm.memory[KBDR as usize] = KBSR;
    vm.memory[KBSR as usize] = 0x8000;
    let before = vm.clone();
    let mut used = 0;
    assert!(!ldi(0xA001, &mut vm, &[], &mut used));
    assert_eq!(vm.memory, before.memory);
    assert_eq!(vm.registers, before.registers);
    assert_eq!(used, 0);
    assert!(ldi(0xA001, &mut vm, &[None], &mut used));
    assert_eq!(used, 1);
    assert_eq!(vm.registers.r0, 0);
    assert_eq!(vm.registers.cond, ZRO);
}
