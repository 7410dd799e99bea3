use lc3_vm::hardware::instruction::{
    execute_instruction, trap, trap_getc, trap_halt, trap_out, trap_puts, trap_putsp, Exit, Outcome,
    Request,
};
use lc3_vm::hardware::vm::{execute_program, load_image, step, VM, KBDR, KBSR, MCR};

fn machine() -> VM {
    VM::new()
}

fn place(vm: &mut VM, at: u16, words: &[u16]) {
    for (i, w) in words.iter().enumerate() {
        vm.memory[at as usize + i] = *w;
    }
}

#[test]
fn write_then_read_plain_address() {
    let mut vm = machine();
    vm.write_memory(0x4000, 1234);
    let mut used = 0;
    assert_eq!(vm.read_memory(0x4000, &[], &mut used), Some(1234));
    assert_eq!(vm.read_memory(0x4001, &[], &mut used), Some(0));
    assert_eq!(used, 0);
    assert!(vm.running);
}

#[test]
fn write_to_mcr_with_bit_15_clear_stops() {
    let mut vm = machine();
    vm.write_memory(MCR, 0x8000);
    assert!(vm.running);
    vm.write_memory(MCR, 0x7FFF);
    assert!(!vm.running);
    assert_eq!(vm.memory[MCR as usize], 0x7FFF);
}

#[test]
fn keyboard_poll_latches_key() {
    let mut vm = machine();
    let mut used = 0;
    assert_eq!(vm.read_memory(KBSR, &[], &mut used), None);
    assert_eq!(used, 0);
    assert_eq!(vm.read_memory(KBSR, &[Some(b'q')], &mut used), Some(0x8000));
    assert_eq!(used, 1);
    // A waiting key is not overwritten, and needs no poll.
    let mut used2 = 0;
    assert_eq!(vm.read_memory(KBSR, &[], &mut used2), Some(0x8000));
    vm.handle_keyboard(Some(b'z'));
    assert_eq!(vm.memory[KBDR as usize], b'q' as u16);
    // Reading the data register consumes the key.
    assert_eq!(vm.read_memory(KBDR, &[], &mut used2), Some(b'q' as u16));
    assert_eq!(vm.memory[KBSR as usize], 0);
}

#[test]
fn keyboard_poll_without_key_clears_status() {
    let mut vm = machine();
    vm.memory[KBSR as usize] = 0x0001;
    let mut used = 0;
    assert_eq!(vm.read_memory(KBSR, &[None], &mut used), Some(0));
    assert_eq!(vm.memory[KBSR as usize], 0);
    assert_eq!(used, 1);
}

#[test]
fn trap_out_shows_low_byte_of_r0() {
    let mut vm = machine();
    vm.registers.r0 = 0x1241;
    assert_eq!(trap_out(&vm), Request::Output(vec![0x41]));
}

#[test]
fn trap_puts_one_char_per_word() {
    let mut vm = machine();
    place(&mut vm, 0x4000, &[b'H' as u16, b'i' as u16, 0x0121, 0]);
    vm.registers.r0 = 0x4000;
    let mut used = 0;
    let out = trap_puts(&mut vm, &[], &mut used);
    assert_eq!(out, Outcome::Done(Request::Output(vec![b'H', b'i', 0x21])));
}

#[test]
fn trap_putsp_two_chars_per_word() {
    let mut vm = machine();
    // "Hel" "lo": low byte first; a zero high byte is not shown.
    place(&mut vm, 0x4000, &[0x6548, 0x6C6C, 0x006F, 0]);
    vm.registers.r0 = 0x4000;
    let mut used = 0;
    let out = trap_putsp(&mut vm, &[], &mut used);
    assert_eq!(out, Outcome::Done(Request::Output(b"Hello".to_vec())));
}

#[test]
fn trap_puts_empty_string() {
    let mut vm = machine();
    vm.registers.r0 = 0x4000;
    let mut used = 0;
    assert_eq!(trap_puts(&mut vm, &[], &mut used), Outcome::Done(Request::Output(vec![])));
}

#[test]
fn trap_puts_overflow_at_end_of_memory() {
    let mut vm = machine();
    place(&mut vm, 0xFFFE, &[b'a' as u16, b'b' as u16]);
    vm.registers.r0 = 0xFFFE;
    let mut used = 0;
    assert_eq!(trap_puts(&mut vm, &[], &mut used), Outcome::IndexOverflow(vec![b'a', b'b']));
}

#[test]
fn trap_puts_through_keyboard_status_needs_poll() {
    let mut vm = machine();
    vm.registers.r0 = KBSR - 1;
    vm.memory[(KBSR - 1) as usize] = b'>' as u16;
    let before = vm.clone();
    let mut used = 0;
    assert_eq!(trap_puts(&mut vm, &[], &mut used), Outcome::NeedPoll);
    assert_eq!(vm.memory, before.memory);
    assert_eq!(used, 0);
    // No key: the status word reads 0, which ends the string.
    assert_eq!(trap_puts(&mut vm, &[None], &mut used), Outcome::Done(Request::Output(vec![b'>'])));
}

#[test]
fn trap_saves_pc_in_r7() {
    let mut vm = machine();
    vm.registers.pc = 0x3005;
    vm.registers.r0 = b'A' as u16;
    let mut used = 0;
    assert_eq!(trap(0xF021, &mut vm, &[], &mut used), Outcome::Done(Request::Output(vec![b'A'])));
    assert_eq!(vm.registers.r7, 0x3005);
    assert_eq!(trap(0xF020, &mut vm, &[], &mut used), Outcome::Done(Request::ReadChar));
    assert_eq!(trap(0xF023, &mut vm, &[], &mut used), Outcome::Done(Request::ReadCharEchoed));
}

#[test]
fn trap_halt_stops() {
    let mut vm = machine();
    assert_eq!(trap_halt(&mut vm), Request::Halt);
    assert!(!vm.running);
    let mut vm2 = machine();
    let mut used = 0;
    assert_eq!(trap(0xF025, &mut vm2, &[], &mut used), Outcome::Done(Request::Halt));
    assert!(!vm2.running);
}

#[test]
fn trap_getc_stores_byte_or_stops() {
    let mut vm = machine();
    vm.registers.cond = 1;
    trap_getc(&mut vm, Some(b'k'));
    assert_eq!(vm.registers.r0, b'k' as u16);
    assert_eq!(vm.registers.cond, 1);
    assert!(vm.running);
    trap_getc(&mut vm, None);
    assert!(!vm.running);
    assert_eq!(vm.registers.r0, b'k' as u16);
}

#[test]
fn execute_instruction_dispatches() {
    let mut vm = machine();
    vm.registers.r0 = 2;
    vm.registers.r1 = 5;
    let mut used = 0;
    assert_eq!(execute_instruction(0x1401, &mut vm, &[], &mut used), Outcome::Done(Request::Nothing));
    assert_eq!(vm.registers.r2, 7);
    vm.registers.pc = 0x3001;
    vm.memory[0x3003] = 11;
    assert_eq!(execute_instruction(0x2602, &mut vm, &[], &mut used), Outcome::Done(Request::Nothing));
    assert_eq!(vm.registers.r3, 11);
}

#[test]
fn step_fetches_and_advances_pc() {
    let mut vm = machine();
    // ADD R0, R0, #5
    place(&mut vm, 0x3000, &[0x1025]);
    assert_eq!(step(&mut vm, &[]), Outcome::Done(Request::Nothing));
    assert_eq!(vm.registers.r0, 5);
    assert_eq!(vm.registers.pc, 0x3001);
}

#[test]
fn step_pc_wraps() {
    let mut vm = machine();
    vm.registers.pc = 0xFFFF;
    vm.memory[0xFFFF] = 0x1025;
    assert_eq!(step(&mut vm, &[]), Outcome::Done(Request::Nothing));
    assert_eq!(vm.registers.pc, 0);
}

#[test]
fn step_reports_invalid_opcode_and_unknown_trap() {
    let mut vm = machine();
    place(&mut vm, 0x3000, &[0x8000, 0xD000, 0xF0FF]);
    assert_eq!(step(&mut vm, &[]), Outcome::InvalidOpcode);
    assert_eq!(step(&mut vm, &[]), Outcome::InvalidOpcode);
    assert_eq!(step(&mut vm, &[]), Outcome::UnknownTrap);
}

#[test]
fn step_needing_poll_changes_nothing() {
    let mut vm = machine();
    // LDI R0, #0 with the pointer holding KBSR
    place(&mut vm, 0x3000, &[0xA000, KBSR]);
    let before = vm.clone();
    assert_eq!(step(&mut vm, &[]), Outcome::NeedPoll);
    assert_eq!(vm.memory, before.memory);
    assert_eq!(vm.registers, before.registers);
    assert_eq!(step(&mut vm, &[Some(b'7')]), Outcome::Done(Request::Nothing));
    assert_eq!(vm.registers.r0, 0x8000);
    assert_eq!(vm.registers.pc, 0x3001);
}

#[test]
fn execute_program_runs_until_work_for_host() {
    let mut vm = machine();
    // LEA R0, #2 ; PUTS ; HALT ; "Hi"
    place(&mut vm, 0x3000, &[0xE002, 0xF022, 0xF025, b'H' as u16, b'i' as u16, 0]);
    let mut polls = Vec::new();
    assert_eq!(
        execute_program(&mut vm, &mut polls, 100),
        Exit::Paused(Outcome::Done(Request::Output(b"Hi".to_vec())))
    );
    assert_eq!(vm.registers.r7, 0x3002);
    assert_eq!(execute_program(&mut vm, &mut polls, 100), Exit::Paused(Outcome::Done(Request::Halt)));
    assert!(!vm.running);
    assert_eq!(execute_program(&mut vm, &mut polls, 100), Exit::Stopped);
}

#[test]
fn execute_program_respects_step_budget() {
    let mut vm = machine();
    // BRnzp #-1 loops forever once a flag is set
    vm.registers.cond = 2;
    place(&mut vm, 0x3000, &[0x0FFF]);
    let mut polls = Vec::new();
    assert_eq!(execute_program(&mut vm, &mut polls, 10), Exit::OutOfSteps);
    assert_eq!(vm.registers.pc, 0x3000);
    assert_eq!(execute_program(&mut vm, &mut polls, 0), Exit::OutOfSteps);
}

#[test]
fn execute_program_polls_keyboard_then_clears_polls() {
    let mut vm = machine();
    // wait: LDI R1, #3 (KBSR) ; BRzp #-2 ; LDI R0, #2 (KBDR) ; HALT ; KBSR ; KBDR
    place(&mut vm, 0x3000, &[0xA203, 0x07FE, 0xA002, 0xF025, KBSR, KBDR]);
    let mut polls = Vec::new();
    assert_eq!(execute_program(&mut vm, &mut polls, 100), Exit::Paused(Outcome::NeedPoll));
    polls.push(None);
    assert_eq!(execute_program(&mut vm, &mut polls, 100), Exit::Paused(Outcome::NeedPoll));
    assert!(polls.is_empty());
    polls.push(Some(b'y'));
    assert_eq!(execute_program(&mut vm, &mut polls, 100), Exit::Paused(Outcome::Done(Request::Halt)));
    assert_eq!(vm.registers.r0, b'y' as u16);
    assert_eq!(vm.memory[KBSR as usize], 0);
}

#[test]
fn load_image_sets_origin_and_words() {
    let mut vm = machine();
    load_image(&mut vm, &[0x30, 0x00, 0x12, 0x34, 0xAB, 0xCD, 0xFF]);
    assert_eq!(vm.registers.pc, 0x3000);
    assert_eq!(vm.memory[0x3000], 0x1234);
    assert_eq!(vm.memory[0x3001], 0xABCD);
    assert_eq!(vm.memory[0x3002], 0);
}

#[test]
fn load_image_wraps_address() {
    let mut vm = machine();
    load_image(&mut vm, &[0xFF, 0xFF, 0x00, 0x01, 0x00, 0x02]);
    assert_eq!(vm.registers.pc, 0xFFFF);
    assert_eq!(vm.memory[0xFFFF], 1);
    assert_eq!(vm.memory[0], 2);
}

#[test]
fn load_image_to_mcr_can_stop_machine() {
    let mut vm = machine();
    load_image(&mut vm, &[0xFF, 0xFE, 0x00, 0x00]);
    assert!(!vm.running);
}

#[test]
fn step_with_more_polls_than_needed_runs_the_same() {
    let mut a = machine();
    place(&mut a, 0x3000, &[0xA000, KBSR]);
    let mut b = a.clone();
    assert_eq!(step(&mut a, &[Some(b'1')]), Outcome::Done(Request::Nothing));
    assert_eq!(step(&mut b, &[Some(b'1'), Some(b'2'), None]), Outcome::Done(Request::Nothing));
    assert_eq!(a.memory, b.memory);
    assert_eq!(a.registers, b.registers);
    assert_eq!(b.memory[KBDR as usize], b'1' as u16);
}
