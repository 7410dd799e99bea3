use vstd::prelude::*;

use crate::hardware::instruction;
use crate::hardware::instruction::{Exit, Outcome, Request};
use crate::hardware::register::Registers;

verus! {

/// Number of addressable 16-bit words: every `u16` is a valid address.
pub const MEMORY_SIZE: usize = 65536;

/// Keyboard status register: bit 15 is set when a key is waiting.
pub const KBSR: u16 = 0xFE00;

/// Keyboard data register: the waiting key.
pub const KBDR: u16 = 0xFE02;

/// Display status register.
pub const DSR: u16 = 0xFE04;

/// Display data register.
pub const DDR: u16 = 0xFE06;

/// Machine control register: writing a value with bit 15 clear stops the machine.
pub const MCR: u16 = 0xFFFE;

/// The mathematical state of the machine: its memory, its registers, and
/// whether it is running.
#[verifier::ext_equal]
pub struct Machine {
    pub mem: Seq<u16>,
    pub regs: Registers,
    pub running: bool,
}

impl Machine {
    pub open spec fn wf(self) -> bool {
        self.mem.len() == MEMORY_SIZE
    }

    /// The word at `addr`.
    pub open spec fn word(self, addr: u16) -> u16 {
        self.mem[addr as int]
    }

    /// A key is waiting in the keyboard data register.
    pub open spec fn key_waiting(self) -> bool {
        self.word(KBSR) & 0x8000 != 0
    }

    /// The machine with its memory changed at one address.
    pub open spec fn with_word(self, addr: u16, value: u16) -> Machine {
        Machine { mem: self.mem.update(addr as int, value), ..self }
    }

    /// The machine with other registers.
    pub open spec fn with_regs(self, regs: Registers) -> Machine {
        Machine { regs: regs, ..self }
    }
}

/// What the keyboard device does with one poll of the keyboard: a key that is
/// already waiting is kept; otherwise a polled key is latched into `KBDR`
/// with the status bit set, and no key clears the status register.
pub open spec fn keyboard_spec(m: Machine, key: Option<u8>) -> Machine {
    if m.key_waiting() {
        m
    } else {
        match key {
            Some(c) => m.with_word(KBSR, 0x8000).with_word(KBDR, c as u16),
            None => m.with_word(KBSR, 0),
        }
    }
}

/// A read of `addr`, given the keyboard polls `polls` of which `used` were
/// already taken. Reading `KBSR` while no key waits takes the next poll, and
/// is `None` when none is left; reading `KBDR` consumes the key. The result
/// is the machine after the read, the word read, and the polls now used.
pub open spec fn read_spec(m: Machine, addr: u16, polls: Seq<Option<u8>>, used: nat) -> Option<
    (Machine, u16, nat),
> {
    if addr == KBSR {
        if m.key_waiting() {
            Some((m, m.word(KBSR), used))
        } else if used < polls.len() {
            let m2 = keyboard_spec(m, polls[used as int]);
            Some((m2, m2.word(KBSR), used + 1))
        } else {
            None
        }
    } else if addr == KBDR {
        Some((m.with_word(KBSR, 0), m.word(KBDR), used))
    } else {
        Some((m, m.word(addr), used))
    }
}

/// A write of `value` to `addr`: the word is stored, and a value with bit 15
/// clear written to `MCR` stops the machine.
pub open spec fn write_spec(m: Machine, addr: u16, value: u16) -> Machine {
    Machine {
        mem: m.mem.update(addr as int, value),
        regs: m.regs,
        running: if addr == MCR && value & 0x8000 == 0 {
            false
        } else {
            m.running
        },
    }
}

/// A read changes the machine at most in the two keyboard words, and never
/// takes more than one poll.
pub proof fn lemma_read_frame(m: Machine, addr: u16, polls: Seq<Option<u8>>, used: nat)
    requires
        m.wf(),
        read_spec(m, addr, polls, used) is Some,
    ensures
        ({
            let (m2, v, u) = read_spec(m, addr, polls, used).unwrap();
            &&& m2.wf()
            &&& m2.regs == m.regs
            &&& m2.running == m.running
            &&& forall|i: int| 0 <= i < MEMORY_SIZE && i != KBSR && i != KBDR ==> m2.mem[i] == m.mem[i]
            &&& u == used || u == used + 1
        }),
{
}

/// A read that did not need more polls reads the same with more polls.
pub proof fn lemma_read_more_polls(
    m: Machine,
    addr: u16,
    polls: Seq<Option<u8>>,
    extra: Seq<Option<u8>>,
    used: nat,
)
    ensures
        read_spec(m, addr, polls, used) is Some ==> read_spec(m, addr, polls + extra, used)
            == read_spec(m, addr, polls, used),
{
    if addr == KBSR && !m.key_waiting() && used < polls.len() {
        assert((polls + extra)[used as int] == polls[used as int]);
    }
}

/// A read gives back what a write wrote: after `value` is written at `addr`,
/// a read of `addr` (other than the keyboard status register, which the
/// device updates) gives `value`, and a read of any other plain address
/// gives what it gave before.
pub proof fn lemma_write_then_read(
    m: Machine,
    addr: u16,
    value: u16,
    other: u16,
    polls: Seq<Option<u8>>,
    used: nat,
)
    requires
        m.wf(),
    ensures
        addr != KBSR ==> ({
            let r = read_spec(write_spec(m, addr, value), addr, polls, used);
            &&& r is Some
            &&& r.unwrap().1 == value
            &&& r.unwrap().2 == used
        }),
        other != addr && other != KBSR && other != KBDR ==> read_spec(
            write_spec(m, addr, value),
            other,
            polls,
            used,
        ) == Some((write_spec(m, addr, value), m.word(other), used)),
{
}

/// A write changes only the word written, and stops the machine exactly
/// when it writes a value with bit 15 clear to the machine control register.
pub proof fn lemma_write_frame(m: Machine, addr: u16, value: u16)
    requires
        m.wf(),
    ensures
        write_spec(m, addr, value).wf(),
        write_spec(m, addr, value).regs == m.regs,
        forall|i: int| 0 <= i < MEMORY_SIZE && i != addr ==> write_spec(m, addr, value).mem[i] == m.mem[i],
        write_spec(m, addr, value).running == (m.running && !(addr == MCR && value & 0x8000 == 0)),
{
}

/// The keyboard: a key already waiting is never overwritten by a poll; a
/// polled key shows as status 0x8000 and is then read from `KBDR`, and that
/// read consumes it (the status is cleared).
pub proof fn lemma_keyboard(m: Machine, c: u8, key: Option<u8>, polls: Seq<Option<u8>>, used: nat)
    requires
        m.wf(),
    ensures
        m.key_waiting() ==> keyboard_spec(m, key) == m,
        m.key_waiting() ==> read_spec(m, KBSR, polls, used) == Some((m, m.word(KBSR), used)),
        ({
            let p = polls.push(Some(c));
            let n = (p.len() - 1) as nat;
            let r1 = read_spec(m, KBSR, p, n);
            let r2 = read_spec(r1.unwrap().0, KBDR, p, p.len());
            !m.key_waiting() ==> {
                &&& r1 is Some
                &&& r1.unwrap().1 == 0x8000
                &&& r1.unwrap().2 == p.len()
                &&& r2 is Some
                &&& r2.unwrap().1 == c as u16
                &&& !r2.unwrap().0.key_waiting()
            }
        }),
{
    assert((0u16 & 0x8000u16) == 0u16) by (bit_vector);
    assert((0x8000u16 & 0x8000u16) != 0u16) by (bit_vector);
}

/// The LC-3 machine: 65536 words of memory, the registers, and whether it runs.
#[derive(Debug, Clone)]
pub struct VM {
    pub memory: Vec<u16>,
    pub registers: Registers,
    pub running: bool,
}

impl View for VM {
    type V = Machine;

    open spec fn view(&self) -> Machine {
        Machine { mem: self.memory@, regs: self.registers, running: self.running }
    }
}

impl VM {
    /// The memory spans the whole 16-bit address space.
    pub open spec fn wf(&self) -> bool {
        self.memory.len() == MEMORY_SIZE
    }

    /// A machine with all memory zero, fresh registers, and running.
    pub fn new() -> (vm: VM)
        ensures
            vm.wf(),
            forall|i: int| 0 <= i < MEMORY_SIZE ==> vm.memory@[i] == 0,
            vm.registers == Registers::new_spec(),
            vm.running,
    {
        let memory: Vec<u16> = vec![0u16; MEMORY_SIZE];
        VM { memory, registers: Registers::new(), running: true }
    }

    /// Brings the keyboard registers up to date with one poll of the
    /// keyboard, `key`: a key already waiting is not overwritten.
    pub fn handle_keyboard(&mut self, key: Option<u8>)
        requires
            old(self).wf(),
        ensures
            final(self).wf(),
            final(self)@ == keyboard_spec(old(self)@, key),
    {
        if self.memory[KBSR as usize] & 0x8000 != 0 {
            return ;
        }
        match key {
            Some(c) => {
                self.memory.set(KBSR as usize, 0x8000);
                self.memory.set(KBDR as usize, c as u16);
            },
            None => {
                self.memory.set(KBSR as usize, 0);
            },
        }
    }

    /// Reads the word at `address`. Reading `KBSR` while no key waits needs a
    /// poll of the keyboard: it takes `polls[*used]`, or gives `None` and
    /// changes nothing when every poll is used.
    pub fn read_memory(&mut self, address: u16, polls: &[Option<u8>], used: &mut usize) -> (r:
        Option<u16>)
        requires
            old(self).wf(),
            *old(used) <= polls@.len(),
        ensures
            final(self).wf(),
            *final(used) <= polls@.len(),
            match read_spec(old(self)@, address, polls@, *old(used) as nat) {
                Some((m, v, u)) => r == Some(v) && final(self)@ == m && *final(used) == u,
                None => r is None && final(self)@ == old(self)@ && *final(used) == *old(used),
            },
    {
        if address == KBSR {
            if self.memory[KBSR as usize] & 0x8000 != 0 {
                return Some(self.memory[KBSR as usize]);
            }
            if *used < polls.len() {
                let key = polls[*used];
                *used = *used + 1;
                self.handle_keyboard(key);
                Some(self.memory[KBSR as usize])
            } else {
                None
            }
        } else if address == KBDR {
            self.memory.set(KBSR as usize, 0);
            Some(self.memory[KBDR as usize])
        } else {
            Some(self.memory[address as usize])
        }
    }

    /// Writes `value` at `address`; a value with bit 15 clear written to
    /// `MCR` stops the machine.
    pub fn write_memory(&mut self, address: u16, value: u16)
        requires
            old(self).wf(),
        ensures
            final(self).wf(),
            final(self)@ == write_spec(old(self)@, address, value),
    {
        if address == MCR && value & 0x8000 == 0 {
            self.running = false;
        }
        self.memory.set(address as usize, value);
    }
}

/// `o` and `after` are what `run` says, whatever number of polls it used.
pub open spec fn settles(run: instruction::Run, before: Machine, after: Machine, o: instruction::Status) -> bool {
    match run {
        instruction::Run::Done(m, u, e) => o == instruction::Status::Done(e) && after == m,
        instruction::Run::NeedPoll => o == instruction::Status::NeedPoll && after == before,
        instruction::Run::Fault(m, f) => o == instruction::Status::Fault(f) && after == m,
    }
}

/// One machine cycle: fetch the word at PC, advance PC by one (modulo 2^16),
/// and run the instruction, with the keyboard polls `polls` for its reads of
/// `KBSR`. An unsupported instruction is a fault, with the machine as it was
/// after the fetch.
pub open spec fn step_spec(m: Machine, polls: Seq<Option<u8>>) -> instruction::Run {
    match read_spec(m, m.regs.pc, polls, 0) {
        None => instruction::Run::NeedPoll,
        Some((m1, instr, u)) => {
            let m2 = m1.with_regs(Registers { pc: instruction::wrap_add(m1.regs.pc, 1), ..m1.regs });
            if !instruction::supported(instr) {
                instruction::Run::Fault(
                    m2,
                    if instruction::opcode_of(instr) == instruction::InstructionSet::TRAP {
                        instruction::Fault::UnknownTrap
                    } else {
                        instruction::Fault::InvalidOpcode
                    },
                )
            } else {
                instruction::exec_spec(m2, instr, polls, u)
            }
        },
    }
}

/// One machine cycle, as `step_spec` says. On `NeedPoll` nothing changed:
/// the host polls the keyboard, appends the result to `polls`, and steps again.
pub fn step(vm: &mut VM, polls: &[Option<u8>]) -> (r: Outcome)
    requires
        old(vm).wf(),
    ensures
        final(vm).wf(),
        settles(step_spec(old(vm)@, polls@), old(vm)@, final(vm)@, r@),
{
    let ghost before = vm@;
    let kbsr = vm.memory[KBSR as usize];
    let kbdr = vm.memory[KBDR as usize];
    let pc = vm.registers.pc;
    let mut used: usize = 0;
    let instr = match vm.read_memory(pc, polls, &mut used) {
        Some(i) => i,
        None => {
            return Outcome::NeedPoll;
        },
    };
    proof {
        lemma_read_frame(before, pc, polls@, 0);
        instruction::lemma_fields(instr);
    }
    vm.registers.pc = vm.registers.pc.wrapping_add(1);
    if !instruction::is_supported(instr) {
        if (instr >> 12u16) == 15 {
            return Outcome::UnknownTrap;
        } else {
            return Outcome::InvalidOpcode;
        }
    }
    let r = instruction::execute_instruction(instr, vm, polls, &mut used);
    if let Outcome::NeedPoll = r {
        vm.registers.pc = pc;
        instruction::restore_keyboard(vm, kbsr, kbdr, Ghost(before));
    }
    r
}

/// Runs the machine for at most `n` cycles from `m`: it stops when the
/// machine no longer runs, when `n` cycles have run, and at the first cycle
/// that leaves work for the host (a poll, input or output, or a fault).
/// The polls are for the pending cycle; a finished cycle clears them.
pub open spec fn run_spec(m: Machine, polls: Seq<Option<u8>>, n: nat) -> (Machine, Seq<Option<u8>>, instruction::ExitView)
    decreases n,
{
    if !m.running {
        (m, polls, instruction::ExitView::Stopped)
    } else if n == 0 {
        (m, polls, instruction::ExitView::OutOfSteps)
    } else {
        match step_spec(m, polls) {
            instruction::Run::NeedPoll => (m, polls, instruction::ExitView::Paused(instruction::Status::NeedPoll)),
            instruction::Run::Done(m2, _, e) => {
                if e == instruction::Effect::Nothing {
                    run_spec(m2, Seq::empty(), (n - 1) as nat)
                } else {
                    (m2, Seq::empty(), instruction::ExitView::Paused(instruction::Status::Done(e)))
                }
            },
            instruction::Run::Fault(m2, f) => (m2, Seq::empty(), instruction::ExitView::Paused(instruction::Status::Fault(f))),
        }
    }
}

/// Runs the program while the machine runs, for at most `max_steps`
/// cycles, as `run_spec` says; it hands back the work left for the host.
pub fn execute_program(vm: &mut VM, polls: &mut Vec<Option<u8>>, max_steps: u64) -> (r: Exit)
    requires
        old(vm).wf(),
    ensures
        final(vm).wf(),
        ({
            let (m, p, e) = run_spec(old(vm)@, old(polls)@, max_steps as nat);
            &&& final(vm)@ == m
            &&& final(polls)@ == p
            &&& r@ == e
        }),
{
    let mut steps: u64 = 0;
    loop
        invariant
            vm.wf(),
            steps <= max_steps,
            run_spec(old(vm)@, old(polls)@, max_steps as nat) == run_spec(vm@, polls@, (max_steps - steps) as nat),
        decreases max_steps - steps,
    {
        if !vm.running {
            return Exit::Stopped;
        }
        if steps == max_steps {
            return Exit::OutOfSteps;
        }
        let o = step(vm, polls.as_slice());
        match o {
            Outcome::NeedPoll => {
                return Exit::Paused(Outcome::NeedPoll);
            },
            Outcome::Done(Request::Nothing) => {
                polls.clear();
                steps = steps + 1;
            },
            other => {
                polls.clear();
                return Exit::Paused(other);
            },
        }
    }
}

/// The words of an object image: after the two-byte origin, each pair of
/// bytes is one big-endian word; an odd last byte is not part of any word.
pub open spec fn image_words(image: Seq<u8>) -> Seq<u16> {
    Seq::new(
        ((image.len() - 2) / 2) as nat,
        |j: int| (image[2 + 2 * j] as int * 256 + image[3 + 2 * j] as int) as u16,
    )
}

/// The origin of an object image: its first two bytes, big-endian.
pub open spec fn image_origin(image: Seq<u8>) -> u16 {
    (image[0] as int * 256 + image[1] as int) as u16
}

/// `words` written one after another from `addr` on, the address wrapping
/// from 0xFFFF to 0.
pub open spec fn load_words(m: Machine, addr: u16, words: Seq<u16>) -> Machine
    decreases words.len(),
{
    if words.len() == 0 {
        m
    } else {
        load_words(
            write_spec(m, addr, words[0]),
            instruction::wrap_add(addr, 1),
            words.drop_first(),
        )
    }
}

/// Loading an object image: PC is set to its origin and its words are
/// written from the origin on.
pub open spec fn load_spec(m: Machine, image: Seq<u8>) -> Machine {
    let origin = image_origin(image);
    load_words(
        m.with_regs(Registers { pc: origin, ..m.regs }),
        origin,
        image_words(image),
    )
}

fn be_word(high: u8, low: u8) -> (r: u16)
    ensures
        r == (high as int * 256 + low as int) as u16,
{
    let r = ((high as u16) << 8u16) | (low as u16);
    assert(((high as u16) << 8u16) | (low as u16) == high as int * 256 + low as int) by (bit_vector);
    r
}

/// Loads an LC-3 object image: a big-endian origin, then big-endian words
/// stored from the origin on. PC is set to the origin.
pub fn load_image(vm: &mut VM, image: &[u8])
    requires
        old(vm).wf(),
        image@.len() >= 2,
    ensures
        final(vm).wf(),
        final(vm)@ == load_spec(old(vm)@, image@),
{
    let ghost words = image_words(image@);
    let origin = be_word(image[0], image[1]);
    vm.registers.pc = origin;
    let ghost start = vm@;
    let len = image.len();
    let n_words = (len - 2) / 2;
    let mut address = origin;
    let mut k: usize = 0;
    assert(words.skip(0) =~= words);
    while k < n_words
        invariant
            vm.wf(),
            n_words == words.len(),
            image@.len() >= 2,
            image@.len() == len,
            n_words == (image@.len() - 2) / 2,
            words == image_words(image@),
            k <= n_words,
            load_spec(old(vm)@, image@) == load_words(start, origin, words),
            load_words(start, origin, words) == load_words(vm@, address, words.skip(k as int)),
        decreases n_words - k,
    {
        assert(2 * k + 3 < image@.len() + 1) by (nonlinear_arith)
            requires
                k < (image@.len() - 2) / 2,
                image@.len() >= 2,
        ;
        let high_at: usize = 2 * k + 2;
        let word = be_word(image[high_at], image[high_at + 1]);
        assert(words.skip(k as int)[0] == word);
        assert(words.skip(k as int).drop_first() =~= words.skip(k as int + 1));
        vm.write_memory(address, word);
        address = address.wrapping_add(1);
        k = k + 1;
    }
}

impl Default for VM {
    fn default() -> (vm: VM)
        ensures
            vm.wf(),
            forall|i: int| 0 <= i < MEMORY_SIZE ==> vm.memory@[i] == 0,
            vm.registers == Registers::new_spec(),
            vm.running,
    {
        VM::new()
    }
}

/// Restarting a cycle with more polls is safe: a cycle that did not stop
/// for a poll runs the same when more polls are handed in, so the host can
/// keep the polls it has and append one each time a cycle asks for it.
pub proof fn lemma_step_more_polls(m: Machine, polls: Seq<Option<u8>>, extra: Seq<Option<u8>>)
    requires
        m.wf(),
    ensures
        !(step_spec(m, polls) is NeedPoll) ==> step_spec(m, polls + extra) == step_spec(m, polls),
{
    lemma_read_more_polls(m, m.regs.pc, polls, extra, 0);
    if let Some((m1, instr, u)) = read_spec(m, m.regs.pc, polls, 0) {
        lemma_read_frame(m, m.regs.pc, polls, 0);
        let m2 = m1.with_regs(Registers { pc: instruction::wrap_add(m1.regs.pc, 1), ..m1.regs });
        instruction::lemma_exec_more_polls(m2, instr, polls, extra, u);
    }
}

/// Writing words from `addr` on puts word `j` at `(addr + j) mod 2^16` and
/// leaves the rest of memory and the registers as they were, when there are
/// at most 2^16 words.
pub proof fn lemma_load_words(m: Machine, addr: u16, words: Seq<u16>)
    requires
        m.wf(),
        words.len() <= MEMORY_SIZE,
    ensures
        load_words(m, addr, words).wf(),
        load_words(m, addr, words).regs == m.regs,
        forall|j: int|
            0 <= j < words.len() ==> #[trigger] load_words(m, addr, words).mem[(addr + j) % 0x10000]
                == words[j],
        forall|i: int|
            0 <= i < MEMORY_SIZE && (i - addr) % 0x10000 >= words.len() ==> #[trigger] load_words(
                m,
                addr,
                words,
            ).mem[i] == m.mem[i],
    decreases words.len(),
{
    if words.len() > 0 {
        let m1 = write_spec(m, addr, words[0]);
        let next = instruction::wrap_add(addr, 1);
        let rest = words.drop_first();
        lemma_load_words(m1, next, rest);
        let r = load_words(m, addr, words);
        assert(r == load_words(m1, next, rest));
        assert(next == (addr + 1) % 0x10000);
        assert forall|j: int| 0 <= j < words.len() implies #[trigger] r.mem[(addr + j) % 0x10000]
            == words[j] by {
            if j == 0 {
                assert((addr - next) % 0x10000 == 0xFFFF);
                assert(r.mem[addr as int] == m1.mem[addr as int]);
            } else {
                assert((addr + j) % 0x10000 == (next + (j - 1)) % 0x10000);
                assert(r.mem[(next + (j - 1)) % 0x10000] == rest[j - 1]);
            }
        }
        assert forall|i: int|
            0 <= i < MEMORY_SIZE && (i - addr) % 0x10000 >= words.len() implies #[trigger] r.mem[i]
            == m.mem[i] by {
            assert((i - next) % 0x10000 == (i - addr) % 0x10000 - 1);
            assert(i != addr);
        }
    }
}

/// Loading an object image with at most 2^16 words sets PC to its origin
/// and puts word `j` of the image at `origin + j`, modulo 2^16.
pub proof fn lemma_load_image(m: Machine, image: Seq<u8>)
    requires
        m.wf(),
        image.len() >= 2,
        image_words(image).len() <= MEMORY_SIZE,
    ensures
        load_spec(m, image).regs.pc == image_origin(image),
        forall|j: int|
            0 <= j < image_words(image).len() ==> #[trigger] load_spec(m, image).mem[(image_origin(
                image,
            ) + j) % 0x10000] == image_words(image)[j],
{
    let origin = image_origin(image);
    lemma_load_words(m.with_regs(Registers { pc: origin, ..m.regs }), origin, image_words(image));
}

/// A cycle that reports a halt leaves the machine stopped.
pub proof fn lemma_step_halt(m: Machine, polls: Seq<Option<u8>>)
    ensures
        match step_spec(m, polls) {
            instruction::Run::Done(m2, _, e) => e == instruction::Effect::Halt ==> !m2.running,
            _ => true,
        },
{
    if let Some((m1, instr, u)) = read_spec(m, m.regs.pc, polls, 0) {
        let m2 = m1.with_regs(Registers { pc: instruction::wrap_add(m1.regs.pc, 1), ..m1.regs });
        let m3 = m2.with_regs(Registers { r7: m2.regs.pc, ..m2.regs });
        instruction::lemma_string_effect(m3, m3.regs.r0, polls, u, false);
        instruction::lemma_string_effect(m3, m3.regs.r0, polls, u, true);
    }
}

/// Once a run of the program reports the halt, the machine no longer runs,
/// and every later run stops at once, changing nothing.
pub proof fn lemma_halt_is_final(m: Machine, polls: Seq<Option<u8>>, n: nat, later: Seq<Option<u8>>, k: nat)
    ensures
        ({
            let (m2, p2, e) = run_spec(m, polls, n);
            e == instruction::ExitView::Paused(instruction::Status::Done(instruction::Effect::Halt))
                ==> !m2.running && run_spec(m2, later, k) == (m2, later, instruction::ExitView::Stopped)
        }),
    decreases n,
{
    if m.running && n > 0 {
        lemma_step_halt(m, polls);
        if let instruction::Run::Done(m2, _, e) = step_spec(m, polls) {
            if e == instruction::Effect::Nothing {
                lemma_halt_is_final(m2, Seq::empty(), (n - 1) as nat, later, k);
            }
        }
    }
}

} // verus!
