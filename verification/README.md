# lc3_vm

A virtual machine for the LC-3 educational computer, with its instruction
set, memory and memory-mapped devices proved correct in Verus.

- `src/hardware/register.rs`: the register file (R0-R7, PC, the condition
  register).
- `src/hardware/instruction.rs`: decoding, sign extension, every
  instruction and trap routine, each with a contract over a mathematical
  model of the machine (`Machine`).
- `src/hardware/vm.rs`: memory with the keyboard and machine-control
  registers, the fetch-execute cycle (`step`), bounded runs
  (`execute_program`) and loading of object images.
- `app/`: the program around the library: it reads the image file, polls and
  reads the keyboard and writes to the display.

The library never performs input or output. A cycle that reads the keyboard
status register while no key waits asks the host for a keyboard poll
(`NeedPoll`) without changing the machine; the host appends the poll's result
to the polls it holds and runs the cycle again. Traps that print or read hand
their work back as a `Request`.
