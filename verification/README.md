# riscv_emulator

A RISC-V (RV64IMAC subset) emulator whose core is verified with Verus.

- `src/` is the library, verified: the bus (DRAM and the CLINT), the
  decoder for 32-bit and compressed encodings (with the C extension's
  expansion table, `expand`, against which the compressed decoder is
  proved), the interpreter, the riscv-tests pass/fail harness, Linux
  user-mode emulation (write/exit), the parser and lockstep comparator for
  Spike commit logs, the ELF loader (over the `object` crate) and the text
  forms of instructions, exceptions and outcomes.
- `tests/` exercises the library on concrete programs.
- `app/` is the command-line program: `riscv-emulator <ELF>` runs a
  riscv-tests binary with a trace (or a Linux program), and
  `riscv-emulator difftest <ELF>` compares a run against Spike.

The semantics of one instruction is `cpu::Machine::exec`; `Cpu::execute`,
`Cpu::step`, the three run loops and their one-turn forms (`linux::step`,
which hands guest writes to the host, and `harness::trace_step`) are proved
to follow it, and the laws (`law_*` proof functions) state what holds of
every execution.
