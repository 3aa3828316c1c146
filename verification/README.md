# cs86

A small x86 emulator whose core is verified with Verus.

A program file (`CS86` format) starts with an eight-byte header: the bytes
`CS86`, then in the fifth byte the number of regions. Each region follows as
eight bytes: the virtual address where it is mapped and its offset in the file,
each a little-endian `u32`. A region's bytes run to the next region's offset, or
to the end of the file for the last one.

## Layout

- `src/reg.rs`: registers and their values: general purpose registers and their
  narrower views, segment registers, flag registers, control and debug register
  values, instruction prefixes.
- `src/qemu.rs`: reading the region list of a program file.
- `src/ram.rs`: memory: the regions, a 65535-byte cache of their bytes, and the
  program file's bytes. Reads go through the cache; the proof shows that a
  byte read, where the file is long enough to hold it, is the program file's
  byte at that address. Memory also keeps the lines that reads and cache fills
  print (`reading ...`, `CACHING --- ...`); `RAM::take_log` hands them out.
- `src/cpu.rs` and `src/cpu/`: the processor state and modes, instruction
  fetches and data loads (`rw`), ModR/M and SIB decoding (`decode`), operand
  names (`debug`), control and debug register access (`reg`), model-specific
  registers (`msr`), and execution (`opcodes`).
- `app/main.rs`: the program: opens and locks `test.bin`, reads it, runs one
  instruction and prints, in order, the lines memory logged and the lines the
  instruction gives; a fault stops it with a message.

Where the emulator stops (an overflowing sum, an address no region serves, an
opcode not implemented, a region the cache cannot hold), the library returns a
`Fault` describing it, and the program ends with a panic.
