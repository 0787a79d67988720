# synacor

A verified library for the Synacor Challenge: the 15-bit word arithmetic of
the architecture, instruction decoding, memory, the virtual machine step, a
disassembler, and the helpers that solve the puzzles inside the game (the coin
equation, the register-7 test and the vault maze). The library in `src/` is
written in Verus; every function carries a contract that Verus proves.

Layout:

- `src/u15.rs` — machine words and their arithmetic modulo 32768.
- `src/vm.rs` — operands, instructions, decoding, memory.
- `src/listing.rs` — the text of instructions and the disassembly listing,
  which covers the given range to its last cell.
- `src/machine.rs` — the machine state and one step of execution; input and
  output are reported to the caller as events.
- `src/text.rs` — decimal rendering.
- `src/ackermann.rs` — the register-7 test with its memo table, and the
  search for the register value that makes it return 6.
- `src/coins.rs`, `src/heap.rs` — the coin puzzle, its solver and Heap's
  algorithm, with the proof that it lists `n!` distinct orders.
- `src/maze.rs` — the vault maze search, with proofs that it finds exactly
  the walks that open the door.
- `app/main.rs` — the command line: runs the machine on a binary image
  (`vm [image]`), `coin-solver`, `r7`, `maze`, `disassemble [image [out]]`.
