//! The architecture: operands, instructions, decoding and the memory.
use vstd::prelude::*;
use crate::u15::U15;

verus! {

broadcast use {U15::lemma_spec_new_view, U15::lemma_view_injective, U15::lemma_inv_range};

/// The largest word a program may hold: 32768..=32775 name the eight registers.
pub const MAX_WM_WORD: u16 = 32775;

/// The number of addressable memory cells.
pub const MEMORY_SIZE: usize = 32768;

/// An operand or a memory cell: a literal value or a register.
#[derive(Debug, Clone, Copy, PartialEq, Eq, Structural)]
pub enum WmWord {
    Constant(U15),
    Register(usize),
}

impl WmWord {
    /// A register operand names one of the eight registers.
    pub open spec fn wf(self) -> bool {
        match self {
            WmWord::Constant(_) => true,
            WmWord::Register(idx) => idx < 8,
        }
    }
}

/// A decoded instruction.
#[derive(Debug, Clone, Copy, PartialEq, Eq, Structural)]
pub enum Op {
    HALT,
    SET(WmWord, WmWord),
    PUSH(WmWord),
    POP(WmWord),
    EQ(WmWord, WmWord, WmWord),
    GT(WmWord, WmWord, WmWord),
    JMP(WmWord),
    JT(WmWord, WmWord),
    JF(WmWord, WmWord),
    ADD(WmWord, WmWord, WmWord),
    MULT(WmWord, WmWord, WmWord),
    MOD(WmWord, WmWord, WmWord),
    AND(WmWord, WmWord, WmWord),
    OR(WmWord, WmWord, WmWord),
    NOT(WmWord, WmWord),
    RMEM(WmWord, WmWord),
    WMEM(WmWord, WmWord),
    CALL(WmWord),
    RET,
    OUT(WmWord),
    IN(WmWord),
    NOOP,
}

/// The value of an operand: a literal is itself, a register holds a value.
pub open spec fn operand_value(val: WmWord, regs: Seq<U15>) -> U15 {
    match val {
        WmWord::Constant(con) => con,
        WmWord::Register(idx) => regs[idx as int],
    }
}

/// Reads an operand against the register file.
pub fn constant_or_register_value(val: WmWord, regs: &[U15; 8]) -> (r: U15)
    requires
        val.wf(),
    ensures
        r == operand_value(val, regs@),
{
    match val {
        WmWord::Constant(con) => con,
        WmWord::Register(idx) => regs[idx],
    }
}

/// How many operands follow an opcode, or `None` for an unknown opcode.
pub open spec fn operand_count(code: u16) -> Option<nat> {
    if code == 0 || code == 18 || code == 21 {
        Some(0)
    } else if code == 2 || code == 3 || code == 6 || code == 17 || code == 19 || code == 20 {
        Some(1)
    } else if code == 1 || code == 7 || code == 8 || code == 14 || code == 15 || code == 16 {
        Some(2)
    } else if code == 4 || code == 5 || (9 <= code && code <= 13) {
        Some(3)
    } else {
        None
    }
}

/// The instruction with a known opcode and the operands that follow it;
/// operands beyond the opcode's count are ignored.
pub open spec fn make_op(code: u16, a: WmWord, b: WmWord, c: WmWord) -> Op {
    if code == 0 { Op::HALT }
    else if code == 1 { Op::SET(a, b) }
    else if code == 2 { Op::PUSH(a) }
    else if code == 3 { Op::POP(a) }
    else if code == 4 { Op::EQ(a, b, c) }
    else if code == 5 { Op::GT(a, b, c) }
    else if code == 6 { Op::JMP(a) }
    else if code == 7 { Op::JT(a, b) }
    else if code == 8 { Op::JF(a, b) }
    else if code == 9 { Op::ADD(a, b, c) }
    else if code == 10 { Op::MULT(a, b, c) }
    else if code == 11 { Op::MOD(a, b, c) }
    else if code == 12 { Op::AND(a, b, c) }
    else if code == 13 { Op::OR(a, b, c) }
    else if code == 14 { Op::NOT(a, b) }
    else if code == 15 { Op::RMEM(a, b) }
    else if code == 16 { Op::WMEM(a, b) }
    else if code == 17 { Op::CALL(a) }
    else if code == 18 { Op::RET }
    else if code == 19 { Op::OUT(a) }
    else if code == 20 { Op::IN(a) }
    else { Op::NOOP }
}

/// The memory cell `k` places after `pc`, addresses wrapping at the end of memory.
pub open spec fn cell_after(mem: Seq<WmWord>, pc: nat, k: nat) -> WmWord {
    mem[((pc + k) % 32768) as int]
}

/// Decoding at `pc`: the address of the next instruction and the instruction,
/// or `None` when the cell holds a register or an unknown opcode (the next
/// address is then the following cell).
pub open spec fn decode(mem: Seq<WmWord>, pc: nat) -> (nat, Option<Op>) {
    match mem[pc as int] {
        WmWord::Constant(code) => match operand_count(code@) {
            Some(k) => (
                (pc + 1 + k) % 32768,
                Some(
                    make_op(
                        code@,
                        cell_after(mem, pc, 1),
                        cell_after(mem, pc, 2),
                        cell_after(mem, pc, 3),
                    ),
                ),
            ),
            None => ((pc + 1) % 32768, None),
        },
        WmWord::Register(_) => ((pc + 1) % 32768, None),
    }
}

/// Every operand of an instruction is well formed.
pub open spec fn op_wf(op: Op) -> bool {
    match op {
        Op::HALT | Op::RET | Op::NOOP => true,
        Op::PUSH(a) | Op::POP(a) | Op::JMP(a) | Op::CALL(a) | Op::OUT(a) | Op::IN(a) => a.wf(),
        Op::SET(a, b) | Op::JT(a, b) | Op::JF(a, b) | Op::NOT(a, b) | Op::RMEM(a, b) | Op::WMEM(
            a,
            b,
        ) => a.wf() && b.wf(),
        Op::EQ(a, b, c) | Op::GT(a, b, c) | Op::ADD(a, b, c) | Op::MULT(a, b, c) | Op::MOD(
            a,
            b,
            c,
        ) | Op::AND(a, b, c) | Op::OR(a, b, c) => a.wf() && b.wf() && c.wf(),
    }
}

/// The memory of the machine: 32768 cells, each a literal or a register.
pub struct Memory {
    memory: Vec<WmWord>,
}

impl View for Memory {
    type V = Seq<WmWord>;

    closed spec fn view(&self) -> Seq<WmWord> {
        self.memory@
    }
}

/// The cell a program word is loaded as: values up to 32767 are literals,
/// 32768..=32775 name registers 0..=7.
pub open spec fn word_of(w: u16) -> WmWord {
    if w <= 32767 {
        WmWord::Constant(U15::spec_new(w))
    } else {
        WmWord::Register((w % 32768) as usize)
    }
}

/// Every cell of a memory image names a register that exists.
pub open spec fn memory_wf(mem: Seq<WmWord>) -> bool {
    &&& mem.len() == 32768
    &&& forall|i: int| 0 <= i < mem.len() ==> (#[trigger] mem[i]).wf()
}

impl Memory {
    /// The memory holds 32768 cells, each well formed.
    pub open spec fn wf(&self) -> bool {
        memory_wf(self@)
    }

    /// A memory of 32768 cells holding zero.
    pub fn new() -> (m: Memory)
        ensures
            m.wf(),
            forall|i: int| 0 <= i < 32768 ==> #[trigger] m@[i] == WmWord::Constant(U15::spec_new(0)),
    {
        let zero = WmWord::Constant(U15::new(0));
        assert(zero == WmWord::Constant(U15::spec_new(0)));
        let mut memory: Vec<WmWord> = Vec::new();
        while memory.len() < MEMORY_SIZE
            invariant
                memory.len() <= 32768,
                forall|i: int| 0 <= i < memory.len() ==> #[trigger] memory@[i] == zero,
            decreases 32768 - memory.len(),
        {
            memory.push(zero);
        }
        Memory { memory }
    }

    /// Loads a program at address 0: word `i` goes to cell `i`, as `word_of` says.
    pub fn load(&mut self, program: &[u16])
        requires
            old(self).wf(),
            program@.len() <= 32768,
            forall|i: int| 0 <= i < program@.len() ==> #[trigger] program@[i] <= MAX_WM_WORD,
        ensures
            final(self).wf(),
            forall|i: int|
                0 <= i < program@.len() ==> #[trigger] final(self)@[i] == word_of(program@[i]),
            forall|i: int| program@.len() <= i < 32768 ==> #[trigger] final(self)@[i] == old(self)@[i],
    {
        let mut idx: usize = 0;
        while idx < program.len()
            invariant
                self.wf(),
                program@.len() <= 32768,
                forall|i: int| 0 <= i < program@.len() ==> #[trigger] program@[i] <= MAX_WM_WORD,
                idx <= program@.len(),
                forall|i: int| 0 <= i < idx ==> #[trigger] self@[i] == word_of(program@[i]),
                forall|i: int| idx <= i < 32768 ==> #[trigger] self@[i] == old(self)@[i],
            decreases program@.len() - idx,
        {
            let w = program[idx];
            let word = if w <= crate::u15::MAX {
                WmWord::Constant(U15::new(w))
            } else {
                WmWord::Register((w % (crate::u15::MAX + 1)) as usize)
            };
            proof {
                if w <= 32767 {
                    assert(word == word_of(w));
                }
            }
            self.memory.set(idx, word);
            idx = idx + 1;
        }
    }

    /// The cell at an address.
    pub fn read_address(&self, address: U15) -> (w: WmWord)
        requires
            self.wf(),
        ensures
            w == self@[address@ as int],
            w.wf(),
    {
        self.memory[address.to_idx()]
    }

    /// Stores a cell at an address.
    pub fn write_address(&mut self, address: U15, val: WmWord)
        requires
            old(self).wf(),
            val.wf(),
        ensures
            final(self).wf(),
            final(self)@ == old(self)@.update(address@ as int, val),
    {
        let idx = address.to_idx();
        self.memory.set(idx, val);
    }
}

/// Decodes the instruction at `pc`: returns the address after it and the
/// instruction, or `None` for a cell that is not a known opcode.
pub fn decode_and_fetch(pc: U15, memory: &Memory) -> (r: (U15, Option<Op>))
    requires
        memory.wf(),
    ensures
        r.0@ == decode(memory@, pc@ as nat).0,
        r.1 == decode(memory@, pc@ as nat).1,
        r.1 matches Some(op) ==> op_wf(op),
{
    proof {
        use_type_invariant(&pc);
    }
    let word = memory.read_address(pc);
    let mut res = (pc + 1u16, None);
    if let WmWord::Constant(op_code) = word {
        let op_code = op_code.to_u16();
        match op_code {
            0 | 18 | 21 => {
                let op = if op_code == 0 {
                    Op::HALT
                } else if op_code == 18 {
                    Op::RET
                } else {
                    Op::NOOP
                };
                res = (pc + 1u16, Some(op));
            },
            2 | 3 | 6 | 17 | 19 | 20 => {
                let a = memory.read_address(pc + 1u16);
                let op = if op_code == 2 {
                    Op::PUSH(a)
                } else if op_code == 3 {
                    Op::POP(a)
                } else if op_code == 6 {
                    Op::JMP(a)
                } else if op_code == 17 {
                    Op::CALL(a)
                } else if op_code == 19 {
                    Op::OUT(a)
                } else {
                    Op::IN(a)
                };
                res = (pc + 2u16, Some(op));
            },
            1 | 7 | 8 | 14 | 15 | 16 => {
                let a = memory.read_address(pc + 1u16);
                let b = memory.read_address(pc + 2u16);
                let op = if op_code == 1 {
                    Op::SET(a, b)
                } else if op_code == 7 {
                    Op::JT(a, b)
                } else if op_code == 8 {
                    Op::JF(a, b)
                } else if op_code == 14 {
                    Op::NOT(a, b)
                } else if op_code == 15 {
                    Op::RMEM(a, b)
                } else {
                    Op::WMEM(a, b)
                };
                res = (pc + 3u16, Some(op));
            },
            4 | 5 | 9 | 10 | 11 | 12 | 13 => {
                let a = memory.read_address(pc + 1u16);
                let b = memory.read_address(pc + 2u16);
                let c = memory.read_address(pc + 3u16);
                let op = if op_code == 4 {
                    Op::EQ(a, b, c)
                } else if op_code == 5 {
                    Op::GT(a, b, c)
                } else if op_code == 9 {
                    Op::ADD(a, b, c)
                } else if op_code == 10 {
                    Op::MULT(a, b, c)
                } else if op_code == 11 {
                    Op::MOD(a, b, c)
                } else if op_code == 12 {
                    Op::AND(a, b, c)
                } else {
                    Op::OR(a, b, c)
                };
                res = (pc + 4u16, Some(op));
            },
            _ => {},
        }
    }
    res
}

/// A read gives back what the last write to its address stored, and a write
/// leaves every other address as it was.
pub proof fn law_read_after_write(mem: Seq<WmWord>, addr: U15, val: WmWord, other: U15)
    requires
        memory_wf(mem),
        addr@ < 32768,
        other@ < 32768,
        val.wf(),
    ensures
        memory_wf(mem.update(addr@ as int, val)),
        mem.update(addr@ as int, val)[addr@ as int] == val,
        other@ != addr@ ==> mem.update(addr@ as int, val)[other@ as int] == mem[other@ as int],
{
}

/// A known opcode decodes to an instruction that takes the opcode's cell and
/// its operands' cells: the next instruction starts that many cells on.
pub proof fn law_decode_length(mem: Seq<WmWord>, pc: nat)
    requires
        memory_wf(mem),
        pc < 32768,
    ensures
        decode(mem, pc).1 matches Some(op) ==> {
            &&& mem[pc as int] matches WmWord::Constant(code)
            &&& operand_count(code@) matches Some(k)
            &&& decode(mem, pc).0 == (pc + 1 + k) % 32768
        },
        decode(mem, pc).1 is None ==> decode(mem, pc).0 == (pc + 1) % 32768,
{
}

/// Loading a word: 0..=32767 is the literal with that value, 32768..=32775
/// names register 0..=7.
pub proof fn law_word_of(w: u16)
    ensures
        w <= 32767 ==> word_of(w) == WmWord::Constant(U15::spec_new(w)) && U15::spec_new(w)@ == w,
        32768 <= w <= 32775 ==> word_of(w) == WmWord::Register((w - 32768) as usize),
{
}

/// The cell holds the literal `code`.
pub open spec fn holds_opcode(cell: WmWord, code: int) -> bool {
    cell matches WmWord::Constant(k) && k@ == code
}

/// The value of an operand: a literal stands for itself, a register for
/// what it holds.
pub proof fn law_operand_value(k: U15, idx: usize, regs: Seq<U15>)
    ensures
        operand_value(WmWord::Constant(k), regs) == k,
        operand_value(WmWord::Register(idx), regs) == regs[idx as int],
{
}

/// The opcode table of the architecture: the instruction each opcode
/// decodes to, its operands being the cells that follow (addresses wrapping
/// at the end of memory), and the address where the next instruction
/// starts; a register or an opcode above 21 does not decode, and the next
/// cell follows.
pub proof fn law_decode_table(mem: Seq<WmWord>, pc: nat)
    requires
        pc < mem.len(),
    ensures
        ({
            let a = mem[((pc + 1) % 32768) as int];
            let b = mem[((pc + 2) % 32768) as int];
            let c = mem[((pc + 3) % 32768) as int];
            let d = decode(mem, pc);
            &&& holds_opcode(mem[pc as int], 0) ==> d.0 == (pc + 1) % 32768 && d.1 == Some(Op::HALT)
            &&& holds_opcode(mem[pc as int], 1) ==> d.0 == (pc + 3) % 32768 && d.1 == Some(Op::SET(a, b))
            &&& holds_opcode(mem[pc as int], 2) ==> d.0 == (pc + 2) % 32768 && d.1 == Some(Op::PUSH(a))
            &&& holds_opcode(mem[pc as int], 3) ==> d.0 == (pc + 2) % 32768 && d.1 == Some(Op::POP(a))
            &&& holds_opcode(mem[pc as int], 4) ==> d.0 == (pc + 4) % 32768 && d.1 == Some(Op::EQ(a, b, c))
            &&& holds_opcode(mem[pc as int], 5) ==> d.0 == (pc + 4) % 32768 && d.1 == Some(Op::GT(a, b, c))
            &&& holds_opcode(mem[pc as int], 6) ==> d.0 == (pc + 2) % 32768 && d.1 == Some(Op::JMP(a))
            &&& holds_opcode(mem[pc as int], 7) ==> d.0 == (pc + 3) % 32768 && d.1 == Some(Op::JT(a, b))
            &&& holds_opcode(mem[pc as int], 8) ==> d.0 == (pc + 3) % 32768 && d.1 == Some(Op::JF(a, b))
            &&& holds_opcode(mem[pc as int], 9) ==> d.0 == (pc + 4) % 32768 && d.1 == Some(Op::ADD(a, b, c))
            &&& holds_opcode(mem[pc as int], 10) ==> d.0 == (pc + 4) % 32768 && d.1 == Some(Op::MULT(a, b, c))
            &&& holds_opcode(mem[pc as int], 11) ==> d.0 == (pc + 4) % 32768 && d.1 == Some(Op::MOD(a, b, c))
            &&& holds_opcode(mem[pc as int], 12) ==> d.0 == (pc + 4) % 32768 && d.1 == Some(Op::AND(a, b, c))
            &&& holds_opcode(mem[pc as int], 13) ==> d.0 == (pc + 4) % 32768 && d.1 == Some(Op::OR(a, b, c))
            &&& holds_opcode(mem[pc as int], 14) ==> d.0 == (pc + 3) % 32768 && d.1 == Some(Op::NOT(a, b))
            &&& holds_opcode(mem[pc as int], 15) ==> d.0 == (pc + 3) % 32768 && d.1 == Some(Op::RMEM(a, b))
            &&& holds_opcode(mem[pc as int], 16) ==> d.0 == (pc + 3) % 32768 && d.1 == Some(Op::WMEM(a, b))
            &&& holds_opcode(mem[pc as int], 17) ==> d.0 == (pc + 2) % 32768 && d.1 == Some(Op::CALL(a))
            &&& holds_opcode(mem[pc as int], 18) ==> d.0 == (pc + 1) % 32768 && d.1 == Some(Op::RET)
            &&& holds_opcode(mem[pc as int], 19) ==> d.0 == (pc + 2) % 32768 && d.1 == Some(Op::OUT(a))
            &&& holds_opcode(mem[pc as int], 20) ==> d.0 == (pc + 2) % 32768 && d.1 == Some(Op::IN(a))
            &&& holds_opcode(mem[pc as int], 21) ==> d.0 == (pc + 1) % 32768 && d.1 == Some(Op::NOOP)
            &&& (mem[pc as int] is Register || (mem[pc as int] matches WmWord::Constant(k) && k@
                > 21)) ==> d.0 == (pc + 1) % 32768 && d.1 is None
        }),
{
}

} // verus!
