//! The virtual machine: registers, stack, memory and pending input, and the
//! execution of one instruction at a time. Input and output are left to the
//! caller: a step reports a character to print or that input is needed.
use vstd::prelude::*;
use crate::u15::U15;
use crate::vm::{
    constant_or_register_value, decode, decode_and_fetch, op_wf, operand_value,
    word_of, Memory, Op, WmWord, MAX_WM_WORD,
};

verus! {

broadcast use {U15::lemma_spec_new_view, U15::lemma_view_injective, U15::lemma_inv_range};

/// Why execution cannot go on.
#[derive(Debug, Clone, Copy, PartialEq, Eq, Structural)]
pub enum Fault {
    /// The cell at the program counter is not a known opcode.
    UnknownInstruction,
    /// `POP` on an empty stack.
    EmptyStack,
    /// `MOD` by zero.
    DivisionByZero,
    /// `IN` read a character whose code does not fit in 15 bits.
    InvalidInput,
}

/// What one step of the machine asks of its caller.
#[derive(Debug, Clone, Copy, PartialEq, Eq, Structural)]
pub enum Event {
    /// The instruction was executed.
    Continue,
    /// The machine stopped (`HALT`, or `RET` with an empty stack).
    Halt,
    /// The instruction was executed and this character code is to be printed.
    Output(U15),
    /// `IN` found no pending input; nothing was executed.
    NeedInput,
    /// Execution cannot go on; nothing was executed.
    Fault(Fault),
}

/// The state of the machine as a mathematical value.
#[verifier::ext_equal]
pub struct MachineState {
    pub pc: U15,
    pub regs: Seq<U15>,
    pub stack: Seq<U15>,
    pub memory: Seq<WmWord>,
    /// Pending input, the next character last.
    pub input: Seq<char>,
}

/// The virtual machine.
pub struct Machine {
    pub pc: U15,
    /// Registers 0..=7.
    pub regs: [U15; 8],
    pub stack: Vec<U15>,
    pub memory: Memory,
    /// Pending input, the next character last.
    pub input: Vec<char>,
}

impl View for Machine {
    type V = MachineState;

    open spec fn view(&self) -> MachineState {
        MachineState {
            pc: self.pc,
            regs: self.regs@,
            stack: self.stack@,
            memory: self.memory@,
            input: self.input@,
        }
    }
}

/// The registers after storing `v` through the operand `dest`: a register
/// operand receives the value, a literal operand discards it.
pub open spec fn store(regs: Seq<U15>, dest: WmWord, v: U15) -> Seq<U15> {
    match dest {
        WmWord::Register(idx) => regs.update(idx as int, v),
        WmWord::Constant(_) => regs,
    }
}

/// The word 1 if the condition holds, else 0.
pub open spec fn flag(b: bool) -> U15 {
    if b {
        U15::spec_new(1)
    } else {
        U15::spec_new(0)
    }
}

/// The code a character is read as: its scalar value cut to 16 bits.
pub open spec fn char_code(c: char) -> u16 {
    (c as u32) as u16
}

/// The state after an instruction that writes `v` to `dest` and goes on at `next`.
pub open spec fn write_and_advance(s: MachineState, dest: WmWord, v: U15, next: U15) -> MachineState {
    MachineState { pc: next, regs: store(s.regs, dest, v), ..s }
}

/// The effect of executing `op` in state `s`, `next` being the address after it.
pub open spec fn execute(s: MachineState, op: Op, next: U15) -> (MachineState, Event) {
    let val = |w: WmWord| operand_value(w, s.regs);
    let advanced = MachineState { pc: next, ..s };
    match op {
        Op::HALT => (s, Event::Halt),
        Op::SET(dest, b) => (write_and_advance(s, dest, val(b), next), Event::Continue),
        Op::PUSH(a) => (MachineState { stack: s.stack.push(val(a)), ..advanced }, Event::Continue),
        Op::POP(dest) => if s.stack.len() == 0 {
            (s, Event::Fault(Fault::EmptyStack))
        } else {
            (
                MachineState {
                    stack: s.stack.drop_last(),
                    ..write_and_advance(s, dest, s.stack.last(), next)
                },
                Event::Continue,
            )
        },
        Op::EQ(dest, b, c) => (
            write_and_advance(s, dest, flag(val(b) == val(c)), next),
            Event::Continue,
        ),
        Op::GT(dest, b, c) => (
            write_and_advance(s, dest, flag(val(b)@ > val(c)@), next),
            Event::Continue,
        ),
        Op::JMP(a) => (MachineState { pc: val(a), ..s }, Event::Continue),
        Op::JT(cond, dest) => if val(cond)@ != 0 {
            (MachineState { pc: val(dest), ..s }, Event::Continue)
        } else {
            (advanced, Event::Continue)
        },
        Op::JF(cond, dest) => if val(cond)@ == 0 {
            (MachineState { pc: val(dest), ..s }, Event::Continue)
        } else {
            (advanced, Event::Continue)
        },
        Op::ADD(dest, b, c) => (
            write_and_advance(s, dest, U15::spec_new(((val(b)@ + val(c)@) % 32768) as u16), next),
            Event::Continue,
        ),
        Op::MULT(dest, b, c) => (
            write_and_advance(s, dest, U15::spec_new(((val(b)@ * val(c)@) % 32768) as u16), next),
            Event::Continue,
        ),
        Op::MOD(dest, b, c) => if val(c)@ == 0 {
            (s, Event::Fault(Fault::DivisionByZero))
        } else {
            (
                write_and_advance(s, dest, U15::spec_new((val(b)@ % val(c)@) as u16), next),
                Event::Continue,
            )
        },
        Op::AND(dest, b, c) => (
            write_and_advance(s, dest, U15::spec_new(val(b)@ & val(c)@), next),
            Event::Continue,
        ),
        Op::OR(dest, b, c) => (
            write_and_advance(s, dest, U15::spec_new(val(b)@ | val(c)@), next),
            Event::Continue,
        ),
        Op::NOT(dest, b) => (
            write_and_advance(s, dest, U15::spec_new((32767 - val(b)@) as u16), next),
            Event::Continue,
        ),
        Op::RMEM(dest, b) => match s.memory[val(b)@ as int] {
            WmWord::Constant(v) => (write_and_advance(s, dest, v, next), Event::Continue),
            WmWord::Register(_) => (advanced, Event::Continue),
        },
        Op::WMEM(a, b) => (
            MachineState {
                memory: s.memory.update(val(a)@ as int, WmWord::Constant(val(b))),
                ..advanced
            },
            Event::Continue,
        ),
        Op::CALL(a) => (MachineState { pc: val(a), stack: s.stack.push(next), ..s }, Event::Continue),
        Op::RET => if s.stack.len() == 0 {
            (s, Event::Halt)
        } else {
            (MachineState { pc: s.stack.last(), stack: s.stack.drop_last(), ..s }, Event::Continue)
        },
        Op::OUT(a) => (advanced, Event::Output(val(a))),
        Op::IN(dest) => if s.input.len() == 0 {
            (s, Event::NeedInput)
        } else {
            match dest {
                WmWord::Register(idx) => {
                    let code = char_code(s.input.last());
                    if code > 32767 {
                        (s, Event::Fault(Fault::InvalidInput))
                    } else {
                        (
                            MachineState {
                                input: s.input.drop_last(),
                                ..write_and_advance(s, dest, U15::spec_new(code), next)
                            },
                            Event::Continue,
                        )
                    }
                },
                WmWord::Constant(_) => (advanced, Event::Continue),
            }
        },
        Op::NOOP => (advanced, Event::Continue),
    }
}

/// The address where the challenge program tests register 7.
pub const REGISTER_TEST_ADDRESS: u16 = 5451;

/// The value register 7 must hold for the test to pass.
pub const REGISTER_7_VALUE: u16 = 25734;

/// The first cell of the test's code, which is overwritten with `NOOP`s.
pub const REGISTER_TEST_CODE_START: u16 = 5483;

/// The end (exclusive) of the test's code.
pub const REGISTER_TEST_CODE_END: u16 = 5498;

/// The opcode of `NOOP`.
pub const NOOP_CODE: u16 = 21;

/// The state with register 7 preset to the value the test expects and the
/// code of the test overwritten with `NOOP`s.
pub open spec fn bypass_register_test(s: MachineState) -> MachineState {
    MachineState {
        regs: s.regs.update(7, U15::spec_new(25734)),
        memory: Seq::new(
            s.memory.len(),
            |i: int|
                if 5483 <= i < 5498 {
                    WmWord::Constant(U15::spec_new(21))
                } else {
                    s.memory[i]
                },
        ),
        ..s
    }
}

/// One turn of the machine: decode at the program counter; when the program
/// counter is at the register test, bypass it; then execute what was decoded.
pub open spec fn cycle(s: MachineState) -> (MachineState, Event) {
    let (next, op) = decode(s.memory, s.pc@ as nat);
    let s1 = if s.pc@ == 5451 {
        bypass_register_test(s)
    } else {
        s
    };
    match op {
        Some(op) => execute(s1, op, U15::spec_new(next as u16)),
        None => (s1, Event::Fault(Fault::UnknownInstruction)),
    }
}

/// The state of a freshly started machine with `program` loaded at address 0.
pub open spec fn initial_state(program: Seq<u16>) -> MachineState {
    MachineState {
        pc: U15::spec_new(0),
        regs: Seq::new(8, |i: int| U15::spec_new(0)),
        stack: Seq::empty(),
        memory: Seq::new(
            32768,
            |i: int|
                if i < program.len() {
                    word_of(program[i])
                } else {
                    WmWord::Constant(U15::spec_new(0))
                },
        ),
        input: Seq::empty(),
    }
}

/// A program can be loaded: it fits in memory and every word is a literal or
/// names a register.
pub open spec fn loadable(program: Seq<u16>) -> bool {
    &&& program.len() <= 32768
    &&& forall|i: int| 0 <= i < program.len() ==> #[trigger] program[i] <= MAX_WM_WORD
}

/// Why a program cannot be loaded.
#[derive(Debug, Clone, Copy, PartialEq, Eq, Structural)]
pub enum LoadError {
    /// The word at this index is above 32775.
    InvalidWord(usize),
    /// The program has more words than memory has cells.
    TooLong,
}

/// Validates a program word by word, as loading goes through it: the first word
/// that is invalid, or the first word past the end of memory, is reported.
pub fn validate_program(program: &[u16]) -> (r: Result<(), LoadError>)
    ensures
        r is Ok <==> loadable(program@),
        r matches Err(LoadError::InvalidWord(i)) ==> {
            &&& i < program@.len()
            &&& i <= 32768
            &&& program@[i as int] > MAX_WM_WORD
            &&& forall|j: int| 0 <= j < i ==> #[trigger] program@[j] <= MAX_WM_WORD
        },
        r matches Err(LoadError::TooLong) ==> {
            &&& program@.len() > 32768
            &&& forall|j: int| 0 <= j <= 32768 ==> #[trigger] program@[j] <= MAX_WM_WORD
        },
{
    let mut i: usize = 0;
    while i < program.len()
        invariant
            i <= program@.len(),
            i <= 32768,
            forall|j: int| 0 <= j < i ==> #[trigger] program@[j] <= MAX_WM_WORD,
        decreases program@.len() - i,
    {
        if program[i] > MAX_WM_WORD {
            return Err(LoadError::InvalidWord(i));
        }
        if i == 32768 {
            return Err(LoadError::TooLong);
        }
        i = i + 1;
    }
    Ok(())
}

/// Reads a binary image as little-endian 16-bit words.
pub fn words_from_bytes(bytes: &[u8]) -> (r: Vec<u16>)
    requires
        bytes@.len() % 2 == 0,
    ensures
        r@.len() == bytes@.len() / 2,
        forall|i: int|
            0 <= i < r@.len() ==> #[trigger] r@[i] == bytes@[2 * i] + 256 * bytes@[2 * i + 1],
{
    let mut r: Vec<u16> = Vec::new();
    let mut i: usize = 0;
    while i + 1 < bytes.len()
        invariant
            bytes@.len() % 2 == 0,
            i % 2 == 0,
            i <= bytes@.len(),
            r@.len() == i / 2,
            forall|k: int|
                0 <= k < r@.len() ==> #[trigger] r@[k] == bytes@[2 * k] + 256 * bytes@[2 * k + 1],
        decreases bytes@.len() - i,
    {
        let lo = bytes[i];
        let hi = bytes[i + 1];
        let shifted: u16 = (hi as u16) << 8u16;
        assert(shifted == hi * 256) by (bit_vector)
            requires
                shifted == (hi as u16) << 8u16,
        ;
        let word: u16 = shifted + (lo as u16);
        r.push(word);
        i = i + 2;
    }
    r
}

/// The state after queueing a line of input, as `feed_input` leaves it.
pub open spec fn fed(s: MachineState, line: Seq<char>) -> MachineState {
    MachineState { input: line.reverse() + s.input, ..s }
}

/// A step that is refused (a fault, or input needed) or that halts leaves the
/// machine as it was.
pub proof fn law_refused_step_changes_nothing(s: MachineState, op: Op, next: U15)
    ensures
        ({
            let (s2, e) = execute(s, op, next);
            (e is Fault || e is NeedInput || e is Halt) ==> s2 == s
        }),
{
}

/// The step went on at `next` with the destination register `d` holding the
/// value `v` and nothing else changed.
pub open spec fn wrote_register(
    s: MachineState,
    r: (MachineState, Event),
    d: usize,
    v: int,
    next: U15,
) -> bool {
    &&& r.1 == Event::Continue
    &&& r.0.pc == next
    &&& r.0.regs.len() == s.regs.len()
    &&& r.0.regs[d as int]@ == v
    &&& forall|i: int| 0 <= i < s.regs.len() && i != d ==> #[trigger] r.0.regs[i] == s.regs[i]
    &&& r.0.stack == s.stack
    &&& r.0.memory == s.memory
    &&& r.0.input == s.input
}

/// The step went on at `pc` with registers, memory and input unchanged.
pub open spec fn moved_to(s: MachineState, r: (MachineState, Event), pc: U15) -> bool {
    &&& r.1 == Event::Continue
    &&& r.0.pc == pc
    &&& r.0.regs == s.regs
    &&& r.0.memory == s.memory
    &&& r.0.input == s.input
}

/// The results the instructions that compute a value write to a register,
/// in terms of the operands' values `x` and `y`: `SET` copies, `EQ` gives 1
/// exactly when they are equal and `GT` exactly when `x` is strictly greater,
/// else 0; `ADD` and `MULT` work modulo 32768, `MOD` gives the remainder (and
/// refuses a zero divisor), `AND` and `OR` are bitwise and `NOT` is the
/// 15-bit complement.
pub proof fn law_computed_results(s: MachineState, d: usize, b: WmWord, c: WmWord, next: U15)
    requires
        d < s.regs.len(),
    ensures
        ({
            let dest = WmWord::Register(d);
            let x = operand_value(b, s.regs)@;
            let y = operand_value(c, s.regs)@;
            &&& wrote_register(s, execute(s, Op::SET(dest, b), next), d, x as int, next)
            &&& wrote_register(
                s,
                execute(s, Op::EQ(dest, b, c), next),
                d,
                if x == y { 1 } else { 0 },
                next,
            )
            &&& wrote_register(
                s,
                execute(s, Op::GT(dest, b, c), next),
                d,
                if x > y { 1 } else { 0 },
                next,
            )
            &&& wrote_register(s, execute(s, Op::ADD(dest, b, c), next), d, (x + y) % 32768, next)
            &&& wrote_register(s, execute(s, Op::MULT(dest, b, c), next), d, (x * y) % 32768, next)
            &&& y != 0 ==> wrote_register(s, execute(s, Op::MOD(dest, b, c), next), d, (x % y) as int, next)
            &&& y == 0 ==> execute(s, Op::MOD(dest, b, c), next) == (s, Event::Fault(Fault::DivisionByZero))
            &&& wrote_register(s, execute(s, Op::AND(dest, b, c), next), d, (x & y) as int, next)
            &&& wrote_register(s, execute(s, Op::OR(dest, b, c), next), d, (x | y) as int, next)
            &&& x < 32768 ==> wrote_register(
                s,
                execute(s, Op::NOT(dest, b), next),
                d,
                32767 - x,
                next,
            )
        }),
{
    let x = operand_value(b, s.regs)@;
    let y = operand_value(c, s.regs)@;
    assert(x * y >= 0) by (nonlinear_arith);
    assert(x * y <= 65535 * 65535) by (nonlinear_arith)
        requires
            x <= 65535,
            y <= 65535,
    ;
}

/// How the other instructions move the program counter and change the
/// stack, memory and input, in terms of the operands' values.
pub proof fn law_control_and_storage(
    s: MachineState,
    a: WmWord,
    b: WmWord,
    d: usize,
    next: U15,
)
    requires
        d < s.regs.len(),
    ensures
        ({
            let va = operand_value(a, s.regs);
            let vb = operand_value(b, s.regs);
            let dest = WmWord::Register(d);
            &&& execute(s, Op::HALT, next) == (s, Event::Halt)
            &&& moved_to(s, execute(s, Op::NOOP, next), next)
            &&& execute(s, Op::NOOP, next).0.stack == s.stack
            &&& moved_to(s, execute(s, Op::JMP(a), next), va)
            &&& execute(s, Op::JMP(a), next).0.stack == s.stack
            &&& moved_to(s, execute(s, Op::JT(a, b), next), if va@ != 0 { vb } else { next })
            &&& moved_to(s, execute(s, Op::JF(a, b), next), if va@ == 0 { vb } else { next })
            &&& moved_to(s, execute(s, Op::CALL(a), next), va)
            &&& execute(s, Op::CALL(a), next).0.stack == s.stack.push(next)
            &&& s.stack.len() == 0 ==> execute(s, Op::RET, next) == (s, Event::Halt)
            &&& s.stack.len() > 0 ==> moved_to(s, execute(s, Op::RET, next), s.stack.last())
                && execute(s, Op::RET, next).0.stack == s.stack.drop_last()
            &&& moved_to(s, execute(s, Op::PUSH(a), next), next)
            &&& execute(s, Op::PUSH(a), next).0.stack == s.stack.push(va)
            &&& s.stack.len() == 0 ==> execute(s, Op::POP(dest), next) == (s, Event::Fault(
                Fault::EmptyStack,
            ))
            &&& s.stack.len() > 0 ==> execute(s, Op::POP(dest), next).0.stack == s.stack.drop_last()
                && execute(s, Op::POP(dest), next).0.regs == s.regs.update(d as int, s.stack.last())
                && execute(s, Op::POP(dest), next).0.pc == next
            &&& execute(s, Op::WMEM(a, b), next).0.memory == s.memory.update(
                va@ as int,
                WmWord::Constant(vb),
            )
            &&& execute(s, Op::WMEM(a, b), next).0.regs == s.regs
            &&& execute(s, Op::WMEM(a, b), next).0.pc == next
            &&& s.memory[vb@ as int] matches WmWord::Constant(v) ==> wrote_register(
                s,
                execute(s, Op::RMEM(dest, b), next),
                d,
                v@ as int,
                next,
            )
            &&& execute(s, Op::OUT(a), next).1 == Event::Output(va)
            &&& execute(s, Op::OUT(a), next).0 == MachineState { pc: next, ..s }
            &&& s.input.len() == 0 ==> execute(s, Op::IN(dest), next) == (s, Event::NeedInput)
            &&& s.input.len() > 0 && (s.input.last() as u32) < 32768 ==> {
                &&& execute(s, Op::IN(dest), next).0.regs[d as int]@ == s.input.last() as u32
                &&& execute(s, Op::IN(dest), next).0.input == s.input.drop_last()
                &&& execute(s, Op::IN(dest), next).0.pc == next
            }
        }),
{
}

/// Outside the register test a cycle executes the instruction decoded at the
/// program counter on the state as it is: register 7 and memory change only
/// as that instruction says.
pub proof fn law_cycle_outside_register_test(s: MachineState)
    requires
        s.pc@ != 5451,
    ensures
        ({
            let d = decode(s.memory, s.pc@ as nat);
            cycle(s) == match d.1 {
                Some(op) => execute(s, op, U15::spec_new(d.0 as u16)),
                None => (s, Event::Fault(Fault::UnknownInstruction)),
            }
        }),
{
}

/// `t` is `s` with register 7 set to 25734 and cells 5483..5498 holding
/// `NOOP` (21), everything else as it was.
pub open spec fn register_test_bypassed(s: MachineState, t: MachineState) -> bool {
    &&& t.pc == s.pc
    &&& t.stack == s.stack
    &&& t.input == s.input
    &&& t.regs.len() == 8
    &&& t.regs[7]@ == 25734
    &&& forall|i: int| 0 <= i < 7 ==> #[trigger] t.regs[i] == s.regs[i]
    &&& t.memory.len() == 32768
    &&& forall|i: int|
        0 <= i < 32768 ==> #[trigger] t.memory[i] == if 5483 <= i < 5498 {
            WmWord::Constant(U15::spec_new(21))
        } else {
            s.memory[i]
        }
}

/// At the register test a cycle first presets register 7 to 25734 and
/// overwrites cells 5483..5498 with `NOOP` (21), leaving everything else as
/// it was, and then executes the instruction decoded at the program counter.
pub proof fn law_cycle_at_register_test(s: MachineState)
    requires
        s.pc@ == 5451,
        s.regs.len() == 8,
        s.memory.len() == 32768,
    ensures
        exists|t: MachineState|
            #[trigger] register_test_bypassed(s, t) && cycle(s) == match decode(s.memory, 5451).1 {
                Some(op) => execute(t, op, U15::spec_new(decode(s.memory, 5451).0 as u16)),
                None => (t, Event::Fault(Fault::UnknownInstruction)),
            },
{
    let t = bypass_register_test(s);
    assert(t.regs[7]@ == 25734);
    assert(register_test_bypassed(s, t));
}

/// `CALL` followed by `RET` comes back to the instruction after the call,
/// with the stack as it was before the call.
pub proof fn law_call_then_ret(s: MachineState, target: WmWord, next: U15, after: U15)
    ensures
        ({
            let (s1, e1) = execute(s, Op::CALL(target), next);
            let (s2, e2) = execute(s1, Op::RET, after);
            &&& e1 == Event::Continue
            &&& e2 == Event::Continue
            &&& s1.pc == operand_value(target, s.regs)
            &&& s2.pc == next
            &&& s2.stack == s.stack
            &&& s2.regs == s.regs
            &&& s2.memory == s.memory
        }),
{
    let (s1, e1) = execute(s, Op::CALL(target), next);
    assert(s1.stack.drop_last() =~= s.stack);
}

/// `PUSH` followed by `POP` moves a value into the destination register and
/// leaves the stack as it was.
pub proof fn law_push_then_pop(s: MachineState, a: WmWord, idx: usize, next: U15, after: U15)
    requires
        idx < 8,
    ensures
        ({
            let (s1, e1) = execute(s, Op::PUSH(a), next);
            let (s2, e2) = execute(s1, Op::POP(WmWord::Register(idx)), after);
            &&& e1 == Event::Continue
            &&& e2 == Event::Continue
            &&& s2.regs == s.regs.update(idx as int, operand_value(a, s.regs))
            &&& s2.stack == s.stack
            &&& s2.pc == after
        }),
{
    let (s1, e1) = execute(s, Op::PUSH(a), next);
    assert(s1.stack.drop_last() =~= s.stack);
}

/// For the same condition, exactly one of `JT` and `JF` jumps to the destination
/// and the other goes on to the next instruction.
pub proof fn law_jt_jf_complementary(s: MachineState, cond: WmWord, dest: WmWord, next: U15)
    ensures
        ({
            let t = execute(s, Op::JT(cond, dest), next).0.pc;
            let f = execute(s, Op::JF(cond, dest), next).0.pc;
            let d = operand_value(dest, s.regs);
            (t == d && f == next) || (t == next && f == d)
        }),
{
}

/// Input is read in the order it was typed: after a line is queued on empty
/// input, `IN` into a register stores the code of the line's first character.
pub proof fn law_input_read_in_order(
    s: MachineState,
    line: Seq<char>,
    idx: usize,
    next: U15,
)
    requires
        s.regs.len() == 8,
        s.input.len() == 0,
        line.len() > 0,
        idx < 8,
        char_code(line[0]) <= 32767,
    ensures
        ({
            let (s2, e) = execute(fed(s, line), Op::IN(WmWord::Register(idx)), next);
            &&& e == Event::Continue
            &&& s2.regs[idx as int] == U15::spec_new(char_code(line[0]))
            &&& s2.input == line.drop_first().reverse()
        }),
{
    let f = fed(s, line);
    assert(f.input =~= line.reverse());
    assert(line.reverse().last() == line[0]);
    assert(f.input.last() == line[0]);
    assert(line.reverse().drop_last() =~= line.drop_first().reverse());
    let (s2, e) = execute(f, Op::IN(WmWord::Register(idx)), next);
    assert(e == Event::Continue);
    assert(s2.input =~= line.drop_first().reverse());
    assert(s2.regs[idx as int] == U15::spec_new(char_code(line[0])));
}

impl Machine {
    /// The memory is well formed.
    pub open spec fn wf(&self) -> bool {
        self.memory.wf()
    }

    /// A machine with `program` loaded at address 0, the program counter,
    /// the registers and every other cell zero, and the stack and input empty.
    pub fn new(program: &[u16]) -> (m: Machine)
        requires
            loadable(program@),
        ensures
            m.wf(),
            m@ == initial_state(program@),
    {
        let mut memory = Memory::new();
        memory.load(program);
        let zero = U15::new(0);
        let m = Machine { pc: zero, regs: [zero; 8], stack: Vec::new(), memory, input: Vec::new() };
        assert(m@.memory =~= initial_state(program@).memory);
        assert(m@.regs =~= initial_state(program@).regs);
        m
    }

    /// Queues a line of input after what is pending; its characters are read
    /// first to last.
    pub fn feed_input(&mut self, line: &[char])
        ensures
            final(self)@ == fed(old(self)@, line@),
            final(self).memory == old(self).memory,
    {
        let mut pending: Vec<char> = Vec::new();
        let mut i: usize = line.len();
        while i > 0
            invariant
                i <= line@.len(),
                pending@ == line@.subrange(i as int, line@.len() as int).reverse(),
            decreases i,
        {
            i = i - 1;
            pending.push(line[i]);
            assert(pending@ =~= line@.subrange(i as int, line@.len() as int).reverse());
        }
        let mut j: usize = 0;
        while j < self.input.len()
            invariant
                j <= self.input@.len(),
                self@ == old(self)@,
                self.memory == old(self).memory,
                pending@ == line@.reverse() + self.input@.subrange(0, j as int),
            decreases self.input@.len() - j,
        {
            pending.push(self.input[j]);
            assert(pending@ =~= line@.reverse() + self.input@.subrange(0, j + 1));
            j = j + 1;
        }
        assert(pending@ =~= line@.reverse() + old(self)@.input);
        self.input = pending;
    }

    /// Presets register 7 and overwrites the code of its test with `NOOP`s.
    fn bypass_register_test(&mut self)
        requires
            old(self).wf(),
        ensures
            final(self).wf(),
            final(self)@ == bypass_register_test(old(self)@),
    {
        self.regs[7] = U15::new(REGISTER_7_VALUE);
        let mut add: u16 = REGISTER_TEST_CODE_START;
        while add < REGISTER_TEST_CODE_END
            invariant
                self.wf(),
                REGISTER_TEST_CODE_START <= add <= REGISTER_TEST_CODE_END,
                self.pc == old(self).pc,
                self.stack@ == old(self).stack@,
                self.input@ == old(self).input@,
                self.regs@ == old(self).regs@.update(7, U15::spec_new(25734)),
                forall|i: int|
                    0 <= i < 32768 ==> #[trigger] self.memory@[i] == (if 5483 <= i < add {
                        WmWord::Constant(U15::spec_new(21))
                    } else {
                        old(self).memory@[i]
                    }),
            decreases REGISTER_TEST_CODE_END - add,
        {
            self.memory.write_address(U15::new(add), WmWord::Constant(U15::new(NOOP_CODE)));
            add = add + 1;
        }
        assert(self@ =~= bypass_register_test(old(self)@));
    }

    /// One turn of the machine, as `cycle` says.
    pub fn cycle(&mut self) -> (e: Event)
        requires
            old(self).wf(),
        ensures
            final(self).wf(),
            (final(self)@, e) == cycle(old(self)@),
    {
        let (new_pc, op) = decode_and_fetch(self.pc, &self.memory);
        if self.pc.to_u16() == REGISTER_TEST_ADDRESS {
            self.bypass_register_test();
        }
        match op {
            Some(op) => self.step(op, new_pc),
            None => Event::Fault(Fault::UnknownInstruction),
        }
    }

    /// Stores `v` through the operand `dest`.
    fn store(&mut self, dest: WmWord, v: U15)
        requires
            dest.wf(),
        ensures
            final(self)@ == (MachineState { regs: store(old(self)@.regs, dest, v), ..old(self)@ }),
            final(self).memory == old(self).memory,
    {
        if let WmWord::Register(idx) = dest {
            self.regs[idx] = v;
        }
    }

    /// Executes a decoded instruction; `next` is the address after it.
    pub fn step(&mut self, op: Op, next: U15) -> (e: Event)
        requires
            old(self).wf(),
            op_wf(op),
        ensures
            final(self).wf(),
            (final(self)@, e) == execute(old(self)@, op, next),
    {
        match op {
            Op::HALT => Event::Halt,
            Op::SET(dest, b) => {
                let v = constant_or_register_value(b, &self.regs);
                self.store(dest, v);
                self.pc = next;
                Event::Continue
            },
            Op::PUSH(a) => {
                let v = constant_or_register_value(a, &self.regs);
                self.stack.push(v);
                self.pc = next;
                Event::Continue
            },
            Op::POP(dest) => {
                match self.stack.pop() {
                    Some(v) => {
                        self.store(dest, v);
                        self.pc = next;
                        Event::Continue
                    },
                    None => Event::Fault(Fault::EmptyStack),
                }
            },
            Op::EQ(dest, b, c) => {
                let b = constant_or_register_value(b, &self.regs);
                let c = constant_or_register_value(c, &self.regs);
                let set_value = if b == c {
                    U15::new(1)
                } else {
                    U15::new(0)
                };
                self.store(dest, set_value);
                self.pc = next;
                Event::Continue
            },
            Op::GT(dest, b, c) => {
                let b = constant_or_register_value(b, &self.regs);
                let c = constant_or_register_value(c, &self.regs);
                let set_value = if b.to_u16() > c.to_u16() {
                    U15::new(1)
                } else {
                    U15::new(0)
                };
                self.store(dest, set_value);
                self.pc = next;
                Event::Continue
            },
            Op::JMP(dest) => {
                self.pc = constant_or_register_value(dest, &self.regs);
                Event::Continue
            },
            Op::JT(cond, dest) => {
                let cond = constant_or_register_value(cond, &self.regs);
                if cond.to_u16() != 0 {
                    self.pc = constant_or_register_value(dest, &self.regs);
                } else {
                    self.pc = next;
                }
                Event::Continue
            },
            Op::JF(cond, dest) => {
                let cond = constant_or_register_value(cond, &self.regs);
                if cond.to_u16() == 0 {
                    self.pc = constant_or_register_value(dest, &self.regs);
                } else {
                    self.pc = next;
                }
                Event::Continue
            },
            Op::ADD(dest, b, c) => {
                let b = constant_or_register_value(b, &self.regs);
                let c = constant_or_register_value(c, &self.regs);
                self.store(dest, b + c);
                self.pc = next;
                Event::Continue
            },
            Op::MULT(dest, b, c) => {
                let b = constant_or_register_value(b, &self.regs);
                let c = constant_or_register_value(c, &self.regs);
                self.store(dest, b * c);
                self.pc = next;
                Event::Continue
            },
            Op::MOD(dest, b, c) => {
                let b = constant_or_register_value(b, &self.regs);
                let c = constant_or_register_value(c, &self.regs);
                if c.to_u16() == 0 {
                    Event::Fault(Fault::DivisionByZero)
                } else {
                    self.store(dest, b % c);
                    self.pc = next;
                    Event::Continue
                }
            },
            Op::AND(dest, b, c) => {
                let b = constant_or_register_value(b, &self.regs);
                let c = constant_or_register_value(c, &self.regs);
                self.store(dest, b & c);
                self.pc = next;
                Event::Continue
            },
            Op::OR(dest, b, c) => {
                let b = constant_or_register_value(b, &self.regs);
                let c = constant_or_register_value(c, &self.regs);
                self.store(dest, b | c);
                self.pc = next;
                Event::Continue
            },
            Op::NOT(dest, b) => {
                let b = constant_or_register_value(b, &self.regs);
                self.store(dest, core::ops::Not::not(b));
                self.pc = next;
                Event::Continue
            },
            Op::RMEM(dest, b) => {
                let from = constant_or_register_value(b, &self.regs);
                if let WmWord::Constant(val) = self.memory.read_address(from) {
                    self.store(dest, val);
                }
                self.pc = next;
                Event::Continue
            },
            Op::WMEM(a, b) => {
                let val = constant_or_register_value(b, &self.regs);
                let dest = constant_or_register_value(a, &self.regs);
                self.memory.write_address(dest, WmWord::Constant(val));
                self.pc = next;
                Event::Continue
            },
            Op::CALL(dest) => {
                let dest = constant_or_register_value(dest, &self.regs);
                self.stack.push(next);
                self.pc = dest;
                Event::Continue
            },
            Op::RET => {
                match self.stack.pop() {
                    Some(val) => {
                        self.pc = val;
                        Event::Continue
                    },
                    None => Event::Halt,
                }
            },
            Op::OUT(code) => {
                let code = constant_or_register_value(code, &self.regs);
                self.pc = next;
                Event::Output(code)
            },
            Op::IN(dest) => {
                let len = self.input.len();
                if len == 0 {
                    Event::NeedInput
                } else if let WmWord::Register(_) = dest {
                    let c = self.input[len - 1];
                    let code = c as u32 as u16;
                    if code > crate::u15::MAX {
                        Event::Fault(Fault::InvalidInput)
                    } else {
                        self.input.pop();
                        self.store(dest, U15::new(code));
                        self.pc = next;
                        Event::Continue
                    }
                } else {
                    self.pc = next;
                    Event::Continue
                }
            },
            Op::NOOP => {
                self.pc = next;
                Event::Continue
            },
        }
    }
}

} // verus!
