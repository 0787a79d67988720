//! Text of operands and instructions, and the disassembly listing of memory.
use vstd::prelude::*;
use crate::text::{
    decimal, digits_value, is_digit, law_decimal_reads_back, law_padded_decimal_reads_back,
    lemma_decimal_short, padded_decimal, push_decimal, push_padded_decimal,
};
use crate::u15::U15;
use crate::vm::{decode, decode_and_fetch, Memory, Op, WmWord};

verus! {

broadcast use {U15::lemma_spec_new_view, U15::lemma_view_injective, U15::lemma_inv_range};

/// An operand as text: a literal in decimal, a register as `r` and its number.
pub open spec fn word_text(w: WmWord) -> Seq<char> {
    match w {
        WmWord::Constant(val) => decimal(val@ as nat),
        WmWord::Register(idx) => seq!['r'] + decimal(idx as nat),
    }
}

/// An operand preceded by a space.
pub open spec fn arg_text(w: WmWord) -> Seq<char> {
    seq![' '] + word_text(w)
}

/// The character shown beside an `OUT` operand: the character itself for a
/// literal (a space for a newline), `?` for a register.
pub open spec fn out_repr(a: WmWord) -> char {
    match a {
        WmWord::Constant(con) => if con@ == 10 {
            ' '
        } else {
            (con@ as u8) as char
        },
        WmWord::Register(_) => '?',
    }
}

/// An instruction has text: a literal `OUT` operand must be a byte.
pub open spec fn op_text_defined(op: Op) -> bool {
    match op {
        Op::OUT(WmWord::Constant(con)) => con@ <= 255,
        _ => true,
    }
}

/// The mnemonic of an instruction.
pub open spec fn mnemonic(op: Op) -> Seq<char> {
    match op {
        Op::HALT => "HALT"@,
        Op::SET(..) => "SET"@,
        Op::PUSH(..) => "PUSH"@,
        Op::POP(..) => "POP"@,
        Op::EQ(..) => "EQ"@,
        Op::GT(..) => "GT"@,
        Op::JMP(..) => "JMP"@,
        Op::JT(..) => "JT"@,
        Op::JF(..) => "JF"@,
        Op::ADD(..) => "ADD"@,
        Op::MULT(..) => "MULT"@,
        Op::MOD(..) => "MOD"@,
        Op::AND(..) => "AND"@,
        Op::OR(..) => "OR"@,
        Op::NOT(..) => "NOT"@,
        Op::RMEM(..) => "RMEM"@,
        Op::WMEM(..) => "WMEM"@,
        Op::CALL(..) => "CALL"@,
        Op::RET => "RET"@,
        Op::OUT(..) => "OUT"@,
        Op::IN(..) => "IN"@,
        Op::NOOP => "NOOP"@,
    }
}

/// The operands of an instruction, in order.
pub open spec fn operands(op: Op) -> Seq<WmWord> {
    match op {
        Op::HALT | Op::RET | Op::NOOP => seq![],
        Op::PUSH(a) | Op::POP(a) | Op::JMP(a) | Op::CALL(a) | Op::OUT(a) | Op::IN(a) => seq![a],
        Op::SET(a, b) | Op::JT(a, b) | Op::JF(a, b) | Op::NOT(a, b) | Op::RMEM(a, b) | Op::WMEM(
            a,
            b,
        ) => seq![a, b],
        Op::EQ(a, b, c) | Op::GT(a, b, c) | Op::ADD(a, b, c) | Op::MULT(a, b, c) | Op::MOD(
            a,
            b,
            c,
        ) | Op::AND(a, b, c) | Op::OR(a, b, c) => seq![a, b, c],
    }
}

/// An instruction as text: its mnemonic, then each operand after a space;
/// `OUT` ends with a space and the character it would print.
pub open spec fn op_text(op: Op) -> Seq<char> {
    let base = mnemonic(op) + args_text(operands(op), operands(op).len() as int);
    match op {
        Op::OUT(a) => base + seq![' ', out_repr(a)],
        _ => base,
    }
}

/// Appends an operand's text.
fn push_word(s: &mut String, w: WmWord)
    ensures
        final(s)@ == old(s)@ + word_text(w),
{
    match w {
        WmWord::Constant(val) => {
            push_decimal(s, val.to_u16() as u64);
        },
        WmWord::Register(idx) => {
            s.push('r');
            push_decimal(s, idx as u64);
            assert(s@ =~= old(s)@ + word_text(w));
        },
    }
}

/// Appends a space and an operand's text.
fn push_arg(s: &mut String, w: WmWord)
    ensures
        final(s)@ == old(s)@ + arg_text(w),
{
    s.push(' ');
    push_word(s, w);
    assert(s@ =~= old(s)@ + arg_text(w));
}

impl WmWord {
    /// The operand as text.
    pub fn to_text(&self) -> (s: String)
        ensures
            s@ == word_text(*self),
    {
        let mut s = String::new();
        push_word(&mut s, *self);
        assert(s@ =~= word_text(*self));
        s
    }
}

/// Appends a mnemonic followed by operands.
fn push_mnemonic_args(s: &mut String, name: &str, args: &[WmWord])
    ensures
        final(s)@ == old(s)@ + name@ + args_text(args@, args@.len() as int),
{
    s.append(name);
    let mut i: usize = 0;
    while i < args.len()
        invariant
            i <= args@.len(),
            s@ == old(s)@ + name@ + args_text(args@, i as int),
        decreases args@.len() - i,
    {
        push_arg(s, args[i]);
        assert(s@ =~= old(s)@ + name@ + args_text(args@, i + 1));
        i = i + 1;
    }
}

/// The texts of the first `n` operands of a list, each preceded by a space.
pub open spec fn args_text(args: Seq<WmWord>, n: int) -> Seq<char>
    decreases n,
{
    if n <= 0 {
        Seq::empty()
    } else {
        args_text(args, n - 1) + arg_text(args[n - 1])
    }
}

/// A literal operand is written as the decimal digits of its value, a
/// register as `r` followed by the digits of its number.
pub proof fn law_operand_text(k: U15, idx: usize)
    ensures
        forall|i: int|
            0 <= i < word_text(WmWord::Constant(k)).len() ==> is_digit(
                #[trigger] word_text(WmWord::Constant(k))[i],
            ),
        word_text(WmWord::Constant(k)).len() >= 1,
        digits_value(word_text(WmWord::Constant(k))) == k@,
        word_text(WmWord::Register(idx))[0] == 'r',
        forall|i: int|
            1 <= i < word_text(WmWord::Register(idx)).len() ==> is_digit(
                #[trigger] word_text(WmWord::Register(idx))[i],
            ),
        word_text(WmWord::Register(idx)).len() >= 2,
        digits_value(word_text(WmWord::Register(idx)).skip(1)) == idx,
{
    law_decimal_reads_back(k@ as nat);
    law_decimal_reads_back(idx as nat);
    let r = word_text(WmWord::Register(idx));
    assert(r.skip(1) =~= decimal(idx as nat));
    assert forall|i: int| 1 <= i < r.len() implies is_digit(#[trigger] r[i]) by {
        assert(r[i] == decimal(idx as nat)[i - 1]);
    }
}

/// The operands' text after the mnemonic: each operand after a space.
proof fn lemma_args_text(a: WmWord, b: WmWord, c: WmWord)
    ensures
        args_text(seq![a], 1) == seq![' '] + word_text(a),
        args_text(seq![a, b], 2) == seq![' '] + word_text(a) + seq![' '] + word_text(b),
        args_text(seq![a, b, c], 3) == seq![' '] + word_text(a) + seq![' '] + word_text(b)
            + seq![' '] + word_text(c),
{
    assert(args_text(seq![a], 0) =~= Seq::<char>::empty());
    assert(args_text(seq![a], 1) =~= seq![' '] + word_text(a));
    assert(args_text(seq![a, b], 0) =~= Seq::<char>::empty());
    assert(args_text(seq![a, b], 1) =~= seq![' '] + word_text(a));
    assert(args_text(seq![a, b], 2) =~= seq![' '] + word_text(a) + seq![' '] + word_text(b));
    assert(args_text(seq![a, b, c], 0) =~= Seq::<char>::empty());
    assert(args_text(seq![a, b, c], 1) =~= seq![' '] + word_text(a));
    assert(args_text(seq![a, b, c], 2) =~= seq![' '] + word_text(a) + seq![' '] + word_text(b));
    assert(args_text(seq![a, b, c], 3) =~= seq![' '] + word_text(a) + seq![' '] + word_text(b)
        + seq![' '] + word_text(c));
}

/// The text of each instruction: the architecture's name of its opcode,
/// then each operand after a space; `OUT` adds a space and the character
/// it prints.
pub proof fn law_instruction_text(a: WmWord, b: WmWord, c: WmWord)
    ensures
        op_text(Op::HALT) == "HALT"@,
        op_text(Op::SET(a, b)) == "SET"@ + (seq![' '] + word_text(a) + seq![' '] + word_text(b)),
        op_text(Op::PUSH(a)) == "PUSH"@ + (seq![' '] + word_text(a)),
        op_text(Op::POP(a)) == "POP"@ + (seq![' '] + word_text(a)),
        op_text(Op::EQ(a, b, c)) == "EQ"@ + (seq![' '] + word_text(a) + seq![' '] + word_text(b) + seq![' '] + word_text(c)),
        op_text(Op::GT(a, b, c)) == "GT"@ + (seq![' '] + word_text(a) + seq![' '] + word_text(b) + seq![' '] + word_text(c)),
        op_text(Op::JMP(a)) == "JMP"@ + (seq![' '] + word_text(a)),
        op_text(Op::JT(a, b)) == "JT"@ + (seq![' '] + word_text(a) + seq![' '] + word_text(b)),
        op_text(Op::JF(a, b)) == "JF"@ + (seq![' '] + word_text(a) + seq![' '] + word_text(b)),
        op_text(Op::ADD(a, b, c)) == "ADD"@ + (seq![' '] + word_text(a) + seq![' '] + word_text(b) + seq![' '] + word_text(c)),
        op_text(Op::MULT(a, b, c)) == "MULT"@ + (seq![' '] + word_text(a) + seq![' '] + word_text(b) + seq![' '] + word_text(c)),
        op_text(Op::MOD(a, b, c)) == "MOD"@ + (seq![' '] + word_text(a) + seq![' '] + word_text(b) + seq![' '] + word_text(c)),
        op_text(Op::AND(a, b, c)) == "AND"@ + (seq![' '] + word_text(a) + seq![' '] + word_text(b) + seq![' '] + word_text(c)),
        op_text(Op::OR(a, b, c)) == "OR"@ + (seq![' '] + word_text(a) + seq![' '] + word_text(b) + seq![' '] + word_text(c)),
        op_text(Op::NOT(a, b)) == "NOT"@ + (seq![' '] + word_text(a) + seq![' '] + word_text(b)),
        op_text(Op::RMEM(a, b)) == "RMEM"@ + (seq![' '] + word_text(a) + seq![' '] + word_text(b)),
        op_text(Op::WMEM(a, b)) == "WMEM"@ + (seq![' '] + word_text(a) + seq![' '] + word_text(b)),
        op_text(Op::CALL(a)) == "CALL"@ + (seq![' '] + word_text(a)),
        op_text(Op::RET) == "RET"@,
        op_text(Op::OUT(a)) == "OUT"@ + (seq![' '] + word_text(a)) + seq![' ', out_repr(a)],
        op_text(Op::IN(a)) == "IN"@ + (seq![' '] + word_text(a)),
        op_text(Op::NOOP) == "NOOP"@,
{
    lemma_args_text(a, b, c);
    assert(op_text(Op::HALT) =~= "HALT"@);
    assert(op_text(Op::RET) =~= "RET"@);
    assert(op_text(Op::NOOP) =~= "NOOP"@);
}

impl Op {
    /// The mnemonic of the instruction.
    fn mnemonic_str(&self) -> (r: &'static str)
        ensures
            r@ == mnemonic(*self),
    {
        match *self {
            Op::HALT => "HALT",
            Op::SET(..) => "SET",
            Op::PUSH(..) => "PUSH",
            Op::POP(..) => "POP",
            Op::EQ(..) => "EQ",
            Op::GT(..) => "GT",
            Op::JMP(..) => "JMP",
            Op::JT(..) => "JT",
            Op::JF(..) => "JF",
            Op::ADD(..) => "ADD",
            Op::MULT(..) => "MULT",
            Op::MOD(..) => "MOD",
            Op::AND(..) => "AND",
            Op::OR(..) => "OR",
            Op::NOT(..) => "NOT",
            Op::RMEM(..) => "RMEM",
            Op::WMEM(..) => "WMEM",
            Op::CALL(..) => "CALL",
            Op::RET => "RET",
            Op::OUT(..) => "OUT",
            Op::IN(..) => "IN",
            Op::NOOP => "NOOP",
        }
    }

    /// The operands of the instruction, in order.
    fn operand_list(&self) -> (r: Vec<WmWord>)
        ensures
            r@ == operands(*self),
    {
        match *self {
            Op::HALT | Op::RET | Op::NOOP => vec![],
            Op::PUSH(a) | Op::POP(a) | Op::JMP(a) | Op::CALL(a) | Op::OUT(a) | Op::IN(a) => vec![a],
            Op::SET(a, b) | Op::JT(a, b) | Op::JF(a, b) | Op::NOT(a, b) | Op::RMEM(a, b)
            | Op::WMEM(a, b) => vec![a, b],
            Op::EQ(a, b, c) | Op::GT(a, b, c) | Op::ADD(a, b, c) | Op::MULT(a, b, c)
            | Op::MOD(a, b, c) | Op::AND(a, b, c) | Op::OR(a, b, c) => vec![a, b, c],
        }
    }

    /// The instruction as text, as the disassembler writes it.
    pub fn to_text(&self) -> (s: String)
        requires
            op_text_defined(*self),
        ensures
            s@ == op_text(*self),
    {
        let mut s = String::new();
        let args = self.operand_list();
        push_mnemonic_args(&mut s, self.mnemonic_str(), args.as_slice());
        if let Op::OUT(a) = *self {
            let repr = match a {
                WmWord::Constant(con) => {
                    if con.to_u16() == 10 {
                        ' '
                    } else {
                        con.to_char()
                    }
                },
                WmWord::Register(_) => '?',
            };
            s.push(' ');
            s.push(repr);
        }
        assert(s@ =~= op_text(*self));
        s
    }
}

/// One line of the listing: the address in five digits, a colon, the
/// instruction (or the raw cell when it does not decode), and a newline.
pub open spec fn line_text(mem: Seq<WmWord>, pc: nat) -> Seq<char> {
    let body = match decode(mem, pc).1 {
        Some(op) => op_text(op),
        None => word_text(mem[pc as int]),
    };
    padded_decimal(pc, 5) + seq![':', ' '] + body + seq!['\n']
}

/// A line of the listing: the address in five decimal digits, a colon and a
/// space, the text of the instruction decoded there (or of the cell, when it
/// does not decode), and a newline.
pub proof fn law_listing_line(mem: Seq<WmWord>, pc: nat)
    requires
        pc < 32768,
    ensures
        ({
            let l = line_text(mem, pc);
            let body = match decode(mem, pc).1 {
                Some(op) => op_text(op),
                None => word_text(mem[pc as int]),
            };
            &&& l.len() == 8 + body.len()
            &&& forall|i: int| 0 <= i < 5 ==> is_digit(#[trigger] l[i])
            &&& digits_value(l.take(5)) == pc
            &&& l[5] == ':'
            &&& l[6] == ' '
            &&& l.subrange(7, l.len() - 1) == body
            &&& l[l.len() - 1] == '\n'
        }),
{
    lemma_decimal_short(pc);
    law_padded_decimal_reads_back(pc, 5);
    let p = padded_decimal(pc, 5);
    let l = line_text(mem, pc);
    assert(p.len() == 5);
    assert(l.take(5) =~= p);
    assert(forall|i: int| 0 <= i < 5 ==> l[i] == p[i]);
    let body = match decode(mem, pc).1 {
        Some(op) => op_text(op),
        None => word_text(mem[pc as int]),
    };
    assert(l.subrange(7, l.len() - 1) =~= body);
}

/// The cells the range still covers after the instruction at `pc`, which
/// ends at `next`; none once the instruction reaches the end of the range.
pub open spec fn cells_left(pc: nat, next: nat, to_read: nat) -> nat {
    if next - pc >= to_read {
        0
    } else {
        (to_read - (next - pc)) as nat
    }
}

/// The listing of `to_read` cells from `pc` can be made: every instruction
/// it shows ends before the end of memory (it does not wrap round to
/// address 0) and has text.
pub open spec fn listing_defined(mem: Seq<WmWord>, pc: nat, to_read: nat) -> bool
    decreases to_read,
{
    if to_read == 0 {
        true
    } else {
        let next = decode(mem, pc).0;
        &&& pc < next
        &&& (decode(mem, pc).1 matches Some(op) ==> op_text_defined(op))
        &&& listing_defined(mem, next, cells_left(pc, next, to_read))
    }
}

/// The listing of `to_read` cells from `pc`, to the end of the range: a
/// line for each instruction decoded in turn, each next line at the address
/// after the instruction; the last instruction may read past the range.
pub open spec fn listing(mem: Seq<WmWord>, pc: nat, to_read: nat) -> Seq<char>
    decreases to_read,
{
    if to_read == 0 {
        Seq::empty()
    } else {
        let next = decode(mem, pc).0;
        if pc < next {
            line_text(mem, pc) + listing(mem, next, cells_left(pc, next, to_read))
        } else {
            line_text(mem, pc)
        }
    }
}

impl Memory {
    /// Whether `disassemble` can list `length` cells from `from`.
    pub fn listing_is_defined(&self, from: U15, length: u16) -> (r: bool)
        requires
            self.wf(),
        ensures
            r == listing_defined(self@, from@ as nat, length as nat),
    {
        let mut pc = from;
        let mut to_read = length;
        while to_read > 0
            invariant
                self.wf(),
                listing_defined(self@, from@ as nat, length as nat) == listing_defined(
                    self@,
                    pc@ as nat,
                    to_read as nat,
                ),
            decreases to_read,
        {
            proof {
                use_type_invariant(&pc);
            }
            let (new_pc, op) = decode_and_fetch(pc, self);
            let (p, n) = (pc.to_u16(), new_pc.to_u16());
            if n <= p {
                return false;
            }
            if let Some(Op::OUT(WmWord::Constant(con))) = op {
                if con.to_u16() > 255 {
                    return false;
                }
            }
            if n - p >= to_read {
                to_read = 0;
            } else {
                to_read = to_read - (n - p);
            }
            pc = new_pc;
        }
        true
    }

    /// The disassembly listing of `length` cells from `from`.
    pub fn disassemble(&self, from: U15, length: u16) -> (s: String)
        requires
            self.wf(),
            listing_defined(self@, from@ as nat, length as nat),
        ensures
            s@ == listing(self@, from@ as nat, length as nat),
    {
        let mut s = String::new();
        let mut pc = from;
        let mut to_read = length;
        while to_read > 0
            invariant
                self.wf(),
                listing_defined(self@, pc@ as nat, to_read as nat),
                listing(self@, from@ as nat, length as nat) == s@ + listing(
                    self@,
                    pc@ as nat,
                    to_read as nat,
                ),
            decreases to_read,
        {
            proof {
                use_type_invariant(&pc);
            }
            let ghost old_s = s@;
            let (new_pc, op) = decode_and_fetch(pc, self);
            let (p, n) = (pc.to_u16(), new_pc.to_u16());
            push_padded_decimal(&mut s, p as u64, 5);
            s.push(':');
            s.push(' ');
            match op {
                Some(op) => {
                    let text = op.to_text();
                    s.append(text.as_str());
                },
                None => {
                    let text = self.read_address(pc).to_text();
                    s.append(text.as_str());
                },
            }
            s.push('\n');
            assert(s@ =~= old_s + line_text(self@, pc@ as nat));
            if n - p >= to_read {
                to_read = 0;
            } else {
                to_read = to_read - (n - p);
            }
            pc = new_pc;
        }
        assert(s@ =~= s@ + listing(self@, pc@ as nat, to_read as nat));
        s
    }
}

} // verus!
