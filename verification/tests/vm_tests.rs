use synacor::u15::U15;
use synacor::vm::{constant_or_register_value, decode_and_fetch, Memory, Op, WmWord};

fn c(v: u16) -> WmWord {
    WmWord::Constant(U15::new(v))
}

fn loaded(program: &[u16]) -> Memory {
    let mut m = Memory::new();
    m.load(program);
    m
}

#[test]
fn new_memory_is_zero() {
    let m = Memory::new();
    assert_eq!(m.read_address(U15::new(0)), c(0));
    assert_eq!(m.read_address(U15::new(32767)), c(0));
}

#[test]
fn load_splits_literals_and_registers() {
    let m = loaded(&[9, 32767, 32768, 32775]);
    assert_eq!(m.read_address(U15::new(0)), c(9));
    assert_eq!(m.read_address(U15::new(1)), c(32767));
    assert_eq!(m.read_address(U15::new(2)), WmWord::Register(0));
    assert_eq!(m.read_address(U15::new(3)), WmWord::Register(7));
    assert_eq!(m.read_address(U15::new(4)), c(0));
}

#[test]
fn read_gives_back_the_write() {
    let mut m = Memory::new();
    m.write_address(U15::new(100), c(42));
    m.write_address(U15::new(101), WmWord::Register(3));
    assert_eq!(m.read_address(U15::new(100)), c(42));
    assert_eq!(m.read_address(U15::new(101)), WmWord::Register(3));
    assert_eq!(m.read_address(U15::new(99)), c(0));
    m.write_address(U15::new(100), c(7));
    assert_eq!(m.read_address(U15::new(100)), c(7));
}

#[test]
fn operand_values() {
    let mut regs = [U15::new(0); 8];
    regs[3] = U15::new(99);
    assert_eq!(constant_or_register_value(c(5), &regs).to_u16(), 5);
    assert_eq!(constant_or_register_value(WmWord::Register(3), &regs).to_u16(), 99);
}

#[test]
fn decodes_the_sample_program() {
    let m = loaded(&[9, 32768, 32769, 4, 19, 32768]);
    let (next, op) = decode_and_fetch(U15::new(0), &m);
    assert_eq!(next.to_u16(), 4);
    assert_eq!(op, Some(Op::ADD(WmWord::Register(0), WmWord::Register(1), c(4))));
    let (next, op) = decode_and_fetch(next, &m);
    assert_eq!(next.to_u16(), 6);
    assert_eq!(op, Some(Op::OUT(WmWord::Register(0))));
}

#[test]
fn decode_lengths_by_opcode() {
    let cases = [(0u16, 1u16), (18, 1), (21, 1), (2, 2), (20, 2), (1, 3), (16, 3), (4, 4), (13, 4)];
    for (code, len) in cases {
        let m = loaded(&[code, 1, 2, 3]);
        let (next, op) = decode_and_fetch(U15::new(0), &m);
        assert_eq!(next.to_u16(), len);
        assert!(op.is_some());
    }
}

#[test]
fn unknown_cells_do_not_decode() {
    let m = loaded(&[22, 32768]);
    assert_eq!(decode_and_fetch(U15::new(0), &m), (U15::new(1), None));
    assert_eq!(decode_and_fetch(U15::new(1), &m), (U15::new(2), None));
}

#[test]
fn decoding_wraps_at_the_end_of_memory() {
    let mut m = Memory::new();
    m.write_address(U15::new(32767), c(6));
    let (next, op) = decode_and_fetch(U15::new(32767), &m);
    assert_eq!(next.to_u16(), 1);
    assert_eq!(op, Some(Op::JMP(c(0))));
}

#[test]
fn operand_text() {
    assert_eq!(c(4).to_text(), "4");
    assert_eq!(WmWord::Register(7).to_text(), "r7");
}

#[test]
fn instruction_text() {
    assert_eq!(Op::HALT.to_text(), "HALT");
    assert_eq!(Op::ADD(WmWord::Register(0), WmWord::Register(1), c(4)).to_text(), "ADD r0 r1 4");
    assert_eq!(Op::SET(WmWord::Register(2), c(300)).to_text(), "SET r2 300");
    assert_eq!(Op::OUT(c(65)).to_text(), "OUT 65 A");
    assert_eq!(Op::OUT(c(10)).to_text(), "OUT 10  ");
    assert_eq!(Op::OUT(WmWord::Register(1)).to_text(), "OUT r1 ?");
    assert_eq!(Op::NOOP.to_text(), "NOOP");
    assert_eq!(Op::RET.to_text(), "RET");
    assert_eq!(Op::WMEM(c(1), c(2)).to_text(), "WMEM 1 2");
}

#[test]
fn disassembles_the_sample_program() {
    let m = loaded(&[9, 32768, 32769, 4, 19, 32768]);
    assert_eq!(m.disassemble(U15::new(0), 6), "00000: ADD r0 r1 4\n00004: OUT r0 ?\n");
    assert_eq!(m.disassemble(U15::new(0), 4), "00000: ADD r0 r1 4\n");
    assert_eq!(m.disassemble(U15::new(0), 0), "");
}

#[test]
fn disassembly_runs_to_the_end_of_the_range() {
    let m = loaded(&[9, 32768, 32769, 4, 19, 32768]);
    assert_eq!(
        m.disassemble(U15::new(0), 10),
        "00000: ADD r0 r1 4\n00004: OUT r0 ?\n00006: HALT\n00007: HALT\n00008: HALT\n00009: HALT\n"
    );
}

#[test]
fn disassembly_shows_raw_cells() {
    let m = loaded(&[22, 32770, 0, 0, 0, 0, 0, 0]);
    assert_eq!(
        m.disassemble(U15::new(0), 7),
        "00000: 22\n00001: r2\n00002: HALT\n00003: HALT\n00004: HALT\n00005: HALT\n00006: HALT\n"
    );
}

#[test]
fn disassembly_decodes_an_instruction_cut_by_the_range() {
    let m = loaded(&[9, 1, 2, 3]);
    assert!(m.listing_is_defined(U15::new(0), 2));
    assert_eq!(m.disassemble(U15::new(0), 2), "00000: ADD 1 2 3\n");
    let sample = loaded(&[9, 32768, 32769, 4, 19, 32768]);
    assert_eq!(sample.disassemble(U15::new(0), 5), "00000: ADD r0 r1 4\n00004: OUT r0 ?\n");
    assert_eq!(sample.disassemble(U15::new(2), 3), "00002: r1\n00003: EQ 19 r0 0\n");
}

#[test]
fn listing_with_a_wide_output_literal_is_not_defined() {
    let m = loaded(&[19, 300]);
    assert!(!m.listing_is_defined(U15::new(0), 2));
    assert!(!m.listing_is_defined(U15::new(0), 1));
    assert!(m.listing_is_defined(U15::new(1), 1));
}

#[test]
fn listing_that_wraps_past_the_last_cell_is_not_defined() {
    let mut m = Memory::new();
    assert!(!m.listing_is_defined(U15::new(32767), 1));
    m.write_address(U15::new(32767), c(6));
    assert!(!m.listing_is_defined(U15::new(32767), 1));
    assert!(m.listing_is_defined(U15::new(32766), 1));
    assert_eq!(m.disassemble(U15::new(32766), 1), "32766: HALT\n");
}
