use synacor::machine::{validate_program, words_from_bytes, Event, Fault, LoadError, Machine};
use synacor::u15::U15;
use synacor::vm::WmWord;

fn run(m: &mut Machine) -> Vec<Event> {
    let mut events = Vec::new();
    for _ in 0..1000 {
        let e = m.cycle();
        events.push(e);
        if e != Event::Continue && !matches!(e, Event::Output(_)) {
            break;
        }
    }
    events
}

#[test]
fn runs_a_small_program() {
    // SET r1 65; ADD r0 r1 1; OUT r0; HALT
    let mut m = Machine::new(&[1, 32769, 65, 9, 32768, 32769, 1, 19, 32768, 0]);
    let events = run(&mut m);
    assert_eq!(
        events,
        vec![Event::Continue, Event::Continue, Event::Output(U15::new(66)), Event::Halt]
    );
    assert_eq!(m.regs[0].to_u16(), 66);
    assert_eq!(m.regs[1].to_u16(), 65);
    assert_eq!(m.pc.to_u16(), 9);
}

#[test]
fn arithmetic_instructions() {
    // MULT r0 300 300; MOD r1 17 5; AND r2 12 10; OR r3 12 10; NOT r4 0; GT r5 3 2; EQ r6 4 4; HALT
    let mut m = Machine::new(&[
        10, 32768, 300, 300, 11, 32769, 17, 5, 12, 32770, 12, 10, 13, 32771, 12, 10, 14, 32772, 0,
        5, 32773, 3, 2, 4, 32774, 4, 4, 0,
    ]);
    run(&mut m);
    let got: Vec<u16> = m.regs.iter().map(|r| r.to_u16()).collect();
    assert_eq!(got, vec![24464, 2, 8, 14, 32767, 1, 1, 0]);
}

#[test]
fn call_then_ret_returns() {
    // 0: CALL 5; 2: OUT 66; 4: HALT; 5: OUT 65; 7: RET
    let mut m = Machine::new(&[17, 5, 19, 66, 0, 19, 65, 18]);
    let events = run(&mut m);
    assert_eq!(
        events,
        vec![
            Event::Continue,
            Event::Output(U15::new(65)),
            Event::Continue,
            Event::Output(U15::new(66)),
            Event::Halt
        ]
    );
    assert!(m.stack.is_empty());
}

#[test]
fn push_then_pop() {
    // PUSH 7; PUSH 8; POP r0; POP r1; HALT
    let mut m = Machine::new(&[2, 7, 2, 8, 3, 32768, 3, 32769, 0]);
    run(&mut m);
    assert_eq!(m.regs[0].to_u16(), 8);
    assert_eq!(m.regs[1].to_u16(), 7);
    assert!(m.stack.is_empty());
}

#[test]
fn jt_and_jf_take_opposite_branches() {
    for cond in [0u16, 1, 500] {
        let mut t = Machine::new(&[7, cond, 100]);
        let mut f = Machine::new(&[8, cond, 100]);
        t.cycle();
        f.cycle();
        let (tp, fp) = (t.pc.to_u16(), f.pc.to_u16());
        assert!((tp == 100 && fp == 3) || (tp == 3 && fp == 100));
    }
}

#[test]
fn jumps() {
    // 0: JT 0 9; 3: JF 0 8; 6: HALT; 7: HALT; 8: OUT 88; 10: JMP 6
    let mut m = Machine::new(&[7, 0, 9, 8, 0, 8, 0, 0, 19, 88, 6, 6]);
    let events = run(&mut m);
    assert_eq!(
        events,
        vec![Event::Continue, Event::Continue, Event::Output(U15::new(88)), Event::Continue, Event::Halt]
    );
    assert_eq!(m.pc.to_u16(), 6);
}

#[test]
fn memory_instructions() {
    // WMEM 100 1234; RMEM r0 100; RMEM r1 101 (a register cell: unchanged); HALT
    let mut m = Machine::new(&[16, 100, 1234, 15, 32768, 100, 15, 32769, 101, 0]);
    m.memory.write_address(U15::new(101), WmWord::Register(2));
    m.regs[1] = U15::new(5);
    run(&mut m);
    assert_eq!(m.regs[0].to_u16(), 1234);
    assert_eq!(m.regs[1].to_u16(), 5);
    assert_eq!(m.memory.read_address(U15::new(100)), WmWord::Constant(U15::new(1234)));
}

#[test]
fn input_is_read_in_order() {
    // IN r0; IN r1; HALT
    let mut m = Machine::new(&[20, 32768, 20, 32769, 0]);
    assert_eq!(m.cycle(), Event::NeedInput);
    assert_eq!(m.pc.to_u16(), 0);
    m.feed_input(&['h', 'i', '\n']);
    assert_eq!(m.cycle(), Event::Continue);
    assert_eq!(m.cycle(), Event::Continue);
    assert_eq!(m.regs[0].to_u16(), 'h' as u16);
    assert_eq!(m.regs[1].to_u16(), 'i' as u16);
    assert_eq!(m.input, vec!['\n']);
}

#[test]
fn faults_leave_the_machine_unchanged() {
    let mut m = Machine::new(&[3, 32768]);
    m.regs[0] = U15::new(9);
    assert_eq!(m.cycle(), Event::Fault(Fault::EmptyStack));
    assert_eq!(m.pc.to_u16(), 0);
    assert_eq!(m.regs[0].to_u16(), 9);
    assert!(m.stack.is_empty());

    let mut m = Machine::new(&[11, 32768, 5, 0]);
    assert_eq!(m.cycle(), Event::Fault(Fault::DivisionByZero));

    let mut m = Machine::new(&[22]);
    assert_eq!(m.cycle(), Event::Fault(Fault::UnknownInstruction));

    let mut m = Machine::new(&[20, 32768]);
    m.feed_input(&['\u{8000}']);
    assert_eq!(m.cycle(), Event::Fault(Fault::InvalidInput));
}

#[test]
fn ret_on_empty_stack_halts() {
    let mut m = Machine::new(&[18]);
    assert_eq!(m.cycle(), Event::Halt);
}

#[test]
fn register_test_is_bypassed() {
    let mut m = Machine::new(&[]);
    m.pc = U15::new(5451);
    assert_eq!(m.cycle(), Event::Halt);
    assert_eq!(m.regs[7].to_u16(), 25734);
    assert_eq!(m.memory.read_address(U15::new(5482)), WmWord::Constant(U15::new(0)));
    assert_eq!(m.memory.read_address(U15::new(5483)), WmWord::Constant(U15::new(21)));
    assert_eq!(m.memory.read_address(U15::new(5497)), WmWord::Constant(U15::new(21)));
    assert_eq!(m.memory.read_address(U15::new(5498)), WmWord::Constant(U15::new(0)));
}

#[test]
fn words_are_little_endian() {
    assert_eq!(words_from_bytes(&[0x09, 0x00, 0x00, 0x80, 0x34, 0x12]), vec![9, 32768, 0x1234]);
    assert_eq!(words_from_bytes(&[]), Vec::<u16>::new());
}

#[test]
fn program_validation() {
    assert_eq!(validate_program(&[0, 32775]), Ok(()));
    assert_eq!(validate_program(&[0, 32776, 40000]), Err(LoadError::InvalidWord(1)));
    assert_eq!(validate_program(&vec![0u16; 32769]), Err(LoadError::TooLong));
    let mut long = vec![0u16; 32769];
    long[32768] = 65535;
    assert_eq!(validate_program(&long), Err(LoadError::InvalidWord(32768)));
}
