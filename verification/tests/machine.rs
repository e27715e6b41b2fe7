use pwlp::parser::parse;
use pwlp::program::Program;
use pwlp::strip::{set_all_pixels_to, DummyStrip, Strip};
use pwlp::vm::{Outcome, VMError, VM};

fn deterministic_vm(length: u32) -> VM<DummyStrip> {
    let strip = DummyStrip::new(length, true);
    let mut vm = VM::new(strip);
    vm.set_deterministic(true);
    vm.set_trace(true);
    vm
}

/// Collect the first `frames` committed frames of a program in deterministic
/// mode, running in slices.
fn run_frames(source: &str, length: u32, frames: usize) -> Vec<Vec<u8>> {
    let program = parse(source).unwrap();
    let vm = deterministic_vm(length);
    let mut state = vm.start(program, None);
    loop {
        match state.run(Some(1000)) {
            Outcome::Yielded | Outcome::LocalInstructionLimitReached => {
                if state.vm.strip.captured().len() >= frames {
                    let captured = state.vm.strip.captured();
                    return captured[..frames].to_vec();
                }
            }
            other => panic!("program stopped early: {:?}", other),
        }
    }
}

#[test]
fn deterministic_replay_is_bit_exact() {
    let source = "counter=0; loop { counter = (counter+1) % get_length; for(i=get_length) { if(i<=counter) { set_pixel(i-1, 0xFF, 0, 0) } else { set_pixel(i-1, 0, 0xFF, 0) } }; blit; yield }";
    let a = run_frames(source, 4, 4);
    let b = run_frames(source, 4, 4);
    assert_eq!(a, b);
    // randomness is deterministic too
    let random_source = "loop { set_pixel(0, random(256), random(256), random(256)); blit; yield }";
    let c = run_frames(random_source, 1, 6);
    let d = run_frames(random_source, 1, 6);
    assert_eq!(c, d);
    // and the wall and precise clocks are functions of the instruction count
    let clock_source = "loop { set_pixel(0, get_wall_time, get_precise_time, 0); blit; yield }";
    let e = run_frames(clock_source, 1, 3);
    let f = run_frames(clock_source, 1, 3);
    assert_eq!(e, f);
}

#[test]
fn striped_frames() {
    // One pixel red, the rest green, and every frame alike. A ramp (one more
    // red pixel per frame) would need `counter` to carry across iterations,
    // but the language cannot express that: an assignment binds a fresh slot
    // in the innermost block, the loop body's bindings are popped when each
    // iteration ends, and the instruction set has no store-to-slot opcode
    // that could write the outer binding. So the body re-derives its counter
    // from the outer `counter = 0` every time round, and each frame comes
    // out the same.
    let source = "counter=0; loop { counter = (counter+1) % get_length; for(i=get_length) { if(i<=counter) { set_pixel(i-1, 0xFF, 0, 0) } else { set_pixel(i-1, 0, 0xFF, 0) } }; blit; yield }";
    let frames = run_frames(source, 4, 4);
    let expected = vec![0xFF, 0x00, 0x00, 0x00, 0xFF, 0x00, 0x00, 0xFF, 0x00, 0x00, 0xFF, 0x00];
    assert_eq!(frames[0], expected);
    assert_eq!(frames[1], expected);
    assert_eq!(frames[2], expected);
    assert_eq!(frames[3], expected);
}

#[test]
fn loop_yields_with_condition_on_stack() {
    let program = parse("loop{if(1+2*3>4){yield};\ndump}").unwrap();
    let vm = deterministic_vm(4);
    let mut state = vm.start(program, None);
    // the first yield exits run
    assert!(matches!(state.run(None), Outcome::Yielded));
    // The stack cannot be empty here: a branch peeks its condition and the
    // `POP 1` that discards it sits after the branch join, while the yield
    // sits inside the branch body. So the folded condition value 1 is still
    // on the stack at the yield.
    assert_eq!(state.stack(), &vec![1u32]);
}

#[test]
fn program_ends_with_empty_stack() {
    // a top-level program has no outstanding locals at its end
    for source in ["1+2", "x = 5; blit", "for(i=3) { dump }", ""] {
        let program = parse(source).unwrap();
        let vm = deterministic_vm(4);
        let mut state = vm.start(program, None);
        loop {
            match state.run(Some(1000)) {
                Outcome::Ended => break,
                Outcome::LocalInstructionLimitReached | Outcome::Yielded => continue,
                other => panic!("unexpected outcome: {:?}", other),
            }
        }
        assert_eq!(state.stack().len(), 0, "source: {source}");
    }
}

#[test]
fn local_quota_bounds_execution() {
    // an endless loop runs exactly as many opcodes as the quota allows
    let program = parse("loop { dump }").unwrap();
    let vm = deterministic_vm(1);
    let mut state = vm.start(program, None);
    assert!(matches!(
        state.run(Some(7)),
        Outcome::LocalInstructionLimitReached
    ));
    assert_eq!(state.instruction_count, 7);
    // resumption is seamless: seven more
    assert!(matches!(
        state.run(Some(7)),
        Outcome::LocalInstructionLimitReached
    ));
    assert_eq!(state.instruction_count, 14);
}

#[test]
fn local_quota_of_one_stops_after_one_opcode() {
    let program = parse("1+2").unwrap(); // bytes: PUSHB 1 byte, POP 1
    let vm = deterministic_vm(1);
    let mut state = vm.start(program, None);
    assert!(matches!(
        state.run(Some(1)),
        Outcome::LocalInstructionLimitReached
    ));
    // the counter sits at the next opcode
    assert_eq!(state.pc(), 2);
    assert!(matches!(state.run(None), Outcome::Ended));
}

#[test]
fn global_quota_stops_the_machine() {
    let program = parse("loop { dump }").unwrap();
    let vm = deterministic_vm(1);
    let mut state = vm.start(program, Some(5));
    assert!(matches!(
        state.run(None),
        Outcome::GlobalInstructionLimitReached
    ));
    assert_eq!(state.instruction_count, 5);
    // the global quota persists across calls
    assert!(matches!(
        state.run(None),
        Outcome::GlobalInstructionLimitReached
    ));
    assert_eq!(state.instruction_count, 5);
}

#[test]
fn division_by_zero_is_reported() {
    let mut p = Program::new();
    p.push(0xDEADBEEF);
    p.push(0);
    p.div();
    let vm = deterministic_vm(1);
    let mut state = vm.start(p, None);
    assert!(matches!(
        state.run(None),
        Outcome::Error(VMError::DivisionByZero)
    ));
}

#[test]
fn machine_errors() {
    // an opcode byte outside the instruction set
    let vm = deterministic_vm(1);
    let mut state = vm.start(Program::from_binary(vec![0x90]), None);
    assert!(matches!(
        state.run(None),
        Outcome::Error(VMError::UnknownInstruction)
    ));
    // an arithmetic instruction on an empty stack
    let vm = deterministic_vm(1);
    let mut state = vm.start(Program::from_binary(vec![0x80]), None);
    assert!(matches!(
        state.run(None),
        Outcome::Error(VMError::StackUnderflow)
    ));
    // a pixel write beyond the strip
    let mut p = Program::new();
    p.push(10);
    p.push(0);
    p.set_pixel();
    let vm = deterministic_vm(4);
    let mut state = vm.start(p, None);
    assert!(matches!(
        state.run(None),
        Outcome::Error(VMError::StripIndexOutOfRange)
    ));
    // truncated inline operands
    let vm = deterministic_vm(1);
    let mut state = vm.start(Program::from_binary(vec![0x31, 0x01]), None);
    assert!(matches!(
        state.run(None),
        Outcome::Error(VMError::UnknownInstruction)
    ));
}

#[test]
fn random_draws_stay_below_their_bound() {
    // deterministic mode: the dumped stack holds the drawn value
    let program = parse("random(100); dump").unwrap();
    let vm = deterministic_vm(1);
    let mut state = vm.start(program, None);
    // random(100) as a statement draws and discards; dump records afterwards
    loop {
        match state.run(Some(100)) {
            Outcome::Ended => break,
            Outcome::LocalInstructionLimitReached => continue,
            other => panic!("unexpected outcome: {:?}", other),
        }
    }
    // the operating-system draw obeys the same bound
    let program = parse("x = random(100); dump").unwrap();
    let strip = DummyStrip::new(1, true);
    let mut vm = VM::new(strip);
    vm.set_trace(true);
    let mut state = vm.start(program, None);
    loop {
        match state.run(Some(100)) {
            Outcome::Ended => break,
            Outcome::LocalInstructionLimitReached => continue,
            other => panic!("unexpected outcome: {:?}", other),
        }
    }
    let dumps = state.dumps();
    assert_eq!(dumps.len(), 1);
    assert_eq!(dumps[0].len(), 1);
    assert!(dumps[0][0] < 100);
    // a zero bound draws zero instead of failing
    let program = parse("x = random(0); dump").unwrap();
    let vm = deterministic_vm(1);
    let mut state = vm.start(program, None);
    loop {
        match state.run(Some(100)) {
            Outcome::Ended => break,
            Outcome::LocalInstructionLimitReached => continue,
            other => panic!("unexpected outcome: {:?}", other),
        }
    }
    assert_eq!(state.dumps(), &vec![vec![0u32]]);
}

#[test]
fn pixels_read_back() {
    // set a pixel and read it back packed: idx | r<<8 | g<<16 | b<<24
    let program = parse("set_pixel(2, 10, 20, 30); x = get_pixel(2); dump").unwrap();
    let vm = deterministic_vm(4);
    let mut state = vm.start(program, None);
    loop {
        match state.run(Some(100)) {
            Outcome::Ended => break,
            Outcome::LocalInstructionLimitReached => continue,
            other => panic!("unexpected outcome: {:?}", other),
        }
    }
    let dumps = state.dumps();
    assert_eq!(dumps.len(), 1);
    assert_eq!(dumps[0], vec![2 | (10 << 8) | (20 << 16) | (30 << 24)]);
}

#[test]
fn strip_painting() {
    let mut strip = DummyStrip::new(3, true);
    set_all_pixels_to(&mut strip, 1, 2, 3);
    assert_eq!(strip.length(), 3);
    let c = strip.get_pixel(1);
    assert_eq!((c.r, c.g, c.b), (1, 2, 3));
    assert_eq!(strip.captured(), &vec![vec![1, 2, 3, 1, 2, 3, 1, 2, 3]]);
}
