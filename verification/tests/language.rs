use pwlp::ast::{CompileError, Expression, Intrinsic, Scope};
use pwlp::instructions::Binary;
use pwlp::parser::{
    format_statements, from_dec, from_hex, is_dec_digit, is_hex_digit, parse, parse_expression,
    parse_statements,
};
use pwlp::program::Program;

#[test]
fn main() {
    let (pos, e) = parse_expression("0x0000CC").unwrap();
    assert_eq!(pos, "0x0000CC".len());
    assert_eq!(format!("{:?}", e), format!("{:?}", Expression::Literal(204)));

    let (pos, e) = parse_expression("1337").unwrap();
    assert_eq!(pos, "1337".len());
    assert_eq!(format!("{:?}", e), format!("{:?}", Expression::Literal(1337)));

    let (pos, e) = parse_expression("1+2").unwrap();
    assert_eq!(pos, "1+2".len());
    assert_eq!(
        format!("{:?}", e),
        format!(
            "{:?}",
            Expression::Binary(
                Box::new(Expression::Literal(1)),
                Binary::ADD,
                Box::new(Expression::Literal(2))
            )
        )
    );

    let source = "loop{if(1+2*3>4){yield};\ndump}";
    let (pos, stmts) = parse_statements(source).unwrap();
    assert_eq!(pos, source.len());
    let mut program = Program::new();
    let mut scope = Scope::new();
    pwlp::ast::assemble_statements(&stmts, &mut program, &mut scope).unwrap();
    scope.assemble_teardown(&mut program).unwrap();
}

#[test]
fn compiles_to_exact_bytes() {
    // empty program
    assert_eq!(parse("").unwrap().code, Vec::<u8>::new());
    // a bare yield
    assert_eq!(parse("yield").unwrap().code, vec![0xFE]);
    // a constant expression statement folds, is pushed, and is discarded
    assert_eq!(parse("1+2").unwrap().code, vec![0x11, 0x03, 0x01]);
    // an endless loop with a folded condition, a conditional yield and a dump
    assert_eq!(
        parse("loop{if(1+2*3>4){yield};\ndump}").unwrap().code,
        vec![0x11, 0x01, 0x50, 0x06, 0x00, 0xFE, 0x01, 0xFD, 0x40, 0x00, 0x00]
    );
}

#[test]
fn shifts_fold_by_direction() {
    // a right shift by eight folds as a right shift
    assert_eq!(parse("256 >> 8").unwrap().code, vec![0x11, 0x01, 0x01]);
    // a left shift by eight folds as a left shift
    assert_eq!(
        parse("1 << 8").unwrap().code,
        vec![0x31, 0x00, 0x01, 0x00, 0x00, 0x01]
    );
    // a shift by a non-multiple of eight is a parse error
    assert!(parse("1 << 3").is_err());
    // a dynamic shift is a parse error
    assert!(parse("x = 1; x << x").is_err());
}

#[test]
fn parse_reports_remainder() {
    let err = match parse("yield @@") {
        Err(e) => e,
        Ok(_) => panic!("expected a parse error"),
    };
    assert!(err.contains("remainder"));
    assert!(err.contains("@@"));
}

#[test]
fn compile_errors() {
    // a variable assigned twice in one frame
    assert!(parse("x = 1; x = 2").is_err());
    // a variable never bound
    assert!(parse("y").is_err());
}

#[test]
fn scope_bookkeeping() {
    let mut scope = Scope::new();
    let mut program = Program::new();
    // binding requires a pushed slot: mimic an expression push
    program.push(1);
    scope.inc_level().unwrap();
    scope.define_variable("a").unwrap();
    assert_eq!(scope.index_of("a"), Some(0));
    program.push(2);
    scope.inc_level().unwrap();
    scope.define_variable("b").unwrap();
    assert_eq!(scope.index_of("b"), Some(0));
    assert_eq!(scope.index_of("a"), Some(1));
    assert_eq!(scope.index_of("missing"), None);
    // a nested frame shifts outer variables by its own level
    scope.nest();
    assert_eq!(scope.index_of("a"), Some(1));
    scope.inc_level().unwrap();
    assert_eq!(scope.index_of("a"), Some(2));
    // rebinding in the same frame is refused
    let mut scope2 = Scope::new();
    let mut p2 = Program::new();
    p2.push(1);
    scope2.inc_level().unwrap();
    scope2.define_variable("a").unwrap();
    p2.push(2);
    scope2.inc_level().unwrap();
    assert_eq!(
        scope2.define_variable("a"),
        Err(CompileError::DuplicateVariable(String::from("a")))
    );
}

#[test]
fn numbers_and_digits() {
    assert_eq!(from_dec("1337"), Some(1337));
    assert_eq!(from_dec("0"), Some(0));
    assert_eq!(from_dec(""), None);
    assert_eq!(from_dec("12a"), None);
    assert_eq!(from_dec("4294967295"), Some(u32::MAX));
    assert_eq!(from_dec("4294967296"), None);
    assert_eq!(from_hex("ff"), Some(255));
    assert_eq!(from_hex("FF"), Some(255));
    assert_eq!(from_hex("deadbeef"), Some(0xDEADBEEF));
    assert_eq!(from_hex("100000000"), None);
    assert_eq!(from_hex(""), None);
    assert!(is_dec_digit('7') && !is_dec_digit('a'));
    assert!(is_hex_digit('a') && is_hex_digit('F') && !is_hex_digit('g'));
}

#[test]
fn format_round_trip() {
    // reading formatted text back gives the same bytecode, whitespace aside
    for source in [
        "loop{if(1+2*3>4){yield};\ndump}",
        "counter=0; loop { counter = (counter+1) % get_length; for(i=get_length) { if(i<=counter) { set_pixel(i-1, 0xFF, 0, 0) } else { set_pixel(i-1, 0, 0xFF, 0) } }; blit; yield }",
        "x = 5; if(x == 5) { dump } else { yield }; blit",
        "random(10); get_pixel(3); get_length; get_wall_time; get_precise_time",
        "x = 1+2*3-4/2%3; y = x&1|2^3; if(!(x) > -(y)) { dump }",
    ] {
        let (pos, stmts) = parse_statements(source).unwrap();
        assert_eq!(pos, source.len(), "whole source consumed: {source}");
        let formatted = format_statements(&stmts).unwrap();
        let original = parse(source).unwrap();
        let reparsed = parse(&formatted).unwrap();
        assert_eq!(original.code, reparsed.code, "formatted: {formatted}");
    }
}

#[test]
fn assembler_emits_documented_encodings() {
    let mut p = Program::new();
    p.push(0);
    p.push(7);
    p.push(0x12345678);
    p.pop(2);
    p.peek(3);
    p.nop();
    p.add();
    p.sub();
    p.div();
    p.mul();
    p.modulo();
    p.and();
    p.or();
    p.xor();
    p.gt();
    p.gte();
    p.lt();
    p.lte();
    p.inc();
    p.dec();
    p.not();
    p.neg();
    p.dump();
    p.dup();
    p.swap();
    p.yield_op();
    p.set_pixel();
    p.blit();
    p.get_length();
    p.get_precise_time();
    p.get_wall_time();
    assert_eq!(
        p.code,
        vec![
            0x10, 0x11, 0x07, 0x31, 0x78, 0x56, 0x34, 0x12, 0x02, 0x23, 0x00, 0x80, 0x81, 0x82,
            0x83, 0x84, 0x85, 0x86, 0x87, 0x88, 0x89, 0x8A, 0x8B, 0x70, 0x71, 0x72, 0x73, 0xFD,
            0x20, 0xFC, 0xFE, 0xE3, 0xE4, 0xE0, 0xE2, 0xE1
        ]
    );
}

#[test]
fn combinators_emit_absolute_jumps() {
    // an if-body fragment sits after the three branch bytes
    let mut p = Program::new();
    p.push(1); // two bytes
    let mut body = Program::fragment_at(p.current_pc() + 3);
    body.nop();
    p.if_not_zero(&body);
    // JZ to the first byte past the body: 2 + 3 + 1 = 6
    assert_eq!(p.code, vec![0x11, 0x01, 0x50, 0x06, 0x00, 0x00]);

    let mut q = Program::new();
    q.nop();
    let mut body = Program::fragment_at(q.current_pc());
    body.dump();
    q.repeat_forever(&body);
    // the loop jumps back to its own start at address one
    assert_eq!(q.code, vec![0x00, 0xFD, 0x40, 0x01, 0x00]);

    let mut r = Program::new();
    let mut body = Program::fragment_at(2); // after the two bytes of the pushed counter
    body.dump();
    r.repeat_times(3, &body);
    // push 3, body, DEC, JNZ back to the body, pop the spent counter
    assert_eq!(r.code, vec![0x11, 0x03, 0xFD, 0x71, 0x60, 0x02, 0x00, 0x01]);
}

#[test]
fn disassembly_lists_instructions() {
    let p = Program::from_binary(vec![0x11, 0x03, 0x01]);
    assert_eq!(
        p.disassemble(),
        "0000.\t11\tPUSHB\t[03]\n0002.\t01\tPOP\t1\n"
    );
    let q = Program::from_binary(vec![0x40, 0x10, 0x00, 0x90]);
    assert_eq!(
        q.disassemble(),
        "0000.\t40\tJMP\tto 16\n0003.\t90\tUnknown instruction\n"
    );
    let r = Program::from_binary(vec![0xE4, 0xFE, 0x71, 0x82]);
    assert_eq!(
        r.disassemble(),
        "0000.\te4\tUSER\tblit\n0001.\tfe\tSPECIAL\tyield\n0002.\t71\tUNARY\tDEC\n0003.\t82\tBINARY\tDIV\n"
    );
}

#[test]
fn clamp_intrinsic_folds_and_lowers() {
    // constant clamp folds to its value
    let folded = Expression::Intrinsic(Intrinsic::Clamp(
        Box::new(Expression::Literal(300)),
        Box::new(Expression::Literal(10)),
        Box::new(Expression::Literal(255)),
    ));
    assert_eq!(folded.const_value(), Some(255));
    let folded_low = Expression::Intrinsic(Intrinsic::Clamp(
        Box::new(Expression::Literal(3)),
        Box::new(Expression::Literal(10)),
        Box::new(Expression::Literal(255)),
    ));
    assert_eq!(folded_low.const_value(), Some(10));
}

#[test]
fn locals_and_reach_limits() {
    // fifteen locals in one scope still tear down with a single pop
    let many = "a=1;b=1;c=1;d=1;e=1;f=1;g=1;h=1;i=1;j=1;k=1;l=1;m=1;n=1;o=1";
    let program = parse(many).unwrap();
    assert_eq!(program.code.last(), Some(&0x0Fu8));
    // a sixteenth exceeds what one pop instruction can discard
    let too_many = "a=1;b=1;c=1;d=1;e=1;f=1;g=1;h=1;i=1;j=1;k=1;l=1;m=1;n=1;o=1;p=1";
    assert!(parse(too_many).is_err());
    // a variable buried under more temporaries than a peek can reach
    let deep = "a=1;b=1;c=1;d=1;e=1;f=1;g=1;h=1;i=1;j=1;k=1;l=1;m=1;n=1;o=1;\
        x = get_length*(get_length+(get_length+(get_length+a)))";
    assert!(parse(deep).is_err());
    // but a shallow read of the same variable works
    let shallow = "a=1;b=1;c=1;d=1;e=1;f=1;g=1;h=1;i=1;j=1;k=1;l=1;m=1;n=1;a+1";
    assert!(parse(shallow).is_ok());
}
