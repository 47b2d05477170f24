use guppty::bytecode::{decode_opcode, encode_opcode, ConstValue, Constant, OpCode};
use guppty::compiler::compile;
use guppty::driver::{compile_source, parse_source};
use guppty::error::ErrorKind;

fn op(o: OpCode) -> u8 {
    encode_opcode(o)
}

#[test]
fn compiles_a_top_level_assignment() {
    let script = compile_source("x = 5").unwrap();
    assert_eq!(script.arity, 0);
    assert_eq!(
        script.chunk.code,
        vec![op(OpCode::Constant), 0, op(OpCode::StoreVariable), 1, op(OpCode::Nil), op(OpCode::Return)]
    );
    assert!(matches!(script.chunk.constants[0], Constant::Value(ConstValue::GuppyNumber(5))));
    assert!(matches!(&script.chunk.constants[1], Constant::String(name) if name == "x"));
    assert_eq!(script.chunk.spans.len(), script.chunk.code.len());
}

#[test]
fn compiles_functions_first_and_binds_them_as_globals() {
    let script = compile_source("add(a, b)\n  return a + b\nout(add(1, 2))\n").unwrap();
    assert_eq!(
        script.chunk.code,
        vec![
            op(OpCode::Closure), 0,
            op(OpCode::DefineGlobal), 1,
            op(OpCode::GetGlobal), 2,
            op(OpCode::Constant), 3,
            op(OpCode::Constant), 4,
            op(OpCode::Call), 2,
            op(OpCode::Print), 1,
            op(OpCode::Pop),
            op(OpCode::Nil),
            op(OpCode::Return),
        ]
    );
    match &script.chunk.constants[0] {
        Constant::Function(f) => {
            assert_eq!(f.arity, 2);
            assert_eq!(f.local_names, vec!["a".to_string(), "b".to_string()]);
            assert_eq!(
                f.chunk.code,
                vec![
                    op(OpCode::EnterScope),
                    op(OpCode::GetLocal), 0,
                    op(OpCode::GetLocal), 1,
                    op(OpCode::Add),
                    op(OpCode::Return),
                    op(OpCode::ExitScope),
                    op(OpCode::Nil),
                    op(OpCode::Return),
                ]
            );
            assert!(f.upvalues.is_empty());
        }
        _ => panic!("expected a function constant"),
    }
}

#[test]
fn closures_capture_enclosing_locals() {
    let source = "outer()\n  n = 1\n  inner()\n    return n\n  return inner\n";
    let script = compile_source(source).unwrap();
    let outer = match &script.chunk.constants[0] {
        Constant::Function(f) => f,
        _ => panic!("expected outer"),
    };
    let inner = outer
        .chunk
        .constants
        .iter()
        .find_map(|c| match c {
            Constant::Function(f) => Some(f),
            _ => None,
        })
        .expect("inner function");
    assert_eq!(inner.upvalues.len(), 1);
    assert_eq!(inner.upvalues[0].index, 0);
    assert!(inner.upvalues[0].is_local);
    assert!(inner.chunk.code.contains(&op(OpCode::GetUpvalue)));
}

#[test]
fn if_else_jumps_are_patched() {
    let script = compile_source("if true\n  out(1)\nelse\n  out(2)\n").unwrap();
    let code = &script.chunk.code;
    assert_eq!(code[0], op(OpCode::True));
    assert_eq!(code[1], op(OpCode::JumpIfFalse));
    let then_jump = ((code[2] as usize) << 8) | code[3] as usize;
    // The jump lands just past the `Jump` over the else block.
    let target = 4 + then_jump;
    assert_eq!(code[target - 3], op(OpCode::Jump));
    assert_eq!(code[target], op(OpCode::Pop));
    assert_eq!(&code[code.len() - 2..], &[op(OpCode::Nil), op(OpCode::Return)]);
}

#[test]
fn while_loop_jumps_back_to_its_condition() {
    let script = compile_source("i = 0\nwhile i < 3\n  i = i + 1\n").unwrap();
    let code = &script.chunk.code;
    let loop_at = code.iter().position(|b| *b == op(OpCode::Loop)).unwrap();
    let back = ((code[loop_at + 1] as usize) << 8) | code[loop_at + 2] as usize;
    // Jumping back from after the operand lands on the condition.
    assert_eq!(loop_at + 3 - back, 4);
    assert_eq!(code[4], op(OpCode::GetGlobal));
}

#[test]
fn for_loop_walks_a_range() {
    let script = compile_source("for i in range(1 through 3)\n  out(i)\n").unwrap();
    let code = &script.chunk.code;
    assert_eq!(code[0], op(OpCode::EnterScope));
    assert!(code.contains(&op(OpCode::BuildRange)));
    assert!(code.contains(&op(OpCode::ArrayLen)));
    assert!(code.contains(&op(OpCode::GetIndex)));
    assert_eq!(&code[code.len() - 2..], &[op(OpCode::Nil), op(OpCode::Return)]);
}

#[test]
fn range_outside_a_for_loop_is_refused() {
    let e = compile_source("x = range(1 through 3)").unwrap_err();
    assert_eq!(
        e.message,
        "range() can only be used inside a for loop, like: for i in range(1 through 6)."
    );
    assert_eq!(e.kind, ErrorKind::ValueError);
}

#[test]
fn too_many_constants_is_an_error() {
    let mut source = String::new();
    for i in 0..300 {
        source.push_str(&format!("out({})\n", i));
    }
    let e = compile_source(&source).unwrap_err();
    assert_eq!(e.message, "Too many constants in one chunk.");
}

#[test]
fn compile_of_parsed_program_matches_pipeline() {
    let program = parse_source("y = 2 * 3").unwrap();
    let direct = compile(&program).unwrap();
    let piped = compile_source("y = 2 * 3").unwrap();
    assert_eq!(direct.chunk.code, piped.chunk.code);
}

#[test]
fn parse_errors_come_through_the_pipeline() {
    let e = parse_source("x = ").unwrap_err();
    assert_eq!(e.kind, ErrorKind::SyntaxError);
    assert!(compile_source("x = ").is_err());
}

#[test]
fn opcodes_round_trip_through_bytes() {
    for byte in 0u8..=255 {
        match decode_opcode(byte) {
            Some(o) => assert_eq!(encode_opcode(o), byte),
            None => assert!(byte >= 40),
        }
    }
    assert_eq!(decode_opcode(encode_opcode(OpCode::ArrayLen)), Some(OpCode::ArrayLen));
    assert_eq!(encode_opcode(OpCode::Constant), 0);
    assert_eq!(encode_opcode(OpCode::ArrayLen), 39);
}
