use exile::gen::{gen, GenError};
use exile::lexer::{lex, Token, Type};
use exile::parser::{parse, Instruction, Method, ParseError};

fn tok(token_type: Type, literal: &str) -> Token {
    Token { token_type, literal: literal.to_string() }
}

fn push(literal: &str) -> Instruction {
    Instruction::Push(tok(Type::Integer, literal))
}

fn method(return_type: &str, name: &str, instructions: Vec<Instruction>) -> Method {
    Method {
        return_type: return_type.to_string(),
        name: name.to_string(),
        instructions,
    }
}

#[test]
fn lex_classifies_each_kind() {
    let tokens = lex("i32 f:".to_string());
    let kinds: Vec<Type> = tokens.iter().map(|t| t.token_type).collect();
    let literals: Vec<&str> = tokens.iter().map(|t| t.literal.as_str()).collect();
    assert_eq!(
        kinds,
        vec![
            Type::Identifier,
            Type::Whitespace,
            Type::Identifier,
            Type::Colon,
            Type::LineBreak
        ]
    );
    assert_eq!(literals, vec!["i32", " ", "f", ":", "\n"]);
}

#[test]
fn lex_empty_input_gives_only_end_marker() {
    let tokens = lex(String::new());
    assert_eq!(tokens.len(), 1);
    assert_eq!(tokens[0].token_type, Type::LineBreak);
    assert_eq!(tokens[0].literal, "\n");
}

#[test]
fn lex_integer_runs_and_error_characters() {
    let tokens = lex("push 23 #".to_string());
    let kinds: Vec<Type> = tokens.iter().map(|t| t.token_type).collect();
    assert_eq!(
        kinds,
        vec![
            Type::Identifier,
            Type::Whitespace,
            Type::Integer,
            Type::Whitespace,
            Type::Error,
            Type::LineBreak
        ]
    );
    assert_eq!(tokens[2].literal, "23");
    assert_eq!(tokens[4].literal, "#");
}

#[test]
fn lex_mixed_identifier_keeps_digits() {
    let tokens = lex("a1b2".to_string());
    assert_eq!(tokens.len(), 2);
    assert_eq!(tokens[0].token_type, Type::Identifier);
    assert_eq!(tokens[0].literal, "a1b2");
}

#[test]
fn parse_one_method_with_instructions() {
    let mut tokens = lex("i32 f:".to_string());
    tokens.extend(lex("  push 2".to_string()));
    tokens.extend(lex("  add".to_string()));
    tokens.extend(lex("  ret".to_string()));
    let methods = parse(tokens).unwrap();
    assert_eq!(methods.len(), 1);
    assert_eq!(methods[0].return_type, "i32");
    assert_eq!(methods[0].name, "f");
    assert_eq!(methods[0].instructions.len(), 3);
    match &methods[0].instructions[0] {
        Instruction::Push(t) => {
            assert_eq!(t.token_type, Type::Integer);
            assert_eq!(t.literal, "2");
        }
        other => panic!("expected push, got {:?}", other),
    }
    assert!(matches!(methods[0].instructions[1], Instruction::Add()));
    assert!(matches!(methods[0].instructions[2], Instruction::Ret()));
}

#[test]
fn parse_empty_token_stream_gives_no_methods() {
    let methods = parse(Vec::new()).unwrap();
    assert_eq!(methods.len(), 0);
}

#[test]
fn parse_unknown_instruction_is_rejected() {
    let mut tokens = lex("i32 f:".to_string());
    tokens.extend(lex("  foo".to_string()));
    assert!(matches!(parse(tokens), Err(ParseError::UnknownInstruction)));
}

#[test]
fn parse_missing_colon_is_rejected() {
    let tokens = lex("i32 f".to_string());
    assert!(matches!(parse(tokens), Err(ParseError::UnexpectedToken)));
}

#[test]
fn parse_truncated_header_is_rejected() {
    let tokens = lex("i32".to_string());
    assert!(matches!(parse(tokens), Err(ParseError::UnexpectedEnd)));
}

#[test]
fn parse_push_without_number_is_rejected() {
    let mut tokens = lex("i32 f:".to_string());
    tokens.extend(lex("  push add".to_string()));
    assert!(matches!(parse(tokens), Err(ParseError::UnexpectedToken)));
}

#[test]
fn opcode_signed_prefix_on_i32() {
    assert_eq!(Instruction::Add().opcode("i32"), "add");
    assert_eq!(Instruction::Sub().opcode("i32"), "sub");
    assert_eq!(Instruction::Mul().opcode("i32"), "mul");
    assert_eq!(Instruction::Div().opcode("i32"), "sdiv");
    assert_eq!(Instruction::Rem().opcode("i32"), "srem");
}

#[test]
fn opcode_float_prefix_on_f32() {
    assert_eq!(Instruction::Add().opcode("f32"), "fadd");
    assert_eq!(Instruction::Div().opcode("f32"), "fdiv");
    assert_eq!(Instruction::Ret().opcode("f32"), "fret");
}

#[test]
fn gen_binary_op_example() {
    let m = method("i32", "f", vec![push("2"), push("3"), Instruction::Add(), Instruction::Ret()]);
    let out = gen(vec![m]).unwrap();
    let expected = "define i32 @f() {\n    %1 = alloca i32\n    store i32 2, i32* %1\n    %2 = alloca i32\n    store i32 3, i32* %2\n    %3 = load i32, i32* %2\n    %4 = load i32, i32* %1\n    %5 = add nsw i32 %4, %3\n    ret i32 %5\n}\n";
    assert_eq!(out, expected);
}

#[test]
fn gen_from_source_text_end_to_end() {
    let lines = ["i32 f:", "  push 2", "  push 3", "  add", "  ret"];
    let mut tokens = Vec::new();
    for line in lines.iter() {
        tokens.extend(lex(line.to_string()));
    }
    let methods = parse(tokens).unwrap();
    let out = gen(methods).unwrap();
    let expected = "define i32 @f() {\n    %1 = alloca i32\n    store i32 2, i32* %1\n    %2 = alloca i32\n    store i32 3, i32* %2\n    %3 = load i32, i32* %2\n    %4 = load i32, i32* %1\n    %5 = add nsw i32 %4, %3\n    ret i32 %5\n}\n";
    assert_eq!(out, expected);
}

#[test]
fn gen_push_then_ret_emits_four_lines() {
    let m = method("i32", "g", vec![push("7"), Instruction::Ret()]);
    let out = gen(vec![m]).unwrap();
    let expected = "define i32 @g() {\n    %1 = alloca i32\n    store i32 7, i32* %1\n    %2 = load i32, i32* %1\n    ret i32 %2\n}\n";
    assert_eq!(out, expected);
}

#[test]
fn gen_signed_division() {
    let m = method("i32", "d", vec![push("8"), push("2"), Instruction::Div(), Instruction::Ret()]);
    let out = gen(vec![m]).unwrap();
    let expected = "define i32 @d() {\n    %1 = alloca i32\n    store i32 8, i32* %1\n    %2 = alloca i32\n    store i32 2, i32* %2\n    %3 = load i32, i32* %2\n    %4 = load i32, i32* %1\n    %5 = sdiv  i32 %4, %3\n    ret i32 %5\n}\n";
    assert_eq!(out, expected);
}

#[test]
fn gen_remainder_keeps_signed_prefix_and_no_nsw() {
    let m = method("i32", "r", vec![push("9"), push("4"), Instruction::Rem(), Instruction::Ret()]);
    let out = gen(vec![m]).unwrap();
    assert!(out.contains("    %5 = srem  i32 %4, %3\n"));
    assert!(!out.contains("nsw"));
}

#[test]
fn gen_void_return_ignores_stack() {
    let empty_stack = method("void", "v", vec![Instruction::Ret()]);
    let out = gen(vec![empty_stack]).unwrap();
    assert_eq!(out, "define void @v() {\n    ret void\n}\n");

    let full_stack = method("void", "w", vec![push("5"), Instruction::Ret()]);
    let out2 = gen(vec![full_stack]).unwrap();
    let expected = "define void @w() {\n    %1 = alloca i32\n    store i32 5, i32* %1\n    ret void\n}\n";
    assert_eq!(out2, expected);
}

#[test]
fn gen_register_counter_resets_between_methods() {
    let m1 = method("i32", "first", vec![push("1"), push("2"), Instruction::Add(), Instruction::Ret()]);
    let m2 = method("i32", "second", vec![push("7"), Instruction::Ret()]);
    let only_m1 = gen(vec![method(
        "i32",
        "first",
        vec![push("1"), push("2"), Instruction::Add(), Instruction::Ret()],
    )])
    .unwrap();
    let only_m2 = gen(vec![method("i32", "second", vec![push("7"), Instruction::Ret()])]).unwrap();
    let both = gen(vec![m1, m2]).unwrap();
    assert_eq!(both, format!("{}{}", only_m1, only_m2));
    assert!(only_m2.contains("%1 = alloca i32"));
}

#[test]
fn gen_registers_stay_strictly_increasing_past_nine() {
    let m = method(
        "i32",
        "big",
        vec![
            push("1"),
            push("2"),
            push("3"),
            push("4"),
            Instruction::Add(),
            Instruction::Add(),
            Instruction::Add(),
            Instruction::Ret(),
        ],
    );
    let out = gen(vec![m]).unwrap();
    assert!(out.contains("    %10 = load i32, i32* %1\n"));
    assert!(out.contains("    %11 = add nsw i32 %10, %9\n"));
    assert!(out.ends_with("    ret i32 %11\n}\n"));
}

#[test]
fn gen_binary_op_underflow_is_rejected() {
    let m = method("i32", "f", vec![Instruction::Add()]);
    assert_eq!(gen(vec![m]), Err(GenError::StackUnderflow));
    let m2 = method("i32", "f", vec![push("1"), Instruction::Add()]);
    assert_eq!(gen(vec![m2]), Err(GenError::StackUnderflow));
}

#[test]
fn gen_ret_underflow_is_rejected() {
    let m = method("i32", "f", vec![Instruction::Ret()]);
    assert_eq!(gen(vec![m]), Err(GenError::StackUnderflow));
}

#[test]
fn gen_return_type_mismatch_is_rejected() {
    let m = method("i64", "f", vec![push("1"), Instruction::Ret()]);
    assert_eq!(gen(vec![m]), Err(GenError::TypeMismatch));
}

#[test]
fn gen_non_integer_push_is_rejected() {
    let bad = Instruction::Push(tok(Type::Identifier, "x"));
    let m = method("i32", "f", vec![bad, Instruction::Ret()]);
    assert_eq!(gen(vec![m]), Err(GenError::Unsupported));
}

#[test]
fn gen_error_abandons_whole_run() {
    let good = method("i32", "ok", vec![push("1"), Instruction::Ret()]);
    let bad = method("i32", "bad", vec![Instruction::Add()]);
    assert_eq!(gen(vec![good, bad]), Err(GenError::StackUnderflow));
}

#[test]
fn gen_no_methods_gives_empty_text() {
    assert_eq!(gen(Vec::new()), Ok(String::new()));
}

#[test]
fn lex_carriage_return_counts_as_whitespace() {
    let tokens = lex("\r".to_string());
    assert_eq!(tokens.len(), 2);
    assert_eq!(tokens[0].token_type, Type::Whitespace);
    assert_eq!(tokens[0].literal, "\r");
    assert_eq!(tokens[1].token_type, Type::LineBreak);
}

#[test]
fn gen_error_messages() {
    assert_eq!(GenError::TypeMismatch.message(), "Types of operands must be same");
    assert_eq!(
        GenError::StackUnderflow.message(),
        "Method requires at least one operand on stack"
    );
    assert_eq!(GenError::Unsupported.message(), "Unsupported literal or type");
}
