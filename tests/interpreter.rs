use bytecode_vm::chunk::{Chunk, OpCode};
use bytecode_vm::compiler::{compile, compile_expression, CompileError, Compiled, SyntaxError};
use bytecode_vm::disassembler::disassemble_chunk;
use bytecode_vm::lexer::lex;
use bytecode_vm::token::{Token, TokenKind};
use bytecode_vm::value::{negate_number, Value};
use bytecode_vm::vm::{Action, Arithmetic, InterpretResult, RuntimeError, Vm};

fn number(x: f64) -> Value {
    Value::Number(x.to_bits())
}

fn tokens_and_numbers(
    source: &str,
) -> (Vec<(Token, bytecode_vm::token::SourceLocation)>, Vec<u64>) {
    let tokens = lex(String::from(source)).unwrap();
    let numbers = tokens
        .iter()
        .map(|(token, _)| match token {
            Token::Number(text) => text.parse::<f64>().unwrap().to_bits(),
            _ => 0,
        })
        .collect();
    (tokens, numbers)
}

fn compile_program(source: &str) -> Compiled {
    let (tokens, numbers) = tokens_and_numbers(source);
    compile(tokens, numbers)
}

fn run_to_end(vm: &mut Vm, chunk: &Chunk) -> (InterpretResult, Vec<Value>) {
    let mut printed = Vec::new();
    let mut action = vm.run(chunk);
    loop {
        match action {
            Action::Compute(op, a, b) => {
                let (x, y) = (f64::from_bits(a), f64::from_bits(b));
                let r = match op {
                    Arithmetic::Add => x + y,
                    Arithmetic::Subtract => x - y,
                    Arithmetic::Multiply => x * y,
                    Arithmetic::Divide => x / y,
                };
                action = vm.resume(chunk, Some(r.to_bits()));
            }
            Action::Print(v) => {
                printed.push(v);
                action = vm.resume(chunk, None);
            }
            Action::Finished(result) => return (result, printed),
        }
    }
}

#[test]
fn factor_binds_tighter_than_term() {
    let (tokens, numbers) = tokens_and_numbers("1 + 2 * 3");
    let compiled = compile_expression(tokens, numbers);
    assert!(compiled.errors.is_empty());
    assert_eq!(
        compiled.chunk.code,
        vec![
            OpCode::Constant(0),
            OpCode::Constant(1),
            OpCode::Constant(2),
            OpCode::Multiply,
            OpCode::Add
        ]
    );
    assert_eq!(compiled.chunk.constants, vec![number(1.0), number(2.0), number(3.0)]);
    let mut vm = Vm::new();
    let (result, printed) = run_to_end(&mut vm, &compiled.chunk);
    assert_eq!(result, InterpretResult::Completed(Some(number(7.0))));
    assert!(printed.is_empty());
}

#[test]
fn negation_of_a_group_negates_the_whole_group() {
    let (tokens, numbers) = tokens_and_numbers("-(1+2)");
    let compiled = compile_expression(tokens, numbers);
    assert!(compiled.errors.is_empty());
    assert_eq!(
        compiled.chunk.code,
        vec![OpCode::Constant(0), OpCode::Constant(1), OpCode::Add, OpCode::Negate]
    );
    let mut vm = Vm::new();
    let (result, _) = run_to_end(&mut vm, &compiled.chunk);
    assert_eq!(result, InterpretResult::Completed(Some(number(-3.0))));
}

#[test]
fn negate_flips_the_sign() {
    assert_eq!(negate_number(3.0f64.to_bits()), (-3.0f64).to_bits());
    assert_eq!(negate_number((-0.5f64).to_bits()), 0.5f64.to_bits());
}

#[test]
fn term_operators_group_to_the_left() {
    let (tokens, numbers) = tokens_and_numbers("10 - 2 - 3");
    let compiled = compile_expression(tokens, numbers);
    let mut vm = Vm::new();
    let (result, _) = run_to_end(&mut vm, &compiled.chunk);
    assert_eq!(result, InterpretResult::Completed(Some(number(5.0))));
    let (tokens, numbers) = tokens_and_numbers("8 / 4 / 2");
    let compiled = compile_expression(tokens, numbers);
    let (result, _) = run_to_end(&mut vm, &compiled.chunk);
    assert_eq!(result, InterpretResult::Completed(Some(number(1.0))));
}

#[test]
fn division_by_zero_follows_ieee() {
    let (tokens, numbers) = tokens_and_numbers("1 / 0");
    let compiled = compile_expression(tokens, numbers);
    let mut vm = Vm::new();
    let (result, _) = run_to_end(&mut vm, &compiled.chunk);
    assert_eq!(result, InterpretResult::Completed(Some(number(f64::INFINITY))));
}

#[test]
fn let_binds_a_global_and_print_prints_it() {
    let compiled = compile_program("let x = 5; print x;");
    assert!(compiled.errors.is_empty());
    let mut vm = Vm::new();
    let (result, printed) = run_to_end(&mut vm, &compiled.chunk);
    assert_eq!(result, InterpretResult::Completed(None));
    assert_eq!(printed, vec![number(5.0)]);
    assert_eq!(vm.global(&String::from("x")), Some(number(5.0)));
}

#[test]
fn globals_persist_across_runs_and_can_be_rebound() {
    let mut vm = Vm::new();
    let first = compile_program("let x = 1;");
    run_to_end(&mut vm, &first.chunk);
    let second = compile_program("let x = x + 1; print x");
    assert!(second.errors.is_empty());
    let (_, printed) = run_to_end(&mut vm, &second.chunk);
    assert_eq!(printed, vec![number(2.0)]);
}

#[test]
fn undefined_global_is_a_runtime_error_without_output() {
    let compiled = compile_program("print y;");
    assert!(compiled.errors.is_empty());
    let mut vm = Vm::new();
    let (result, printed) = run_to_end(&mut vm, &compiled.chunk);
    assert_eq!(
        result,
        InterpretResult::Failed(RuntimeError::UndefinedVariable(String::from("y")))
    );
    assert!(printed.is_empty());
}

#[test]
fn arithmetic_on_a_boolean_is_a_type_error() {
    let mut vm = Vm::new();
    for source in ["true + 1", "1 - false", "nil * 2"] {
        let (tokens, numbers) = tokens_and_numbers(source);
        let compiled = compile_expression(tokens, numbers);
        assert!(compiled.errors.is_empty());
        let (result, _) = run_to_end(&mut vm, &compiled.chunk);
        assert_eq!(result, InterpretResult::Failed(RuntimeError::OperandsMustBeNumbers));
    }
    let (tokens, numbers) = tokens_and_numbers("-true");
    let compiled = compile_expression(tokens, numbers);
    let (result, _) = run_to_end(&mut vm, &compiled.chunk);
    assert_eq!(result, InterpretResult::Failed(RuntimeError::OperandMustBeNumber));
}

#[test]
fn malformed_chunks_fail_without_panicking() {
    let mut vm = Vm::new();
    let mut chunk = Chunk::new();
    chunk.write(OpCode::Add, 1);
    assert_eq!(
        run_to_end(&mut vm, &chunk).0,
        InterpretResult::Failed(RuntimeError::StackUnderflow)
    );
    let mut chunk = Chunk::new();
    chunk.write(OpCode::Constant(3), 1);
    assert_eq!(
        run_to_end(&mut vm, &chunk).0,
        InterpretResult::Failed(RuntimeError::MissingConstant)
    );
    let mut chunk = Chunk::new();
    chunk.write(OpCode::Nil, 1);
    chunk.write_constant(number(1.0), 1);
    chunk.write(OpCode::DefineGlobal(0), 1);
    assert_eq!(
        run_to_end(&mut vm, &chunk).0,
        InterpretResult::Failed(RuntimeError::NotAnIdentifier)
    );
}

#[test]
fn return_stops_with_the_top_of_the_stack() {
    let mut chunk = Chunk::new();
    chunk.write(OpCode::Boolean(true), 1);
    chunk.write(OpCode::Return, 1);
    chunk.write(OpCode::Nil, 1);
    let mut vm = Vm::new();
    let (result, _) = run_to_end(&mut vm, &chunk);
    assert_eq!(result, InterpretResult::Completed(Some(Value::Boolean(true))));
}

#[test]
fn disassembly_lists_each_instruction_once() {
    let compiled = compile_program("print 1 + 2;\nprint -3;");
    let listings = disassemble_chunk(&compiled.chunk);
    assert_eq!(listings.len(), compiled.chunk.code.len());
    for (i, listing) in listings.iter().enumerate() {
        assert_eq!(listing.offset, i);
        assert_eq!(listing.opcode, compiled.chunk.code[i]);
    }
    assert_eq!(listings[0].line, Some(1));
    assert_eq!(listings[1].line, None);
    assert_eq!(listings[0].constant, Some(number(1.0)));
    assert_eq!(listings[2].constant, None);
    assert_eq!(listings[4].line, Some(2));
}

#[test]
fn missing_assign_in_let_is_reported_once() {
    let compiled = compile_program("let x 5 6; print x;");
    assert_eq!(compiled.errors.len(), 1);
    assert_eq!(compiled.errors[0].error, SyntaxError::Expected(TokenKind::Assign));
    assert_eq!(compiled.errors[0].found, TokenKind::Number);
    assert_eq!(*compiled.chunk.code.last().unwrap(), OpCode::Print);
}

#[test]
fn recovery_reports_independent_errors() {
    let compiled = compile_program("let = 1; print 2; print );");
    let kinds: Vec<SyntaxError> = compiled.errors.iter().map(|e: &CompileError| e.error).collect();
    assert_eq!(
        kinds,
        vec![SyntaxError::Expected(TokenKind::Identifier), SyntaxError::ExpectedExpression]
    );
}

#[test]
fn unsupported_statement_keyword_is_skipped() {
    let compiled = compile_program("if x; print 1;");
    assert_eq!(compiled.errors.len(), 1);
    assert_eq!(compiled.errors[0].error, SyntaxError::ExpectedExpression);
    assert_eq!(compiled.errors[0].found, TokenKind::If);
    assert_eq!(*compiled.chunk.code.last().unwrap(), OpCode::Print);
}

#[test]
fn each_syntax_error_kind_is_reported() {
    let cases = [
        ("print 1 2;", SyntaxError::Expected(TokenKind::Semicolon)),
        ("print (1;", SyntaxError::Expected(TokenKind::RightParen)),
        ("1 == 2;", SyntaxError::UnsupportedOperator),
        (");", SyntaxError::ExpectedExpression),
    ];
    for (source, expected) in cases {
        let compiled = compile_program(source);
        assert_eq!(compiled.errors.len(), 1, "{}", source);
        assert_eq!(compiled.errors[0].error, expected, "{}", source);
    }
    let (tokens, numbers) = tokens_and_numbers("1 2");
    let compiled = compile_expression(tokens, numbers);
    assert_eq!(compiled.errors[0].error, SyntaxError::Expected(TokenKind::Eof));
}

#[test]
fn expression_statements_leave_the_stack_balanced() {
    let compiled = compile_program("1 + 2; true;");
    assert!(compiled.errors.is_empty());
    assert_eq!(compiled.chunk.code[3], OpCode::Pop);
    let mut vm = Vm::new();
    let (result, _) = run_to_end(&mut vm, &compiled.chunk);
    assert_eq!(result, InterpretResult::Completed(None));
}

#[test]
fn non_ascii_letters_form_identifiers() {
    let tokens = lex(String::from("héllo")).unwrap();
    assert_eq!(tokens[0].0, Token::Identifier(String::from("héllo")));
    assert_eq!(tokens[1].0, Token::Eof);
}
