use lox::chunk::{Chunk, OpCode};
use lox::value::Value;
use lox::vm::{InterpretError, VM};

fn num(x: f64) -> Value {
    Value::Number(x.to_bits())
}

fn assert_interpret(source: &str, expected_value: &str) -> VM {
    let mut vm = VM::new();
    let result = vm.interpret(source).expect("failed");
    assert_eq!(expected_value, &result, "failed with: {}", source);
    vm
}

#[test]
fn vm_it_negates() {
    let mut chunk = Chunk::new();

    let constant = chunk.add_constant(num(1.2));
    chunk.write_chunk(OpCode::Constant(constant), 123);
    chunk.write_chunk(OpCode::Negate, 123);
    chunk.write_chunk(OpCode::Return, 123);

    let mut vm = VM::new();
    vm.load_chunk(chunk);

    assert_eq!("-1.2", vm.run().expect("failed"));
}

#[test]
fn vm_it_calculates() {
    let mut chunk = Chunk::new();

    let mut constant = chunk.add_constant(num(1.2));
    chunk.write_chunk(OpCode::Constant(constant), 123);

    constant = chunk.add_constant(num(3.4));
    chunk.write_chunk(OpCode::Constant(constant), 123);

    chunk.write_chunk(OpCode::Add, 123);

    constant = chunk.add_constant(num(5.6));
    chunk.write_chunk(OpCode::Constant(constant), 123);

    chunk.write_chunk(OpCode::Divide, 123);

    chunk.write_chunk(OpCode::Return, 123);

    let mut vm = VM::new();
    vm.load_chunk(chunk);

    assert_eq!("0.8214285714285714", vm.run().expect("failed"));
}

#[test]
fn vm_it_cannot_add_non_numbers() {
    let mut chunk = Chunk::new();

    let mut constant = chunk.add_constant(num(1.2));
    chunk.write_chunk(OpCode::Constant(constant), 123);

    constant = chunk.add_constant(Value::Bool(false));
    chunk.write_chunk(OpCode::Constant(constant), 123);

    chunk.write_chunk(OpCode::Add, 123);

    let mut vm = VM::new();
    vm.load_chunk(chunk);

    let expected = Err(InterpretError::RuntimeError(String::from(
        "Operands must be numbers or strings.",
    )));

    assert_eq!(expected, vm.run());
}

#[test]
fn vm_it_cannot_negate_non_numbers() {
    let mut chunk = Chunk::new();

    let constant = chunk.add_constant(Value::Nil);
    chunk.write_chunk(OpCode::Constant(constant), 123);
    chunk.write_chunk(OpCode::Negate, 123);

    let mut vm = VM::new();
    vm.load_chunk(chunk);

    let expected = Err(InterpretError::RuntimeError(String::from(
        "Operand must be number.",
    )));

    assert_eq!(expected, vm.run());
}

#[test]
fn vm_it_can_run_true() {
    assert_interpret("true", "true");
}

#[test]
fn vm_it_can_run_false() {
    assert_interpret("false", "false");
}

#[test]
fn vm_it_can_run_nil() {
    assert_interpret("nil", "nil");
}

#[test]
fn vm_it_can_run_not() {
    assert_interpret("!nil", "true");
}

#[test]
fn vm_it_can_eval_not_nil() {
    assert_interpret("!nil", "true");
}

#[test]
fn vm_it_can_eval_equality() {
    assert_interpret("5 == 5", "true");
    assert_interpret("5 == 4", "false");
    assert_interpret("5 == nil", "false");
    assert_interpret("nil == nil", "true");
    assert_interpret("true == false", "false");
    assert_interpret("true == true", "true");
    assert_interpret("false == false", "true");
}

#[test]
fn vm_it_can_compare_values() {
    assert_interpret("5 > 4", "true");
    assert_interpret("5 >= 5", "true");
    assert_interpret("4 < 5", "true");
    assert_interpret("5 <= 5", "true");
}

#[test]
fn vm_it_can_eval_logical_expressions() {
    assert_interpret("!(5 - 4 > 3 * 2 == !nil)", "true");
}

#[test]
fn it_can_eval_strings() {
    let vm = assert_interpret(r#""Hello, World""#, "Hello, World");
    assert_eq!("Hello, World", vm.interner().lookup(0));
}

#[test]
fn it_can_compare_strings() {
    assert_interpret(r#""string" == "string""#, "true");
    assert_interpret(r#""string" != "string""#, "false");
    assert_interpret(r#""string" != "another string""#, "true");
    assert_interpret(r#""string" == "another string""#, "false");
}

#[test]
fn it_can_append_strings() {
    let vm = assert_interpret(r#""st" + "ri" + "ng""#, "string");
    assert_eq!("st", vm.interner().lookup(0));
    assert_eq!("ri", vm.interner().lookup(1));
    assert_eq!("ng", vm.interner().lookup(2));
    assert_eq!("stri", vm.interner().lookup(3));
    assert_eq!("string", vm.interner().lookup(4));
}

#[test]
fn it_adds_numbers() {
    assert_interpret("1 + 2", "3");
}

#[test]
fn it_prints_and_returns_nil() {
    let mut vm = VM::new();
    let result = vm.interpret("print 1 + 2;").expect("failed");
    assert_eq!("nil", result);
    assert_eq!(1, vm.output().len());
    assert_eq!("3", vm.output()[0]);
}

#[test]
fn it_defines_globals() {
    let mut vm = VM::new();
    let result = vm.interpret("var x = 5;").expect("failed");
    assert_eq!("nil", result);
    assert_eq!(Some(num(5.0)), vm.get_global(0));
    assert_eq!("x", vm.interner().lookup(0));
}

#[test]
fn it_reports_compile_errors() {
    let mut vm = VM::new();
    match vm.interpret("1 2;") {
        Err(InterpretError::CompileError(msg)) => {
            assert_eq!("[line 1] Error at '2': Expect ';' after expression.\n", msg);
        }
        other => panic!("expected a compile error, got {:?}", other),
    }
}

#[test]
fn it_reports_unterminated_strings() {
    let mut vm = VM::new();
    match vm.interpret("\"abc") {
        Err(InterpretError::CompileError(msg)) => {
            assert_eq!("Unterminated string.\n", msg);
        }
        other => panic!("expected a compile error, got {:?}", other),
    }
}

#[test]
fn it_overflows_the_stack_gracefully() {
    let mut chunk = Chunk::new();
    let constant = chunk.add_constant(num(1.0));
    let mut i = 0;
    while i < 257 {
        chunk.write_chunk(OpCode::Constant(constant), 1);
        i += 1;
    }
    chunk.write_chunk(OpCode::Return, 1);

    let mut vm = VM::new();
    vm.load_chunk(chunk);

    let expected = Err(InterpretError::RuntimeError(String::from("Stack overflow.")));
    assert_eq!(expected, vm.run());
}

#[test]
fn it_divides_numbers() {
    assert_interpret("5 / 2", "2.5");
}

#[test]
fn it_runs_a_sequence_of_statements() {
    let mut vm = VM::new();
    let result = vm.interpret("print 1; print 2; print 1 + 2;").expect("failed");
    assert_eq!("nil", result);
    assert_eq!(vec!["1", "2", "3"], vm.output().clone());
}

#[test]
fn it_keeps_the_interner_across_runs() {
    let mut vm = VM::new();
    assert_eq!("st", vm.interpret("\"st\"").expect("failed"));
    assert_eq!("stri", vm.interpret("\"st\" + \"ri\"").expect("failed"));
    assert_eq!("st", vm.interner().lookup(0));
    assert_eq!("ri", vm.interner().lookup(1));
    assert_eq!("stri", vm.interner().lookup(2));
}
