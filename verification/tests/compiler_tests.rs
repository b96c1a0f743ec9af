use lox::chunk::{Chunk, Instruction, OpCode};
use lox::compiler::{compile, Precedence};
use lox::interner::{Interner, Symbol};
use lox::value::Value;

fn assert_same_instructions(xs: &[Instruction], ys: &[Instruction]) {
    assert!(
        xs.len() == ys.len(),
        "Not same length: {}, {}",
        xs.len(),
        ys.len()
    );
    for i in 0..xs.len() {
        assert!(xs[i] == ys[i], "Not same: {:?}, {:?}", xs[i], ys[i]);
    }
}

fn assert_same_constants(xs: &[Value], ys: &[Value]) {
    assert!(
        xs.len() == ys.len(),
        "Not same length: {}, {}",
        xs.len(),
        ys.len()
    );
    for i in 0..xs.len() {
        assert!(xs[i] == ys[i], "Not same: {:?}, {:?}", xs[i], ys[i]);
    }
}

fn assert_interned(interner: &Interner, id: Symbol, s: &str) {
    assert_eq!(interner.lookup(id), s);
}

fn assert_compiles(
    source: &str,
    expected_instructions: Vec<Instruction>,
    expected_constants: Vec<Value>,
) -> Interner {
    let mut interner = Interner::new();
    let result = compile(source, &mut interner);
    assert!(result.is_ok(), "is not ok: {:?}", result.err());

    let chunk: Chunk = result.unwrap();
    assert_same_instructions(&chunk.instructions, &expected_instructions);
    assert_same_constants(&chunk.constants, &expected_constants);

    interner
}

fn num(x: f64) -> Value {
    Value::Number(x.to_bits())
}

#[test]
fn compiler_it_compiles_binary() {
    assert_compiles(
        "1 + 2;",
        vec![
            Instruction::new(OpCode::Constant(0), 1),
            Instruction::new(OpCode::Constant(1), 1),
            Instruction::new(OpCode::Add, 1),
            Instruction::new(OpCode::Pop, 1),
            Instruction::new(OpCode::Return, 1),
        ],
        vec![num(1.0), num(2.0)],
    );
}

#[test]
fn compiler_it_compiles_with_precedence() {
    assert_compiles(
        "2 * 3 + 4;",
        vec![
            Instruction::new(OpCode::Constant(0), 1),
            Instruction::new(OpCode::Constant(1), 1),
            Instruction::new(OpCode::Multiply, 1),
            Instruction::new(OpCode::Constant(2), 1),
            Instruction::new(OpCode::Add, 1),
            Instruction::new(OpCode::Pop, 1),
            Instruction::new(OpCode::Return, 1),
        ],
        vec![num(2.0), num(3.0), num(4.0)],
    );
}

#[test]
fn compiler_it_compiles_strange() {
    assert_compiles(
        "(-1 + 2) * 3 - -4;",
        vec![
            Instruction::new(OpCode::Constant(0), 1),
            Instruction::new(OpCode::Negate, 1),
            Instruction::new(OpCode::Constant(1), 1),
            Instruction::new(OpCode::Add, 1),
            Instruction::new(OpCode::Constant(2), 1),
            Instruction::new(OpCode::Multiply, 1),
            Instruction::new(OpCode::Constant(3), 1),
            Instruction::new(OpCode::Negate, 1),
            Instruction::new(OpCode::Subtract, 1),
            Instruction::new(OpCode::Pop, 1),
            Instruction::new(OpCode::Return, 1),
        ],
        vec![num(1.0), num(2.0), num(3.0), num(4.0)],
    );
}

#[test]
fn compiler_it_compiles_nil() {
    assert_compiles(
        "nil;",
        vec![
            Instruction::new(OpCode::Nil, 1),
            Instruction::new(OpCode::Pop, 1),
            Instruction::new(OpCode::Return, 1),
        ],
        vec![],
    );
}

#[test]
fn compiler_it_compiles_false() {
    assert_compiles(
        "false;",
        vec![
            Instruction::new(OpCode::False, 1),
            Instruction::new(OpCode::Pop, 1),
            Instruction::new(OpCode::Return, 1),
        ],
        vec![],
    );
}

#[test]
fn compiler_it_compiles_true() {
    assert_compiles(
        "true;",
        vec![
            Instruction::new(OpCode::True, 1),
            Instruction::new(OpCode::Pop, 1),
            Instruction::new(OpCode::Return, 1),
        ],
        vec![],
    );
}

#[test]
fn compiler_it_compiles_not() {
    assert_compiles(
        "!true;",
        vec![
            Instruction::new(OpCode::True, 1),
            Instruction::new(OpCode::Not, 1),
            Instruction::new(OpCode::Pop, 1),
            Instruction::new(OpCode::Return, 1),
        ],
        vec![],
    );
}

#[test]
fn compiler_it_compiles_comparsion_operators() {
    assert_compiles(
        "true != false;",
        vec![
            Instruction::new(OpCode::True, 1),
            Instruction::new(OpCode::False, 1),
            Instruction::new(OpCode::Equal, 1),
            Instruction::new(OpCode::Not, 1),
            Instruction::new(OpCode::Pop, 1),
            Instruction::new(OpCode::Return, 1),
        ],
        vec![],
    );

    assert_compiles(
        "true == false;",
        vec![
            Instruction::new(OpCode::True, 1),
            Instruction::new(OpCode::False, 1),
            Instruction::new(OpCode::Equal, 1),
            Instruction::new(OpCode::Pop, 1),
            Instruction::new(OpCode::Return, 1),
        ],
        vec![],
    );

    assert_compiles(
        "5 > 4;",
        vec![
            Instruction::new(OpCode::Constant(0), 1),
            Instruction::new(OpCode::Constant(1), 1),
            Instruction::new(OpCode::Greater, 1),
            Instruction::new(OpCode::Pop, 1),
            Instruction::new(OpCode::Return, 1),
        ],
        vec![num(5.0), num(4.0)],
    );

    assert_compiles(
        "5 >= 4;",
        vec![
            Instruction::new(OpCode::Constant(0), 1),
            Instruction::new(OpCode::Constant(1), 1),
            Instruction::new(OpCode::Less, 1),
            Instruction::new(OpCode::Not, 1),
            Instruction::new(OpCode::Pop, 1),
            Instruction::new(OpCode::Return, 1),
        ],
        vec![num(5.0), num(4.0)],
    );

    assert_compiles(
        "5 < 4;",
        vec![
            Instruction::new(OpCode::Constant(0), 1),
            Instruction::new(OpCode::Constant(1), 1),
            Instruction::new(OpCode::Less, 1),
            Instruction::new(OpCode::Pop, 1),
            Instruction::new(OpCode::Return, 1),
        ],
        vec![num(5.0), num(4.0)],
    );

    assert_compiles(
        "5 <= 4;",
        vec![
            Instruction::new(OpCode::Constant(0), 1),
            Instruction::new(OpCode::Constant(1), 1),
            Instruction::new(OpCode::Greater, 1),
            Instruction::new(OpCode::Not, 1),
            Instruction::new(OpCode::Pop, 1),
            Instruction::new(OpCode::Return, 1),
        ],
        vec![num(5.0), num(4.0)],
    );
}

#[test]
fn it_compiles_strings() {
    let interner = assert_compiles(
        r#""Hello, World";"#,
        vec![
            Instruction::new(OpCode::Constant(0), 1),
            Instruction::new(OpCode::Pop, 1),
            Instruction::new(OpCode::Return, 1),
        ],
        vec![Value::String(0)],
    );

    assert_interned(&interner, 0, "Hello, World");
}

#[test]
fn it_compiles_print() {
    assert_compiles(
        "print 1 + 2;",
        vec![
            Instruction::new(OpCode::Constant(0), 1),
            Instruction::new(OpCode::Constant(1), 1),
            Instruction::new(OpCode::Add, 1),
            Instruction::new(OpCode::Print, 1),
            Instruction::new(OpCode::Return, 1),
        ],
        vec![num(1.0), num(2.0)],
    );
}

#[test]
fn it_compiles_assignment() {
    let interner = assert_compiles(
        r#"var beverage = "cafe au lait";"#,
        vec![
            Instruction::new(OpCode::Constant(0), 1),
            Instruction::new(OpCode::DefineGlobal(1), 1),
            Instruction::new(OpCode::Return, 1),
        ],
        vec![Value::String(0), Value::String(1)],
    );

    assert_interned(&interner, 0, "cafe au lait");
    assert_interned(&interner, 1, "beverage");
}

#[test]
fn a_bare_expression_compiles_without_a_pop() {
    assert_compiles(
        "1 + 2",
        vec![
            Instruction::new(OpCode::Constant(0), 1),
            Instruction::new(OpCode::Constant(1), 1),
            Instruction::new(OpCode::Add, 1),
            Instruction::new(OpCode::Return, 1),
        ],
        vec![num(1.0), num(2.0)],
    );
}

#[test]
fn compile_errors_are_reported() {
    let mut interner = Interner::new();
    let result = compile("1 2;", &mut interner);
    assert!(result.is_err());
    let e = result.err().unwrap();
    assert_eq!(e.message, "Expect ';' after expression.");
}

#[test]
fn missing_operand_is_an_error() {
    let mut interner = Interner::new();
    let result = compile(")", &mut interner);
    assert!(result.is_err());
    assert_eq!(result.err().unwrap().message, "Expect expression.");
}

#[test]
fn unclosed_grouping_is_an_error() {
    let mut interner = Interner::new();
    let result = compile("(1 + 2;", &mut interner);
    assert!(result.is_err());
    assert_eq!(
        result.err().unwrap().message,
        "Expect ')' after expression."
    );
}

#[test]
fn var_without_a_name_is_an_error() {
    let mut interner = Interner::new();
    let result = compile("var 1 = 2;", &mut interner);
    assert!(result.is_err());
    assert_eq!(result.err().unwrap().message, "Expect variable name.");
}

#[test]
fn var_without_an_initializer_binds_nil() {
    assert_compiles(
        "var silent;",
        vec![
            Instruction::new(OpCode::Nil, 1),
            Instruction::new(OpCode::DefineGlobal(0), 1),
            Instruction::new(OpCode::Return, 1),
        ],
        vec![Value::String(0)],
    );
}

#[test]
fn precedence_ranks_round_trip() {
    let mut v: u8 = 0;
    while v <= 10 {
        assert_eq!(Precedence::from_value(v).value(), v);
        v += 1;
    }
    assert_eq!(Precedence::from_value(11), Precedence::Lowest);
    assert_eq!(Precedence::Term.add(1), Precedence::Factor);
}

#[test]
fn empty_source_compiles_to_return() {
    assert_compiles("", vec![Instruction::new(OpCode::Return, 1)], vec![]);
    assert_compiles(
        "  // only a comment\n",
        vec![Instruction::new(OpCode::Return, 2)],
        vec![],
    );
}
