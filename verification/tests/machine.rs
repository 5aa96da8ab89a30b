use interp_test::context::CallContext;
use interp_test::error::ExecError;
use interp_test::expr::{Binding, Expr, Operator};
use interp_test::imsta::ImCompiler;
use interp_test::machine::Status;
use interp_test::value::Value;

fn num(x: f64) -> Expr {
    Expr::Float(x.to_bits())
}

fn float(x: f64) -> Value {
    Value::Float(x.to_bits())
}

fn global(name: &str) -> Binding {
    Binding::Global(name.to_string())
}

fn binary(lhs: Expr, op: Operator, rhs: Expr) -> Expr {
    Expr::BinaryOp(Box::new(lhs), op, Box::new(rhs))
}

fn arithmetic(op: Operator, lhs: u64, rhs: u64) -> u64 {
    let a = f64::from_bits(lhs);
    let b = f64::from_bits(rhs);
    let r = match op {
        Operator::Add => a + b,
        Operator::Sub => a - b,
        Operator::Mul => a * b,
        Operator::Div => a / b,
        Operator::Rem => a % b,
        _ => unreachable!(),
    };
    r.to_bits()
}

fn run(context: &mut CallContext) -> Result<Value, ExecError> {
    loop {
        match context.execute(u64::MAX) {
            Status::Ready => {}
            Status::Arithmetic { op, lhs, rhs } => context.resume(arithmetic(op, lhs, rhs)),
            Status::Finished(value) => return Ok(value),
            Status::Failed(error) => return Err(error),
        }
    }
}

fn compile(expr: Expr) -> ImCompiler {
    let mut compiler = ImCompiler::new();
    compiler.compile_expr(expr);
    compiler
}

fn eval(expr: Expr) -> Result<Value, ExecError> {
    let compiler = compile(expr);
    let mut context = CallContext::new(
        &compiler.future_tape,
        compiler.future_tape.len(),
        compiler.globals.len(),
    );
    run(&mut context)
}

fn run_tape(tape: &[u64], globals: usize) -> Result<Value, ExecError> {
    let mut context = CallContext::new(tape, tape.len(), globals);
    run(&mut context)
}

fn countdown(from: f64) -> Expr {
    Expr::Block(vec![
        global("x").assign(num(from)),
        Expr::While(
            Expr::BinaryOp(
                Expr::Var(global("x")).into(),
                Operator::Gt,
                num(0.0).into(),
            )
            .into(),
            global("x")
                .assign(Expr::BinaryOp(
                    Expr::Var(global("x")).into(),
                    Operator::Sub,
                    num(1.0).into(),
                ))
                .into(),
        ),
        Expr::Return(global("x").var().into()),
    ])
}

#[test]
fn tape_test() {
    let expr = countdown(100_000_000.0);

    let mut compiler = ImCompiler::new();
    compiler.compile_expr(expr);

    println!("Compiler: {compiler:?}");

    let mut context = CallContext::new(
        compiler.future_tape.as_slice(),
        compiler.future_tape.len(),
        compiler.globals.len(),
    );
    let x = run(&mut context);

    println!("X: {x:?}");
    assert_eq!(x, Ok(float(0.0)));
}

#[test]
fn while_counts_down_to_zero() {
    let compiler = compile(countdown(100.0));
    let mut context = CallContext::new(
        &compiler.future_tape,
        compiler.future_tape.len(),
        compiler.globals.len(),
    );
    assert_eq!(run(&mut context), Ok(float(0.0)));
    assert_eq!(context.global(0), Some(float(0.0)));
    assert_eq!(context.global(1), None);
    assert_eq!(context.depth(), 0);
    assert_eq!(context.offset(), compiler.future_tape.len() as u64);
}

#[test]
fn assign_then_return_yields_the_literal() {
    for f in [0.0, -0.0, 1.0, 2.5, -17.25, 1e300, f64::MIN_POSITIVE, f64::INFINITY] {
        let program = Expr::Block(vec![
            global("x").assign(num(f)),
            Expr::Return(Expr::Var(global("x")).into()),
        ]);
        let compiler = compile(program);
        let mut context = CallContext::new(&compiler.future_tape, compiler.future_tape.len(), 1);
        assert!(matches!(context.execute(4), Status::Finished(Value::Float(bits)) if bits == f.to_bits()));
    }
    let nan = f64::NAN.to_bits();
    let program = Expr::Block(vec![
        global("x").assign(Expr::Float(nan)),
        Expr::Return(Expr::Var(global("x")).into()),
    ]);
    let compiler = compile(program);
    let mut context = CallContext::new(&compiler.future_tape, compiler.future_tape.len(), 1);
    assert!(matches!(context.execute(100), Status::Finished(Value::Float(bits)) if bits == nan));
}

#[test]
fn return_inside_while_unwinds_to_the_assignment() {
    let program = Expr::Block(vec![
        global("t").assign(Expr::Block(vec![
            Expr::While(
                Expr::Boolean(true).into(),
                Expr::Return(num(50.0).into()).into(),
            ),
            global("t").assign(num(7.0)),
        ])),
        Expr::Return(Expr::Var(global("t")).into()),
    ]);
    assert_eq!(eval(program), Ok(float(50.0)));

    let inner = global("t").assign(Expr::Block(vec![Expr::While(
        Expr::Boolean(true).into(),
        Expr::Return(num(50.0).into()).into(),
    )]));
    let compiler = compile(inner);
    let mut context = CallContext::new(&compiler.future_tape, compiler.future_tape.len(), 1);
    assert_eq!(run(&mut context), Ok(Value::Nil));
    assert_eq!(context.global(0), Some(float(50.0)));
}

#[test]
fn return_skips_the_rest_of_a_block() {
    let program = Expr::Block(vec![
        global("a").assign(num(1.0)),
        Expr::Return(num(2.0).into()),
        global("a").assign(num(3.0)),
    ]);
    let compiler = compile(program);
    let mut context = CallContext::new(&compiler.future_tape, compiler.future_tape.len(), 1);
    assert_eq!(run(&mut context), Ok(float(2.0)));
    assert_eq!(context.global(0), Some(float(1.0)));
    assert_eq!(context.offset(), compiler.future_tape.len() as u64);
}

#[test]
fn a_block_without_return_is_nil() {
    let program = Expr::Block(vec![global("a").assign(num(1.0)), num(4.0)]);
    assert_eq!(eval(program), Ok(Value::Nil));
    assert_eq!(eval(Expr::Block(vec![])), Ok(Value::Nil));
    assert_eq!(eval(Expr::Block(vec![Expr::While(Expr::Boolean(false).into(), num(1.0).into())])), Ok(Value::Nil));
}

#[test]
fn nested_loops_run_to_their_end() {
    // i = 3; n = 0; while (i > 0) { while (i > 100) {..}; ... } is not
    // expressible with one body statement, so nest a loop as the body:
    // while (i > 0) while (j < 2) ... needs blocks; use blocks.
    let program = Expr::Block(vec![
        global("i").assign(num(3.0)),
        global("n").assign(num(0.0)),
        Expr::While(
            binary(Expr::Var(global("i")), Operator::Gt, num(0.0)).into(),
            Expr::Block(vec![
                global("j").assign(num(0.0)),
                Expr::While(
                    binary(Expr::Var(global("j")), Operator::Lt, num(2.0)).into(),
                    Expr::Block(vec![
                        global("j").assign(binary(Expr::Var(global("j")), Operator::Add, num(1.0))),
                        global("n").assign(binary(Expr::Var(global("n")), Operator::Add, num(1.0))),
                    ])
                    .into(),
                ),
                global("i").assign(binary(Expr::Var(global("i")), Operator::Sub, num(1.0))),
            ])
            .into(),
        ),
        Expr::Return(Expr::Var(global("n")).into()),
    ]);
    assert_eq!(eval(program), Ok(float(6.0)));
}

#[test]
fn a_loop_whose_body_is_a_loop() {
    // while (x < 3) while (y < 1) ... cannot change x from inside without a
    // block, so the inner loop returns instead.
    let program = Expr::Block(vec![
        Expr::While(
            Expr::Boolean(true).into(),
            Expr::While(Expr::Boolean(true).into(), Expr::Return(num(9.0).into()).into()).into(),
        ),
        Expr::Return(num(1.0).into()),
    ]);
    assert_eq!(eval(program), Ok(float(9.0)));

    let program = Expr::Block(vec![
        global("x").assign(num(0.0)),
        Expr::While(
            binary(Expr::Var(global("x")), Operator::Lt, num(1.0)).into(),
            Expr::While(Expr::Boolean(false).into(), num(0.0).into()).into(),
        ),
    ]);
    // the inner loop ends at once, the outer condition never changes
    let compiler = compile(program);
    let mut context = CallContext::new(&compiler.future_tape, compiler.future_tape.len(), 1);
    assert!(matches!(context.execute(10_000), Status::Ready));
}

#[test]
fn arithmetic_formulas() {
    let cases = [
        (Operator::Add, 5.0, 1.5, 6.5),
        (Operator::Sub, 5.0, 1.5, 3.5),
        (Operator::Mul, 5.0, 1.5, 7.5),
        (Operator::Div, 5.0, 2.0, 2.5),
        (Operator::Rem, 7.0, 4.0, 3.0),
        (Operator::Rem, -7.5, 2.0, -1.5),
    ];
    for (op, a, b, expected) in cases {
        assert_eq!(eval(binary(num(a), op, num(b))), Ok(float(expected)));
    }
}

#[test]
fn arithmetic_is_asked_of_the_host() {
    let compiler = compile(binary(num(7.0), Operator::Rem, num(4.0)));
    let mut context = CallContext::new(&compiler.future_tape, compiler.future_tape.len(), 0);
    match context.execute(u64::MAX) {
        Status::Arithmetic { op, lhs, rhs } => {
            assert_eq!(op, Operator::Rem);
            assert_eq!(lhs, 7.0f64.to_bits());
            assert_eq!(rhs, 4.0f64.to_bits());
        }
        other => panic!("unexpected status {other:?}"),
    }
    // stepping does nothing while the request is open
    context.step();
    assert!(matches!(context.status(), Status::Arithmetic { .. }));
    context.resume(3.0f64.to_bits());
    assert!(matches!(context.status(), Status::Finished(Value::Float(bits)) if bits == 3.0f64.to_bits()));
    // an answer nobody asked for changes nothing
    context.resume(1.0f64.to_bits());
    assert!(matches!(context.status(), Status::Finished(Value::Float(bits)) if bits == 3.0f64.to_bits()));
}

#[test]
fn comparisons_follow_the_numbers() {
    let values = [
        0.0,
        -0.0,
        1.0,
        -1.0,
        2.5,
        -2.5,
        f64::INFINITY,
        f64::NEG_INFINITY,
        f64::NAN,
        -f64::NAN,
        f64::MIN_POSITIVE,
        -f64::MIN_POSITIVE,
        f64::MAX,
        f64::MIN,
        5e-324,
    ];
    for a in values {
        for b in values {
            let expected = [
                (Operator::Eq, a == b),
                (Operator::Neq, a != b),
                (Operator::Lt, a < b),
                (Operator::Lte, a <= b),
                (Operator::Gt, a > b),
                (Operator::Gte, a >= b),
            ];
            for (op, truth) in expected {
                assert_eq!(
                    eval(binary(num(a), op, num(b))),
                    Ok(Value::Boolean(truth)),
                    "{a} {op:?} {b}"
                );
            }
        }
    }
}

#[test]
fn operators_refuse_a_boolean() {
    let all = [
        Operator::Add,
        Operator::Sub,
        Operator::Mul,
        Operator::Div,
        Operator::Rem,
        Operator::Eq,
        Operator::Neq,
        Operator::Lt,
        Operator::Lte,
        Operator::Gt,
        Operator::Gte,
    ];
    for op in all {
        assert_eq!(eval(binary(Expr::Boolean(true), op, num(1.0))), Err(ExecError::TypeMismatch));
        assert_eq!(eval(binary(num(1.0), op, Expr::Boolean(false))), Err(ExecError::TypeMismatch));
        assert_eq!(
            eval(binary(Expr::Boolean(true), op, Expr::Boolean(true))),
            Err(ExecError::TypeMismatch)
        );
        // the value of an assignment is Nil
        assert_eq!(
            eval(binary(global("x").assign(num(1.0)), op, num(1.0))),
            Err(ExecError::TypeMismatch)
        );
    }
}

#[test]
fn variables_start_at_zero() {
    assert_eq!(eval(Expr::Var(global("fresh"))), Ok(float(0.0)));
}

#[test]
fn literals() {
    assert_eq!(eval(Expr::Boolean(true)), Ok(Value::Boolean(true)));
    assert_eq!(eval(Expr::Boolean(false)), Ok(Value::Boolean(false)));
    assert_eq!(eval(num(12.5)), Ok(float(12.5)));
    assert_eq!(eval(global("x").assign(num(1.0))), Ok(Value::Nil));
}

#[test]
fn a_bare_return_or_loop_is_no_operation() {
    assert_eq!(eval(Expr::Return(num(1.0).into())), Err(ExecError::InvalidOpcode));
    assert_eq!(
        eval(Expr::While(Expr::Boolean(false).into(), num(1.0).into())),
        Err(ExecError::InvalidOpcode)
    );
    assert_eq!(
        eval(global("x").assign(Expr::Return(num(1.0).into()))),
        Err(ExecError::InvalidOpcode)
    );
}

#[test]
fn out_of_range() {
    assert_eq!(run_tape(&[], 0), Err(ExecError::OutOfRange));
    // a number literal without its operand
    assert_eq!(run_tape(&[3], 0), Err(ExecError::OutOfRange));
    // an operator without its right operand
    assert_eq!(run_tape(&[6, 1], 0), Err(ExecError::OutOfRange));
    // a block that claims to end behind the tape
    assert_eq!(run_tape(&[17, 5, 1], 0), Err(ExecError::OutOfRange));
    assert_eq!(run_tape(&[18, 5, 1], 0), Err(ExecError::OutOfRange));
    // only the first `size` words count
    let tape = [3, 0x4000_0000_0000_0000];
    let mut context = CallContext::new(&tape, 1, 0);
    assert_eq!(run(&mut context), Err(ExecError::OutOfRange));
    let mut context = CallContext::new(&tape, 7, 0);
    assert_eq!(run(&mut context), Ok(float(2.0)));
}

#[test]
fn unknown_hint() {
    // a checked block that meets the marker reserved for leaving a loop
    assert_eq!(run_tape(&[18, 4, 1002, 1], 0), Err(ExecError::UnknownHint));
    assert_eq!(run_tape(&[18, 4, 2000, 1], 0), Err(ExecError::UnknownHint));
    // the same word is no marker behind the range
    assert_eq!(run_tape(&[18, 4, 2001, 1], 0), Err(ExecError::InvalidOpcode));
    // a loop body that starts with it
    assert_eq!(run_tape(&[18, 7, 1003, 19, 7, 1, 1002], 0), Err(ExecError::UnknownHint));
}

#[test]
fn unresolved_jump() {
    assert_eq!(run_tape(&[17, 0, 1], 0), Err(ExecError::UnresolvedJump));
    assert_eq!(run_tape(&[18, 0, 1], 0), Err(ExecError::UnresolvedJump));
    assert_eq!(run_tape(&[18, 6, 1003, 19, 0, 2], 0), Err(ExecError::UnresolvedJump));
    assert_eq!(run_tape(&[20, 1, 0, 5, 1, 1], 0), Err(ExecError::UnresolvedJump));
    assert_eq!(run_tape(&[20, 1, 6, 0, 1, 1], 0), Err(ExecError::UnresolvedJump));
}

#[test]
fn invalid_opcode() {
    assert_eq!(run_tape(&[0], 0), Err(ExecError::InvalidOpcode));
    assert_eq!(run_tape(&[21], 0), Err(ExecError::InvalidOpcode));
    assert_eq!(run_tape(&[19, 3, 1], 0), Err(ExecError::InvalidOpcode));
    assert_eq!(run_tape(&[1001, 1], 0), Err(ExecError::InvalidOpcode));
    // the marker of a loop that is followed by something else
    assert_eq!(run_tape(&[18, 4, 1003, 1], 0), Err(ExecError::InvalidOpcode));
}

#[test]
fn invalid_slot() {
    assert_eq!(run_tape(&[4, 0], 0), Err(ExecError::InvalidSlot));
    assert_eq!(run_tape(&[4, 2], 2), Err(ExecError::InvalidSlot));
    assert_eq!(run_tape(&[4, 1], 2), Ok(float(0.0)));
    // an assignment evaluates its value before it fails
    assert_eq!(run_tape(&[5, 3, 1], 3), Err(ExecError::InvalidSlot));
    assert_eq!(run_tape(&[5, 3, 4, 9], 3), Err(ExecError::InvalidSlot));
}

#[test]
fn conditional_takes_the_first_true_branch() {
    let one = 1.0f64.to_bits();
    let two = 2.0f64.to_bits();
    let three = 3.0f64.to_bits();
    // if false { 1 } else if true { 2 } else { 3 }
    let tape = [20, 2, 15, 7, 2, 3, one, 11, 1, 3, two, 3, three, 0, 0];
    let mut context = CallContext::new(&tape, tape.len(), 0);
    assert_eq!(run(&mut context), Ok(float(2.0)));
    assert_eq!(context.offset(), 15);
    // if false { 1 } else if false { 2 } else { 3 }
    let tape = [20, 2, 13, 7, 2, 3, one, 11, 2, 3, two, 3, three];
    let mut context = CallContext::new(&tape, tape.len(), 0);
    assert_eq!(run(&mut context), Ok(float(3.0)));
    assert_eq!(context.offset(), 13);
    // no branch at all: the final expression stands for itself
    assert_eq!(run_tape(&[20, 0, 5, 3, one], 0), Ok(float(1.0)));
}

#[test]
fn execute_stops_when_the_budget_is_spent() {
    let compiler = compile(countdown(3.0));
    let mut context = CallContext::new(&compiler.future_tape, compiler.future_tape.len(), 1);
    assert!(matches!(context.execute(0), Status::Ready));
    assert_eq!(context.offset(), 0);
    assert!(context.is_ready());
    assert!(matches!(context.execute(2), Status::Ready));
    // the block was entered and the assignment started
    assert_eq!(context.depth(), 2);
    assert_eq!(context.offset(), 4);
    context.step();
    assert_eq!(context.global(0), Some(float(3.0)));
}

#[test]
fn a_block_as_body_does_not_leave_the_loop() {
    let program = Expr::Block(vec![
        global("n").assign(num(0.0)),
        Expr::While(
            binary(Expr::Var(global("n")), Operator::Lt, num(3.0)).into(),
            Expr::Block(vec![
                global("n").assign(binary(Expr::Var(global("n")), Operator::Add, num(1.0))),
                Expr::Return(num(50.0).into()),
            ])
            .into(),
        ),
        Expr::Return(Expr::Var(global("n")).into()),
    ]);
    // the block gives 50 each round, the loop drops it and goes on
    assert_eq!(eval(program), Ok(float(3.0)));

    let endless = Expr::Block(vec![Expr::While(
        Expr::Boolean(true).into(),
        Expr::Block(vec![Expr::Return(num(50.0).into())]).into(),
    )]);
    let compiler = compile(endless);
    let mut context = CallContext::new(&compiler.future_tape, compiler.future_tape.len(), 0);
    assert!(matches!(context.execute(100_000), Status::Ready));
}
