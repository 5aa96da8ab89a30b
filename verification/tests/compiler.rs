use interp_test::expr::{Binding, Expr, Operator};
use interp_test::imsta::ImCompiler;
use interp_test::opcode::{Operation, Shape};

fn num(x: f64) -> Expr {
    Expr::Float(x.to_bits())
}

fn global(name: &str) -> Binding {
    Binding::Global(name.to_string())
}

fn words(expr: Expr) -> Vec<u64> {
    let mut compiler = ImCompiler::new();
    compiler.compile_expr(expr);
    compiler.future_tape
}

#[test]
fn literals_are_laid_out_with_their_operand() {
    assert_eq!(words(num(2.0)), vec![3, 2.0f64.to_bits()]);
    assert_eq!(words(Expr::Boolean(true)), vec![1]);
    assert_eq!(words(Expr::Boolean(false)), vec![2]);
}

#[test]
fn variables_get_slots_in_order_of_first_appearance() {
    let mut compiler = ImCompiler::new();
    compiler.compile_expr(Expr::Block(vec![
        Expr::global("b"),
        Expr::global("a"),
        Expr::global("b"),
        global("c").assign(Expr::global("a")),
    ]));
    assert_eq!(compiler.globals, vec!["b".to_string(), "a".to_string(), "c".to_string()]);
    assert_eq!(compiler.future_tape, vec![17, 12, 4, 0, 4, 1, 4, 0, 5, 2, 4, 1]);
}

#[test]
fn one_name_resolves_to_one_slot() {
    let mut compiler = ImCompiler::new();
    assert_eq!(compiler.constant_get_or_def("x".to_string()), 0);
    assert_eq!(compiler.constant_get_or_def("y".to_string()), 1);
    assert_eq!(compiler.constant_get_or_def("x".to_string()), 0);
    assert_eq!(compiler.constant_get_or_def("y".to_string()), 1);
    assert_eq!(compiler.constant_get_or_def("".to_string()), 2);
    assert_eq!(compiler.globals.len(), 3);
    assert!(compiler.future_tape.is_empty());
}

#[test]
fn push_appends_a_word() {
    let mut compiler = ImCompiler::new();
    compiler.push(7);
    compiler.push(0);
    assert_eq!(compiler.future_tape, vec![7, 0]);
    assert!(compiler.globals.is_empty());
}

#[test]
fn operators_come_before_their_operands() {
    let table = [
        (Operator::Add, 6),
        (Operator::Sub, 7),
        (Operator::Mul, 8),
        (Operator::Div, 9),
        (Operator::Rem, 10),
        (Operator::Eq, 11),
        (Operator::Neq, 12),
        (Operator::Lt, 13),
        (Operator::Lte, 14),
        (Operator::Gt, 15),
        (Operator::Gte, 16),
    ];
    for (op, word) in table {
        assert_eq!(
            words(Expr::global("x").op(op, Expr::Boolean(true))),
            vec![word, 4, 0, 1]
        );
    }
    assert_eq!(
        words(Expr::global("x").add(num(1.0)).op(Operator::Mul, Expr::global("y"))),
        vec![8, 6, 4, 0, 3, 1.0f64.to_bits(), 4, 1]
    );
}

#[test]
fn assignment_puts_the_slot_before_the_value() {
    assert_eq!(
        words(global("x").assign(num(5.0))),
        vec![5, 0, 3, 5.0f64.to_bits()]
    );
    // the variable assigned to is resolved before the names in the value
    let mut compiler = ImCompiler::new();
    compiler.compile_expr(global("x").assign(Expr::global("y")));
    assert_eq!(compiler.globals, vec!["x".to_string(), "y".to_string()]);
    assert_eq!(compiler.future_tape, vec![5, 0, 4, 1]);
}

#[test]
fn blocks_are_patched_with_absolute_offsets() {
    assert_eq!(words(Expr::Block(vec![])), vec![17, 2]);
    assert_eq!(
        words(Expr::Block(vec![Expr::Boolean(true), Expr::Block(vec![Expr::Boolean(false)])])),
        vec![17, 6, 1, 17, 6, 2]
    );
    // a second program on the same tape counts from the start of the tape
    let mut compiler = ImCompiler::new();
    compiler.compile_expr(Expr::Boolean(true));
    compiler.compile_expr(Expr::Block(vec![Expr::Boolean(false)]));
    assert_eq!(compiler.future_tape, vec![1, 17, 4, 2]);
}

#[test]
fn a_block_is_checked_for_its_own_statements_only() {
    let ret = || Expr::Return(Expr::Boolean(true).into());
    let looped = || Expr::While(Expr::Boolean(false).into(), Expr::Boolean(true).into());
    assert_eq!(words(Expr::Block(vec![ret()])), vec![18, 4, 1001, 1]);
    assert_eq!(words(Expr::Block(vec![looped()])), vec![18, 7, 1003, 19, 7, 2, 1]);
    assert_eq!(
        words(Expr::Block(vec![Expr::Boolean(true), ret()])),
        vec![18, 5, 1, 1001, 1]
    );
    // a return one block deeper does not make the outer block checked
    assert_eq!(
        words(Expr::Block(vec![Expr::Block(vec![ret()])])),
        vec![17, 6, 18, 6, 1001, 1]
    );
    // nor does one inside an assignment
    assert_eq!(
        words(Expr::Block(vec![global("x").assign(ret())])),
        vec![17, 6, 5, 0, 1001, 1]
    );
}

#[test]
fn while_is_marked_and_patched() {
    assert_eq!(
        words(Expr::While(Expr::Boolean(true).into(), Expr::Return(num(50.0).into()).into())),
        vec![1003, 19, 7, 1, 1001, 3, 50.0f64.to_bits()]
    );
}

#[test]
fn the_counting_program() {
    let program = Expr::Block(vec![
        global("x").assign(num(100.0)),
        Expr::While(
            Expr::BinaryOp(Expr::Var(global("x")).into(), Operator::Gt, num(0.0).into()).into(),
            global("x")
                .assign(Expr::BinaryOp(
                    Expr::Var(global("x")).into(),
                    Operator::Sub,
                    num(1.0).into(),
                ))
                .into(),
        ),
        Expr::Return(global("x").var().into()),
    ]);
    let mut compiler = ImCompiler::new();
    compiler.compile_expr(program);
    assert_eq!(compiler.globals, vec!["x".to_string()]);
    assert_eq!(
        compiler.future_tape,
        vec![
            18,
            24,
            5,
            0,
            3,
            100.0f64.to_bits(),
            1003,
            19,
            21,
            15,
            4,
            0,
            3,
            0.0f64.to_bits(),
            5,
            0,
            7,
            4,
            0,
            3,
            1.0f64.to_bits(),
            1001,
            4,
            0,
        ]
    );
    // no end offset is left at zero
    assert_ne!(compiler.future_tape[1], 0);
    assert_ne!(compiler.future_tape[8], 0);
}

#[test]
fn emit_leaves_the_expression_with_the_caller() {
    let expr = Expr::global("x").add(Expr::global("x"));
    let mut compiler = ImCompiler::new();
    compiler.emit(&expr);
    compiler.emit(&expr);
    assert_eq!(compiler.future_tape, vec![6, 4, 0, 4, 0, 6, 4, 0, 4, 0]);
    assert_eq!(compiler.globals.len(), 1);
}

#[test]
fn needs_check_looks_at_one_level() {
    assert!(!ImCompiler::needs_check(&vec![]));
    assert!(!ImCompiler::needs_check(&vec![Expr::Boolean(true)]));
    assert!(ImCompiler::needs_check(&vec![
        Expr::Boolean(true),
        Expr::Return(Expr::Boolean(true).into())
    ]));
    assert!(!ImCompiler::needs_check(&vec![Expr::Block(vec![Expr::Return(
        Expr::Boolean(true).into()
    )])]));
}

#[test]
fn builders() {
    assert!(matches!(Expr::global("abc"), Expr::Var(Binding::Global(name)) if name == "abc"));
    assert!(matches!(global("v").var(), Expr::Var(Binding::Global(name)) if name == "v"));
    match global("v").assign(Expr::Boolean(true)) {
        Expr::Assign(Binding::Global(name), value) => {
            assert_eq!(name, "v");
            assert!(matches!(*value, Expr::Boolean(true)));
        }
        other => panic!("unexpected {other:?}"),
    }
    match Expr::Boolean(true).add(Expr::Boolean(false)) {
        Expr::BinaryOp(lhs, Operator::Add, rhs) => {
            assert!(matches!(*lhs, Expr::Boolean(true)));
            assert!(matches!(*rhs, Expr::Boolean(false)));
        }
        other => panic!("unexpected {other:?}"),
    }
    match Expr::Boolean(true).op(Operator::Gte, Expr::Boolean(false)) {
        Expr::BinaryOp(lhs, Operator::Gte, rhs) => {
            assert!(matches!(*lhs, Expr::Boolean(true)));
            assert!(matches!(*rhs, Expr::Boolean(false)));
        }
        other => panic!("unexpected {other:?}"),
    }
    assert!(Operator::Rem.arithmetic());
    assert!(Operator::Add.arithmetic());
    assert!(!Operator::Eq.arithmetic());
    assert!(!Operator::Gte.arithmetic());
}

#[test]
fn operations_and_words() {
    let all = [
        (Operation::True, 1, Shape::Value),
        (Operation::False, 2, Shape::Value),
        (Operation::Float, 3, Shape::Value),
        (Operation::Var, 4, Shape::Value),
        (Operation::Assign, 5, Shape::Value),
        (Operation::Binary(Operator::Add), 6, Shape::Value),
        (Operation::Binary(Operator::Gte), 16, Shape::Value),
        (Operation::Block, 17, Shape::Value),
        (Operation::BlockChecked, 18, Shape::Value),
        (Operation::WhileLoop, 19, Shape::Optional),
        (Operation::Conditional, 20, Shape::Value),
        (Operation::ReturnMarker, 1001, Shape::Marker),
        (Operation::BreakMarker, 1002, Shape::Marker),
        (Operation::LoopMarker, 1003, Shape::Marker),
    ];
    for (op, word, shape) in all {
        assert_eq!(op.encode(), word);
        assert_eq!(Operation::decode(word), Some(op));
        assert_eq!(op.shape(), shape);
        assert_eq!(op.is_return(), word == 1001);
        assert_eq!(interp_test::opcode::word_is_hint(word), shape == Shape::Marker);
    }
    for word in [0u64, 21, 1000, 1004, 2000, u64::MAX] {
        assert_eq!(Operation::decode(word), None);
    }
    assert!(interp_test::opcode::word_is_hint(1004));
    assert!(interp_test::opcode::word_is_hint(2000));
    assert!(!interp_test::opcode::word_is_hint(2001));
    assert!(!interp_test::opcode::word_is_hint(1000));
}

#[test]
fn a_copy_compiles_to_the_same_tape() {
    let program = Expr::Block(vec![
        global("x").assign(num(100.0)),
        Expr::While(
            Expr::global("x").op(Operator::Gt, num(0.0)).into(),
            Expr::Block(vec![
                global("x").assign(Expr::global("x").op(Operator::Sub, num(1.0))),
                Expr::Return(Expr::Boolean(false).into()),
            ])
            .into(),
        ),
        Expr::Return(global("y").var().into()),
    ]);
    let copy = program.clone();
    assert_eq!(format!("{program:?}"), format!("{copy:?}"));
    let mut first = ImCompiler::new();
    first.compile_expr(program);
    let mut second = first.clone();
    second.future_tape.clear();
    second.globals.clear();
    second.compile_expr(copy);
    assert_eq!(first.future_tape, second.future_tape);
    assert_eq!(first.globals, second.globals);
    assert_eq!(first.globals, vec!["x".to_string(), "y".to_string()]);
    let binding = global("n");
    assert!(matches!(binding.clone(), Binding::Global(name) if name == "n"));
}
