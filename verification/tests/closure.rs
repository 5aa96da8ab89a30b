use interp_test::closure::{ClosureCompiler, Step};
use interp_test::expr::{Binding, Expr, Operator};

fn num(x: f64) -> Expr {
    Expr::Float(x.to_bits())
}

fn global(name: &str) -> Binding {
    Binding::Global(name.to_string())
}

#[test]
fn add() {
    let ir = Expr::Block(vec![
        Binding::Global("x".to_string()).assign(Expr::Float(5.0f64.to_bits())),
        Binding::Global("y".to_string()).assign(Expr::Float(1.0f64.to_bits())),
        Binding::Global("sum".to_string()).assign(Expr::global("x").add(Expr::global("y"))),
    ]);

    let (program, slots) = ClosureCompiler::compile(ir);

    assert_eq!(slots, 3);
    assert_eq!(
        program,
        vec![
            Step::Push(5.0f64.to_bits()),
            Step::Store(0),
            Step::Push(1.0f64.to_bits()),
            Step::Store(1),
            Step::Load(0),
            Step::Load(1),
            Step::Add,
            Step::Store(2),
        ]
    );

    let mut constants = vec![None; slots];
    let mut stack: Vec<f64> = Vec::new();
    for step in program {
        match step {
            Step::Push(bits) => stack.push(f64::from_bits(bits)),
            Step::Load(slot) => stack.push(constants[slot].unwrap()),
            Step::Store(slot) => constants[slot] = Some(stack.pop().unwrap()),
            Step::Add => {
                let rhs = stack.pop().unwrap();
                let lhs = stack.pop().unwrap();
                stack.push(lhs + rhs);
            }
        }
    }
    assert!(stack.is_empty());
    assert_eq!(constants, vec![Some(5.0), Some(1.0), Some(6.0)]);
}

#[test]
fn the_baseline_compiler_resolves_names_like_the_other() {
    let mut compiler = ClosureCompiler::new();
    assert_eq!(compiler.constant_get_or_def("x".to_string()), 0);
    assert_eq!(compiler.constant_get_or_def("y".to_string()), 1);
    assert_eq!(compiler.constant_get_or_def("x".to_string()), 0);
    assert_eq!(compiler.constants_len(), 2);
    let steps = compiler.compile_expr(Expr::global("z").add(Expr::global("y")));
    assert_eq!(steps, vec![Step::Load(2), Step::Load(1), Step::Add]);
    assert_eq!(compiler.constants_len(), 3);
}

#[test]
fn the_baseline_compiler_ignores_what_it_does_not_know() {
    let mut compiler = ClosureCompiler::new();
    assert_eq!(compiler.compile_expr(Expr::Boolean(true)), vec![]);
    assert_eq!(
        compiler.compile_expr(Expr::global("a").op(Operator::Sub, Expr::global("b"))),
        vec![]
    );
    assert_eq!(
        compiler.compile_expr(Expr::While(Expr::global("a").into(), Expr::global("b").into())),
        vec![]
    );
    assert_eq!(compiler.compile_expr(Expr::Return(Expr::global("a").into())), vec![]);
    assert_eq!(compiler.constants_len(), 0);
    assert_eq!(
        compiler.compile_expr(Expr::Block(vec![
            Expr::Boolean(true),
            num(2.0),
            global("q").assign(Expr::Boolean(false)),
        ])),
        vec![Step::Push(2.0f64.to_bits()), Step::Store(0)]
    );
}
