use std::collections::HashMap;

use interp_test::context::CallContext;
use interp_test::error::ExecError;
use interp_test::expr::{Binding, Expr, Operator};
use interp_test::imsta::ImCompiler;
use interp_test::machine::Status;
use interp_test::value::Value;

// A direct evaluator of expressions, to hold the machine against.

enum Stop {
    Failure(ExecError),
    OutOfFuel,
}

struct Reference {
    env: HashMap<String, Value>,
    rounds: u64,
}

fn host(op: Operator, lhs: u64, rhs: u64) -> u64 {
    let a = f64::from_bits(lhs);
    let b = f64::from_bits(rhs);
    let r = match op {
        Operator::Add => a + b,
        Operator::Sub => a - b,
        Operator::Mul => a * b,
        Operator::Div => a / b,
        Operator::Rem => a % b,
        _ => unreachable!(),
    };
    r.to_bits()
}

impl Reference {
    fn lookup(&self, name: &str) -> Value {
        self.env.get(name).copied().unwrap_or(Value::Float(0))
    }

    fn eval(&mut self, e: &Expr) -> Result<Value, Stop> {
        match e {
            Expr::Float(bits) => Ok(Value::Float(*bits)),
            Expr::Boolean(b) => Ok(Value::Boolean(*b)),
            Expr::Var(Binding::Global(name)) => Ok(self.lookup(name)),
            Expr::Assign(Binding::Global(name), value) => {
                let x = self.eval(value)?;
                self.env.insert(name.clone(), x);
                Ok(Value::Nil)
            }
            Expr::BinaryOp(lhs, op, rhs) => {
                let a = self.eval(lhs)?;
                let b = self.eval(rhs)?;
                match (a, b) {
                    (Value::Float(a), Value::Float(b)) => {
                        let (x, y) = (f64::from_bits(a), f64::from_bits(b));
                        Ok(match op {
                            Operator::Eq => Value::Boolean(x == y),
                            Operator::Neq => Value::Boolean(x != y),
                            Operator::Lt => Value::Boolean(x < y),
                            Operator::Lte => Value::Boolean(x <= y),
                            Operator::Gt => Value::Boolean(x > y),
                            Operator::Gte => Value::Boolean(x >= y),
                            _ => Value::Float(host(*op, a, b)),
                        })
                    }
                    _ => Err(Stop::Failure(ExecError::TypeMismatch)),
                }
            }
            Expr::Block(stmts) => {
                for stmt in stmts {
                    match stmt {
                        Expr::Return(value) => return self.eval(value),
                        Expr::While(_, _) => {
                            if let Some(x) = self.run_loop(stmt)? {
                                return Ok(x);
                            }
                        }
                        _ => {
                            self.eval(stmt)?;
                        }
                    }
                }
                Ok(Value::Nil)
            }
            Expr::While(_, _) | Expr::Return(_) => Err(Stop::Failure(ExecError::InvalidOpcode)),
        }
    }

    fn run_loop(&mut self, w: &Expr) -> Result<Option<Value>, Stop> {
        let Expr::While(cond, body) = w else { unreachable!() };
        loop {
            if !self.eval(cond)?.truthy() {
                return Ok(None);
            }
            match &**body {
                Expr::Return(value) => return self.eval(value).map(Some),
                Expr::While(_, _) => {
                    if let Some(x) = self.run_loop(body)? {
                        return Ok(Some(x));
                    }
                }
                _ => {
                    self.eval(body)?;
                }
            }
            if self.rounds == 0 {
                return Err(Stop::OutOfFuel);
            }
            self.rounds -= 1;
        }
    }
}

struct Random(u64);

impl Random {
    fn next(&mut self, bound: u64) -> u64 {
        self.0 ^= self.0 << 13;
        self.0 ^= self.0 >> 7;
        self.0 ^= self.0 << 17;
        (self.0 >> 11) % bound
    }

    fn name(&mut self) -> String {
        ["a", "b", "c", "d"][self.next(4) as usize].to_string()
    }

    fn number(&mut self) -> Expr {
        let values = [0.0, 1.0, 1.0, 2.0, -1.0, 0.5, 3.0, f64::NAN];
        Expr::Float(values[self.next(8) as usize].to_bits())
    }

    fn operator(&mut self) -> Operator {
        [
            Operator::Add,
            Operator::Sub,
            Operator::Mul,
            Operator::Div,
            Operator::Rem,
            Operator::Lt,
            Operator::Lte,
            Operator::Gt,
            Operator::Gte,
            Operator::Eq,
            Operator::Neq,
        ][self.next(11) as usize]
    }

    fn expr(&mut self, depth: u32) -> Expr {
        let kind = if depth == 0 { self.next(3) } else { self.next(14) };
        match kind {
            0 => self.number(),
            1 => Expr::Boolean(self.next(2) == 0),
            2 => Expr::Var(Binding::Global(self.name())),
            3 | 4 => Binding::Global(self.name()).assign(self.expr(depth - 1)),
            5 | 6 | 7 => {
                let lhs = self.expr(depth - 1);
                let op = self.operator();
                lhs.op(op, self.expr(depth - 1))
            }
            8 | 9 | 10 => {
                let n = self.next(4);
                Expr::Block((0..n).map(|_| self.expr(depth - 1)).collect())
            }
            11 | 12 => Expr::While(self.expr(depth - 1).into(), self.expr(depth - 1).into()),
            _ => Expr::Return(self.expr(depth - 1).into()),
        }
    }
}

fn same(a: Value, b: Value) -> bool {
    match (a, b) {
        (Value::Nil, Value::Nil) => true,
        (Value::Boolean(x), Value::Boolean(y)) => x == y,
        (Value::Float(x), Value::Float(y)) => x == y,
        _ => false,
    }
}

fn check(program: Expr) -> bool {
    let mut reference = Reference { env: HashMap::new(), rounds: 50 };
    let expected = reference.eval(&program);
    if let Err(Stop::OutOfFuel) = expected {
        return false;
    }

    let mut compiler = ImCompiler::new();
    compiler.emit(&program);
    let mut context = CallContext::new(
        &compiler.future_tape,
        compiler.future_tape.len(),
        compiler.globals.len(),
    );
    let mut budget = 1_000_000u64;
    let outcome = loop {
        assert!(budget > 0, "the machine does not end on {program:?}");
        budget -= 1;
        match context.execute(1) {
            Status::Ready => {}
            Status::Arithmetic { op, lhs, rhs } => context.resume(host(op, lhs, rhs)),
            Status::Finished(value) => break Ok(value),
            Status::Failed(error) => break Err(error),
        }
    };
    match (expected, outcome) {
        (Ok(a), Ok(b)) => {
            assert!(same(a, b), "{a:?} and {b:?} on {program:?}");
            assert_eq!(context.depth(), 0);
            assert_eq!(context.offset(), compiler.future_tape.len() as u64);
            for (slot, name) in compiler.globals.iter().enumerate() {
                let held = context.global(slot).unwrap();
                assert!(same(held, reference.lookup(name)), "{name} on {program:?}");
            }
        }
        (Err(Stop::Failure(a)), Err(b)) => assert_eq!(a, b, "on {program:?}"),
        (Ok(a), Err(b)) => panic!("{a:?} and {b:?} on {program:?}"),
        (Err(_), Ok(b)) => panic!("a failure and {b:?} on {program:?}"),
        (Err(Stop::OutOfFuel), _) => unreachable!(),
    }
    true
}

#[test]
fn the_machine_agrees_with_a_direct_evaluator() {
    let mut random = Random(0x2545_F491_4F6C_DD1D);
    let mut compared = 0;
    for round in 0..20_000 {
        let program = random.expr(1 + round % 5);
        if check(program) {
            compared += 1;
        }
    }
    assert!(compared > 15_000, "only {compared} programs ended");
}

#[test]
fn programs_in_blocks_agree_with_a_direct_evaluator() {
    let mut random = Random(0x9E37_79B9_7F4A_7C15);
    let mut compared = 0;
    for _ in 0..5_000 {
        let n = random.next(5);
        let program = Expr::Block((0..n).map(|_| random.expr(3)).collect());
        if check(program) {
            compared += 1;
        }
    }
    assert!(compared > 3_000, "only {compared} programs ended");
}
