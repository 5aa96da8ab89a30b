//! What a program means, told without a tape.
//!
//! Variables are known by their names and hold the number zero until they
//! are assigned.  The arithmetic of the host is a function `alu` from an
//! operator and two bit patterns to the bit pattern of the result.  A loop
//! may run forever, so every evaluation is given a number of loop rounds it
//! may spend: `fuel`.
use vstd::prelude::*;
use crate::error::ExecError;
use crate::expr::{Expr, Operator};
use crate::machine::compare;
use crate::value::Value;

verus! {

/// The value of the variable `name`: what was stored last, or the number
/// zero.
pub open spec fn lookup(env: Map<Seq<char>, Value>, name: Seq<char>) -> Value {
    if env.dom().contains(name) {
        env[name]
    } else {
        Value::Float(0)
    }
}

/// How an evaluation ends.
pub enum Outcome {
    /// With a value.
    Value(Value),
    /// With a failure.
    Failure(ExecError),
    /// Not within the rounds it was given.
    OutOfFuel,
}

/// How an evaluation ends and what the variables hold then.
pub struct Evaluation {
    pub outcome: Outcome,
    pub env: Map<Seq<char>, Value>,
}

/// How a loop ends.
pub enum LoopOutcome {
    /// Its condition became false.
    Done,
    /// Something in it returned this value.
    Returned(Value),
    /// With a failure.
    Failure(ExecError),
    /// Not within the rounds it was given.
    OutOfFuel,
}

/// How a loop ends and what the variables hold then.
pub struct LoopEvaluation {
    pub outcome: LoopOutcome,
    pub env: Map<Seq<char>, Value>,
}

/// What `op` makes of two values: a failure unless both are numbers, the
/// result of the host for an arithmetic operator, and a boolean for a
/// comparison.
pub open spec fn apply(
    alu: spec_fn(Operator, u64, u64) -> u64,
    op: Operator,
    lhs: Value,
    rhs: Value,
) -> Outcome {
    match (lhs, rhs) {
        (Value::Float(a), Value::Float(b)) => if op.is_arithmetic() {
            Outcome::Value(Value::Float(alu(op, a, b)))
        } else {
            Outcome::Value(Value::Boolean(compare(op, a, b)))
        },
        _ => Outcome::Failure(ExecError::TypeMismatch),
    }
}

/// The evaluation of `e` where a value is awaited.
///
/// An assignment stores the value of its right side and is `Nil` itself.
/// An operator evaluates its left operand before its right one.  A block is
/// what [`run_block`] makes of its statements.  A `Return` and a loop mean
/// something only as a statement of a block or as the body of a loop;
/// anywhere else they are refused.
pub open spec fn eval(
    e: Expr,
    env: Map<Seq<char>, Value>,
    alu: spec_fn(Operator, u64, u64) -> u64,
    fuel: nat,
) -> Evaluation
    decreases fuel, e,
{
    match e {
        Expr::Float(bits) => Evaluation { outcome: Outcome::Value(Value::Float(bits)), env },
        Expr::Boolean(b) => Evaluation { outcome: Outcome::Value(Value::Boolean(b)), env },
        Expr::Var(b) => Evaluation { outcome: Outcome::Value(lookup(env, b.name())), env },
        Expr::Assign(b, v) => {
            let value = eval(*v, env, alu, fuel);
            match value.outcome {
                Outcome::Value(x) => Evaluation {
                    outcome: Outcome::Value(Value::Nil),
                    env: value.env.insert(b.name(), x),
                },
                _ => value,
            }
        },
        Expr::BinaryOp(l, op, r) => {
            let left = eval(*l, env, alu, fuel);
            match left.outcome {
                Outcome::Value(a) => {
                    let right = eval(*r, left.env, alu, fuel);
                    match right.outcome {
                        Outcome::Value(b) => Evaluation {
                            outcome: apply(alu, op, a, b),
                            env: right.env,
                        },
                        _ => right,
                    }
                },
                _ => left,
            }
        },
        Expr::Block(stmts) => run_block(stmts@, env, alu, fuel),
        Expr::While(_, _) => Evaluation { outcome: Outcome::Failure(ExecError::InvalidOpcode), env },
        Expr::Return(_) => Evaluation { outcome: Outcome::Failure(ExecError::InvalidOpcode), env },
    }
}

/// The evaluation of the statements of a block, in order.  A `Return`
/// ends the block with its value; a loop ends the block with the value that
/// was returned in it, if one was; the value of any other statement is
/// dropped.  A block that comes to its end is `Nil`.
pub open spec fn run_block(
    stmts: Seq<Expr>,
    env: Map<Seq<char>, Value>,
    alu: spec_fn(Operator, u64, u64) -> u64,
    fuel: nat,
) -> Evaluation
    decreases fuel, stmts,
{
    if stmts.len() == 0 {
        Evaluation { outcome: Outcome::Value(Value::Nil), env }
    } else {
        match stmts.first() {
            Expr::Return(v) => eval(*v, env, alu, fuel),
            Expr::While(_, _) => {
                let looped = run_loop(stmts.first(), env, alu, fuel);
                match looped.outcome {
                    LoopOutcome::Done => run_block(stmts.drop_first(), looped.env, alu, fuel),
                    LoopOutcome::Returned(x) => Evaluation {
                        outcome: Outcome::Value(x),
                        env: looped.env,
                    },
                    LoopOutcome::Failure(e) => Evaluation {
                        outcome: Outcome::Failure(e),
                        env: looped.env,
                    },
                    LoopOutcome::OutOfFuel => Evaluation {
                        outcome: Outcome::OutOfFuel,
                        env: looped.env,
                    },
                }
            },
            _ => {
                let first = eval(stmts.first(), env, alu, fuel);
                match first.outcome {
                    Outcome::Value(_) => run_block(stmts.drop_first(), first.env, alu, fuel),
                    _ => first,
                }
            },
        }
    }
}

/// The evaluation of the loop `w`.  Each round evaluates the condition and
/// ends the loop if it does not hold.  A body that is a `Return` ends the
/// loop with its value; a body that is a loop ends the outer loop with the
/// value that was returned in it, if one was; any other body is evaluated
/// and its value dropped.  Every round after the first costs one unit of
/// fuel.
pub open spec fn run_loop(
    w: Expr,
    env: Map<Seq<char>, Value>,
    alu: spec_fn(Operator, u64, u64) -> u64,
    fuel: nat,
) -> LoopEvaluation
    decreases fuel, w,
{
    match w {
        Expr::While(c, b) => {
            let cond = eval(*c, env, alu, fuel);
            match cond.outcome {
                Outcome::Failure(e) => LoopEvaluation {
                    outcome: LoopOutcome::Failure(e),
                    env: cond.env,
                },
                Outcome::OutOfFuel => LoopEvaluation {
                    outcome: LoopOutcome::OutOfFuel,
                    env: cond.env,
                },
                Outcome::Value(v) => if !v.is_truthy() {
                    LoopEvaluation { outcome: LoopOutcome::Done, env: cond.env }
                } else {
                    match *b {
                        Expr::Return(x) => {
                            let value = eval(*x, cond.env, alu, fuel);
                            match value.outcome {
                                Outcome::Value(r) => LoopEvaluation {
                                    outcome: LoopOutcome::Returned(r),
                                    env: value.env,
                                },
                                Outcome::Failure(e) => LoopEvaluation {
                                    outcome: LoopOutcome::Failure(e),
                                    env: value.env,
                                },
                                Outcome::OutOfFuel => LoopEvaluation {
                                    outcome: LoopOutcome::OutOfFuel,
                                    env: value.env,
                                },
                            }
                        },
                        Expr::While(_, _) => {
                            let inner = run_loop(*b, cond.env, alu, fuel);
                            match inner.outcome {
                                LoopOutcome::Done => if fuel == 0 {
                                    LoopEvaluation {
                                        outcome: LoopOutcome::OutOfFuel,
                                        env: inner.env,
                                    }
                                } else {
                                    run_loop(w, inner.env, alu, (fuel - 1) as nat)
                                },
                                _ => inner,
                            }
                        },
                        _ => {
                            let body = eval(*b, cond.env, alu, fuel);
                            match body.outcome {
                                Outcome::Value(_) => if fuel == 0 {
                                    LoopEvaluation {
                                        outcome: LoopOutcome::OutOfFuel,
                                        env: body.env,
                                    }
                                } else {
                                    run_loop(w, body.env, alu, (fuel - 1) as nat)
                                },
                                Outcome::Failure(e) => LoopEvaluation {
                                    outcome: LoopOutcome::Failure(e),
                                    env: body.env,
                                },
                                Outcome::OutOfFuel => LoopEvaluation {
                                    outcome: LoopOutcome::OutOfFuel,
                                    env: body.env,
                                },
                            }
                        },
                    }
                },
            }
        },
        _ => LoopEvaluation { outcome: LoopOutcome::Failure(ExecError::InvalidOpcode), env },
    }
}

/// Whether a failure is one that a program can mean: an operand that is no
/// number, or a `Return` or a loop where a value is awaited.
pub open spec fn is_fault_of_program(err: ExecError) -> bool {
    err == ExecError::TypeMismatch || err == ExecError::InvalidOpcode
}

/// No program means a failure of the tape: reading past the end, an
/// unknown marker, an end offset left at zero and a slot outside the
/// storage are never what an evaluation ends in.
pub proof fn law_programs_fail_by_themselves(
    e: Expr,
    env: Map<Seq<char>, Value>,
    alu: spec_fn(Operator, u64, u64) -> u64,
    fuel: nat,
)
    ensures
        eval(e, env, alu, fuel).outcome matches Outcome::Failure(err) ==> is_fault_of_program(err),
    decreases fuel, e,
{
    match e {
        Expr::Assign(_, v) => {
            law_programs_fail_by_themselves(*v, env, alu, fuel);
        },
        Expr::BinaryOp(l, _, r) => {
            law_programs_fail_by_themselves(*l, env, alu, fuel);
            law_programs_fail_by_themselves(*r, eval(*l, env, alu, fuel).env, alu, fuel);
        },
        Expr::Block(stmts) => {
            lemma_blocks_fail_by_themselves(stmts@, env, alu, fuel);
        },
        _ => {},
    }
}

/// [`law_programs_fail_by_themselves`] for the statements of a block.
pub proof fn lemma_blocks_fail_by_themselves(
    stmts: Seq<Expr>,
    env: Map<Seq<char>, Value>,
    alu: spec_fn(Operator, u64, u64) -> u64,
    fuel: nat,
)
    ensures
        run_block(stmts, env, alu, fuel).outcome matches Outcome::Failure(err)
            ==> is_fault_of_program(err),
    decreases fuel, stmts,
{
    if stmts.len() > 0 {
        match stmts.first() {
            Expr::Return(v) => {
                law_programs_fail_by_themselves(*v, env, alu, fuel);
            },
            Expr::While(_, _) => {
                lemma_loops_fail_by_themselves(stmts.first(), env, alu, fuel);
                let looped = run_loop(stmts.first(), env, alu, fuel);
                lemma_blocks_fail_by_themselves(stmts.drop_first(), looped.env, alu, fuel);
            },
            _ => {
                law_programs_fail_by_themselves(stmts.first(), env, alu, fuel);
                let first = eval(stmts.first(), env, alu, fuel);
                lemma_blocks_fail_by_themselves(stmts.drop_first(), first.env, alu, fuel);
            },
        }
    }
}

/// [`law_programs_fail_by_themselves`] for a loop.
pub proof fn lemma_loops_fail_by_themselves(
    w: Expr,
    env: Map<Seq<char>, Value>,
    alu: spec_fn(Operator, u64, u64) -> u64,
    fuel: nat,
)
    ensures
        run_loop(w, env, alu, fuel).outcome matches LoopOutcome::Failure(err)
            ==> is_fault_of_program(err),
    decreases fuel, w,
{
    match w {
        Expr::While(c, b) => {
            law_programs_fail_by_themselves(*c, env, alu, fuel);
            let cond = eval(*c, env, alu, fuel);
            match *b {
                Expr::Return(x) => {
                    law_programs_fail_by_themselves(*x, cond.env, alu, fuel);
                },
                Expr::While(_, _) => {
                    lemma_loops_fail_by_themselves(*b, cond.env, alu, fuel);
                    let inner = run_loop(*b, cond.env, alu, fuel);
                    if fuel > 0 {
                        lemma_loops_fail_by_themselves(w, inner.env, alu, (fuel - 1) as nat);
                    }
                },
                _ => {
                    law_programs_fail_by_themselves(*b, cond.env, alu, fuel);
                    let body = eval(*b, cond.env, alu, fuel);
                    if fuel > 0 {
                        lemma_loops_fail_by_themselves(w, body.env, alu, (fuel - 1) as nat);
                    }
                },
            }
        },
        _ => {},
    }
}

/// Only a `Return` that is itself the body of a loop leaves the loop.  A
/// block as a body is evaluated like any other body and its value dropped,
/// also where a `Return` inside the block gave it: `while true` around a
/// block that returns a number never ends.
pub proof fn law_body_value_is_dropped(
    w: Expr,
    bits: u64,
    env: Map<Seq<char>, Value>,
    alu: spec_fn(Operator, u64, u64) -> u64,
    fuel: nat,
)
    requires
        w is While,
        *w->While_0 == Expr::Boolean(true),
        *w->While_1 matches Expr::Block(stmts) && stmts@ == seq![
            Expr::Return(Box::new(Expr::Float(bits))),
        ],
    ensures
        run_loop(w, env, alu, fuel).outcome is OutOfFuel,
    decreases fuel,
{
    let b = *w->While_1;
    let stmts = b->Block_0@;
    let tested = eval(*w->While_0, env, alu, fuel);
    assert(tested.outcome == Outcome::Value(Value::Boolean(true)) && tested.env == env);
    let returned = eval(*stmts.first()->Return_0, env, alu, fuel);
    assert(returned.outcome == Outcome::Value(Value::Float(bits)) && returned.env == env);
    let inner = run_block(stmts, env, alu, fuel);
    assert(inner.outcome == Outcome::Value(Value::Float(bits)) && inner.env == env);
    let body = eval(b, env, alu, fuel);
    assert(body == inner);
    if fuel > 0 {
        law_body_value_is_dropped(w, bits, env, alu, (fuel - 1) as nat);
    }
}

} // verus!
