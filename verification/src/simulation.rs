//! The machine does what the program means.
//!
//! For every expression, the run of its compiled form from a machine that
//! stands at its first word ends, if the evaluation of the expression ends,
//! with the same value or the same failure, and leaves in every slot what
//! the evaluation leaves in the variable of that slot.
use vstd::prelude::*;
use crate::error::ExecError;
use crate::expr::{Expr, Operator};
use crate::globals::{distinct, lemma_with_name, slot_of, with_name};
use crate::imsta::{is_checked, layout, layout_all};
use crate::laws::{law_table_grows, law_tables_grow};
use crate::machine::{Frame, Machine, Status};
use crate::opcode::{is_hint, lemma_words_are_distinct, Operation, HINT_RETURN, HINT_WHILE};
use crate::roundtrip::{
    holds_at, lemma_holds_at_split, lemma_layout_is_not_empty, lemma_statement_placed,
};
use crate::semantics::{
    apply, eval, law_programs_fail_by_themselves, lookup, run_block, run_loop, Evaluation,
    LoopEvaluation, LoopOutcome, Outcome,
};
use crate::value::Value;

verus! {

/// What a run works with: the tape, the names of the slots, and the
/// arithmetic of the host.
pub struct Setting {
    pub words: Seq<u64>,
    pub names: Seq<Seq<char>>,
    pub alu: spec_fn(Operator, u64, u64) -> u64,
}

/// How far a run went: the number of moves, and what the slots hold then.
pub struct Run {
    pub steps: nat,
    pub globals: Seq<Value>,
}

/// Whether every slot holds the value of the variable it stands for.
pub open spec fn agrees(
    globals: Seq<Value>,
    names: Seq<Seq<char>>,
    env: Map<Seq<char>, Value>,
) -> bool {
    &&& globals.len() == names.len()
    &&& forall|i: int| 0 <= i < names.len() ==> globals[i] == lookup(env, #[trigger] names[i])
}

/// Whether `m` is ready to read the word at `at` of the tape of `s`, its
/// slots holding what `env` says.
pub open spec fn poised(s: Setting, m: Machine, at: int, env: Map<Seq<char>, Value>) -> bool {
    &&& s.words.len() <= u64::MAX
    &&& s.names.len() <= u64::MAX
    &&& distinct(s.names)
    &&& m.tape.words == s.words
    &&& m.tape.offset == at
    &&& m.status is Ready
    &&& agrees(m.globals, s.names, env)
}

/// Whether the compiled form of `e` stands at `at` of the tape of `s`, its
/// names having the slots they have in `s`.
pub open spec fn placed(s: Setting, e: Expr, at: int, table: Seq<Seq<char>>) -> bool {
    &&& holds_at(s.words, at, layout(e, at, table).words)
    &&& layout(e, at, table).table.is_prefix_of(s.names)
}

/// The machine `m` with the cursor at `end` and `globals` in its slots.
pub open spec fn moved(m: Machine, end: int, globals: Seq<Value>) -> Machine {
    Machine { tape: m.tape.at(end as nat), globals, ..m }
}

/// Whether `run` takes the machine `from` to where `evaluation` says: to
/// the state in which the value is handed to the frames of `m`, the cursor
/// being at `end`; or to the failure.  Nothing is said of an evaluation
/// that ran out of fuel.
pub open spec fn reaches(
    s: Setting,
    from: Machine,
    m: Machine,
    run: Run,
    end: int,
    evaluation: Evaluation,
) -> bool {
    match evaluation.outcome {
        Outcome::Value(v) => agrees(run.globals, s.names, evaluation.env) && from.drive(
            s.alu,
            run.steps,
        ) == moved(m, end, run.globals).deliver(v),
        Outcome::Failure(err) => from.drive(s.alu, run.steps).status == Status::Failed(err),
        Outcome::OutOfFuel => true,
    }
}

/// [`reaches`] for a run that starts at `m` itself.
pub open spec fn arrives(s: Setting, m: Machine, run: Run, end: int, evaluation: Evaluation) -> bool {
    reaches(s, m, m, run, end, evaluation)
}

/// Whether `run` takes `m`, whose top frame is the loop, to where `looped`
/// says: to the state in which the outcome of the loop is handed to the
/// frames under the loop, the cursor being at `end`; or to the failure.
pub open spec fn loop_arrives(
    s: Setting,
    m: Machine,
    run: Run,
    end: int,
    looped: LoopEvaluation,
) -> bool {
    match looped.outcome {
        LoopOutcome::Done => agrees(run.globals, s.names, looped.env) && m.drive(s.alu, run.steps)
            == moved(m.pop(), end, run.globals).deliver_loop(None),
        LoopOutcome::Returned(v) => agrees(run.globals, s.names, looped.env) && m.drive(
            s.alu,
            run.steps,
        ) == moved(m.pop(), end, run.globals).deliver_loop(Some(v)),
        LoopOutcome::Failure(err) => m.drive(s.alu, run.steps).status == Status::Failed(err),
        LoopOutcome::OutOfFuel => true,
    }
}

/// How a block goes on from `m`: as a checked block or as a plain one.
pub open spec fn block_goes_on(m: Machine, end: u64, checked: bool) -> Machine {
    if checked {
        m.checked_next(end)
    } else {
        m.block_next(end)
    }
}

/// The first word of the compiled form of an expression that is neither a
/// `Return` nor a loop is no marker.
pub proof fn lemma_first_word(e: Expr, base: int, table: Seq<Seq<char>>)
    ensures
        !e.diverts() ==> !is_hint(layout(e, base, table).words[0]),
        e is Return ==> layout(e, base, table).words[0] == HINT_RETURN,
        e is While ==> layout(e, base, table).words[0] == HINT_WHILE,
{
    if e is BinaryOp {
        lemma_words_are_distinct(Operation::Binary(e->BinaryOp_1), Operation::True);
    }
}

/// A machine that has ended stays as it is.
pub proof fn lemma_drive_stopped(m: Machine, alu: spec_fn(Operator, u64, u64) -> u64, budget: nat)
    requires
        m.status is Failed || m.status is Finished,
    ensures
        m.drive(alu, budget) == m,
{
}

/// Driving for `a + b` moves is driving for `a` moves and then for `b`.
pub proof fn lemma_drive_split(
    m: Machine,
    alu: spec_fn(Operator, u64, u64) -> u64,
    a: nat,
    b: nat,
)
    ensures
        m.drive(alu, a + b) == m.drive(alu, a).drive(alu, b),
    decreases a,
{
    if a == 0 {
    } else {
        match m.status {
            Status::Ready => {
                lemma_drive_split(m.step(), alu, (a - 1) as nat, b);
            },
            Status::Arithmetic { op, lhs, rhs } => {
                lemma_drive_split(m.resume(alu(op, lhs, rhs)), alu, (a - 1) as nat, b);
            },
            _ => {
                lemma_drive_stopped(m, alu, b);
            },
        }
    }
}

/// One step and then `n` moves are `n + 1` moves.
pub proof fn lemma_drive_after_step(m: Machine, alu: spec_fn(Operator, u64, u64) -> u64, n: nat)
    requires
        m.status is Ready,
    ensures
        m.drive(alu, n + 1) == m.step().drive(alu, n),
{
}

/// Where the compiled form of `e` stands under the cursor of a ready
/// machine, the run takes the machine to where the evaluation of `e` says.
pub proof fn lemma_eval(
    s: Setting,
    e: Expr,
    at: int,
    table: Seq<Seq<char>>,
    m: Machine,
    env: Map<Seq<char>, Value>,
    fuel: nat,
) -> (run: Run)
    requires
        poised(s, m, at, env),
        placed(s, e, at, table),
    ensures
        arrives(s, m, run, at + layout(e, at, table).words.len(), eval(e, env, s.alu, fuel)),
    decreases fuel, e, 2nat, 0nat,
{
    match e {
        Expr::Float(_) => lemma_eval_literal(s, e, at, table, m, env, fuel),
        Expr::Boolean(_) => lemma_eval_literal(s, e, at, table, m, env, fuel),
        Expr::Var(_) => lemma_eval_var(s, e, at, table, m, env, fuel),
        Expr::Assign(_, _) => lemma_eval_assign(s, e, at, table, m, env, fuel),
        Expr::BinaryOp(_, _, _) => lemma_eval_binary(s, e, at, table, m, env, fuel),
        Expr::Block(_) => lemma_eval_block(s, e, at, table, m, env, fuel),
        Expr::While(_, _) => lemma_eval_marker(s, e, at, table, m, env, fuel),
        Expr::Return(_) => lemma_eval_marker(s, e, at, table, m, env, fuel),
    }
}

/// [`lemma_eval`] for a literal.
proof fn lemma_eval_literal(
    s: Setting,
    e: Expr,
    at: int,
    table: Seq<Seq<char>>,
    m: Machine,
    env: Map<Seq<char>, Value>,
    fuel: nat,
) -> (run: Run)
    requires
        e is Float || e is Boolean,
        poised(s, m, at, env),
        placed(s, e, at, table),
    ensures
        arrives(s, m, run, at + layout(e, at, table).words.len(), eval(e, env, s.alu, fuel)),
{
    let compiled = layout(e, at, table);
    assert(s.words[at + 0] == compiled.words[0]);
    if e is Float {
        assert(s.words[at + 1] == compiled.words[1]);
    }
    lemma_drive_after_step(m, s.alu, 0);
    let run = Run { steps: 1, globals: m.globals };
    let v = eval(e, env, s.alu, fuel).outcome->Value_0;
    assert(m.step() == moved(m, at + compiled.words.len(), m.globals).deliver(v));
    run
}

/// [`lemma_eval`] for a variable.
proof fn lemma_eval_var(
    s: Setting,
    e: Expr,
    at: int,
    table: Seq<Seq<char>>,
    m: Machine,
    env: Map<Seq<char>, Value>,
    fuel: nat,
) -> (run: Run)
    requires
        e is Var,
        poised(s, m, at, env),
        placed(s, e, at, table),
    ensures
        arrives(s, m, run, at + layout(e, at, table).words.len(), eval(e, env, s.alu, fuel)),
{
    let compiled = layout(e, at, table);
    let name = e->Var_0.name();
    assert(s.words[at + 0] == compiled.words[0]);
    assert(s.words[at + 1] == compiled.words[1]);
    lemma_with_name(table, name);
    let slot = slot_of(table, name);
    assert(s.names[slot] == with_name(table, name)[slot]);
    lemma_drive_after_step(m, s.alu, 0);
    let run = Run { steps: 1, globals: m.globals };
    assert(m.step() == moved(m, at + 2, m.globals).deliver(m.globals[slot]));
    run
}

/// [`lemma_eval`] for a `Return` or a loop where a value is awaited: the
/// marker is refused.
proof fn lemma_eval_marker(
    s: Setting,
    e: Expr,
    at: int,
    table: Seq<Seq<char>>,
    m: Machine,
    env: Map<Seq<char>, Value>,
    fuel: nat,
) -> (run: Run)
    requires
        e is Return || e is While,
        poised(s, m, at, env),
        placed(s, e, at, table),
    ensures
        arrives(s, m, run, at + layout(e, at, table).words.len(), eval(e, env, s.alu, fuel)),
{
    let compiled = layout(e, at, table);
    assert(s.words[at + 0] == compiled.words[0]);
    lemma_drive_after_step(m, s.alu, 0);
    Run { steps: 1, globals: m.globals }
}

/// [`lemma_eval`] for an assignment.
proof fn lemma_eval_assign(
    s: Setting,
    e: Expr,
    at: int,
    table: Seq<Seq<char>>,
    m: Machine,
    env: Map<Seq<char>, Value>,
    fuel: nat,
) -> (run: Run)
    requires
        e is Assign,
        poised(s, m, at, env),
        placed(s, e, at, table),
    ensures
        arrives(s, m, run, at + layout(e, at, table).words.len(), eval(e, env, s.alu, fuel)),
    decreases fuel, e, 1nat, 0nat,
{
    let compiled = layout(e, at, table);
    let name = e->Assign_0.name();
    let v = *e->Assign_1;
    lemma_with_name(table, name);
    let inner = with_name(table, name);
    let slot = slot_of(table, name);
    let head = seq![Operation::Assign.word(), slot as u64];
    let value = layout(v, at + 2, inner);
    assert(compiled.words == head + value.words);
    law_table_grows(v, at + 2, inner);
    lemma_holds_at_split(s.words, at, head, value.words);
    assert(s.words[at + 0] == head[0]);
    assert(s.words[at + 1] == head[1]);
    assert(s.names[slot] == inner[slot]);
    let frame = Frame::Assign { slot: slot as u64 };
    let m1 = m.step();
    assert(m1 == moved(m, at + 2, m.globals).push(frame));
    let end = at + compiled.words.len();
    let inner_run = lemma_eval(s, v, at + 2, inner, m1, env, fuel);
    lemma_drive_after_step(m, s.alu, inner_run.steps);
    let evaluation = eval(v, env, s.alu, fuel);
    match evaluation.outcome {
        Outcome::Value(x) => {
            let stored = inner_run.globals.update(slot, x);
            let landed = moved(m1, end, inner_run.globals);
            assert(landed.pop().stack =~= m.stack);
            assert(landed.deliver(x) == moved(m, end, stored).deliver(Value::Nil));
            assert(agrees(stored, s.names, evaluation.env.insert(name, x))) by {
                assert forall|i: int| 0 <= i < s.names.len() implies stored[i] == lookup(
                    evaluation.env.insert(name, x),
                    #[trigger] s.names[i],
                ) by {
                    if i != slot {
                        assert(s.names[i] != s.names[slot]);
                    }
                }
            }
            Run { steps: inner_run.steps + 1, globals: stored }
        },
        _ => Run { steps: inner_run.steps + 1, globals: inner_run.globals },
    }
}

/// [`lemma_eval`] for an operator and its operands.
proof fn lemma_eval_binary(
    s: Setting,
    e: Expr,
    at: int,
    table: Seq<Seq<char>>,
    m: Machine,
    env: Map<Seq<char>, Value>,
    fuel: nat,
) -> (run: Run)
    requires
        e is BinaryOp,
        poised(s, m, at, env),
        placed(s, e, at, table),
    ensures
        arrives(s, m, run, at + layout(e, at, table).words.len(), eval(e, env, s.alu, fuel)),
    decreases fuel, e, 1nat, 0nat,
{
    let compiled = layout(e, at, table);
    let l = *e->BinaryOp_0;
    let op = e->BinaryOp_1;
    let r = *e->BinaryOp_2;
    lemma_words_are_distinct(Operation::Binary(op), Operation::Binary(op));
    let left = layout(l, at + 1, table);
    let mid = at + 1 + left.words.len();
    let right = layout(r, mid, left.table);
    let end = at + compiled.words.len();
    let head = seq![Operation::Binary(op).word()];
    assert(compiled.words == head + left.words + right.words);
    law_table_grows(r, mid, left.table);
    lemma_holds_at_split(s.words, at, head + left.words, right.words);
    lemma_holds_at_split(s.words, at, head, left.words);
    assert(s.words[at + 0] == head[0]);
    let m1 = m.step();
    assert(m1 == moved(m, at + 1, m.globals).push(Frame::Lhs { op }));
    let run1 = lemma_eval(s, l, at + 1, table, m1, env, fuel);
    lemma_drive_after_step(m, s.alu, run1.steps);
    let first = eval(l, env, s.alu, fuel);
    match first.outcome {
        Outcome::Value(a) => {
            let landed1 = moved(m1, mid, run1.globals);
            assert(landed1.pop().stack =~= m.stack);
            let m2 = moved(m, mid, run1.globals).push(Frame::Rhs { op, lhs: a });
            assert(landed1.deliver(a) == m2);
            let run2 = lemma_eval(s, r, mid, left.table, m2, first.env, fuel);
            lemma_drive_split(m, s.alu, run1.steps + 1, run2.steps);
            let second = eval(r, first.env, s.alu, fuel);
            match second.outcome {
                Outcome::Value(b) => {
                    let landed2 = moved(m2, end, run2.globals);
                    assert(landed2.pop().stack =~= m.stack);
                    let target = moved(m, end, run2.globals);
                    assert(landed2.pop() == target);
                    match apply(s.alu, op, a, b) {
                        Outcome::Value(v) => {
                            if op.is_arithmetic() {
                                let waiting = landed2.deliver(b);
                                let bits = (s.alu)(op, a->Float_0, b->Float_0);
                                assert(waiting == Machine {
                                    status: Status::Arithmetic {
                                        op,
                                        lhs: a->Float_0,
                                        rhs: b->Float_0,
                                    },
                                    ..target
                                });
                                assert(waiting.resume(bits) == target.deliver(Value::Float(bits)));
                                assert(waiting.drive(s.alu, 1) == waiting.resume(bits)) by {
                                    reveal_with_fuel(Machine::drive, 2);
                                }
                                lemma_drive_split(m, s.alu, run1.steps + 1 + run2.steps, 1);
                                Run { steps: run1.steps + 1 + run2.steps + 1, globals: run2.globals }
                            } else {
                                assert(landed2.deliver(b) == target.deliver(v));
                                Run { steps: run1.steps + 1 + run2.steps, globals: run2.globals }
                            }
                        },
                        _ => {
                            assert(landed2.deliver(b) == target.fail(ExecError::TypeMismatch));
                            Run { steps: run1.steps + 1 + run2.steps, globals: run2.globals }
                        },
                    }
                },
                _ => Run { steps: run1.steps + 1 + run2.steps, globals: run2.globals },
            }
        },
        _ => Run { steps: run1.steps + 1, globals: run1.globals },
    }
}

/// [`lemma_eval`] for a block.
proof fn lemma_eval_block(
    s: Setting,
    e: Expr,
    at: int,
    table: Seq<Seq<char>>,
    m: Machine,
    env: Map<Seq<char>, Value>,
    fuel: nat,
) -> (run: Run)
    requires
        e is Block,
        poised(s, m, at, env),
        placed(s, e, at, table),
    ensures
        arrives(s, m, run, at + layout(e, at, table).words.len(), eval(e, env, s.alu, fuel)),
    decreases fuel, e, 1nat, 0nat,
{
    let compiled = layout(e, at, table);
    let stmts = e->Block_0@;
    let body = layout_all(stmts, at + 2, table);
    let head = seq![compiled.words[0], compiled.words[1]];
    assert(compiled.words =~= head + body.words);
    lemma_holds_at_split(s.words, at, head, body.words);
    assert(s.words[at + 0] == head[0]);
    assert(s.words[at + 1] == head[1]);
    let end = s.words[at + 1];
    let checked = is_checked(stmts);
    let m0 = moved(m, at + 2, m.globals);
    assert(m.step() == block_goes_on(m0, end, checked));
    assert(stmts.take(0) =~= Seq::<Expr>::empty());
    let run = lemma_block(s, e, 0, at + 2, table, end, m0, env, fuel);
    assert(stmts.skip(0) =~= stmts);
    lemma_drive_after_step(m, s.alu, run.steps);
    let result = Run { steps: run.steps + 1, globals: run.globals };
    assert(moved(m0, end as int, run.globals) == moved(m, end as int, run.globals));
    result
}

/// The statements of the block `e` from the `k`-th on: where the machine
/// `m` stands before the `k`-th statement, the block goes on to where the
/// evaluation of these statements says.
proof fn lemma_block(
    s: Setting,
    e: Expr,
    k: int,
    base: int,
    table: Seq<Seq<char>>,
    end: u64,
    m: Machine,
    env: Map<Seq<char>, Value>,
    fuel: nat,
) -> (run: Run)
    requires
        e is Block,
        0 <= k <= e->Block_0@.len(),
        holds_at(s.words, base, layout_all(e->Block_0@, base, table).words),
        layout_all(e->Block_0@, base, table).table.is_prefix_of(s.names),
        end == base + layout_all(e->Block_0@, base, table).words.len(),
        poised(s, m, base + layout_all(e->Block_0@.take(k), base, table).words.len(), env),
    ensures
        reaches(
            s,
            block_goes_on(m, end, is_checked(e->Block_0@)),
            m,
            run,
            end as int,
            run_block(e->Block_0@.skip(k), env, s.alu, fuel),
        ),
    decreases fuel, e, 0nat, e->Block_0@.len() - k,
{
    let stmts = e->Block_0@;
    let checked = is_checked(stmts);
    let from = block_goes_on(m, end, checked);
    let done = layout_all(stmts.take(k), base, table);
    let here = base + done.words.len();
    if k == stmts.len() {
        assert(stmts.take(k) =~= stmts);
        assert(stmts.skip(k) =~= Seq::<Expr>::empty());
        assert(m.tape.at(end as nat) == m.tape);
        assert(from == moved(m, end as int, m.globals).deliver(Value::Nil));
        Run { steps: 0, globals: m.globals }
    } else {
        let stmt = stmts[k];
        let one = layout(stmt, here, done.table);
        lemma_statement_placed(stmts, k, s.words, s.names, base, table);
        lemma_first_word(stmt, here, done.table);
        assert(s.words[here + 0] == one.words[0]);
        assert(stmts.skip(k).first() == stmt);
        assert(stmts.skip(k).drop_first() =~= stmts.skip(k + 1));
        vstd::std_specs::vec::axiom_vec_index_decreases(e->Block_0, k);
        assert(decreases_to!(e => e->Block_0));
        let after = here + one.words.len();
        match stmt {
            Expr::Return(v) => {
                assert(stmt.diverts());
                let value = layout(*v, here + 1, done.table);
                let head = seq![one.words[0]];
                assert(one.words =~= head + value.words);
                lemma_holds_at_split(s.words, here, head, value.words);
                let m1 = moved(m, here + 1, m.globals).push(Frame::BlockReturn { end });
                assert(from == m1);
                let run1 = lemma_eval(s, *v, here + 1, done.table, m1, env, fuel);
                let evaluation = eval(*v, env, s.alu, fuel);
                if let Outcome::Value(x) = evaluation.outcome {
                    let landed = moved(m1, after, run1.globals);
                    assert(landed.pop().stack =~= m.stack);
                    assert(landed.deliver(x) == moved(m, end as int, run1.globals).deliver(x));
                }
                run1
            },
            Expr::While(_, _) => {
                assert(stmt.diverts());
                let m1 = lemma_enter_loop(
                    s,
                    stmt,
                    here,
                    done.table,
                    moved(m, here + 1, m.globals).push(Frame::BlockLoop { end }),
                    env,
                );
                assert(from == m1);
                let run1 = lemma_loop(s, stmt, here, done.table, m1, env, fuel);
                let looped = run_loop(stmt, env, s.alu, fuel);
                assert(m1.pop().stack =~= m.stack.push(Frame::BlockLoop { end }));
                match looped.outcome {
                    LoopOutcome::Returned(x) => {
                        let landed = moved(m1.pop(), after, run1.globals);
                        assert(landed.pop().stack =~= m.stack);
                        assert(landed.deliver_loop(Some(x)) == moved(
                            m,
                            end as int,
                            run1.globals,
                        ).deliver(x));
                        run1
                    },
                    LoopOutcome::Done => {
                        let landed = moved(m1.pop(), after, run1.globals);
                        assert(landed.pop().stack =~= m.stack);
                        let m2 = moved(m, after, run1.globals);
                        assert(landed.deliver_loop(None) == block_goes_on(m2, end, checked));
                        let run2 = lemma_block(s, e, k + 1, base, table, end, m2, looped.env, fuel);
                        lemma_drive_split(from, s.alu, run1.steps, run2.steps);
                        assert(moved(m2, end as int, run2.globals) == moved(
                            m,
                            end as int,
                            run2.globals,
                        ));
                        Run { steps: run1.steps + run2.steps, globals: run2.globals }
                    },
                    _ => run1,
                }
            },
            _ => {
                assert(!stmt.diverts());
                let frame = if checked {
                    Frame::BlockChecked { end }
                } else {
                    Frame::Block { end }
                };
                let m1 = m.push(frame);
                assert(from == m1);
                let run1 = lemma_eval(s, stmt, here, done.table, m1, env, fuel);
                let first = eval(stmt, env, s.alu, fuel);
                match first.outcome {
                    Outcome::Value(v) => {
                        let landed = moved(m1, after, run1.globals);
                        assert(landed.pop().stack =~= m.stack);
                        let m2 = moved(m, after, run1.globals);
                        assert(landed.deliver(v) == block_goes_on(m2, end, checked));
                        let run2 = lemma_block(s, e, k + 1, base, table, end, m2, first.env, fuel);
                        lemma_drive_split(from, s.alu, run1.steps, run2.steps);
                        assert(moved(m2, end as int, run2.globals) == moved(
                            m,
                            end as int,
                            run2.globals,
                        ));
                        Run { steps: run1.steps + run2.steps, globals: run2.globals }
                    },
                    _ => run1,
                }
            },
        }
    }
}

/// Entering the loop `w` whose marker was just passed: the machine reads
/// the loop operation and the end offset and waits for the condition.
proof fn lemma_enter_loop(
    s: Setting,
    w: Expr,
    at: int,
    table: Seq<Seq<char>>,
    m: Machine,
    env: Map<Seq<char>, Value>,
) -> (entered: Machine)
    requires
        w is While,
        placed(s, w, at, table),
        poised(s, m, at + 1, env),
    ensures
        entered == m.enter_loop(),
        entered == moved(m, at + 3, m.globals).push(
            Frame::WhileCond {
                start: (at + 3) as u64,
                end: (at + layout(w, at, table).words.len()) as u64,
            },
        ),
        poised(s, entered, at + 3, env),
        entered.stack.len() > 0,
        entered.pop().stack == m.stack,
{
    let compiled = layout(w, at, table);
    assert(s.words[at + 1] == compiled.words[1]);
    assert(s.words[at + 2] == compiled.words[2]);
    let entered = m.enter_loop();
    assert(entered.stack.drop_last() =~= m.stack);
    entered
}

/// The loop `w`: where the machine stands at the condition, the frame of
/// the loop being on top, the run takes it to where the evaluation of the
/// loop says.
proof fn lemma_loop(
    s: Setting,
    w: Expr,
    at: int,
    table: Seq<Seq<char>>,
    m: Machine,
    env: Map<Seq<char>, Value>,
    fuel: nat,
) -> (run: Run)
    requires
        w is While,
        placed(s, w, at, table),
        poised(s, m, at + 3, env),
        m.stack.len() > 0,
        m.stack.last() == (Frame::WhileCond {
            start: (at + 3) as u64,
            end: (at + layout(w, at, table).words.len()) as u64,
        }),
    ensures
        loop_arrives(
            s,
            m,
            run,
            at + layout(w, at, table).words.len(),
            run_loop(w, env, s.alu, fuel),
        ),
    decreases fuel, w, 1nat, 0nat,
{
    let compiled = layout(w, at, table);
    let c = *w->While_0;
    let b = *w->While_1;
    let cond = layout(c, at + 3, table);
    let body_at = at + 3 + cond.words.len();
    let body = layout(b, body_at, cond.table);
    let end = at + compiled.words.len();
    let start = (at + 3) as u64;
    let frame = Frame::WhileCond { start, end: end as u64 };
    let head = seq![compiled.words[0], compiled.words[1], compiled.words[2]];
    assert(compiled.words =~= head + cond.words + body.words);
    law_table_grows(b, body_at, cond.table);
    lemma_holds_at_split(s.words, at, head + cond.words, body.words);
    lemma_holds_at_split(s.words, at, head, cond.words);
    lemma_layout_is_not_empty(b, body_at, cond.table);
    lemma_first_word(b, body_at, cond.table);
    assert(s.words[body_at + 0] == body.words[0]);
    let under = m.pop();
    assert(under.push(frame).stack =~= m.stack);
    let run1 = lemma_eval(s, c, at + 3, table, m, env, fuel);
    let tested = eval(c, env, s.alu, fuel);
    match tested.outcome {
        Outcome::Value(v) => {
            let landed = moved(m, body_at, run1.globals);
            let p = moved(under, body_at, run1.globals);
            assert(landed.pop() == p);
            if !v.is_truthy() {
                assert(landed.deliver(v) == moved(under, end, run1.globals).deliver_loop(None));
                run1
            } else {
                assert(landed.deliver(v) == p.enter_body(start, end as u64));
                let again = Frame::WhileCond { start, end: end as u64 };
                match b {
                    Expr::Return(x) => {
                        let value = layout(*x, body_at + 1, cond.table);
                        let body_head = seq![body.words[0]];
                        assert(body.words =~= body_head + value.words);
                        lemma_holds_at_split(s.words, body_at, body_head, value.words);
                        let m2 = moved(under, body_at + 1, run1.globals).push(
                            Frame::WhileReturn { end: end as u64 },
                        );
                        assert(p.enter_body(start, end as u64) == m2);
                        let run2 = lemma_eval(s, *x, body_at + 1, cond.table, m2, tested.env, fuel);
                        lemma_drive_split(m, s.alu, run1.steps, run2.steps);
                        let returned = eval(*x, tested.env, s.alu, fuel);
                        if let Outcome::Value(r) = returned.outcome {
                            let landed2 = moved(m2, end, run2.globals);
                            assert(landed2.pop().stack =~= under.stack);
                            assert(landed2.deliver(r) == moved(
                                under,
                                end,
                                run2.globals,
                            ).deliver_loop(Some(r)));
                        }
                        Run { steps: run1.steps + run2.steps, globals: run2.globals }
                    },
                    Expr::While(_, _) => {
                        let inner_frame = Frame::WhileInner { start, end: end as u64 };
                        let m2 = lemma_enter_loop(
                            s,
                            b,
                            body_at,
                            cond.table,
                            moved(under, body_at + 1, run1.globals).push(inner_frame),
                            tested.env,
                        );
                        assert(p.enter_body(start, end as u64) == m2);
                        let run2 = lemma_loop(s, b, body_at, cond.table, m2, tested.env, fuel);
                        lemma_drive_split(m, s.alu, run1.steps, run2.steps);
                        let inner = run_loop(b, tested.env, s.alu, fuel);
                        assert(m2.pop().stack =~= under.stack.push(inner_frame));
                        match inner.outcome {
                            LoopOutcome::Returned(r) => {
                                let landed2 = moved(m2.pop(), end, run2.globals);
                                assert(landed2.pop().stack =~= under.stack);
                                assert(landed2.deliver_loop(Some(r)) == moved(
                                    under,
                                    end,
                                    run2.globals,
                                ).deliver_loop(Some(r)));
                                Run { steps: run1.steps + run2.steps, globals: run2.globals }
                            },
                            LoopOutcome::Done => {
                                let landed2 = moved(m2.pop(), end, run2.globals);
                                assert(landed2.pop().stack =~= under.stack);
                                let m3 = moved(m, at + 3, run2.globals);
                                assert(landed2.deliver_loop(None) == m3);
                                if fuel == 0 {
                                    Run { steps: 0, globals: run2.globals }
                                } else {
                                    let run3 = lemma_loop(
                                        s,
                                        w,
                                        at,
                                        table,
                                        m3,
                                        inner.env,
                                        (fuel - 1) as nat,
                                    );
                                    lemma_drive_split(
                                        m,
                                        s.alu,
                                        run1.steps + run2.steps,
                                        run3.steps,
                                    );
                                    assert(moved(m3.pop(), end, run3.globals) == moved(
                                        under,
                                        end,
                                        run3.globals,
                                    ));
                                    Run {
                                        steps: run1.steps + run2.steps + run3.steps,
                                        globals: run3.globals,
                                    }
                                }
                            },
                            _ => Run { steps: run1.steps + run2.steps, globals: run2.globals },
                        }
                    },
                    _ => {
                        assert(!b.diverts());
                        let m2 = p.push(Frame::WhileBody { start, end: end as u64 });
                        assert(p.enter_body(start, end as u64) == m2);
                        let run2 = lemma_eval(s, b, body_at, cond.table, m2, tested.env, fuel);
                        lemma_drive_split(m, s.alu, run1.steps, run2.steps);
                        let round = eval(b, tested.env, s.alu, fuel);
                        match round.outcome {
                            Outcome::Value(x) => {
                                let landed2 = moved(m2, end, run2.globals);
                                assert(landed2.pop().stack =~= under.stack);
                                let m3 = moved(m, at + 3, run2.globals);
                                assert(landed2.deliver(x) == m3);
                                if fuel == 0 {
                                    Run { steps: 0, globals: run2.globals }
                                } else {
                                    let run3 = lemma_loop(
                                        s,
                                        w,
                                        at,
                                        table,
                                        m3,
                                        round.env,
                                        (fuel - 1) as nat,
                                    );
                                    lemma_drive_split(
                                        m,
                                        s.alu,
                                        run1.steps + run2.steps,
                                        run3.steps,
                                    );
                                    assert(moved(m3.pop(), end, run3.globals) == moved(
                                        under,
                                        end,
                                        run3.globals,
                                    ));
                                    Run {
                                        steps: run1.steps + run2.steps + run3.steps,
                                        globals: run3.globals,
                                    }
                                }
                            },
                            _ => Run { steps: run1.steps + run2.steps, globals: run2.globals },
                        }
                    },
                }
            }
        },
        _ => run1,
    }
}

/// The run of a compiled program ends as the program means: started on
/// the tape of `e` with one slot for every name of `e`, each holding zero,
/// the machine ends after `steps` moves with the value that the evaluation
/// of `e` ends with, its stack empty, its cursor behind the last word and
/// every slot holding what the variable of its name holds; or it ends in
/// the failure that the evaluation ends in.  This holds for every host
/// arithmetic `alu` and every evaluation that ends within its fuel.
pub proof fn law_machine_follows_meaning(
    e: Expr,
    alu: spec_fn(Operator, u64, u64) -> u64,
    fuel: nat,
) -> (steps: nat)
    requires
        layout(e, 0, Seq::empty()).words.len() <= u64::MAX,
        layout(e, 0, Seq::empty()).table.len() <= u64::MAX,
    ensures
        ({
            let compiled = layout(e, 0, Seq::empty());
            let start = Machine::initial(compiled.words, compiled.table.len());
            let end = start.drive(alu, steps);
            let meaning = eval(e, Map::empty(), alu, fuel);
            match meaning.outcome {
                Outcome::Value(v) => {
                    &&& end.status == Status::Finished(v)
                    &&& end.stack.len() == 0
                    &&& end.tape.offset == compiled.words.len()
                    &&& agrees(end.globals, compiled.table, meaning.env)
                },
                Outcome::Failure(err) => end.status == Status::Failed(err),
                Outcome::OutOfFuel => true,
            }
        }),
{
    let compiled = layout(e, 0, Seq::empty());
    let start = Machine::initial(compiled.words, compiled.table.len());
    let s = Setting { words: compiled.words, names: compiled.table, alu };
    law_table_grows(e, 0, Seq::empty());
    let run = lemma_eval(s, e, 0, Seq::empty(), start, Map::empty(), fuel);
    run.steps
}

/// What [`Machine::run`] reaches lies on the way of [`Machine::drive`]:
/// running is driving for the moves it takes, whatever the host.
pub proof fn law_run_is_drive(
    m: Machine,
    alu: spec_fn(Operator, u64, u64) -> u64,
    budget: nat,
) -> (moves: nat)
    ensures
        moves <= budget,
        m.run(budget) == m.drive(alu, moves),
    decreases budget,
{
    if budget == 0 || !(m.status is Ready) {
        0
    } else {
        let rest = law_run_is_drive(m.step(), alu, (budget - 1) as nat);
        rest + 1
    }
}

/// Answering an arithmetic request with what the host computes is one move
/// of [`Machine::drive`].
pub proof fn law_resume_is_drive(m: Machine, alu: spec_fn(Operator, u64, u64) -> u64)
    requires
        m.status is Arithmetic,
    ensures
        m.resume(alu(m.status->op, m.status->lhs, m.status->rhs)) == m.drive(alu, 1),
{
    reveal_with_fuel(Machine::drive, 2);
}

/// A compiled program never runs into a defect of its tape: whenever its
/// evaluation ends within its fuel, the run ends with a value or with a
/// failure that the program itself means, never past the end of the tape,
/// at an unknown marker, at an end offset left at zero or at a slot outside
/// the storage.
pub proof fn law_compiled_tapes_are_sound(
    e: Expr,
    alu: spec_fn(Operator, u64, u64) -> u64,
    fuel: nat,
) -> (steps: nat)
    requires
        layout(e, 0, Seq::empty()).words.len() <= u64::MAX,
        layout(e, 0, Seq::empty()).table.len() <= u64::MAX,
        !(eval(e, Map::empty(), alu, fuel).outcome is OutOfFuel),
    ensures
        ({
            let compiled = layout(e, 0, Seq::empty());
            let end = Machine::initial(compiled.words, compiled.table.len()).drive(alu, steps);
            ||| end.status is Finished
            ||| end.status == Status::Failed(ExecError::TypeMismatch)
            ||| end.status == Status::Failed(ExecError::InvalidOpcode)
        }),
{
    law_programs_fail_by_themselves(e, Map::empty(), alu, fuel);
    law_machine_follows_meaning(e, alu, fuel)
}

/// An operator applied to a boolean fails with a type mismatch, whichever
/// operator it is: where both operands of `e` have a value and one of the
/// values is a boolean, the run of the compiled form of `e` ends in that
/// failure.
pub proof fn law_boolean_operand_is_refused(
    e: Expr,
    alu: spec_fn(Operator, u64, u64) -> u64,
    fuel: nat,
) -> (steps: nat)
    requires
        layout(e, 0, Seq::empty()).words.len() <= u64::MAX,
        layout(e, 0, Seq::empty()).table.len() <= u64::MAX,
        e is BinaryOp,
        ({
            let left = eval(*e->BinaryOp_0, Map::empty(), alu, fuel);
            let right = eval(*e->BinaryOp_2, left.env, alu, fuel);
            &&& left.outcome is Value
            &&& right.outcome is Value
            &&& left.outcome->Value_0 is Boolean || right.outcome->Value_0 is Boolean
        }),
    ensures
        ({
            let compiled = layout(e, 0, Seq::empty());
            let end = Machine::initial(compiled.words, compiled.table.len()).drive(alu, steps);
            end.status == Status::Failed(ExecError::TypeMismatch)
        }),
{
    law_machine_follows_meaning(e, alu, fuel)
}

/// A `Return` in the body of a loop leaves the loop and the block around
/// it at once: where a variable is assigned a block whose first statement
/// is `while true` around the `Return` of a number, the run stores that
/// number in the variable and ends, and no statement after the loop is
/// run: every other slot still holds zero.
pub proof fn law_return_leaves_loop_and_block(
    program: Expr,
    bits: u64,
    alu: spec_fn(Operator, u64, u64) -> u64,
    fuel: nat,
) -> (steps: nat)
    requires
        layout(program, 0, Seq::empty()).words.len() <= u64::MAX,
        layout(program, 0, Seq::empty()).table.len() <= u64::MAX,
        program matches Expr::Assign(_, body) && *body matches Expr::Block(stmts) && stmts@.len()
            >= 1 && stmts@[0] == Expr::While(
            Box::new(Expr::Boolean(true)),
            Box::new(Expr::Return(Box::new(Expr::Float(bits)))),
        ),
    ensures
        ({
            let compiled = layout(program, 0, Seq::empty());
            let end = Machine::initial(compiled.words, compiled.table.len()).drive(alu, steps);
            &&& end.status == Status::Finished(Value::Nil)
            &&& end.globals.len() == compiled.table.len()
            &&& end.globals[0] == Value::Float(bits)
            &&& forall|i: int| 1 <= i < end.globals.len() ==> end.globals[i] == Value::Float(0)
        }),
{
    let name = program->Assign_0.name();
    let body = *program->Assign_1;
    let stmts = body->Block_0@;
    let none = Map::<Seq<char>, Value>::empty();
    let looped = run_loop(stmts[0], none, alu, fuel);
    let w = stmts[0];
    assert(w is While);
    let c = *w->While_0;
    let b = *w->While_1;
    assert(c == Expr::Boolean(true));
    assert(b is Return);
    let tested = eval(c, none, alu, fuel);
    assert(tested.outcome == Outcome::Value(Value::Boolean(true)) && tested.env == none);
    let returned = eval(*b->Return_0, none, alu, fuel);
    assert(returned.outcome == Outcome::Value(Value::Float(bits)) && returned.env == none);
    assert(looped.outcome == LoopOutcome::Returned(Value::Float(bits)) && looped.env == none);
    let inner = run_block(stmts, none, alu, fuel);
    assert(inner.outcome == Outcome::Value(Value::Float(bits)) && inner.env == none);
    let meaning = eval(program, none, alu, fuel);
    assert(meaning.outcome == Outcome::Value(Value::Nil) && meaning.env == none.insert(
        name,
        Value::Float(bits),
    )) by {
        reveal_with_fuel(eval, 2);
    }
    let steps = law_machine_follows_meaning(program, alu, fuel);
    let compiled = layout(program, 0, Seq::empty());
    let end = Machine::initial(compiled.words, compiled.table.len()).drive(alu, steps);
    let first = with_name(Seq::empty(), name);
    lemma_with_name(Seq::empty(), name);
    law_table_grows(body, 2, first);
    law_table_grows(program, 0, Seq::empty());
    assert(first =~= seq![name]);
    assert(compiled.table[0] == first[0]);
    assert(end.globals[0] == lookup(meaning.env, compiled.table[0]));
    assert forall|i: int| 1 <= i < end.globals.len() implies end.globals[i] == Value::Float(0) by {
        assert(compiled.table[i] != compiled.table[0]);
        assert(end.globals[i] == lookup(meaning.env, compiled.table[i]));
    }
    steps
}

/// What a program means does not depend on the fuel: two evaluations of
/// one program that both end within their fuel end alike, with the same
/// value or the same failure.
pub proof fn law_meaning_is_unique(
    e: Expr,
    alu: spec_fn(Operator, u64, u64) -> u64,
    fuel: nat,
    more: nat,
)
    requires
        layout(e, 0, Seq::empty()).words.len() <= u64::MAX,
        layout(e, 0, Seq::empty()).table.len() <= u64::MAX,
        !(eval(e, Map::empty(), alu, fuel).outcome is OutOfFuel),
        !(eval(e, Map::empty(), alu, more).outcome is OutOfFuel),
    ensures
        eval(e, Map::empty(), alu, fuel).outcome == eval(e, Map::empty(), alu, more).outcome,
{
    let compiled = layout(e, 0, Seq::empty());
    let start = Machine::initial(compiled.words, compiled.table.len());
    let a = law_machine_follows_meaning(e, alu, fuel);
    let b = law_machine_follows_meaning(e, alu, more);
    if a <= b {
        lemma_drive_split(start, alu, a, (b - a) as nat);
        lemma_drive_stopped(start.drive(alu, a), alu, (b - a) as nat);
    } else {
        lemma_drive_split(start, alu, b, (a - b) as nat);
        lemma_drive_stopped(start.drive(alu, b), alu, (a - b) as nat);
    }
}

} // verus!
