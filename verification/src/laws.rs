//! What holds of the compiler and the machine together.
use vstd::prelude::*;
use crate::error::ExecError;
use crate::expr::{Binding, Expr, Operator};
use crate::globals::{
    distinct, find, lemma_find, lemma_slot_is_stable, lemma_with_name, slot_of, with_name,
};
use crate::imsta::{is_checked, layout, layout_all};
use crate::machine::{Frame, Machine, Status};
use crate::value::Value;

verus! {

/// Compiling never forgets a name: the table after compiling `e` starts
/// with the table before, and holds no name twice if the table before held
/// none twice.
pub proof fn law_table_grows(e: Expr, base: int, table: Seq<Seq<char>>)
    ensures
        table.is_prefix_of(layout(e, base, table).table),
        distinct(table) ==> distinct(layout(e, base, table).table),
    decreases e,
{
    match e {
        Expr::Float(_) => {},
        Expr::Boolean(_) => {},
        Expr::Var(b) => {
            lemma_with_name(table, b.name());
        },
        Expr::Assign(b, v) => {
            lemma_with_name(table, b.name());
            law_table_grows(*v, base + 2, with_name(table, b.name()));
        },
        Expr::BinaryOp(l, _, r) => {
            law_table_grows(*l, base + 1, table);
            let left = layout(*l, base + 1, table);
            law_table_grows(*r, base + 1 + left.words.len(), left.table);
        },
        Expr::Block(stmts) => {
            law_tables_grow(stmts@, base + 2, table);
        },
        Expr::While(c, b) => {
            law_table_grows(*c, base + 3, table);
            let cond = layout(*c, base + 3, table);
            law_table_grows(*b, base + 3 + cond.words.len(), cond.table);
        },
        Expr::Return(v) => {
            law_table_grows(*v, base + 1, table);
        },
    }
}

/// [`law_table_grows`] for the statements of a block.
pub proof fn law_tables_grow(stmts: Seq<Expr>, base: int, table: Seq<Seq<char>>)
    ensures
        table.is_prefix_of(layout_all(stmts, base, table).table),
        distinct(table) ==> distinct(layout_all(stmts, base, table).table),
    decreases stmts,
{
    if stmts.len() > 0 {
        law_tables_grow(stmts.drop_last(), base, table);
        let front = layout_all(stmts.drop_last(), base, table);
        law_table_grows(stmts.last(), base + front.words.len(), front.table);
    }
}

/// Programs that are alike compile alike: to the same words and the same
/// table.  In particular a copy of a program compiles to the tape of the
/// program.
pub proof fn law_alike_programs_compile_alike(a: Expr, b: Expr, base: int, table: Seq<Seq<char>>)
    requires
        a.alike(b),
    ensures
        layout(a, base, table) == layout(b, base, table),
    decreases a,
{
    match (a, b) {
        (Expr::Assign(x, v), Expr::Assign(y, w)) => {
            law_alike_programs_compile_alike(*v, *w, base + 2, with_name(table, x.name()));
        },
        (Expr::BinaryOp(l, _, r), Expr::BinaryOp(m, _, s)) => {
            law_alike_programs_compile_alike(*l, *m, base + 1, table);
            let left = layout(*l, base + 1, table);
            law_alike_programs_compile_alike(*r, *s, base + 1 + left.words.len(), left.table);
        },
        (Expr::Block(x), Expr::Block(y)) => {
            lemma_alike_blocks_compile_alike(a, b, base + 2, table);
            if is_checked(x@) {
                let i = choose|i: int| 0 <= i < x@.len() && (#[trigger] x@[i]).diverts();
                assert(x@[i].alike(y@[i]));
                assert(y@[i].diverts());
            }
            if is_checked(y@) {
                let i = choose|i: int| 0 <= i < y@.len() && (#[trigger] y@[i]).diverts();
                assert(x@[i].alike(y@[i]));
            }
        },
        (Expr::While(c, p), Expr::While(d, q)) => {
            law_alike_programs_compile_alike(*c, *d, base + 3, table);
            let cond = layout(*c, base + 3, table);
            law_alike_programs_compile_alike(*p, *q, base + 3 + cond.words.len(), cond.table);
        },
        (Expr::Return(v), Expr::Return(w)) => {
            law_alike_programs_compile_alike(*v, *w, base + 1, table);
        },
        _ => {},
    }
}

/// [`law_alike_programs_compile_alike`] for the statements of two blocks.
proof fn lemma_alike_blocks_compile_alike(a: Expr, b: Expr, base: int, table: Seq<Seq<char>>)
    requires
        a is Block,
        b is Block,
        a.alike(b),
    ensures
        forall|k: int|
            0 <= k <= a->Block_0@.len() ==> #[trigger] layout_all(a->Block_0@.take(k), base, table)
                == layout_all(b->Block_0@.take(k), base, table),
        layout_all(a->Block_0@, base, table) == layout_all(b->Block_0@, base, table),
    decreases a, 0nat,
{
    let x = a->Block_0@;
    let y = b->Block_0@;
    lemma_alike_statements_compile_alike(a, b, x.len() as int, base, table);
    assert(x.take(x.len() as int) =~= x);
    assert(y.take(x.len() as int) =~= y);
    assert forall|k: int| 0 <= k <= x.len() implies #[trigger] layout_all(x.take(k), base, table)
        == layout_all(y.take(k), base, table) by {
        lemma_alike_statements_compile_alike(a, b, k, base, table);
    }
}

/// The first `k` statements of two blocks that are alike compile alike.
proof fn lemma_alike_statements_compile_alike(
    a: Expr,
    b: Expr,
    k: int,
    base: int,
    table: Seq<Seq<char>>,
)
    requires
        a is Block,
        b is Block,
        a.alike(b),
        0 <= k <= a->Block_0@.len(),
    ensures
        layout_all(a->Block_0@.take(k), base, table) == layout_all(
            b->Block_0@.take(k),
            base,
            table,
        ),
    decreases a, 0nat, k,
{
    let x = a->Block_0@;
    let y = b->Block_0@;
    if k == 0 {
        assert(x.take(0) =~= Seq::<Expr>::empty());
        assert(y.take(0) =~= Seq::<Expr>::empty());
    } else {
        lemma_alike_statements_compile_alike(a, b, k - 1, base, table);
        assert(x.take(k).drop_last() =~= x.take(k - 1));
        assert(y.take(k).drop_last() =~= y.take(k - 1));
        assert(x.take(k).last() == x[k - 1]);
        assert(y.take(k).last() == y[k - 1]);
        let front = layout_all(x.take(k - 1), base, table);
        vstd::std_specs::vec::axiom_vec_index_decreases(a->Block_0, k - 1);
        assert(decreases_to!(a => a->Block_0));
        assert(x[k - 1].alike(y[k - 1]));
        law_alike_programs_compile_alike(x[k - 1], y[k - 1], base + front.words.len(), front.table);
    }
}

/// A name keeps its slot: once `name` stands in the table, it resolves to
/// the same slot after any expression was compiled, so that two references
/// to one name anywhere in a program are compiled to the same slot.
pub proof fn law_slot_is_kept(e: Expr, base: int, table: Seq<Seq<char>>, name: Seq<char>)
    requires
        table.contains(name),
    ensures
        slot_of(layout(e, base, table).table, name) == slot_of(table, name),
        slot_of(with_name(table, name), name) == slot_of(table, name),
{
    law_table_grows(e, base, table);
    lemma_slot_is_stable(table, layout(e, base, table).table, name);
    lemma_find(table, name);
}

/// Resolving a name a second time changes nothing and gives the slot of the
/// first time.
pub proof fn law_resolving_twice(table: Seq<Seq<char>>, name: Seq<char>)
    ensures
        with_name(with_name(table, name), name) == with_name(table, name),
        slot_of(with_name(table, name), name) == slot_of(table, name),
{
    lemma_with_name(table, name);
    lemma_find(table, name);
}

/// An operator whose operands are not both numbers fails with a type
/// mismatch, whichever operator it is: a boolean or `Nil` on either side is
/// never coerced.
pub proof fn law_operands_must_be_numbers(m: Machine, op: Operator, lhs: Value, rhs: Value)
    requires
        m.stack.len() > 0,
        m.stack.last() == (Frame::Rhs { op, lhs }),
        !(lhs is Float) || !(rhs is Float),
    ensures
        m.deliver(rhs).status == Status::Failed(ExecError::TypeMismatch),
{
}

/// A machine that is not ready stays as it is, however long it is run.
pub proof fn lemma_run_stopped(m: Machine, budget: nat)
    requires
        !(m.status is Ready),
    ensures
        m.run(budget) == m,
{
}

/// Running for `a + b` steps is running for `a` steps and then for `b`.
pub proof fn lemma_run_split(m: Machine, a: nat, b: nat)
    ensures
        m.run(a + b) == m.run(a).run(b),
    decreases a,
{
    if a == 0 {
    } else if !(m.status is Ready) {
        lemma_run_stopped(m, b);
    } else {
        lemma_run_split(m.step(), (a - 1) as nat, b);
    }
}

/// The tape of a program that stores a number in a variable and then
/// returns the variable.
proof fn lemma_store_then_return_tape(program: Expr, name: String, bits: u64)
    requires
        program matches Expr::Block(stmts) && stmts@ == seq![
            Expr::Assign(Binding::Global(name), Box::new(Expr::Float(bits))),
            Expr::Return(Box::new(Expr::Var(Binding::Global(name)))),
        ],
    ensures
        layout(program, 0, Seq::empty()).words == seq![
            18u64,
            9u64,
            5u64,
            0u64,
            3u64,
            bits,
            1001u64,
            4u64,
            0u64,
        ],
        layout(program, 0, Seq::empty()).table == seq![name@],
{
    let stmts = program->Block_0@;
    let none = Seq::<Seq<char>>::empty();
    lemma_find(none, name@);
    assert(find(none, name@) is None);
    let table = with_name(none, name@);
    assert(table =~= seq![name@]);
    lemma_find(table, name@);
    assert(table[0] == name@);
    assert(find(table, name@) == Some(0int));
    let first = layout(stmts[0], 2, none);
    assert(first.words =~= seq![5u64, 0u64, 3u64, bits] && first.table == table) by {
        reveal_with_fuel(layout, 2);
    }
    let second = layout(stmts[1], 6, table);
    assert(second.words =~= seq![1001u64, 4u64, 0u64] && second.table == table) by {
        reveal_with_fuel(layout, 2);
    }
    assert(stmts.drop_last() =~= seq![stmts[0]]);
    assert(stmts.drop_last().drop_last() =~= Seq::<Expr>::empty());
    let one = layout_all(stmts.drop_last(), 2, none);
    assert(one.words =~= first.words && one.table == table) by {
        reveal_with_fuel(layout_all, 2);
    }
    let both = layout_all(stmts, 2, none);
    assert(both.words =~= first.words + second.words && both.table == table);
    assert(stmts[1].diverts());
    assert(layout(program, 0, none).words =~= seq![18u64, 9u64] + both.words);
}

/// The run of the tape of [`lemma_store_then_return_tape`].
proof fn lemma_store_then_return_run(words: Seq<u64>, bits: u64)
    requires
        words == seq![18u64, 9u64, 5u64, 0u64, 3u64, bits, 1001u64, 4u64, 0u64],
    ensures
        Machine::initial(words, 1).run(4).status == Status::Finished(Value::Float(bits)),
        Machine::initial(words, 1).run(4).globals == seq![Value::Float(bits)],
{
    let m0 = Machine::initial(words, 1);
    assert(m0.globals =~= seq![Value::Float(0)]);
    let m1 = m0.step();
    assert(m1 == m0.jump(2).push(Frame::BlockChecked { end: 9 }));
    let m2 = m1.step();
    assert(m2 == m1.jump(4).push(Frame::Assign { slot: 0 }));
    let m3 = m2.step();
    let stored = Machine { globals: seq![Value::Float(bits)], ..m0 };
    let a = m2.jump(6);
    assert(m3 == a.deliver(Value::Float(bits)));
    assert(a.pop().stack =~= m1.stack);
    let b = Machine { globals: a.globals.update(0, Value::Float(bits)), ..a.pop() };
    assert(b.globals =~= seq![Value::Float(bits)]);
    assert(a.deliver(Value::Float(bits)) == b.deliver(Value::Nil));
    assert(b.pop().stack =~= m0.stack);
    assert(b.pop() == stored.jump(6));
    assert(b.deliver(Value::Nil) == b.pop().checked_next(9));
    assert(m3 == stored.jump(7).push(Frame::BlockReturn { end: 9 }));
    let m4 = m3.step();
    let c = m3.jump(9);
    assert(m4 == c.deliver(Value::Float(bits)));
    assert(c.pop().stack =~= m0.stack);
    assert(c.deliver(Value::Float(bits)) == c.pop().jump(9).deliver(Value::Float(bits)));
    assert(m4 == Machine { status: Status::Finished(Value::Float(bits)), ..stored.jump(9) });
    assert(m0.run(4) == m4) by {
        reveal_with_fuel(Machine::run, 5);
    }
}

/// A program that stores a number in a variable and then returns the
/// variable yields that number, whatever the number and the name: the run
/// of the compiled program ends with it after four steps, and asks for no
/// arithmetic on the way.
pub proof fn law_store_then_return(program: Expr, name: String, bits: u64, budget: nat)
    requires
        program matches Expr::Block(stmts) && stmts@ == seq![
            Expr::Assign(Binding::Global(name), Box::new(Expr::Float(bits))),
            Expr::Return(Box::new(Expr::Var(Binding::Global(name)))),
        ],
        budget >= 4,
    ensures
        ({
            let compiled = layout(program, 0, Seq::empty());
            let end = Machine::initial(compiled.words, compiled.table.len()).run(budget);
            &&& end.status == Status::Finished(Value::Float(bits))
            &&& end.globals == seq![Value::Float(bits)]
        }),
{
    let compiled = layout(program, 0, Seq::empty());
    lemma_store_then_return_tape(program, name, bits);
    lemma_store_then_return_run(compiled.words, bits);
    let m0 = Machine::initial(compiled.words, 1);
    lemma_run_split(m0, 4, (budget - 4) as nat);
    lemma_run_stopped(m0.run(4), (budget - 4) as nat);
}

} // verus!
