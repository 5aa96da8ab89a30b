//! The baseline compiler: a program becomes a list of steps for a stack of
//! values, each step small enough to be wrapped in a closure of its own.
use vstd::prelude::*;
use crate::expr::{Binding, Expr, Operator};
use crate::globals::{intern, names_of, slot_of, with_name};

verus! {

/// One step on a stack of values.
#[derive(Debug, Clone, Copy, PartialEq, Eq, Structural)]
pub enum Step {
    /// Push the value of the variable in this slot.
    Load(usize),
    /// Push the number with this bit pattern.
    Push(u64),
    /// Pop a value and store it in this slot.
    Store(usize),
    /// Pop two numbers and push their sum.
    Add,
}

/// What compiling something yields: its steps, and the name table as it
/// stands afterwards.
pub struct Plan {
    pub steps: Seq<Step>,
    pub table: Seq<Seq<char>>,
}

/// The steps of `e` when `table` holds the names met so far.  Operands come
/// before the step that uses them.  Only numbers, variables, assignments,
/// sums and blocks have steps; every other expression has none.
pub open spec fn plan(e: Expr, table: Seq<Seq<char>>) -> Plan
    decreases e,
{
    match e {
        Expr::Float(bits) => Plan { steps: seq![Step::Push(bits)], table },
        Expr::Var(b) => Plan {
            steps: seq![Step::Load(slot_of(table, b.name()) as usize)],
            table: with_name(table, b.name()),
        },
        Expr::Assign(b, v) => {
            let value = plan(*v, with_name(table, b.name()));
            Plan {
                steps: value.steps.push(Step::Store(slot_of(table, b.name()) as usize)),
                table: value.table,
            }
        },
        Expr::BinaryOp(l, Operator::Add, r) => {
            let left = plan(*l, table);
            let right = plan(*r, left.table);
            Plan { steps: (left.steps + right.steps).push(Step::Add), table: right.table }
        },
        Expr::Block(stmts) => plan_all(stmts@, table),
        _ => Plan { steps: Seq::empty(), table },
    }
}

/// The steps of `stmts` one after the other.
pub open spec fn plan_all(stmts: Seq<Expr>, table: Seq<Seq<char>>) -> Plan
    decreases stmts,
{
    if stmts.len() == 0 {
        Plan { steps: Seq::empty(), table }
    } else {
        let front = plan_all(stmts.drop_last(), table);
        let last = plan(stmts.last(), front.table);
        Plan { steps: front.steps + last.steps, table: last.table }
    }
}

/// Resolves the names of a program and lists its steps.
#[derive(Debug)]
pub struct ClosureCompiler {
    constants: Vec<String>,
}

impl ClosureCompiler {
    /// The names met so far, each as its characters.
    pub closed spec fn names(&self) -> Seq<Seq<char>> {
        names_of(self.constants@)
    }

    /// A compiler that knows no name.
    pub fn new() -> (r: Self)
        ensures
            r.names() == Seq::<Seq<char>>::empty(),
    {
        let r = ClosureCompiler { constants: Vec::new() };
        assert(r.names() =~= Seq::<Seq<char>>::empty());
        r
    }

    /// The number of names met so far: the number of slots a run needs.
    pub fn constants_len(&self) -> (r: usize)
        ensures
            r == self.names().len(),
    {
        self.constants.len()
    }

    /// The steps of `program`, and the number of slots they use.
    pub fn compile(program: Expr) -> (r: (Vec<Step>, usize))
        ensures
            r.0@ == plan(program, Seq::empty()).steps,
            r.1 == plan(program, Seq::empty()).table.len(),
    {
        let mut context = ClosureCompiler::new();
        let steps = context.compile_expr(program);
        (steps, context.constants.len())
    }

    /// The slot of `name`: the one it has, or a new one at the end of the
    /// table when the name is met for the first time.
    pub fn constant_get_or_def(&mut self, name: String) -> (slot: usize)
        ensures
            final(self).names() == with_name(old(self).names(), name@),
            slot == slot_of(old(self).names(), name@),
            slot < final(self).names().len(),
            final(self).names()[slot as int] == name@,
    {
        intern(&mut self.constants, name)
    }

    /// The steps of `expr`, its names being added to the table.
    pub fn compile_expr(&mut self, expr: Expr) -> (r: Vec<Step>)
        ensures
            r@ == plan(expr, old(self).names()).steps,
            final(self).names() == plan(expr, old(self).names()).table,
    {
        let mut out: Vec<Step> = Vec::new();
        self.emit(&expr, &mut out);
        assert(out@ =~= plan(expr, old(self).names()).steps);
        out
    }

    /// Appends the steps of `expr` to `out`.
    fn emit(&mut self, expr: &Expr, out: &mut Vec<Step>)
        ensures
            final(out)@ == old(out)@ + plan(*expr, old(self).names()).steps,
            final(self).names() == plan(*expr, old(self).names()).table,
        decreases expr,
    {
        let ghost start = out@;
        let ghost table = self.names();
        match expr {
            Expr::Var(binding) => match binding {
                Binding::Global(name) => {
                    let idx = self.constant_get_or_def(name.clone());
                    out.push(Step::Load(idx));
                    assert(out@ =~= start + plan(*expr, table).steps);
                },
            },
            Expr::Float(n) => {
                out.push(Step::Push(*n));
                assert(out@ =~= start + plan(*expr, table).steps);
            },
            Expr::Assign(binding, value) => match binding {
                Binding::Global(name) => {
                    let idx = self.constant_get_or_def(name.clone());
                    self.emit(value, out);
                    out.push(Step::Store(idx));
                    assert(out@ =~= start + plan(*expr, table).steps);
                },
            },
            Expr::BinaryOp(lhs, Operator::Add, rhs) => {
                self.emit(lhs, out);
                self.emit(rhs, out);
                out.push(Step::Add);
                assert(out@ =~= start + plan(*expr, table).steps);
            },
            Expr::Block(instrs) => {
                let mut i: usize = 0;
                assert(instrs@.take(0) =~= Seq::<Expr>::empty());
                assert(out@ =~= start + plan_all(instrs@.take(0), table).steps);
                while i < instrs.len()
                    invariant
                        i <= instrs.len(),
                        *expr == Expr::Block(*instrs),
                        out@ == start + plan_all(instrs@.take(i as int), table).steps,
                        self.names() == plan_all(instrs@.take(i as int), table).table,
                    decreases instrs.len() - i,
                {
                    proof {
                        vstd::std_specs::vec::axiom_vec_index_decreases(*instrs, i as int);
                        assert(decreases_to!(*expr => expr->Block_0));
                        assert(instrs@.take(i as int + 1).drop_last() =~= instrs@.take(i as int));
                        assert(instrs@.take(i as int + 1).last() == instrs@[i as int]);
                    }
                    let ghost done = plan_all(instrs@.take(i as int), table);
                    self.emit(&instrs[i], out);
                    proof {
                        let step = plan(instrs@[i as int], done.table);
                        assert(out@ =~= start + (done.steps + step.steps));
                    }
                    i = i + 1;
                }
                assert(instrs@.take(i as int) =~= instrs@);
            },
            _ => {
                assert(out@ =~= start + plan(*expr, table).steps);
            },
        }
    }
}

} // verus!
