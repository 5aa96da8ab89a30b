//! The compiler from expressions to tapes.
use vstd::prelude::*;
use crate::expr::{Binding, Expr};
use crate::globals::{intern, names_of, slot_of, with_name};
use crate::opcode::{Operation, HINT_RETURN, HINT_WHILE};

verus! {

/// What compiling something yields: the words it adds to the tape, and the
/// name table as it stands afterwards.
pub struct Layout {
    pub words: Seq<u64>,
    pub table: Seq<Seq<char>>,
}

/// Whether a block has to be a checked one: whether one of its own
/// statements, not one nested deeper, is a `Return` or a `While`.
pub open spec fn is_checked(stmts: Seq<Expr>) -> bool {
    exists|i: int| 0 <= i < stmts.len() && (#[trigger] stmts[i]).diverts()
}

/// The compiled form of `e` when its first word stands at offset `base` of
/// the tape and `table` holds the names met so far.
///
/// Every operation word comes first and its operands follow it; an end
/// offset counts from the start of the tape, not from the word that holds
/// it.
pub open spec fn layout(e: Expr, base: int, table: Seq<Seq<char>>) -> Layout
    decreases e,
{
    match e {
        Expr::Float(bits) => Layout { words: seq![Operation::Float.word(), bits], table },
        Expr::Boolean(b) => Layout {
            words: seq![
                if b {
                    Operation::True.word()
                } else {
                    Operation::False.word()
                },
            ],
            table,
        },
        Expr::Var(b) => Layout {
            words: seq![Operation::Var.word(), slot_of(table, b.name()) as u64],
            table: with_name(table, b.name()),
        },
        Expr::Assign(b, v) => {
            let value = layout(*v, base + 2, with_name(table, b.name()));
            Layout {
                words: seq![Operation::Assign.word(), slot_of(table, b.name()) as u64]
                    + value.words,
                table: value.table,
            }
        },
        Expr::BinaryOp(l, op, r) => {
            let left = layout(*l, base + 1, table);
            let right = layout(*r, base + 1 + left.words.len(), left.table);
            Layout {
                words: seq![Operation::Binary(op).word()] + left.words + right.words,
                table: right.table,
            }
        },
        Expr::Block(stmts) => {
            let body = layout_all(stmts@, base + 2, table);
            let op = if is_checked(stmts@) {
                Operation::BlockChecked
            } else {
                Operation::Block
            };
            Layout {
                words: seq![op.word(), (base + 2 + body.words.len()) as u64] + body.words,
                table: body.table,
            }
        },
        Expr::While(c, b) => {
            let cond = layout(*c, base + 3, table);
            let body = layout(*b, base + 3 + cond.words.len(), cond.table);
            Layout {
                words: seq![
                    HINT_WHILE,
                    Operation::WhileLoop.word(),
                    (base + 3 + cond.words.len() + body.words.len()) as u64,
                ] + cond.words + body.words,
                table: body.table,
            }
        },
        Expr::Return(v) => {
            let value = layout(*v, base + 1, table);
            Layout { words: seq![HINT_RETURN] + value.words, table: value.table }
        },
    }
}

/// The compiled forms of `stmts` one after the other, the first at offset
/// `base`, each seeing the names its predecessors brought.
pub open spec fn layout_all(stmts: Seq<Expr>, base: int, table: Seq<Seq<char>>) -> Layout
    decreases stmts,
{
    if stmts.len() == 0 {
        Layout { words: Seq::empty(), table }
    } else {
        let front = layout_all(stmts.drop_last(), base, table);
        let last = layout(stmts.last(), base + front.words.len(), front.table);
        Layout { words: front.words + last.words, table: last.table }
    }
}

/// Turns expressions into a tape and the table of the names they use.
#[derive(Debug, Clone)]
pub struct ImCompiler {
    /// The names met so far; the place of a name is its slot.
    pub globals: Vec<String>,
    /// The words emitted so far.
    pub future_tape: Vec<u64>,
}

impl ImCompiler {
    /// The names met so far, each as its characters.
    pub open spec fn names(&self) -> Seq<Seq<char>> {
        names_of(self.globals@)
    }

    /// A compiler that has emitted nothing and knows no name.
    pub fn new() -> (r: Self)
        ensures
            r.globals@.len() == 0,
            r.future_tape@.len() == 0,
            r.names() == Seq::<Seq<char>>::empty(),
    {
        let r = ImCompiler { globals: Vec::new(), future_tape: Vec::new() };
        assert(r.names() =~= Seq::<Seq<char>>::empty());
        r
    }

    /// Appends one word to the tape.
    pub fn push(&mut self, value: u64)
        ensures
            final(self).future_tape@ == old(self).future_tape@.push(value),
            final(self).globals == old(self).globals,
    {
        self.future_tape.push(value);
    }

    /// The slot of `name`: the one it has, or a new one at the end of the
    /// table when the name is met for the first time.
    pub fn constant_get_or_def(&mut self, name: String) -> (slot: usize)
        ensures
            final(self).names() == with_name(old(self).names(), name@),
            slot == slot_of(old(self).names(), name@),
            slot < final(self).globals@.len(),
            final(self).globals@[slot as int]@ == name@,
            old(self).globals@.is_prefix_of(final(self).globals@),
            final(self).future_tape == old(self).future_tape,
    {
        intern(&mut self.globals, name)
    }

    /// Compiles `expr` and appends its words to the tape.
    pub fn compile_expr(&mut self, expr: Expr)
        ensures
            final(self).future_tape@ == old(self).future_tape@ + layout(
                expr,
                old(self).future_tape@.len() as int,
                old(self).names(),
            ).words,
            final(self).names() == layout(
                expr,
                old(self).future_tape@.len() as int,
                old(self).names(),
            ).table,
    {
        self.emit(&expr)
    }

    /// Whether one of the statements is itself a `Return` or a `While`.
    pub fn needs_check(stmts: &Vec<Expr>) -> (r: bool)
        ensures
            r == is_checked(stmts@),
    {
        let mut i: usize = 0;
        while i < stmts.len()
            invariant
                i <= stmts.len(),
                forall|j: int| 0 <= j < i ==> !(#[trigger] stmts@[j]).diverts(),
            decreases stmts.len() - i,
        {
            match &stmts[i] {
                Expr::Return(_) => {
                    return true;
                },
                Expr::While(_, _) => {
                    return true;
                },
                _ => {},
            }
            i = i + 1;
        }
        false
    }

    /// Compiles `expr`, which stays with the caller.
    pub fn emit(&mut self, expr: &Expr)
        ensures
            final(self).future_tape@ == old(self).future_tape@ + layout(
                *expr,
                old(self).future_tape@.len() as int,
                old(self).names(),
            ).words,
            final(self).names() == layout(
                *expr,
                old(self).future_tape@.len() as int,
                old(self).names(),
            ).table,
        decreases expr,
    {
        let ghost base = self.future_tape@.len() as int;
        let ghost start = self.future_tape@;
        let ghost table = self.names();
        match expr {
            Expr::Boolean(b) => {
                if *b {
                    self.push(Operation::True.encode());
                } else {
                    self.push(Operation::False.encode());
                }
                assert(self.future_tape@ =~= start + layout(*expr, base, table).words);
            },
            Expr::Float(bits) => {
                self.push(Operation::Float.encode());
                self.push(*bits);
                assert(self.future_tape@ =~= start + layout(*expr, base, table).words);
            },
            Expr::Var(binding) => match binding {
                Binding::Global(name) => {
                    let idx = self.constant_get_or_def(name.clone());
                    self.push(Operation::Var.encode());
                    self.push(idx as u64);
                    assert(self.future_tape@ =~= start + layout(*expr, base, table).words);
                },
            },
            Expr::Assign(binding, value) => match binding {
                Binding::Global(name) => {
                    self.push(Operation::Assign.encode());
                    let idx = self.constant_get_or_def(name.clone());
                    self.push(idx as u64);
                    self.emit(value);
                    assert(self.future_tape@ =~= start + layout(*expr, base, table).words);
                },
            },
            Expr::Return(value) => {
                self.push(HINT_RETURN);
                self.emit(value);
                assert(self.future_tape@ =~= start + layout(*expr, base, table).words);
            },
            Expr::Block(statements) => {
                let op = if Self::needs_check(statements) {
                    Operation::BlockChecked
                } else {
                    Operation::Block
                };
                self.push(op.encode());
                let fix_idx = self.future_tape.len();
                self.push(0);
                let mut i: usize = 0;
                assert(statements@.take(0) =~= Seq::<Expr>::empty());
                while i < statements.len()
                    invariant
                        i <= statements.len(),
                        *expr == Expr::Block(*statements),
                        fix_idx == base + 1,
                        base == start.len(),
                        self.future_tape@ == start + seq![op.word(), 0u64] + layout_all(
                            statements@.take(i as int),
                            base + 2,
                            table,
                        ).words,
                        self.names() == layout_all(statements@.take(i as int), base + 2, table).table,
                    decreases statements.len() - i,
                {
                    proof {
                        vstd::std_specs::vec::axiom_vec_index_decreases(*statements, i as int);
                        assert(decreases_to!(*expr => expr->Block_0));
                        assert(statements@.take(i as int + 1).drop_last() =~= statements@.take(
                            i as int,
                        ));
                        assert(statements@.take(i as int + 1).last() == statements@[i as int]);
                    }
                    let ghost done = layout_all(statements@.take(i as int), base + 2, table);
                    let ghost before = self.future_tape@;
                    assert(before.len() == base + 2 + done.words.len());
                    self.emit(&statements[i]);
                    proof {
                        let next = layout_all(statements@.take(i as int + 1), base + 2, table);
                        let step = layout(statements@[i as int], base + 2 + done.words.len(), done.table);
                        assert(next.words == done.words + step.words);
                        assert(next.table == step.table);
                        assert(self.future_tape@ =~= start + seq![op.word(), 0u64] + next.words);
                    }
                    i = i + 1;
                }
                let end = self.future_tape.len();
                self.future_tape.set(fix_idx, end as u64);
                proof {
                    assert(statements@.take(i as int) =~= statements@);
                    assert(self.future_tape@ =~= start + layout(*expr, base, table).words);
                }
            },
            Expr::While(cond, body) => {
                self.push(HINT_WHILE);
                self.push(Operation::WhileLoop.encode());
                let size_idx = self.future_tape.len();
                self.push(0);
                self.emit(cond);
                self.emit(body);
                let end = self.future_tape.len();
                self.future_tape.set(size_idx, end as u64);
                assert(self.future_tape@ =~= start + layout(*expr, base, table).words);
            },
            Expr::BinaryOp(lhs, op, rhs) => {
                self.push(Operation::Binary(*op).encode());
                self.emit(lhs);
                self.emit(rhs);
                assert(self.future_tape@ =~= start + layout(*expr, base, table).words);
            },
        }
    }
}

} // verus!
