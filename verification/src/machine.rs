//! The machine that runs a tape, as a mathematical transition system.
//!
//! A state holds a cursor over the tape, the variables, and a stack of
//! frames: the operations that were started and wait for an operand.  One
//! step reads the operation under the cursor and starts it; an operation
//! that has its result hands it to the frame on top of the stack, which may
//! finish in turn.  The five arithmetic results are not computed here: the
//! machine stops with the operator and both operands, and goes on when it is
//! given the result.
use vstd::prelude::*;
use crate::error::ExecError;
use crate::expr::Operator;
use crate::opcode::{is_hint, Operation, HINT_RETURN, HINT_WHILE};
use crate::tape::TapeView;
use crate::value::{float_eq, float_lt, Value};

verus! {

/// An operation that was started and waits for the value of an operand, or
/// for the outcome of a loop.
#[derive(Debug, Clone, Copy)]
pub enum Frame {
    /// An assignment waits for the value to store.
    Assign { slot: u64 },
    /// A binary operator waits for its left operand.
    Lhs { op: Operator },
    /// A binary operator waits for its right operand.
    Rhs { op: Operator, lhs: Value },
    /// A plain block waits for a statement to finish.
    Block { end: u64 },
    /// A checked block waits for an ordinary statement to finish.
    BlockChecked { end: u64 },
    /// A checked block waits for the value it is to return.
    BlockReturn { end: u64 },
    /// A checked block waits for the outcome of a loop.
    BlockLoop { end: u64 },
    /// A loop waits for its condition.
    WhileCond { start: u64, end: u64 },
    /// A loop waits for its body to finish.
    WhileBody { start: u64, end: u64 },
    /// A loop waits for the value it is to return.
    WhileReturn { end: u64 },
    /// A loop whose body is a loop waits for the inner outcome.
    WhileInner { start: u64, end: u64 },
    /// A conditional waits for the test of a branch; `left` branches follow
    /// this one, and `otherwise` is where the next one starts.
    CondTest { left: u64, end: u64, otherwise: u64 },
    /// A conditional waits for the value of the branch it took.
    CondTaken { end: u64 },
}

/// What the machine is about to do.
#[derive(Debug, Clone, Copy)]
pub enum Status {
    /// The next step reads an operation from the tape.
    Ready,
    /// The machine waits to be told what `lhs op rhs` is.
    Arithmetic { op: Operator, lhs: u64, rhs: u64 },
    /// The run ended with this value.
    Finished(Value),
    /// The run ended in this failure.
    Failed(ExecError),
}

/// What a comparison of two numbers yields.
pub open spec fn compare(op: Operator, a: u64, b: u64) -> bool {
    match op {
        Operator::Eq => float_eq(a, b),
        Operator::Neq => !float_eq(a, b),
        Operator::Lt => float_lt(a, b),
        Operator::Lte => float_lt(a, b) || float_eq(a, b),
        Operator::Gt => float_lt(b, a),
        Operator::Gte => float_lt(b, a) || float_eq(a, b),
        _ => false,
    }
}

/// A state of the machine.
pub struct Machine {
    pub tape: TapeView,
    pub stack: Seq<Frame>,
    pub globals: Seq<Value>,
    pub status: Status,
}

impl Machine {
    /// The state a run starts in: the cursor at the first word, nothing on
    /// the stack, and every variable holding the number zero.
    pub open spec fn initial(words: Seq<u64>, globals: nat) -> Machine {
        Machine {
            tape: TapeView { words, offset: 0 },
            stack: Seq::empty(),
            globals: Seq::new(globals, |i: int| Value::Float(0)),
            status: Status::Ready,
        }
    }

    /// The state stopped by failure `e`.
    pub open spec fn fail(self, e: ExecError) -> Machine {
        Machine { status: Status::Failed(e), ..self }
    }

    /// The state with `frame` put on the stack.
    pub open spec fn push(self, frame: Frame) -> Machine {
        Machine { stack: self.stack.push(frame), ..self }
    }

    /// The state without the frame on top of the stack.
    pub open spec fn pop(self) -> Machine {
        Machine { stack: self.stack.drop_last(), ..self }
    }

    /// The state with the cursor at `offset`.
    pub open spec fn jump(self, offset: nat) -> Machine {
        Machine { tape: self.tape.at(offset), ..self }
    }

    /// The state with the cursor one word further.
    pub open spec fn forward(self) -> Machine {
        Machine { tape: self.tape.advanced(1), ..self }
    }

    /// Hands `v` to the frame on top of the stack; with no frame left, `v`
    /// is the result of the run.  A frame that waits for the outcome of a
    /// loop refuses a value; no run ever hands it one.
    pub open spec fn deliver(self, v: Value) -> Machine
        decreases self.stack.len(), 0int,
    {
        if self.stack.len() == 0 {
            Machine { status: Status::Finished(v), ..self }
        } else {
            let m = self.pop();
            match self.stack.last() {
                Frame::Assign { slot } => if slot < m.globals.len() {
                    Machine { globals: m.globals.update(slot as int, v), ..m }.deliver(Value::Nil)
                } else {
                    m.fail(ExecError::InvalidSlot)
                },
                Frame::Lhs { op } => m.push(Frame::Rhs { op, lhs: v }),
                Frame::Rhs { op, lhs } => match (lhs, v) {
                    (Value::Float(a), Value::Float(b)) => if op.is_arithmetic() {
                        Machine { status: Status::Arithmetic { op, lhs: a, rhs: b }, ..m }
                    } else {
                        m.deliver(Value::Boolean(compare(op, a, b)))
                    },
                    _ => m.fail(ExecError::TypeMismatch),
                },
                Frame::Block { end } => m.block_next(end),
                Frame::BlockChecked { end } => m.checked_next(end),
                Frame::BlockReturn { end } => m.jump(end as nat).deliver(v),
                Frame::WhileCond { start, end } => if v.is_truthy() {
                    m.enter_body(start, end)
                } else {
                    m.jump(end as nat).deliver_loop(None)
                },
                Frame::WhileBody { start, end } => m.jump(start as nat).push(
                    Frame::WhileCond { start, end },
                ),
                Frame::WhileReturn { end } => m.jump(end as nat).deliver_loop(Some(v)),
                Frame::CondTest { left, end, otherwise } => if v.is_truthy() {
                    m.push(Frame::CondTaken { end })
                } else {
                    m.jump(otherwise as nat).cond_next(left, end)
                },
                Frame::CondTaken { end } => m.jump(end as nat).deliver(v),
                Frame::BlockLoop { .. } => m.fail(ExecError::InvalidOpcode),
                Frame::WhileInner { .. } => m.fail(ExecError::InvalidOpcode),
            }
        }
    }

    /// Hands the outcome of a loop to the frame that started the loop:
    /// `None` when the loop ran to its end, a value when something in it
    /// returned.  Any other frame refuses it; no run ever hands it one.
    pub open spec fn deliver_loop(self, outcome: Option<Value>) -> Machine
        decreases self.stack.len(), 0int,
    {
        if self.stack.len() == 0 {
            self.fail(ExecError::InvalidOpcode)
        } else {
            let m = self.pop();
            match self.stack.last() {
                Frame::BlockLoop { end } => match outcome {
                    Some(v) => m.jump(end as nat).deliver(v),
                    None => m.checked_next(end),
                },
                Frame::WhileInner { start, end } => match outcome {
                    Some(v) => m.jump(end as nat).deliver_loop(Some(v)),
                    None => m.jump(start as nat).push(Frame::WhileCond { start, end }),
                },
                _ => m.fail(ExecError::InvalidOpcode),
            }
        }
    }

    /// A plain block goes on: with the next statement while the cursor is
    /// before `end`, and with `Nil` as its value once it is not.
    pub open spec fn block_next(self, end: u64) -> Machine
        decreases self.stack.len(), 1int,
    {
        if self.tape.offset < end {
            self.push(Frame::Block { end })
        } else {
            self.deliver(Value::Nil)
        }
    }

    /// A checked block goes on.  Before `end` it looks at the word under
    /// the cursor: the marker of a `Return` makes the block wait for the
    /// value to return, the marker of a `While` starts the loop, any other
    /// word of the marker range is a failure, and every other word starts an
    /// ordinary statement.  At `end` the value of the block is `Nil`.
    pub open spec fn checked_next(self, end: u64) -> Machine
        decreases self.stack.len(), 1int,
    {
        if self.tape.offset < end {
            if !self.tape.has_next() {
                self.fail(ExecError::OutOfRange)
            } else if self.tape.current() == HINT_RETURN {
                self.forward().push(Frame::BlockReturn { end })
            } else if self.tape.current() == HINT_WHILE {
                self.forward().push(Frame::BlockLoop { end }).enter_loop()
            } else if is_hint(self.tape.current()) {
                self.fail(ExecError::UnknownHint)
            } else {
                self.push(Frame::BlockChecked { end })
            }
        } else {
            self.deliver(Value::Nil)
        }
    }

    /// Starts the loop whose marker was just passed: the word under the
    /// cursor has to be the loop operation, the next one its end offset, and
    /// the condition starts right after.
    pub open spec fn enter_loop(self) -> Machine {
        if !self.tape.has_next() {
            self.fail(ExecError::OutOfRange)
        } else if Operation::of_word(self.tape.current()) != Some(Operation::WhileLoop) {
            self.forward().fail(ExecError::InvalidOpcode)
        } else {
            self.forward().while_loop()
        }
    }

    /// The loop operation: reads the end offset, remembers where the
    /// condition starts, and waits for the condition.
    pub open spec fn while_loop(self) -> Machine {
        if !self.tape.has_next() {
            self.fail(ExecError::OutOfRange)
        } else if self.tape.current() == 0 {
            self.forward().fail(ExecError::UnresolvedJump)
        } else {
            self.forward().push(
                Frame::WhileCond {
                    start: (self.tape.offset + 1) as u64,
                    end: self.tape.current(),
                },
            )
        }
    }

    /// The condition of a loop held: the body is looked at as a checked
    /// block looks at a statement.
    pub open spec fn enter_body(self, start: u64, end: u64) -> Machine {
        if !self.tape.has_next() {
            self.fail(ExecError::OutOfRange)
        } else if self.tape.current() == HINT_RETURN {
            self.forward().push(Frame::WhileReturn { end })
        } else if self.tape.current() == HINT_WHILE {
            self.forward().push(Frame::WhileInner { start, end }).enter_loop()
        } else if is_hint(self.tape.current()) {
            self.fail(ExecError::UnknownHint)
        } else {
            self.push(Frame::WhileBody { start, end })
        }
    }

    /// A conditional goes on with `left` branches to try: it reads where
    /// the branch after the next one starts and waits for the test, or, with
    /// no branch left, lets the final expression stand for itself.
    pub open spec fn cond_next(self, left: u64, end: u64) -> Machine {
        if left == 0 {
            self
        } else if !self.tape.has_next() {
            self.fail(ExecError::OutOfRange)
        } else if self.tape.current() == 0 {
            self.forward().fail(ExecError::UnresolvedJump)
        } else {
            self.forward().push(
                Frame::CondTest { left: (left - 1) as u64, end, otherwise: self.tape.current() },
            )
        }
    }

    /// The conditional operation: reads the number of branches and the end
    /// offset, then tries the first branch.
    pub open spec fn conditional(self) -> Machine {
        if !self.tape.has_next() {
            self.fail(ExecError::OutOfRange)
        } else if !self.forward().tape.has_next() {
            self.forward().fail(ExecError::OutOfRange)
        } else if self.forward().tape.current() == 0 {
            self.forward().forward().fail(ExecError::UnresolvedJump)
        } else {
            self.forward().forward().cond_next(self.tape.current(), self.forward().tape.current())
        }
    }

    /// The number literal: the next word is the value.
    pub open spec fn float(self) -> Machine {
        if !self.tape.has_next() {
            self.fail(ExecError::OutOfRange)
        } else {
            self.forward().deliver(Value::Float(self.tape.current()))
        }
    }

    /// The read of a variable: the next word is its slot.
    pub open spec fn var(self) -> Machine {
        if !self.tape.has_next() {
            self.fail(ExecError::OutOfRange)
        } else if self.tape.current() >= self.globals.len() {
            self.forward().fail(ExecError::InvalidSlot)
        } else {
            self.forward().deliver(self.globals[self.tape.current() as int])
        }
    }

    /// The assignment: the next word is the slot, and the value to store is
    /// what the expression after it yields.
    pub open spec fn assign(self) -> Machine {
        if !self.tape.has_next() {
            self.fail(ExecError::OutOfRange)
        } else {
            self.forward().push(Frame::Assign { slot: self.tape.current() })
        }
    }

    /// The plain block: the next word is its end offset.
    pub open spec fn block(self) -> Machine {
        if !self.tape.has_next() {
            self.fail(ExecError::OutOfRange)
        } else if self.tape.current() == 0 {
            self.forward().fail(ExecError::UnresolvedJump)
        } else {
            self.forward().block_next(self.tape.current())
        }
    }

    /// The checked block: the next word is its end offset.
    pub open spec fn block_checked(self) -> Machine {
        if !self.tape.has_next() {
            self.fail(ExecError::OutOfRange)
        } else if self.tape.current() == 0 {
            self.forward().fail(ExecError::UnresolvedJump)
        } else {
            self.forward().checked_next(self.tape.current())
        }
    }

    /// Starts `op` where a value is awaited.  The loop operation and the
    /// markers yield no value and are refused here.
    pub open spec fn call(self, op: Operation) -> Machine {
        match op {
            Operation::True => self.deliver(Value::Boolean(true)),
            Operation::False => self.deliver(Value::Boolean(false)),
            Operation::Float => self.float(),
            Operation::Var => self.var(),
            Operation::Assign => self.assign(),
            Operation::Binary(op) => self.push(Frame::Lhs { op }),
            Operation::Block => self.block(),
            Operation::BlockChecked => self.block_checked(),
            Operation::Conditional => self.conditional(),
            Operation::WhileLoop => self.fail(ExecError::InvalidOpcode),
            Operation::ReturnMarker => self.fail(ExecError::InvalidOpcode),
            Operation::BreakMarker => self.fail(ExecError::InvalidOpcode),
            Operation::LoopMarker => self.fail(ExecError::InvalidOpcode),
        }
    }

    /// One step: a machine that is ready reads the operation under the
    /// cursor and starts it; any other machine stays as it is.
    pub open spec fn step(self) -> Machine {
        if !(self.status is Ready) {
            self
        } else if !self.tape.has_next() {
            self.fail(ExecError::OutOfRange)
        } else {
            match Operation::of_word(self.tape.current()) {
                Some(op) => self.forward().call(op),
                None => self.forward().fail(ExecError::InvalidOpcode),
            }
        }
    }

    /// The answer to a pending arithmetic request: the number `bits` is
    /// handed on as the result.  A machine that waits for nothing stays as
    /// it is.
    pub open spec fn resume(self, bits: u64) -> Machine {
        if self.status is Arithmetic {
            Machine { status: Status::Ready, ..self }.deliver(Value::Float(bits))
        } else {
            self
        }
    }

    /// At most `budget` moves of a machine whose host answers every
    /// arithmetic request with `alu`: a move is a step, or the answer to a
    /// request.  A machine that has ended stays as it is.
    pub open spec fn drive(self, alu: spec_fn(Operator, u64, u64) -> u64, budget: nat) -> Machine
        decreases budget,
    {
        if budget == 0 {
            self
        } else {
            match self.status {
                Status::Ready => self.step().drive(alu, (budget - 1) as nat),
                Status::Arithmetic { op, lhs, rhs } => self.resume(alu(op, lhs, rhs)).drive(
                    alu,
                    (budget - 1) as nat,
                ),
                _ => self,
            }
        }
    }

    /// At most `budget` steps, ending early where the machine is no longer
    /// ready.
    pub open spec fn run(self, budget: nat) -> Machine
        decreases budget,
    {
        if budget == 0 || !(self.status is Ready) {
            self
        } else {
            self.step().run((budget - 1) as nat)
        }
    }
}

} // verus!
