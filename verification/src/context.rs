//! The running machine: a tape, a stack of frames and the variables.
use vstd::prelude::*;
use crate::error::ExecError;
use crate::expr::Operator;
use crate::machine::{compare, Frame, Machine, Status};
use crate::opcode::{word_is_hint, Operation, HINT_RETURN, HINT_WHILE};
use crate::tape::Tape;
use crate::value::{bits_eq, bits_lt, Value};

verus! {

/// Executable form of [`compare`].
pub fn compare_bits(op: Operator, a: u64, b: u64) -> (r: bool)
    ensures
        r == compare(op, a, b),
{
    match op {
        Operator::Eq => bits_eq(a, b),
        Operator::Neq => !bits_eq(a, b),
        Operator::Lt => bits_lt(a, b),
        Operator::Lte => bits_lt(a, b) || bits_eq(a, b),
        Operator::Gt => bits_lt(b, a),
        Operator::Gte => bits_lt(b, a) || bits_eq(a, b),
        _ => false,
    }
}

/// The state of one run.  Its view is the [`Machine`] it stands for.
#[derive(Debug, Clone)]
pub struct CallContext<'a> {
    tape: Tape<'a>,
    stack: Vec<Frame>,
    globals: Vec<Value>,
    status: Status,
}

impl<'a> View for CallContext<'a> {
    type V = Machine;

    closed spec fn view(&self) -> Machine {
        Machine {
            tape: self.tape@,
            stack: self.stack@,
            globals: self.globals@,
            status: self.status,
        }
    }
}

impl<'a> CallContext<'a> {
    /// A run over the first `size` words of `tape` with `globals_amt`
    /// variables, each holding the number zero.
    pub fn new(tape: &'a [u64], size: usize, globals_amt: usize) -> (r: Self)
        ensures
            r@ == Machine::initial(
                tape@.take(if size <= tape@.len() { size as int } else { tape@.len() as int }),
                globals_amt as nat,
            ),
    {
        let mut globals: Vec<Value> = Vec::new();
        let mut i: usize = 0;
        while i < globals_amt
            invariant
                i <= globals_amt,
                globals@.len() == i,
                forall|j: int| 0 <= j < i ==> globals@[j] == Value::Float(0),
            decreases globals_amt - i,
        {
            globals.push(Value::Float(0));
            i = i + 1;
        }
        let r = CallContext {
            tape: Tape::new(tape, size),
            stack: Vec::new(),
            globals,
            status: Status::Ready,
        };
        assert(r@.globals =~= Seq::new(globals_amt as nat, |i: int| Value::Float(0)));
        assert(r@.stack =~= Seq::<Frame>::empty());
        r
    }

    /// What the machine is about to do.
    pub fn status(&self) -> (r: Status)
        ensures
            r == self@.status,
    {
        self.status
    }

    /// The value of the variable in `slot`, if the run has such a slot.
    pub fn global(&self, slot: usize) -> (r: Option<Value>)
        ensures
            r == if slot < self@.globals.len() {
                Some(self@.globals[slot as int])
            } else {
                None
            },
    {
        if slot < self.globals.len() {
            Some(self.globals[slot])
        } else {
            None
        }
    }

    /// The offset of the cursor on the tape.
    pub fn offset(&self) -> (r: u64)
        ensures
            r == self@.tape.offset,
    {
        self.tape.save()
    }

    /// The number of frames that wait on the stack.
    pub fn depth(&self) -> (r: usize)
        ensures
            r == self@.stack.len(),
    {
        self.stack.len()
    }

    fn fail(&mut self, e: ExecError)
        ensures
            final(self)@ == old(self)@.fail(e),
    {
        self.status = Status::Failed(e);
    }

    fn push(&mut self, frame: Frame)
        ensures
            final(self)@ == old(self)@.push(frame),
    {
        self.stack.push(frame);
    }

    /// Reads the next word; where none is left the run fails and `None`
    /// comes back.
    fn next_word(&mut self) -> (r: Option<u64>)
        ensures
            old(self)@.tape.has_next() ==> r == Some(old(self)@.tape.current()) && final(self)@
                == old(self)@.forward(),
            !old(self)@.tape.has_next() ==> r is None && final(self)@ == old(self)@.fail(
                ExecError::OutOfRange,
            ),
    {
        match self.tape.get_next() {
            Ok(word) => Some(word),
            Err(_) => {
                self.status = Status::Failed(ExecError::OutOfRange);
                None
            },
        }
    }

    /// Reads the next word as an end offset, which must not be zero.
    fn next_jump(&mut self) -> (r: Option<u64>)
        ensures
            !old(self)@.tape.has_next() ==> r is None && final(self)@ == old(self)@.fail(
                ExecError::OutOfRange,
            ),
            old(self)@.tape.has_next() && old(self)@.tape.current() == 0 ==> r is None
                && final(self)@ == old(self)@.forward().fail(ExecError::UnresolvedJump),
            old(self)@.tape.has_next() && old(self)@.tape.current() != 0 ==> r == Some(
                old(self)@.tape.current(),
            ) && final(self)@ == old(self)@.forward(),
    {
        match self.next_word() {
            Some(word) => {
                if word == 0 {
                    self.fail(ExecError::UnresolvedJump);
                    None
                } else {
                    Some(word)
                }
            },
            None => None,
        }
    }

    fn deliver(&mut self, v: Value)
        ensures
            final(self)@ == old(self)@.deliver(v),
        decreases old(self)@.stack.len(), 0int,
    {
        match self.stack.pop() {
            None => {
                self.status = Status::Finished(v);
            },
            Some(frame) => {
                assert(self@ == old(self)@.pop());
                match frame {
                    Frame::Assign { slot } => {
                        if slot < self.globals.len() as u64 {
                            self.globals.set(slot as usize, v);
                            self.deliver(Value::Nil);
                        } else {
                            self.fail(ExecError::InvalidSlot);
                        }
                    },
                    Frame::Lhs { op } => {
                        self.push(Frame::Rhs { op, lhs: v });
                    },
                    Frame::Rhs { op, lhs } => match (lhs, v) {
                        (Value::Float(a), Value::Float(b)) => {
                            if op.arithmetic() {
                                self.status = Status::Arithmetic { op, lhs: a, rhs: b };
                            } else {
                                self.deliver(Value::Boolean(compare_bits(op, a, b)));
                            }
                        },
                        _ => {
                            self.fail(ExecError::TypeMismatch);
                        },
                    },
                    Frame::Block { end } => {
                        self.block_next(end);
                    },
                    Frame::BlockChecked { end } => {
                        self.checked_next(end);
                    },
                    Frame::BlockReturn { end } => {
                        self.tape.move_to(end);
                        self.deliver(v);
                    },
                    Frame::WhileCond { start, end } => {
                        if v.truthy() {
                            self.enter_body(start, end);
                        } else {
                            self.tape.move_to(end);
                            self.deliver_loop(None);
                        }
                    },
                    Frame::WhileBody { start, end } => {
                        self.tape.restore(start);
                        self.push(Frame::WhileCond { start, end });
                    },
                    Frame::WhileReturn { end } => {
                        self.tape.move_to(end);
                        self.deliver_loop(Some(v));
                    },
                    Frame::CondTest { left, end, otherwise } => {
                        if v.truthy() {
                            self.push(Frame::CondTaken { end });
                        } else {
                            self.tape.move_to(otherwise);
                            self.cond_next(left, end);
                        }
                    },
                    Frame::CondTaken { end } => {
                        self.tape.move_to(end);
                        self.deliver(v);
                    },
                    Frame::BlockLoop { .. } => {
                        self.fail(ExecError::InvalidOpcode);
                    },
                    Frame::WhileInner { .. } => {
                        self.fail(ExecError::InvalidOpcode);
                    },
                }
            },
        }
    }

    fn deliver_loop(&mut self, outcome: Option<Value>)
        ensures
            final(self)@ == old(self)@.deliver_loop(outcome),
        decreases old(self)@.stack.len(), 0int,
    {
        match self.stack.pop() {
            None => {
                self.fail(ExecError::InvalidOpcode);
            },
            Some(frame) => {
                assert(self@ == old(self)@.pop());
                match frame {
                    Frame::BlockLoop { end } => match outcome {
                        Some(v) => {
                            self.tape.move_to(end);
                            self.deliver(v);
                        },
                        None => {
                            self.checked_next(end);
                        },
                    },
                    Frame::WhileInner { start, end } => match outcome {
                        Some(v) => {
                            self.tape.move_to(end);
                            self.deliver_loop(Some(v));
                        },
                        None => {
                            self.tape.restore(start);
                            self.push(Frame::WhileCond { start, end });
                        },
                    },
                    _ => {
                        self.fail(ExecError::InvalidOpcode);
                    },
                }
            },
        }
    }

    fn block_next(&mut self, end: u64)
        ensures
            final(self)@ == old(self)@.block_next(end),
        decreases old(self)@.stack.len(), 1int,
    {
        if self.tape.save() < end {
            self.push(Frame::Block { end });
        } else {
            self.deliver(Value::Nil);
        }
    }

    fn checked_next(&mut self, end: u64)
        ensures
            final(self)@ == old(self)@.checked_next(end),
        decreases old(self)@.stack.len(), 1int,
    {
        if self.tape.save() < end {
            match self.tape.read() {
                Err(_) => {
                    self.fail(ExecError::OutOfRange);
                },
                Ok(word) => {
                    if word == HINT_RETURN {
                        self.tape.skip(1);
                        self.push(Frame::BlockReturn { end });
                    } else if word == HINT_WHILE {
                        self.tape.skip(1);
                        self.push(Frame::BlockLoop { end });
                        self.enter_loop();
                    } else if word_is_hint(word) {
                        self.fail(ExecError::UnknownHint);
                    } else {
                        self.push(Frame::BlockChecked { end });
                    }
                },
            }
        } else {
            self.deliver(Value::Nil);
        }
    }

    fn enter_loop(&mut self)
        ensures
            final(self)@ == old(self)@.enter_loop(),
    {
        match self.tape.get_next_func() {
            Ok(Operation::WhileLoop) => {
                while_loop(self);
            },
            Ok(_) => {
                self.fail(ExecError::InvalidOpcode);
            },
            Err(e) => {
                self.fail(e);
            },
        }
    }

    fn enter_body(&mut self, start: u64, end: u64)
        ensures
            final(self)@ == old(self)@.enter_body(start, end),
    {
        match self.tape.read() {
            Err(_) => {
                self.fail(ExecError::OutOfRange);
            },
            Ok(word) => {
                if word == HINT_RETURN {
                    self.tape.skip(1);
                    self.push(Frame::WhileReturn { end });
                } else if word == HINT_WHILE {
                    self.tape.skip(1);
                    self.push(Frame::WhileInner { start, end });
                    self.enter_loop();
                } else if word_is_hint(word) {
                    self.fail(ExecError::UnknownHint);
                } else {
                    self.push(Frame::WhileBody { start, end });
                }
            },
        }
    }

    fn cond_next(&mut self, left: u64, end: u64)
        ensures
            final(self)@ == old(self)@.cond_next(left, end),
    {
        if left > 0 {
            match self.next_jump() {
                Some(otherwise) => {
                    self.push(Frame::CondTest { left: left - 1, end, otherwise });
                },
                None => {},
            }
        }
    }

    /// One step of the machine: see [`Machine::step`].
    pub fn step(&mut self)
        ensures
            final(self)@ == old(self)@.step(),
    {
        match self.status {
            Status::Ready => match self.tape.get_next_func() {
                Ok(op) => {
                    op.call(self);
                },
                Err(e) => {
                    self.fail(e);
                },
            },
            _ => {},
        }
    }

    /// Answers a pending arithmetic request with the bit pattern of the
    /// result: see [`Machine::resume`].
    pub fn resume(&mut self, bits: u64)
        ensures
            final(self)@ == old(self)@.resume(bits),
    {
        match self.status {
            Status::Arithmetic { .. } => {
                self.status = Status::Ready;
                self.deliver(Value::Float(bits));
            },
            _ => {},
        }
    }

    /// Runs the machine: steps it until it is no longer ready, but at most
    /// `budget` times, and reports what it is about to do then.  `Ready`
    /// says that the budget is spent, `Arithmetic` that the host is asked
    /// for a result, which [`CallContext::resume`] takes, and `Finished` and
    /// `Failed` that the run is over.
    pub fn execute(&mut self, budget: u64) -> (r: Status)
        ensures
            final(self)@ == old(self)@.run(budget as nat),
            r == final(self)@.status,
    {
        let mut left: u64 = budget;
        while left > 0 && self.is_ready()
            invariant
                self@.run(left as nat) == old(self)@.run(budget as nat),
            decreases left,
        {
            self.step();
            left = left - 1;
        }
        self.status
    }

    /// Whether the next step would read an operation.
    pub fn is_ready(&self) -> (r: bool)
        ensures
            r == (self@.status is Ready),
    {
        match self.status {
            Status::Ready => true,
            _ => false,
        }
    }
}

impl Operation {
    /// Starts the operation on `ctx` where a value is awaited: see
    /// [`Machine::call`].
    pub fn call(self, ctx: &mut CallContext)
        ensures
            final(ctx)@ == old(ctx)@.call(self),
    {
        match self {
            Operation::True => tr(ctx),
            Operation::False => fl(ctx),
            Operation::Float => float(ctx),
            Operation::Var => var(ctx),
            Operation::Assign => assign(ctx),
            Operation::Binary(op) => binary(ctx, op),
            Operation::Block => block(ctx),
            Operation::BlockChecked => block_checked(ctx),
            Operation::Conditional => conditional(ctx),
            Operation::WhileLoop => ctx.fail(ExecError::InvalidOpcode),
            Operation::ReturnMarker => ctx.fail(ExecError::InvalidOpcode),
            Operation::BreakMarker => ctx.fail(ExecError::InvalidOpcode),
            Operation::LoopMarker => ctx.fail(ExecError::InvalidOpcode),
        }
    }
}

/// The literal `true`.
pub fn tr(ctx: &mut CallContext)
    ensures
        final(ctx)@ == old(ctx)@.deliver(Value::Boolean(true)),
{
    ctx.deliver(Value::Boolean(true));
}

/// The literal `false`.
pub fn fl(ctx: &mut CallContext)
    ensures
        final(ctx)@ == old(ctx)@.deliver(Value::Boolean(false)),
{
    ctx.deliver(Value::Boolean(false));
}

/// A number literal: see [`Machine::float`].
pub fn float(ctx: &mut CallContext)
    ensures
        final(ctx)@ == old(ctx)@.float(),
{
    match ctx.next_word() {
        Some(bits) => ctx.deliver(Value::Float(bits)),
        None => {},
    }
}

/// The read of a variable: see [`Machine::var`].
pub fn var(ctx: &mut CallContext)
    ensures
        final(ctx)@ == old(ctx)@.var(),
{
    match ctx.next_word() {
        Some(idx) => {
            if idx < ctx.globals.len() as u64 {
                let v = ctx.globals[idx as usize];
                ctx.deliver(v);
            } else {
                ctx.fail(ExecError::InvalidSlot);
            }
        },
        None => {},
    }
}

/// An assignment: see [`Machine::assign`].
pub fn assign(ctx: &mut CallContext)
    ensures
        final(ctx)@ == old(ctx)@.assign(),
{
    match ctx.next_word() {
        Some(slot) => ctx.push(Frame::Assign { slot }),
        None => {},
    }
}

/// A binary operator: it waits for its left operand.
pub fn binary(ctx: &mut CallContext, op: Operator)
    ensures
        final(ctx)@ == old(ctx)@.push(Frame::Lhs { op }),
{
    ctx.push(Frame::Lhs { op });
}

/// A plain block: see [`Machine::block`].
pub fn block(ctx: &mut CallContext)
    ensures
        final(ctx)@ == old(ctx)@.block(),
{
    match ctx.next_jump() {
        Some(next_instr) => ctx.block_next(next_instr),
        None => {},
    }
}

/// A checked block: see [`Machine::block_checked`].
pub fn block_checked(ctx: &mut CallContext)
    ensures
        final(ctx)@ == old(ctx)@.block_checked(),
{
    match ctx.next_jump() {
        Some(next_instr) => ctx.checked_next(next_instr),
        None => {},
    }
}

/// A loop: see [`Machine::while_loop`].
pub fn while_loop(ctx: &mut CallContext)
    ensures
        final(ctx)@ == old(ctx)@.while_loop(),
{
    match ctx.next_jump() {
        Some(end) => {
            let start = ctx.tape.save();
            ctx.push(Frame::WhileCond { start, end });
        },
        None => {},
    }
}

/// A conditional: see [`Machine::conditional`].
pub fn conditional(ctx: &mut CallContext)
    ensures
        final(ctx)@ == old(ctx)@.conditional(),
{
    match ctx.next_word() {
        Some(branch_amount) => match ctx.next_jump() {
            Some(end_jmp) => ctx.cond_next(branch_amount, end_jmp),
            None => {},
        },
        None => {},
    }
}

} // verus!
