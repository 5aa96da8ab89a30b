//! The order that the frames of a run keep.
//!
//! Two kinds of frames wait for the outcome of a loop rather than for a
//! value, and the frames of a loop stand right on top of such a frame.  A
//! run keeps this order on every tape, so that a value is never handed to a
//! frame that waits for a loop, nor the outcome of a loop to a frame that
//! waits for a value.
use vstd::prelude::*;
use crate::machine::{compare, Frame, Machine, Status};
use crate::opcode::Operation;
use crate::value::Value;

verus! {

/// Whether a frame waits for the outcome of a loop.
pub open spec fn awaits_loop(f: Frame) -> bool {
    f is BlockLoop || f is WhileInner
}

/// Whether a frame belongs to a loop that runs.
pub open spec fn in_loop(f: Frame) -> bool {
    f is WhileCond || f is WhileBody || f is WhileReturn || f is WhileInner
}

/// Whether a stack is in order: every frame of a loop stands right on top
/// of a frame that waits for a loop, and on every frame that waits for a
/// loop stands a frame of a loop.  The frame on top waits for a loop exactly
/// if the stack is `open`.
pub open spec fn stacked(stack: Seq<Frame>, open: bool) -> bool {
    &&& forall|i: int|
        0 <= i < stack.len() && in_loop(#[trigger] stack[i]) ==> i > 0 && awaits_loop(stack[i - 1])
    &&& forall|i: int|
        0 <= i < stack.len() - 1 && awaits_loop(#[trigger] stack[i]) ==> in_loop(stack[i + 1])
    &&& open <==> (stack.len() > 0 && awaits_loop(stack.last()))
}

/// Whether a machine between two moves is in order: it has failed, or its
/// stack is in order and the frame on top waits for a value.
pub open spec fn settled(m: Machine) -> bool {
    m.status is Failed || stacked(m.stack, false)
}

/// A stack in order stays in order when a frame is put on it that fits the
/// frame on top.
proof fn lemma_push(stack: Seq<Frame>, open: bool, f: Frame)
    requires
        stacked(stack, open),
        in_loop(f) <==> open,
    ensures
        stacked(stack.push(f), awaits_loop(f)),
{
    let pushed = stack.push(f);
    assert forall|i: int| 0 <= i < pushed.len() && in_loop(#[trigger] pushed[i]) implies i > 0
        && awaits_loop(pushed[i - 1]) by {
        if i < stack.len() {
            assert(pushed[i] == stack[i]);
            assert(pushed[i - 1] == stack[i - 1]);
        }
    }
    assert forall|i: int| 0 <= i < pushed.len() - 1 && awaits_loop(
        #[trigger] pushed[i],
    ) implies in_loop(pushed[i + 1]) by {
        assert(pushed[i] == stack[i]);
        if i < stack.len() - 1 {
            assert(pushed[i + 1] == stack[i + 1]);
        }
    }
}

/// A stack in order stays in order when the frame on top is taken off; it
/// is open then exactly if the frame belonged to a loop.
proof fn lemma_pop(stack: Seq<Frame>, open: bool)
    requires
        stacked(stack, open),
        stack.len() > 0,
    ensures
        stacked(stack.drop_last(), in_loop(stack.last())),
{
    let popped = stack.drop_last();
    assert forall|i: int| 0 <= i < popped.len() && in_loop(#[trigger] popped[i]) implies i > 0
        && awaits_loop(popped[i - 1]) by {
        assert(popped[i] == stack[i]);
    }
    assert forall|i: int| 0 <= i < popped.len() - 1 && awaits_loop(
        #[trigger] popped[i],
    ) implies in_loop(popped[i + 1]) by {
        assert(popped[i] == stack[i]);
    }
    if popped.len() > 0 {
        assert(popped.last() == stack[stack.len() - 2]);
    }
}

/// Handing a value to a stack in order leaves the machine in order.
pub proof fn lemma_deliver(m: Machine, v: Value)
    requires
        stacked(m.stack, false),
    ensures
        settled(m.deliver(v)),
    decreases m.stack.len(), 0int,
{
    if m.stack.len() > 0 {
        lemma_pop(m.stack, false);
        let under = m.pop();
        match m.stack.last() {
            Frame::Assign { slot } => {
                if slot < under.globals.len() {
                    lemma_deliver(
                        Machine { globals: under.globals.update(slot as int, v), ..under },
                        Value::Nil,
                    );
                }
            },
            Frame::Lhs { op } => {
                lemma_push(under.stack, false, Frame::Rhs { op, lhs: v });
            },
            Frame::Rhs { op, lhs } => {
                if lhs is Float && v is Float && !op.is_arithmetic() {
                    lemma_deliver(
                        under,
                        Value::Boolean(compare(op, lhs->Float_0, v->Float_0)),
                    );
                }
            },
            Frame::Block { end } => {
                lemma_block_next(under, end);
            },
            Frame::BlockChecked { end } => {
                lemma_checked_next(under, end);
            },
            Frame::BlockReturn { end } => {
                lemma_deliver(under.jump(end as nat), v);
            },
            Frame::WhileCond { start, end } => {
                if v.is_truthy() {
                    lemma_enter_body(under, start, end);
                } else {
                    lemma_deliver_loop(under.jump(end as nat), None);
                }
            },
            Frame::WhileBody { start, end } => {
                lemma_push(under.stack, true, Frame::WhileCond { start, end });
            },
            Frame::WhileReturn { end } => {
                lemma_deliver_loop(under.jump(end as nat), Some(v));
            },
            Frame::CondTest { left, end, otherwise } => {
                if v.is_truthy() {
                    lemma_push(under.stack, false, Frame::CondTaken { end });
                } else {
                    lemma_cond_next(under.jump(otherwise as nat), left, end);
                }
            },
            Frame::CondTaken { end } => {
                lemma_deliver(under.jump(end as nat), v);
            },
            Frame::BlockLoop { .. } => {},
            Frame::WhileInner { .. } => {},
        }
    }
}

/// Handing the outcome of a loop to an open stack in order leaves the
/// machine in order.
pub proof fn lemma_deliver_loop(m: Machine, outcome: Option<Value>)
    requires
        stacked(m.stack, true),
    ensures
        settled(m.deliver_loop(outcome)),
    decreases m.stack.len(), 0int,
{
    lemma_pop(m.stack, true);
    let under = m.pop();
    match m.stack.last() {
        Frame::BlockLoop { end } => match outcome {
            Some(v) => {
                lemma_deliver(under.jump(end as nat), v);
            },
            None => {
                lemma_checked_next(under, end);
            },
        },
        Frame::WhileInner { start, end } => match outcome {
            Some(v) => {
                lemma_deliver_loop(under.jump(end as nat), Some(v));
            },
            None => {
                lemma_push(under.stack, true, Frame::WhileCond { start, end });
            },
        },
        _ => {},
    }
}

/// A plain block that goes on leaves the machine in order.
pub proof fn lemma_block_next(m: Machine, end: u64)
    requires
        stacked(m.stack, false),
    ensures
        settled(m.block_next(end)),
    decreases m.stack.len(), 1int,
{
    if m.tape.offset < end {
        lemma_push(m.stack, false, Frame::Block { end });
    } else {
        lemma_deliver(m, Value::Nil);
    }
}

/// A checked block that goes on leaves the machine in order.
pub proof fn lemma_checked_next(m: Machine, end: u64)
    requires
        stacked(m.stack, false),
    ensures
        settled(m.checked_next(end)),
    decreases m.stack.len(), 1int,
{
    if m.tape.offset < end {
        lemma_push(m.stack, false, Frame::BlockReturn { end });
        lemma_push(m.stack, false, Frame::BlockChecked { end });
        lemma_push(m.stack, false, Frame::BlockLoop { end });
        lemma_enter_loop(m.forward().push(Frame::BlockLoop { end }));
    } else {
        lemma_deliver(m, Value::Nil);
    }
}

/// Entering a loop on an open stack in order leaves the machine in order.
pub proof fn lemma_enter_loop(m: Machine)
    requires
        stacked(m.stack, true),
    ensures
        settled(m.enter_loop()),
{
    if m.tape.has_next() && m.forward().tape.has_next() {
        lemma_push(
            m.stack,
            true,
            Frame::WhileCond {
                start: (m.forward().tape.offset + 1) as u64,
                end: m.forward().tape.current(),
            },
        );
    }
}

/// Entering the body of a loop on an open stack in order leaves the
/// machine in order.
pub proof fn lemma_enter_body(m: Machine, start: u64, end: u64)
    requires
        stacked(m.stack, true),
    ensures
        settled(m.enter_body(start, end)),
{
    lemma_push(m.stack, true, Frame::WhileReturn { end });
    lemma_push(m.stack, true, Frame::WhileBody { start, end });
    lemma_push(m.stack, true, Frame::WhileInner { start, end });
    lemma_enter_loop(m.forward().push(Frame::WhileInner { start, end }));
}

/// A conditional that goes on leaves the machine in order.
pub proof fn lemma_cond_next(m: Machine, left: u64, end: u64)
    requires
        stacked(m.stack, false),
    ensures
        settled(m.cond_next(left, end)),
{
    if left > 0 && m.tape.has_next() {
        lemma_push(
            m.stack,
            false,
            Frame::CondTest { left: (left - 1) as u64, end, otherwise: m.tape.current() },
        );
    }
}

/// A run starts in order.
pub proof fn law_runs_start_in_order(words: Seq<u64>, globals: nat)
    ensures
        settled(Machine::initial(words, globals)),
{
}

/// A step keeps a machine in order, on every tape.
pub proof fn law_steps_keep_order(m: Machine)
    requires
        settled(m),
    ensures
        settled(m.step()),
{
    if m.status is Ready && m.tape.has_next() {
        let next = m.forward();
        match Operation::of_word(m.tape.current()) {
            Some(Operation::True) => lemma_deliver(next, Value::Boolean(true)),
            Some(Operation::False) => lemma_deliver(next, Value::Boolean(false)),
            Some(Operation::Float) => {
                if next.tape.has_next() {
                    lemma_deliver(next.forward(), Value::Float(next.tape.current()));
                }
            },
            Some(Operation::Var) => {
                if next.tape.has_next() && next.tape.current() < next.globals.len() {
                    lemma_deliver(next.forward(), next.globals[next.tape.current() as int]);
                }
            },
            Some(Operation::Assign) => {
                if next.tape.has_next() {
                    lemma_push(next.stack, false, Frame::Assign { slot: next.tape.current() });
                }
            },
            Some(Operation::Binary(op)) => {
                lemma_push(next.stack, false, Frame::Lhs { op });
            },
            Some(Operation::Block) => {
                if next.tape.has_next() {
                    lemma_block_next(next.forward(), next.tape.current());
                }
            },
            Some(Operation::BlockChecked) => {
                if next.tape.has_next() {
                    lemma_checked_next(next.forward(), next.tape.current());
                }
            },
            Some(Operation::Conditional) => {
                if next.tape.has_next() && next.forward().tape.has_next() {
                    lemma_cond_next(
                        next.forward().forward(),
                        next.tape.current(),
                        next.forward().tape.current(),
                    );
                }
            },
            _ => {},
        }
    }
}

/// An answer of the host keeps a machine in order.
pub proof fn law_answers_keep_order(m: Machine, bits: u64)
    requires
        settled(m),
    ensures
        settled(m.resume(bits)),
{
    if m.status is Arithmetic {
        lemma_deliver(Machine { status: Status::Ready, ..m }, Value::Float(bits));
    }
}

/// In a machine in order that has not failed, the frame on top of the
/// stack waits for a value: what an operation yields is never handed to a
/// frame that waits for a loop.
pub proof fn law_top_frame_awaits_a_value(m: Machine)
    requires
        settled(m),
        !(m.status is Failed),
        m.stack.len() > 0,
    ensures
        !awaits_loop(m.stack.last()),
{
}

} // verus!
