//! What it means to run an instruction tree.

use vstd::prelude::*;
use crate::memory::Tape;
use crate::op::{OpView, Ratio};

verus! {

/// Why a run stopped without a result.
#[derive(Clone, Copy, Debug, PartialEq, Eq)]
pub enum Fault {
    /// An input instruction found no byte to read.
    InputExhausted,
    /// A loop was still running after as many rounds as the run allows.
    LoopLimit,
}

/// Everything a running program can change.
pub struct State {
    pub tape: Tape,
    /// The input bytes not yet read.
    pub input: Seq<u8>,
    /// The bytes written so far.
    pub output: Seq<u8>,
}

/// How running an instruction ends: in a state, or on a fault in the state
/// in which the fault came up.
pub enum Outcome {
    Finished(State),
    Stopped(Fault, State),
}

/// The state in which a program starts when it is given `input`.
pub open spec fn initial(input: Seq<u8>) -> State {
    State { tape: Tape::blank(), input, output: Seq::empty() }
}

/// Runs one instruction from state `s`. A loop may go through its body at
/// most `limit` times each time it is entered.
pub open spec fn run_op(op: OpView, s: State, limit: nat) -> Outcome
    decreases op, 0nat, 0nat,
{
    match op {
        OpView::Routine(ops, cond) => if cond {
            run_loop(ops, s, limit, limit)
        } else {
            run_seq(ops, 0, s, limit)
        },
        OpView::Seek(amount) => Outcome::Finished(State { tape: s.tape.seek(amount as int), ..s }),
        OpView::Inc(amount) => Outcome::Finished(State { tape: s.tape.inc(amount as int), ..s }),
        OpView::Zero => Outcome::Finished(State { tape: s.tape.set_zero(), ..s }),
        OpView::AddAndZero(targets) => Outcome::Finished(
            State { tape: s.tape.copy_zero(targets), ..s },
        ),
        OpView::Output => Outcome::Finished(
            State { output: s.output.push(s.tape.current()), ..s },
        ),
        OpView::Input => if s.input.len() == 0 {
            Outcome::Stopped(Fault::InputExhausted, s)
        } else {
            Outcome::Finished(
                State { tape: s.tape.write(s.input[0]), input: s.input.drop_first(), ..s },
            )
        },
    }
}

/// Runs the instructions of `ops` from index `from` on, in order, and stops
/// at the first that does not finish.
pub open spec fn run_seq(ops: Seq<OpView>, from: int, s: State, limit: nat) -> Outcome
    decreases ops, 1nat, ops.len() - from,
{
    if 0 <= from < ops.len() {
        match run_op(ops[from], s, limit) {
            Outcome::Finished(next) => run_seq(ops, from + 1, next, limit),
            Outcome::Stopped(fault, at) => Outcome::Stopped(fault, at),
        }
    } else {
        Outcome::Finished(s)
    }
}

/// Runs the loop with body `ops` that has `left` rounds left: while the
/// current cell is not zero, the whole body runs again.
pub open spec fn run_loop(ops: Seq<OpView>, s: State, limit: nat, left: nat) -> Outcome
    decreases ops, 2nat, left,
{
    if s.tape.current() == 0 {
        Outcome::Finished(s)
    } else if left == 0 {
        Outcome::Stopped(Fault::LoopLimit, s)
    } else {
        match run_seq(ops, 0, s, limit) {
            Outcome::Finished(next) => run_loop(ops, next, limit, (left - 1) as nat),
            Outcome::Stopped(fault, at) => Outcome::Stopped(fault, at),
        }
    }
}

/// Running a sequence with one more instruction at its end is running the
/// sequence and then, where it finished, that instruction.
pub proof fn lemma_run_seq_push(ops: Seq<OpView>, op: OpView, from: int, s: State, limit: nat)
    requires
        0 <= from <= ops.len(),
    ensures
        run_seq(ops.push(op), from, s, limit) == match run_seq(ops, from, s, limit) {
            Outcome::Finished(next) => run_op(op, next, limit),
            Outcome::Stopped(fault, at) => Outcome::Stopped(fault, at),
        },
    decreases ops.len() - from,
{
    let longer = ops.push(op);
    if from < ops.len() {
        assert(longer[from] == ops[from]);
        match run_op(ops[from], s, limit) {
            Outcome::Finished(next) => {
                lemma_run_seq_push(ops, op, from + 1, next, limit);
            },
            Outcome::Stopped(_, _) => {},
        }
    } else {
        assert(longer[from] == op);
        match run_op(op, s, limit) {
            Outcome::Finished(next) => {
                assert(run_seq(longer, from + 1, next, limit) == Outcome::Finished(next));
            },
            Outcome::Stopped(_, _) => {},
        }
    }
}

/// Adding to cells leaves the tape whole.
pub proof fn lemma_add_scaled_keeps_tape(tape: Tape, targets: Seq<(isize, Ratio)>, value: u8)
    requires
        tape.wf(),
    ensures
        tape.add_scaled(targets, value).wf(),
        tape.add_scaled(targets, value).cursor == tape.cursor,
    decreases targets.len(),
{
    if targets.len() > 0 {
        lemma_add_scaled_keeps_tape(tape, targets.drop_last(), value);
    }
}

/// Whatever finishes leaves the tape whole: it has its full length and the
/// cursor is on it.
pub proof fn lemma_run_op_keeps_tape(op: OpView, s: State, limit: nat)
    requires
        s.tape.wf(),
    ensures
        run_op(op, s, limit) matches Outcome::Finished(end) ==> end.tape.wf(),
    decreases op, 0nat, 0nat,
{
    match op {
        OpView::Routine(ops, cond) => {
            if cond {
                lemma_run_loop_keeps_tape(ops, s, limit, limit);
            } else {
                lemma_run_seq_keeps_tape(ops, 0, s, limit);
            }
        },
        OpView::AddAndZero(targets) => {
            lemma_add_scaled_keeps_tape(s.tape, targets, s.tape.current());
        },
        _ => {},
    }
}

/// A sequence that finishes leaves the tape whole.
pub proof fn lemma_run_seq_keeps_tape(ops: Seq<OpView>, from: int, s: State, limit: nat)
    requires
        s.tape.wf(),
    ensures
        run_seq(ops, from, s, limit) matches Outcome::Finished(end) ==> end.tape.wf(),
    decreases ops, 1nat, ops.len() - from,
{
    if 0 <= from < ops.len() {
        lemma_run_op_keeps_tape(ops[from], s, limit);
        match run_op(ops[from], s, limit) {
            Outcome::Finished(next) => {
                lemma_run_seq_keeps_tape(ops, from + 1, next, limit);
            },
            Outcome::Stopped(_, _) => {},
        }
    }
}

/// A loop that finishes leaves the tape whole.
pub proof fn lemma_run_loop_keeps_tape(ops: Seq<OpView>, s: State, limit: nat, left: nat)
    requires
        s.tape.wf(),
    ensures
        run_loop(ops, s, limit, left) matches Outcome::Finished(end) ==> end.tape.wf(),
    decreases ops, 2nat, left,
{
    if s.tape.current() != 0 && left > 0 {
        lemma_run_seq_keeps_tape(ops, 0, s, limit);
        match run_seq(ops, 0, s, limit) {
            Outcome::Finished(next) => {
                lemma_run_loop_keeps_tape(ops, next, limit, (left - 1) as nat);
            },
            Outcome::Stopped(_, _) => {},
        }
    }
}

/// The bound on rounds is only a bound. A run that the bound did not stop
/// ends the same way under every larger bound.
pub proof fn theorem_larger_limit(op: OpView, s: State, limit: nat, more: nat)
    requires
        limit <= more,
        !(run_op(op, s, limit) matches Outcome::Stopped(Fault::LoopLimit, _)),
    ensures
        run_op(op, s, more) == run_op(op, s, limit),
    decreases op, 0nat, 0nat,
{
    match op {
        OpView::Routine(ops, cond) => {
            if cond {
                lemma_larger_limit_loop(ops, s, limit, more, limit, more);
            } else {
                lemma_larger_limit_seq(ops, 0, s, limit, more);
            }
        },
        _ => {},
    }
}

/// A sequence that the bound did not stop ends the same way under every
/// larger bound.
pub proof fn lemma_larger_limit_seq(ops: Seq<OpView>, from: int, s: State, limit: nat, more: nat)
    requires
        limit <= more,
        !(run_seq(ops, from, s, limit) matches Outcome::Stopped(Fault::LoopLimit, _)),
    ensures
        run_seq(ops, from, s, more) == run_seq(ops, from, s, limit),
    decreases ops, 1nat, ops.len() - from,
{
    if 0 <= from < ops.len() {
        theorem_larger_limit(ops[from], s, limit, more);
        match run_op(ops[from], s, limit) {
            Outcome::Finished(next) => {
                lemma_larger_limit_seq(ops, from + 1, next, limit, more);
            },
            Outcome::Stopped(_, _) => {},
        }
    }
}

/// A loop that the bound did not stop ends the same way under every larger
/// bound and with any more rounds left.
pub proof fn lemma_larger_limit_loop(
    ops: Seq<OpView>,
    s: State,
    limit: nat,
    more: nat,
    left: nat,
    more_left: nat,
)
    requires
        limit <= more,
        left <= more_left,
        !(run_loop(ops, s, limit, left) matches Outcome::Stopped(Fault::LoopLimit, _)),
    ensures
        run_loop(ops, s, more, more_left) == run_loop(ops, s, limit, left),
    decreases ops, 2nat, left,
{
    if s.tape.current() != 0 && left > 0 {
        lemma_larger_limit_seq(ops, 0, s, limit, more);
        match run_seq(ops, 0, s, limit) {
            Outcome::Finished(next) => {
                lemma_larger_limit_loop(
                    ops,
                    next,
                    limit,
                    more,
                    (left - 1) as nat,
                    (more_left - 1) as nat,
                );
            },
            Outcome::Stopped(_, _) => {},
        }
    }
}

} // verus!
