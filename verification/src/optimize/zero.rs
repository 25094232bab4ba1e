//! Zeroing loops: a loop that only changes the cell it tests can end in one
//! way, with that cell at zero.

use vstd::prelude::*;
use crate::op::{option_view, views, Op, OpView};
use crate::semantics::{run_loop, run_op, run_seq, Outcome, State};

verus! {

/// The body is not empty and holds nothing but increments.
pub open spec fn is_pure_inc(ops: Seq<OpView>) -> bool {
    &&& ops.len() > 0
    &&& forall|i: int| 0 <= i < ops.len() ==> #[trigger] ops[i] is Inc
}

/// What a block is replaced with as a zeroing loop, if anything.
pub open spec fn zero_loop(cond: bool, ops: Seq<OpView>) -> Option<OpView> {
    if cond && is_pure_inc(ops) {
        Some(OpView::Zero)
    } else {
        None
    }
}

/// Recognizes a zeroing loop: a loop (`cond`) whose body `ops` is one or
/// more increments and nothing else. Such a loop is replaced by `Op::Zero`.
pub fn optimize_zero(cond: bool, ops: &Vec<Op>) -> (replacement: Option<Op>)
    ensures
        option_view(replacement) == zero_loop(cond, views(ops@)),
{
    if !cond || ops.len() == 0 {
        return None;
    }
    let mut at: usize = 0;
    while at < ops.len()
        invariant
            at <= ops.len(),
            forall|i: int| 0 <= i < at ==> #[trigger] views(ops@)[i] is Inc,
        decreases ops.len() - at,
    {
        match &ops[at] {
            Op::Inc(_) => {},
            _ => {
                assert(!(views(ops@)[at as int] is Inc));
                return None;
            },
        }
        at += 1;
    }
    Some(Op::Zero)
}

/// A run of increments finishes, and changes nothing but the current cell.
proof fn lemma_pure_inc_round(ops: Seq<OpView>, from: int, s: State, limit: nat)
    requires
        s.tape.wf(),
        0 <= from <= ops.len(),
        forall|i: int| from <= i < ops.len() ==> #[trigger] ops[i] is Inc,
    ensures
        run_seq(ops, from, s, limit) matches Outcome::Finished(next) && next == (State {
            tape: s.tape.write(next.tape.current()),
            ..s
        }),
    decreases ops.len() - from,
{
    if from < ops.len() {
        assert(ops[from] is Inc);
        let after = run_op(ops[from], s, limit)->Finished_0;
        lemma_pure_inc_round(ops, from + 1, after, limit);
        let next = run_seq(ops, from + 1, after, limit)->Finished_0;
        assert(next.tape.cells =~= s.tape.write(next.tape.current()).cells);
    } else {
        assert(s.tape.cells =~= s.tape.write(s.tape.current()).cells);
    }
}

/// A loop of increments that finishes leaves the state that `Zero` leaves.
proof fn lemma_pure_inc_loop(ops: Seq<OpView>, s: State, limit: nat, left: nat)
    requires
        s.tape.wf(),
        is_pure_inc(ops),
    ensures
        run_loop(ops, s, limit, left) matches Outcome::Finished(end) ==> end == (State {
            tape: s.tape.set_zero(),
            ..s
        }),
    decreases left,
{
    if s.tape.current() == 0 {
        assert(s.tape.cells =~= s.tape.set_zero().cells);
    } else if left > 0 {
        lemma_pure_inc_round(ops, 0, s, limit);
        let next = run_seq(ops, 0, s, limit)->Finished_0;
        lemma_pure_inc_loop(ops, next, limit, (left - 1) as nat);
        assert(next.tape.set_zero().cells =~= s.tape.set_zero().cells);
    }
}

/// The zeroing loop is rewritten soundly. Whenever a loop whose body holds
/// nothing but increments finishes, from any state and under any bound on
/// its rounds, it finishes in the state in which `Zero` finishes: the current
/// cell is zero and nothing else has changed.
pub proof fn theorem_zero_loop(body: Seq<OpView>, s: State, limit: nat)
    requires
        s.tape.wf(),
        is_pure_inc(body),
    ensures
        zero_loop(true, body) == Some(OpView::Zero),
        run_op(OpView::Zero, s, limit) matches Outcome::Finished(end) && end.tape.current() == 0,
        run_op(OpView::Routine(body, true), s, limit) is Finished ==> run_op(
            OpView::Routine(body, true),
            s,
            limit,
        ) == run_op(OpView::Zero, s, limit),
{
    lemma_pure_inc_loop(body, s, limit, limit);
}

} // verus!
