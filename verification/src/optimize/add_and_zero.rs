//! Add-and-zero loops: a loop that takes a fixed step off the cell it tests,
//! adds fixed amounts to other cells, and comes back to where it started.
//! One instruction does the work of all its rounds.
//!
//! The body must read as follows.
//! - It has at least four instructions.
//! - The first takes a step off the current cell: an increment by a negative
//!   amount.
//! - Then come one or more pairs: a seek to another cell, and an increment
//!   there. No pair may stand on the cell that the loop tests.
//! - The last instruction seeks back to that cell.

use vstd::prelude::*;
use crate::op::{option_view, target_views, views, Factor, Op, OpView, Ratio};

verus! {

/// The number of (seek, increment) pairs in a body of this shape.
pub open spec fn pair_count(ops: Seq<OpView>) -> int {
    (ops.len() - 2) / 2
}

/// How far a seek moves the cursor; zero for any other instruction.
pub open spec fn seek_of(op: OpView) -> int {
    match op {
        OpView::Seek(amount) => amount as int,
        _ => 0,
    }
}

/// Where the cursor stands, relative to the tested cell, after the first
/// `pairs` pairs of `ops`.
pub open spec fn offset_after(ops: Seq<OpView>, pairs: int) -> int
    decreases pairs,
{
    if pairs <= 0 {
        0
    } else {
        offset_after(ops, pairs - 1) + seek_of(ops[2 * pairs - 1])
    }
}

/// The pair with number `pair`, counted from one, is a seek and an
/// increment, and it stands on another cell than the tested one, at an
/// offset that the machine's integers can hold.
pub open spec fn pair_ok(ops: Seq<OpView>, pair: int) -> bool {
    &&& ops[2 * pair - 1] is Seek
    &&& ops[2 * pair] is Inc
    &&& offset_after(ops, pair) != 0
    &&& isize::MIN <= offset_after(ops, pair) <= isize::MAX
}

/// The body has the shape of an add-and-zero loop.
pub open spec fn is_add_and_zero(ops: Seq<OpView>) -> bool {
    &&& ops.len() >= 4
    &&& ops.len() % 2 == 0
    &&& ops[0] matches OpView::Inc(first) && isize::MIN < first < 0
    &&& forall|pair: int| 1 <= pair <= pair_count(ops) ==> #[trigger] pair_ok(ops, pair)
    &&& ops.last() matches OpView::Seek(back) && back == -offset_after(ops, pair_count(ops))
}

/// The step that a body of this shape takes off the tested cell each round.
pub open spec fn step_of(ops: Seq<OpView>) -> int {
    match ops[0] {
        OpView::Inc(first) => -first,
        _ => 1,
    }
}

/// The targets that the first `pairs` pairs of `ops` give: for each pair
/// whose increment is not zero, in order, the offset it stands at and its
/// amount over the step.
pub open spec fn targets_after(ops: Seq<OpView>, pairs: int) -> Seq<(isize, Ratio)>
    decreases pairs,
{
    if pairs <= 0 {
        Seq::empty()
    } else {
        let earlier = targets_after(ops, pairs - 1);
        match ops[2 * pairs] {
            OpView::Inc(amount) => if amount != 0 {
                earlier.push(
                    (
                        offset_after(ops, pairs) as isize,
                        Ratio { amount, step: step_of(ops) as isize },
                    ),
                )
            } else {
                earlier
            },
            _ => earlier,
        }
    }
}

/// What a block is replaced with as an add-and-zero loop, if anything.
pub open spec fn add_and_zero(cond: bool, ops: Seq<OpView>) -> Option<OpView> {
    if cond && is_add_and_zero(ops) {
        Some(OpView::AddAndZero(targets_after(ops, pair_count(ops))))
    } else {
        None
    }
}

/// Four instructions are the least that are rewritten: a shorter body never
/// is, and every body of four that takes a step, seeks to another cell,
/// increments there and seeks back, is.
pub proof fn theorem_shortest_body(
    cond: bool,
    ops: Seq<OpView>,
    first: isize,
    offset: isize,
    amount: isize,
)
    ensures
        ops.len() <= 3 ==> add_and_zero(cond, ops) is None,
        isize::MIN < first < 0 && offset != 0 && offset != isize::MIN ==> add_and_zero(
            true,
            seq![
                OpView::Inc(first),
                OpView::Seek(offset),
                OpView::Inc(amount),
                OpView::Seek((-offset) as isize),
            ],
        ) == Some(
            OpView::AddAndZero(
                if amount != 0 {
                    seq![(offset, Ratio { amount, step: (-first) as isize })]
                } else {
                    Seq::empty()
                },
            ),
        ),
{
    if isize::MIN < first < 0 && offset != 0 && offset != isize::MIN {
        let body = seq![
            OpView::Inc(first),
            OpView::Seek(offset),
            OpView::Inc(amount),
            OpView::Seek((-offset) as isize),
        ];
        assert(pair_count(body) == 1);
        assert(offset_after(body, 0) == 0);
        assert(offset_after(body, 1) == offset);
        assert(pair_ok(body, 1));
        assert(targets_after(body, 0) =~= Seq::empty());
        assert(targets_after(body, 1) =~= if amount != 0 {
            seq![(offset, Ratio { amount, step: (-first) as isize })]
        } else {
            Seq::empty()
        });
    }
}

/// A body that comes back to the tested cell before its end is not
/// rewritten: where some pair stands at offset zero, the loop stays a loop.
pub proof fn theorem_revisited_base_is_kept(ops: Seq<OpView>, pair: int)
    requires
        1 <= pair <= pair_count(ops),
        offset_after(ops, pair) == 0,
    ensures
        add_and_zero(true, ops) is None,
{
    assert(!pair_ok(ops, pair));
}

/// Recognizes an add-and-zero loop: a loop (`cond`) whose body `ops` has the
/// shape that `is_add_and_zero` describes. Such a loop is replaced by an
/// `Op::AddAndZero` that holds, for each pair with an increment other than
/// zero, the pair's offset and the ratio of its increment to the step.
pub fn optimize_add_and_zero(cond: bool, ops: &Vec<Op>) -> (replacement: Option<Op>)
    ensures
        option_view(replacement) == add_and_zero(cond, views(ops@)),
{
    if !cond || ops.len() < 4 || ops.len() % 2 != 0 {
        return None;
    }
    let ghost body = views(ops@);
    let step: isize = match &ops[0] {
        Op::Inc(first) => {
            if *first < 0 && *first > isize::MIN {
                -*first
            } else {
                return None;
            }
        },
        _ => {
            return None;
        },
    };
    let pairs: usize = (ops.len() - 2) / 2;
    let mut targets: Vec<(isize, Factor)> = Vec::with_capacity(pairs);
    let mut offset: isize = 0;
    let mut done: usize = 0;
    while done < pairs
        invariant
            body == views(ops@),
            ops.len() >= 4,
            ops.len() % 2 == 0,
            pairs == pair_count(body),
            done <= pairs,
            step > 0,
            step == step_of(body),
            offset == offset_after(body, done as int),
            forall|pair: int| 1 <= pair <= done ==> #[trigger] pair_ok(body, pair),
            target_views(targets@) == targets_after(body, done as int),
        decreases pairs - done,
    {
        let pair: usize = done + 1;
        let moved: Option<isize> = match &ops[2 * pair - 1] {
            Op::Seek(amount) => offset.checked_add(*amount),
            _ => None,
        };
        let amount: Option<isize> = match &ops[2 * pair] {
            Op::Inc(amount) => Some(*amount),
            _ => None,
        };
        match (moved, amount) {
            (Some(moved), Some(amount)) => {
                if moved == 0 {
                    assert(!pair_ok(body, pair as int));
                    return None;
                }
                if amount != 0 {
                    let factor: Factor = Factor::new(amount, step).unwrap();
                    proof {
                        assert(target_views(targets@.push((moved, factor))) =~= target_views(
                            targets@,
                        ).push((moved, factor@)));
                    }
                    targets.push((moved, factor));
                }
                offset = moved;
            },
            _ => {
                assert(!pair_ok(body, pair as int));
                return None;
            },
        }
        done = pair;
    }
    match &ops[ops.len() - 1] {
        Op::Seek(back) => {
            if offset != isize::MIN && *back == -offset {
                Some(Op::AddAndZero(targets))
            } else {
                None
            }
        },
        _ => None,
    }
}

} // verus!
