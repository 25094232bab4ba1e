//! What holds of every tree that the parser builds.
//!
//! The only block that is not a loop is the program itself, and every
//! add-and-zero instruction has targets that do something: each stands on
//! another cell than the tested one and has a factor other than zero, over a
//! positive step.

use vstd::prelude::*;
use crate::interpreter::{
    block_end, block_ops, lemma_scan_advances, parse, routine, Builder, DECREMENT, INCREMENT,
    LOOP_CLOSE, LOOP_OPEN, READ, SEEK_DOWN, SEEK_UP, WRITE,
};
use crate::op::{OpView, Ratio};
use crate::optimize::add_and_zero::{
    is_add_and_zero, offset_after, pair_count, pair_ok, step_of, targets_after,
};

verus! {

/// The target stands on another cell than the tested one and scales by a
/// factor other than zero, over a positive step.
pub open spec fn target_ok(target: (isize, Ratio)) -> bool {
    &&& target.0 != 0
    &&& target.1.amount != 0
    &&& target.1.step > 0
}

/// Every block in `op`, and `op` itself where it is one, is a loop, and
/// every target of an add-and-zero instruction in it is as `target_ok` says.
pub open spec fn tidy(op: OpView) -> bool
    decreases op,
{
    match op {
        OpView::Routine(ops, cond) => cond && forall|i: int|
            0 <= i < ops.len() ==> tidy(#[trigger] ops[i]),
        OpView::AddAndZero(targets) => forall|i: int|
            0 <= i < targets.len() ==> target_ok(#[trigger] targets[i]),
        _ => true,
    }
}

/// Every instruction of `ops` is tidy.
pub open spec fn all_tidy(ops: Seq<OpView>) -> bool {
    forall|i: int| 0 <= i < ops.len() ==> tidy(#[trigger] ops[i])
}

/// The targets of a body of the add-and-zero shape are all as `target_ok`
/// says.
proof fn lemma_targets_ok(body: Seq<OpView>, pairs: int)
    requires
        is_add_and_zero(body),
        0 <= pairs <= pair_count(body),
    ensures
        forall|i: int|
            0 <= i < targets_after(body, pairs).len() ==> target_ok(
                #[trigger] targets_after(body, pairs)[i],
            ),
    decreases pairs,
{
    if pairs > 0 {
        lemma_targets_ok(body, pairs - 1);
        assert(pair_ok(body, pairs));
        let earlier = targets_after(body, pairs - 1);
        let targets = targets_after(body, pairs);
        assert forall|i: int| 0 <= i < targets.len() implies target_ok(#[trigger] targets[i]) by {
            if i < earlier.len() {
                assert(targets[i] == earlier[i]);
            } else {
                let step = step_of(body);
                assert(0 < step <= isize::MAX);
                assert(targets[i].1.step == step as isize);
                assert(targets[i].0 == offset_after(body, pairs) as isize);
            }
        }
    }
}

/// One more tidy instruction keeps a sequence tidy.
proof fn lemma_push_tidy(ops: Seq<OpView>, op: OpView)
    requires
        all_tidy(ops),
        tidy(op),
    ensures
        all_tidy(ops.push(op)),
{
    assert forall|i: int| 0 <= i < ops.push(op).len() implies tidy(#[trigger] ops.push(op)[i]) by {
        if i < ops.len() {
            assert(ops.push(op)[i] == ops[i]);
        }
    }
}

/// A tidy sequence without its last instruction is tidy.
proof fn lemma_drop_last_tidy(ops: Seq<OpView>)
    requires
        all_tidy(ops),
        ops.len() > 0,
    ensures
        all_tidy(ops.drop_last()),
{
    assert forall|i: int| 0 <= i < ops.drop_last().len() implies tidy(
        #[trigger] ops.drop_last()[i],
    ) by {
        assert(ops.drop_last()[i] == ops[i]);
    }
}

/// Whatever a token does to a tidy builder, the builder stays tidy.
proof fn lemma_builder_stays_tidy(builder: Builder, amount: isize)
    requires
        all_tidy(builder.committed()),
    ensures
        all_tidy(builder.seek(amount).committed()),
        all_tidy(builder.inc(amount).committed()),
        all_tidy(builder.push(OpView::Output).committed()),
        all_tidy(builder.push(OpView::Input).committed()),
{
    if builder.workspace is Some {
        assert(builder.committed().drop_last() =~= builder.ops);
        lemma_drop_last_tidy(builder.committed());
    }
    match builder.seek(amount).workspace {
        Some(op) => {
            if builder.seek(amount).ops == builder.ops {
                lemma_push_tidy(builder.ops, op);
            } else {
                lemma_push_tidy(builder.committed(), op);
            }
        },
        None => {},
    }
    match builder.inc(amount).workspace {
        Some(op) => {
            if builder.inc(amount).ops == builder.ops {
                lemma_push_tidy(builder.ops, op);
            } else {
                lemma_push_tidy(builder.committed(), op);
            }
        },
        None => {},
    }
    lemma_push_tidy(builder.committed(), OpView::Output);
    lemma_push_tidy(builder.committed(), OpView::Input);
}

/// A loop over a tidy body is tidy, whichever rewrite applies.
proof fn lemma_loop_tidy(body: Seq<OpView>)
    requires
        all_tidy(body),
    ensures
        tidy(routine(true, body)),
{
    match routine(true, body) {
        OpView::AddAndZero(targets) => {
            lemma_targets_ok(body, pair_count(body));
        },
        _ => {},
    }
}

/// Reading on from a tidy builder gives tidy instructions.
proof fn lemma_block_tidy(src: Seq<u8>, pos: int, builder: Builder)
    requires
        0 <= pos <= src.len(),
        all_tidy(builder.committed()),
    ensures
        all_tidy(block_ops(src, pos, builder)),
    decreases src.len() - pos,
{
    if pos < src.len() {
        let byte = src[pos];
        lemma_builder_stays_tidy(builder, 1);
        lemma_builder_stays_tidy(builder, -1isize);
        if byte == SEEK_UP {
            lemma_block_tidy(src, pos + 1, builder.seek(1));
        } else if byte == SEEK_DOWN {
            lemma_block_tidy(src, pos + 1, builder.seek(-1isize));
        } else if byte == INCREMENT {
            lemma_block_tidy(src, pos + 1, builder.inc(1));
        } else if byte == DECREMENT {
            lemma_block_tidy(src, pos + 1, builder.inc(-1isize));
        } else if byte == WRITE {
            lemma_block_tidy(src, pos + 1, builder.push(OpView::Output));
        } else if byte == READ {
            lemma_block_tidy(src, pos + 1, builder.push(OpView::Input));
        } else if byte == LOOP_OPEN {
            let body = block_ops(src, pos + 1, Builder::empty());
            lemma_block_tidy(src, pos + 1, Builder::empty());
            lemma_loop_tidy(body);
            lemma_push_tidy(builder.committed(), routine(true, body));
            lemma_scan_advances(src, pos + 1, 0);
            lemma_block_tidy(src, block_end(src, pos + 1), builder.push(routine(true, body)));
        } else if byte == LOOP_CLOSE {
        } else {
            lemma_block_tidy(src, pos + 1, builder);
        }
    }
}

/// The tree of every program text is one block that is not a loop, and
/// everything in that block is tidy: all blocks inside are loops, and all
/// add-and-zero instructions have targets that `target_ok` accepts.
pub proof fn theorem_parsed_is_tidy(src: Seq<u8>)
    ensures
        parse(src) matches OpView::Routine(ops, cond) && !cond && all_tidy(ops),
{
    lemma_block_tidy(src, 0, Builder::empty());
}

} // verus!
