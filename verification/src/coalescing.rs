//! Folding runs of tokens changes nothing: a program without loops does,
//! parsed, what its tokens do one after another.

use vstd::prelude::*;
use crate::interpreter::{
    block_ops, parse, Builder, DECREMENT, INCREMENT, LOOP_CLOSE, LOOP_OPEN, READ, SEEK_DOWN,
    SEEK_UP, WRITE,
};
use crate::memory::{lemma_low_byte_sum, lemma_wrap_sum};
use crate::op::OpView;
use crate::semantics::{
    lemma_run_seq_keeps_tape, lemma_run_seq_push, run_op, run_seq, Outcome, State,
};

verus! {

/// The instruction that one token is by itself; none for a comment and for
/// the two brackets.
pub open spec fn token_op(byte: u8) -> Option<OpView> {
    if byte == SEEK_UP {
        Some(OpView::Seek(1))
    } else if byte == SEEK_DOWN {
        Some(OpView::Seek(-1isize))
    } else if byte == INCREMENT {
        Some(OpView::Inc(1))
    } else if byte == DECREMENT {
        Some(OpView::Inc(-1isize))
    } else if byte == WRITE {
        Some(OpView::Output)
    } else if byte == READ {
        Some(OpView::Input)
    } else {
        None
    }
}

/// What one token does to a state, taken by itself.
pub open spec fn token_step(byte: u8, s: State) -> Outcome {
    match token_op(byte) {
        Some(op) => run_op(op, s, 0),
        None => Outcome::Finished(s),
    }
}

/// What the tokens of `src` do from state `s`, one at a time, first to last.
pub open spec fn run_tokens(src: Seq<u8>, s: State) -> Outcome
    decreases src.len(),
{
    if src.len() == 0 {
        Outcome::Finished(s)
    } else {
        match run_tokens(src.drop_last(), s) {
            Outcome::Finished(next) => token_step(src.last(), next),
            Outcome::Stopped(fault, at) => Outcome::Stopped(fault, at),
        }
    }
}

/// The text holds no bracket.
pub open spec fn is_loop_free(src: Seq<u8>) -> bool {
    forall|i: int| 0 <= i < src.len() ==> src[i] != LOOP_OPEN && src[i] != LOOP_CLOSE
}

/// Taking in a seek does to the builder's instructions what the token does
/// to the state.
proof fn lemma_builder_seek(builder: Builder, amount: isize, s: State, limit: nat)
    requires
        s.tape.wf(),
    ensures
        run_seq(builder.seek(amount).committed(), 0, s, limit) == match run_seq(
            builder.committed(),
            0,
            s,
            limit,
        ) {
            Outcome::Finished(next) => run_op(OpView::Seek(amount), next, 0),
            Outcome::Stopped(fault, at) => Outcome::Stopped(fault, at),
        },
{
    let folds = match builder.workspace {
        Some(OpView::Seek(current)) => isize::MIN <= current + amount <= isize::MAX,
        _ => false,
    };
    if folds {
        let current = builder.workspace->0->Seek_0;
        let total = (current + amount) as isize;
        lemma_run_seq_push(builder.ops, OpView::Seek(current), 0, s, limit);
        lemma_run_seq_push(builder.ops, OpView::Seek(total), 0, s, limit);
        match run_seq(builder.ops, 0, s, limit) {
            Outcome::Finished(before) => {
                lemma_wrap_sum(before.tape.cursor + current, amount as int);
            },
            Outcome::Stopped(_, _) => {},
        }
    } else {
        lemma_run_seq_push(builder.committed(), OpView::Seek(amount), 0, s, limit);
    }
}

/// Taking in an increment does to the builder's instructions what the token
/// does to the state.
proof fn lemma_builder_inc(builder: Builder, amount: isize, s: State, limit: nat)
    requires
        s.tape.wf(),
    ensures
        run_seq(builder.inc(amount).committed(), 0, s, limit) == match run_seq(
            builder.committed(),
            0,
            s,
            limit,
        ) {
            Outcome::Finished(next) => run_op(OpView::Inc(amount), next, 0),
            Outcome::Stopped(fault, at) => Outcome::Stopped(fault, at),
        },
{
    let folds = match builder.workspace {
        Some(OpView::Inc(current)) => isize::MIN <= current + amount <= isize::MAX,
        _ => false,
    };
    if folds {
        let current = builder.workspace->0->Inc_0;
        let total = (current + amount) as isize;
        lemma_run_seq_push(builder.ops, OpView::Inc(current), 0, s, limit);
        lemma_run_seq_push(builder.ops, OpView::Inc(total), 0, s, limit);
        lemma_run_seq_keeps_tape(builder.ops, 0, s, limit);
        match run_seq(builder.ops, 0, s, limit) {
            Outcome::Finished(before) => {
                lemma_low_byte_sum(before.tape.current() + current, amount as int);
                assert(before.tape.inc(current as int).inc(amount as int).cells
                    =~= before.tape.inc(total as int).cells);
            },
            Outcome::Stopped(_, _) => {},
        }
    } else {
        lemma_run_seq_push(builder.committed(), OpView::Inc(amount), 0, s, limit);
    }
}

/// Once the builder's instructions do what the tokens before `pos` do, the
/// finished block does what all the tokens do.
proof fn lemma_block_follows_tokens(
    src: Seq<u8>,
    pos: int,
    builder: Builder,
    s: State,
    limit: nat,
)
    requires
        is_loop_free(src),
        s.tape.wf(),
        0 <= pos <= src.len(),
        run_seq(builder.committed(), 0, s, limit) == run_tokens(src.take(pos), s),
    ensures
        run_seq(block_ops(src, pos, builder), 0, s, limit) == run_tokens(src, s),
    decreases src.len() - pos,
{
    if pos >= src.len() {
        assert(src.take(pos) =~= src);
    } else {
        let byte = src[pos];
        assert(src.take(pos + 1).drop_last() =~= src.take(pos));
        assert(src.take(pos + 1).last() == byte);
        let next = if byte == SEEK_UP {
            builder.seek(1)
        } else if byte == SEEK_DOWN {
            builder.seek(-1isize)
        } else if byte == INCREMENT {
            builder.inc(1)
        } else if byte == DECREMENT {
            builder.inc(-1isize)
        } else if byte == WRITE {
            builder.push(OpView::Output)
        } else if byte == READ {
            builder.push(OpView::Input)
        } else {
            builder
        };
        if byte == SEEK_UP {
            lemma_builder_seek(builder, 1, s, limit);
        } else if byte == SEEK_DOWN {
            lemma_builder_seek(builder, -1isize, s, limit);
        } else if byte == INCREMENT {
            lemma_builder_inc(builder, 1, s, limit);
        } else if byte == DECREMENT {
            lemma_builder_inc(builder, -1isize, s, limit);
        } else if byte == WRITE {
            lemma_run_seq_push(builder.committed(), OpView::Output, 0, s, limit);
        } else if byte == READ {
            lemma_run_seq_push(builder.committed(), OpView::Input, 0, s, limit);
        }
        assert(run_seq(next.committed(), 0, s, limit) == run_tokens(src.take(pos + 1), s));
        lemma_block_follows_tokens(src, pos + 1, next, s, limit);
    }
}

/// Coalescing keeps the meaning. A program without loops, parsed and
/// run, ends exactly as its tokens end when each is run by itself in turn:
/// on the same tape, with the same input left and the same output, and on
/// the same fault if on any. No bound on rounds matters to it.
pub proof fn theorem_coalescing(src: Seq<u8>, s: State, limit: nat)
    requires
        is_loop_free(src),
        s.tape.wf(),
    ensures
        run_op(parse(src), s, limit) == run_tokens(src, s),
{
    assert(src.take(0) =~= Seq::<u8>::empty());
    lemma_block_follows_tokens(src, 0, Builder::empty(), s, limit);
}

} // verus!
