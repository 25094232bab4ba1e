//! The parser: program text to an instruction tree.
//!
//! Eight bytes are tokens; every other byte is a comment. Runs of seeks and
//! runs of increments are folded into one instruction each while the text is
//! read, and each loop is offered to the loop rewrites when it closes. A loop
//! that the text leaves open is closed by the end of the text, and a closing
//! bracket that matches nothing ends the program.

use vstd::prelude::*;
use crate::op::{option_view, views, Op, OpView};
use crate::optimize::add_and_zero::{
    add_and_zero, offset_after, optimize_add_and_zero, pair_count,
    theorem_revisited_base_is_kept,
};
use crate::optimize::zero::{optimize_zero, zero_loop};

verus! {

/// `>`: seek one cell up.
pub const SEEK_UP: u8 = 62;

/// `<`: seek one cell down.
pub const SEEK_DOWN: u8 = 60;

/// `+`: add one to the current cell.
pub const INCREMENT: u8 = 43;

/// `-`: take one off the current cell.
pub const DECREMENT: u8 = 45;

/// `.`: write the current cell.
pub const WRITE: u8 = 46;

/// `,`: read into the current cell.
pub const READ: u8 = 44;

/// `[`: open a loop.
pub const LOOP_OPEN: u8 = 91;

/// `]`: close a loop.
pub const LOOP_CLOSE: u8 = 93;

/// A block under construction: the instructions that are settled, and the
/// one, if any, that the next token may still be folded into.
pub struct Builder {
    pub ops: Seq<OpView>,
    pub workspace: Option<OpView>,
}

impl Builder {
    /// Nothing settled, nothing pending.
    pub open spec fn empty() -> Builder {
        Builder { ops: Seq::empty(), workspace: None }
    }

    /// The settled instructions followed by the pending one.
    pub open spec fn committed(self) -> Seq<OpView> {
        match self.workspace {
            Some(op) => self.ops.push(op),
            None => self.ops,
        }
    }

    /// The pending instruction settled, and `fresh` pending in its place.
    pub open spec fn commit(self, fresh: Option<OpView>) -> Builder {
        Builder { ops: self.committed(), workspace: fresh }
    }

    /// The pending instruction settled, and `op` settled after it.
    pub open spec fn push(self, op: OpView) -> Builder {
        Builder { ops: self.committed().push(op), workspace: None }
    }

    /// A seek by `amount` taken in: folded into a pending seek where the
    /// sum fits the machine's integers, pending on its own otherwise.
    pub open spec fn seek(self, amount: isize) -> Builder {
        match self.workspace {
            Some(OpView::Seek(current)) if isize::MIN <= current + amount <= isize::MAX => Builder {
                workspace: Some(OpView::Seek((current + amount) as isize)),
                ..self
            },
            _ => self.commit(Some(OpView::Seek(amount))),
        }
    }

    /// An increment by `amount` taken in: folded into a pending increment
    /// where the sum fits the machine's integers, pending on its own
    /// otherwise.
    pub open spec fn inc(self, amount: isize) -> Builder {
        match self.workspace {
            Some(OpView::Inc(current)) if isize::MIN <= current + amount <= isize::MAX => Builder {
                workspace: Some(OpView::Inc((current + amount) as isize)),
                ..self
            },
            _ => self.commit(Some(OpView::Inc(amount))),
        }
    }
}

/// The builder that the parser's two variables stand for.
pub open spec fn builder_of(ops: Seq<Op>, workspace: Option<Op>) -> Builder {
    Builder { ops: views(ops), workspace: option_view(workspace) }
}

/// The index just behind the closing bracket that ends the block which
/// `pos` lies in, `depth` loops deep inside it; the end of the text where no
/// such bracket follows.
pub open spec fn scan(src: Seq<u8>, pos: int, depth: nat) -> int
    decreases src.len() - pos,
{
    if pos < 0 || pos >= src.len() {
        pos
    } else if src[pos] == LOOP_OPEN {
        scan(src, pos + 1, depth + 1)
    } else if src[pos] == LOOP_CLOSE {
        if depth == 0 {
            pos + 1
        } else {
            scan(src, pos + 1, (depth - 1) as nat)
        }
    } else {
        scan(src, pos + 1, depth)
    }
}

/// The index at which reading goes on after the block that starts at `pos`.
pub open spec fn block_end(src: Seq<u8>, pos: int) -> int {
    scan(src, pos, 0)
}

/// A scan never goes backwards.
pub proof fn lemma_scan_advances(src: Seq<u8>, pos: int, depth: nat)
    ensures
        scan(src, pos, depth) >= pos,
        0 <= pos <= src.len() ==> scan(src, pos, depth) <= src.len(),
    decreases src.len() - pos,
{
    if 0 <= pos < src.len() {
        if src[pos] == LOOP_OPEN {
            lemma_scan_advances(src, pos + 1, depth + 1);
        } else if src[pos] == LOOP_CLOSE {
            if depth > 0 {
                lemma_scan_advances(src, pos + 1, (depth - 1) as nat);
            }
        } else {
            lemma_scan_advances(src, pos + 1, depth);
        }
    }
}

/// Leaving a block one loop deeper is leaving the inner block and then the
/// outer one.
pub proof fn lemma_scan_nested(src: Seq<u8>, pos: int, depth: nat)
    ensures
        scan(src, pos, depth + 1) == scan(src, scan(src, pos, 0), depth),
    decreases src.len() - pos,
{
    if 0 <= pos < src.len() {
        if src[pos] == LOOP_OPEN {
            let inner = scan(src, pos + 1, 0);
            lemma_scan_advances(src, pos + 1, 0);
            lemma_scan_nested(src, pos + 1, depth + 1);
            lemma_scan_nested(src, inner, depth);
            lemma_scan_nested(src, pos + 1, 0);
        } else if src[pos] == LOOP_CLOSE {
        } else {
            lemma_scan_nested(src, pos + 1, depth);
        }
    }
}

/// The instruction that a block stands for: what a loop rewrite makes of
/// it, the zeroing loop tried first, or the plain block.
pub open spec fn routine(cond: bool, ops: Seq<OpView>) -> OpView {
    match zero_loop(cond, ops) {
        Some(op) => op,
        None => match add_and_zero(cond, ops) {
            Some(op) => op,
            None => OpView::Routine(ops, cond),
        },
    }
}

/// A loop that comes back to the cell it tests before its end stays a loop:
/// where some pair of its body is a seek that stands at offset zero, no
/// rewrite applies, and the loop is run as it is written.
pub proof fn theorem_revisited_base_stays_loop(body: Seq<OpView>, pair: int)
    requires
        1 <= pair <= pair_count(body),
        body[2 * pair - 1] is Seek,
        offset_after(body, pair) == 0,
    ensures
        routine(true, body) == OpView::Routine(body, true),
{
    theorem_revisited_base_is_kept(body, pair);
}

/// The instructions of the block that is being read at `pos`, with
/// `builder` read so far.
pub open spec fn block_ops(src: Seq<u8>, pos: int, builder: Builder) -> Seq<OpView>
    decreases src.len() - pos,
{
    if pos < 0 || pos >= src.len() {
        builder.committed()
    } else if src[pos] == SEEK_UP {
        block_ops(src, pos + 1, builder.seek(1))
    } else if src[pos] == SEEK_DOWN {
        block_ops(src, pos + 1, builder.seek(-1isize))
    } else if src[pos] == INCREMENT {
        block_ops(src, pos + 1, builder.inc(1))
    } else if src[pos] == DECREMENT {
        block_ops(src, pos + 1, builder.inc(-1isize))
    } else if src[pos] == WRITE {
        block_ops(src, pos + 1, builder.push(OpView::Output))
    } else if src[pos] == READ {
        block_ops(src, pos + 1, builder.push(OpView::Input))
    } else if src[pos] == LOOP_OPEN {
        let body = block_ops(src, pos + 1, Builder::empty());
        proof {
            lemma_scan_advances(src, pos + 1, 0);
        }
        block_ops(src, block_end(src, pos + 1), builder.push(routine(true, body)))
    } else if src[pos] == LOOP_CLOSE {
        builder.committed()
    } else {
        block_ops(src, pos + 1, builder)
    }
}

/// The instruction tree of the program text `src`: one block, not a loop,
/// that holds the whole program.
pub open spec fn parse(src: Seq<u8>) -> OpView {
    OpView::Routine(block_ops(src, 0, Builder::empty()), false)
}

/// The parser from program text to instructions.
pub struct Interpreter;

impl Interpreter {
    /// Reads the program text into one block that holds the whole
    /// program.
    pub fn interpret(program: &[u8]) -> (op: Op)
        ensures
            op@ == parse(program@),
    {
        let mut pos: usize = 0;
        Interpreter::interpret_routine(program, &mut pos, false)
    }

    /// Reads the block that starts at `pos` and leaves `pos` behind
    /// it. With `cond` the block is a loop, and the loop rewrites are tried
    /// on it.
    fn interpret_routine(bytes: &[u8], pos: &mut usize, cond: bool) -> (op: Op)
        requires
            *old(pos) <= bytes.len(),
        ensures
            op@ == routine(cond, block_ops(bytes@, *old(pos) as int, Builder::empty())),
            *final(pos) == block_end(bytes@, *old(pos) as int),
            *final(pos) <= bytes.len(),
        decreases bytes.len() - *old(pos), 1nat,
    {
        let ops = Interpreter::interpret_vec(bytes, pos);
        if let Some(op) = optimize_zero(cond, &ops) {
            return op;
        }
        if let Some(op) = optimize_add_and_zero(cond, &ops) {
            return op;
        }
        Op::Routine(ops, cond)
    }

    /// Reads the instructions of the block that starts at `pos`, up to
    /// the closing bracket that ends it or to the end of the text, and leaves
    /// `pos` behind them.
    fn interpret_vec(bytes: &[u8], pos: &mut usize) -> (ops: Vec<Op>)
        requires
            *old(pos) <= bytes.len(),
        ensures
            views(ops@) == block_ops(bytes@, *old(pos) as int, Builder::empty()),
            *final(pos) == block_end(bytes@, *old(pos) as int),
            *final(pos) <= bytes.len(),
        decreases bytes.len() - *old(pos), 0nat,
    {
        let ghost src = bytes@;
        let ghost start = *pos as int;
        let mut ops: Vec<Op> = Vec::new();
        let mut workspace: Option<Op> = None;
        assert(builder_of(ops@, workspace) == Builder::empty()) by {
            assert(views(ops@) =~= Seq::<OpView>::empty());
        }
        loop
            invariant_except_break
                *pos >= start,
                block_ops(src, start, Builder::empty()) == block_ops(
                    src,
                    *pos as int,
                    builder_of(ops@, workspace),
                ),
                block_end(src, start) == block_end(src, *pos as int),
            invariant
                src == bytes@,
                start == *old(pos),
                *pos <= bytes.len(),
            ensures
                block_ops(src, start, Builder::empty()) == builder_of(ops@, workspace).committed(),
                block_end(src, start) == *pos,
            decreases bytes.len() - *pos,
        {
            if *pos >= bytes.len() {
                break;
            }
            let byte: u8 = bytes[*pos];
            *pos = *pos + 1;
            if byte == SEEK_UP {
                Interpreter::process_workspace_seek(&mut workspace, &mut ops, 1);
            } else if byte == SEEK_DOWN {
                Interpreter::process_workspace_seek(&mut workspace, &mut ops, -1);
            } else if byte == INCREMENT {
                Interpreter::process_workspace_inc(&mut workspace, &mut ops, 1);
            } else if byte == DECREMENT {
                Interpreter::process_workspace_inc(&mut workspace, &mut ops, -1);
            } else if byte == WRITE {
                Interpreter::commit(&mut workspace, &mut ops, None);
                proof {
                    assert(views(ops@.push(Op::Output)) =~= views(ops@).push(OpView::Output));
                }
                ops.push(Op::Output);
            } else if byte == READ {
                Interpreter::commit(&mut workspace, &mut ops, None);
                proof {
                    assert(views(ops@.push(Op::Input)) =~= views(ops@).push(OpView::Input));
                }
                ops.push(Op::Input);
            } else if byte == LOOP_OPEN {
                Interpreter::commit(&mut workspace, &mut ops, None);
                let ghost inner = *pos as int;
                let op = Interpreter::interpret_routine(bytes, pos, true);
                proof {
                    lemma_scan_nested(src, inner, 0);
                    lemma_scan_advances(src, inner, 0);
                    assert(views(ops@.push(op)) =~= views(ops@).push(op@));
                }
                ops.push(op);
            } else if byte == LOOP_CLOSE {
                break;
            }
        }
        if let Some(op) = workspace {
            proof {
                assert(views(ops@.push(op)) =~= views(ops@).push(op@));
            }
            ops.push(op);
        }
        ops
    }

    /// Settles the pending instruction, if there is one, at the end of
    /// `ops`, and leaves `fresh` pending in its place.
    fn commit(workspace: &mut Option<Op>, ops: &mut Vec<Op>, fresh: Option<Op>)
        ensures
            builder_of(final(ops)@, *final(workspace)) == builder_of(
                old(ops)@,
                *old(workspace),
            ).commit(option_view(fresh)),
    {
        let mut pending: Option<Op> = fresh;
        core::mem::swap(workspace, &mut pending);
        if let Some(op) = pending {
            proof {
                assert(views(ops@.push(op)) =~= views(ops@).push(op@));
            }
            ops.push(op);
        }
    }

    /// Takes in a seek by `amount`: it is folded into a pending seek, and
    /// otherwise the pending instruction is settled and the seek is pending.
    fn process_workspace_seek(workspace: &mut Option<Op>, ops: &mut Vec<Op>, amount: isize)
        ensures
            builder_of(final(ops)@, *final(workspace)) == builder_of(
                old(ops)@,
                *old(workspace),
            ).seek(amount),
    {
        let folded: Option<isize> = match &*workspace {
            Some(Op::Seek(current)) => current.checked_add(amount),
            _ => None,
        };
        match folded {
            Some(total) => {
                *workspace = Some(Op::Seek(total));
            },
            None => {
                Interpreter::commit(workspace, ops, Some(Op::Seek(amount)));
            },
        }
    }

    /// Takes in an increment by `amount`: it is folded into a pending
    /// increment, and otherwise the pending instruction is settled and the
    /// increment is pending.
    fn process_workspace_inc(workspace: &mut Option<Op>, ops: &mut Vec<Op>, amount: isize)
        ensures
            builder_of(final(ops)@, *final(workspace)) == builder_of(
                old(ops)@,
                *old(workspace),
            ).inc(amount),
    {
        let folded: Option<isize> = match &*workspace {
            Some(Op::Inc(current)) => current.checked_add(amount),
            _ => None,
        };
        match folded {
            Some(total) => {
                *workspace = Some(Op::Inc(total));
            },
            None => {
                Interpreter::commit(workspace, ops, Some(Op::Inc(amount)));
            },
        }
    }
}

} // verus!
