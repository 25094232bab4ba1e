//! The evaluator: a walk of the instruction tree over a tape.

use vstd::prelude::*;
use crate::memory::{Memory, Tape};
use crate::op::{views, Op};
use crate::reader::ByteReader;
use crate::semantics::{run_loop, run_op, run_seq, Fault, Outcome, State};

verus! {

/// Whether a call that returned `result` and left `tape`, `input` and
/// `output` behind ended as `outcome` says: with that result, and in that
/// state.
pub open spec fn ended_as(
    outcome: Outcome,
    result: Result<(), Fault>,
    tape: Tape,
    input: Seq<u8>,
    output: Seq<u8>,
) -> bool {
    match outcome {
        Outcome::Finished(s) => result is Ok && s == (State { tape, input, output }),
        Outcome::Stopped(fault, s) => result == Err::<(), Fault>(fault) && s == (State {
            tape,
            input,
            output,
        }),
    }
}

/// Runs `ops` in order on `memory`, reading from `reader` and appending to
/// `output`; stops at the first instruction that does not finish, and leaves
/// the three as they were when the fault came up.
#[verifier::loop_isolation(false)]
pub fn execute_all(
    ops: &Vec<Op>,
    memory: &mut Memory,
    reader: &mut ByteReader,
    output: &mut Vec<u8>,
    limit: u64,
) -> (result: Result<(), Fault>)
    ensures
        ended_as(
            run_seq(
                views(ops@),
                0,
                (State { tape: old(memory)@, input: old(reader)@, output: old(output)@ }),
                limit as nat,
            ),
            result,
            final(memory)@,
            final(reader)@,
            final(output)@,
        ),
    decreases ops, 1nat,
{
    let ghost start = State { tape: memory@, input: reader@, output: output@ };
    let mut at: usize = 0;
    while at < ops.len()
        invariant
            at <= ops.len(),
            run_seq(views(ops@), 0, start, limit as nat) == run_seq(
                views(ops@),
                at as int,
                (State { tape: memory@, input: reader@, output: output@ }),
                limit as nat,
            ),
        decreases ops.len() - at,
    {
        match ops[at].execute(memory, reader, output, limit) {
            Ok(()) => {},
            Err(fault) => {
                return Err(fault);
            },
        }
        at += 1;
    }
    Ok(())
}

impl Op {
    /// Runs this instruction on `memory`, reading from `reader` and appending
    /// to `output`. A loop that is still running after `limit` rounds stops
    /// the run, as does an input instruction that finds nothing to read; the
    /// three are then left as they were when the fault came up.
    #[verifier::loop_isolation(false)]
    pub fn execute(
        &self,
        memory: &mut Memory,
        reader: &mut ByteReader,
        output: &mut Vec<u8>,
        limit: u64,
    ) -> (result: Result<(), Fault>)
        ensures
            ended_as(
                run_op(
                    self@,
                    (State { tape: old(memory)@, input: old(reader)@, output: old(output)@ }),
                    limit as nat,
                ),
                result,
                final(memory)@,
                final(reader)@,
                final(output)@,
            ),
        decreases self, 0nat,
    {
        match self {
            Op::Seek(amount) => {
                memory.seek(*amount);
                Ok(())
            },
            Op::Inc(amount) => {
                memory.inc(*amount);
                Ok(())
            },
            Op::Zero => {
                memory.set_zero();
                Ok(())
            },
            Op::AddAndZero(targets) => {
                memory.copy_zero(targets);
                Ok(())
            },
            Op::Output => {
                output.push(memory.read());
                Ok(())
            },
            Op::Input => match reader.read_byte() {
                Some(byte) => {
                    memory.write(byte);
                    Ok(())
                },
                None => Err(Fault::InputExhausted),
            },
            Op::Routine(ops, cond) => {
                if !*cond {
                    return execute_all(ops, memory, reader, output, limit);
                }
                let ghost start = State { tape: memory@, input: reader@, output: output@ };
                let mut left: u64 = limit;
                while !memory.zero()
                    invariant
                        run_loop(views(ops@), start, limit as nat, limit as nat) == run_loop(
                            views(ops@),
                            (State { tape: memory@, input: reader@, output: output@ }),
                            limit as nat,
                            left as nat,
                        ),
                    decreases left,
                {
                    if left == 0 {
                        return Err(Fault::LoopLimit);
                    }
                    left -= 1;
                    match execute_all(ops, memory, reader, output, limit) {
                        Ok(()) => {},
                        Err(fault) => {
                            return Err(fault);
                        },
                    }
                }
                Ok(())
            },
        }
    }
}

} // verus!
