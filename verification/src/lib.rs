//! A parser, optimizer and evaluator for the eight-token tape language:
//! program text becomes a tree of instructions, common loop idioms become
//! single instructions, and the tree is evaluated against a tape of bytes.
//!
//! - `interpreter` reads program text into a tree of `op::Op`, folding runs
//!   of tokens as it goes and handing each finished loop to `optimize`.
//! - `execute` walks the tree over a `memory::Memory`, reads from a
//!   `reader::ByteReader` and appends to an output buffer.
//! - `semantics` says what a tree means; `coalescing`, `parsed` and
//!   `optimize::soundness` prove that reading and rewriting keep that meaning.
//!
//! Every loop of the evaluator is bounded: a run is given a number of rounds
//! that no loop may exceed each time it is entered, and a loop that does is
//! reported as `semantics::Fault::LoopLimit`. A run that finishes under one
//! bound finishes the same way under every larger one.

use vstd::prelude::*;
use vstd::string::StringSliceAdditionalSpecFns;
use vstd::utf8::{encode_utf8, valid_utf8};
use crate::interpreter::{parse, Interpreter};
use crate::memory::Memory;
use crate::reader::ByteReader;
use crate::semantics::{initial, run_op, Fault, Outcome};

pub mod coalescing;
pub mod execute;
pub mod interpreter;
pub mod memory;
pub mod op;
pub mod optimize;
pub mod options;
pub mod parsed;
pub mod reader;
pub mod semantics;

verus! {

/// How running the program text `src` on `input` ends, where no loop may go
/// through its body more than `limit` times each time it is entered.
pub open spec fn run_program(src: Seq<u8>, input: Seq<u8>, limit: nat) -> Outcome {
    run_op(parse(src), initial(input), limit)
}

/// Parses the program text `prog` and runs it on a fresh tape with
/// `input` to read from. Returns what the program wrote, or the fault that
/// stopped it.
pub fn run(prog: &[u8], input: Vec<u8>, limit: u64) -> (result: Result<Vec<u8>, Fault>)
    ensures
        match run_program(prog@, input@, limit as nat) {
            Outcome::Finished(s) => result is Ok && result->Ok_0@ == s.output,
            Outcome::Stopped(fault, _) => result == Err::<Vec<u8>, Fault>(fault),
        },
{
    let mut memory = Memory::new();
    let mut reader = ByteReader::new(input);
    let mut output: Vec<u8> = Vec::new();
    let program = Interpreter::interpret(prog);
    match program.execute(&mut memory, &mut reader, &mut output, limit) {
        Ok(()) => Ok(output),
        Err(fault) => Err(fault),
    }
}

/// Why a program has no text to show.
#[derive(Clone, Copy, Debug, PartialEq, Eq)]
pub enum Failure {
    /// The run stopped on a fault.
    Stopped(Fault),
    /// The run finished, and what it wrote is not UTF-8 text.
    NotText,
}

/// `String::from_utf8`: the string whose bytes are `bytes`, which exists
/// where `bytes` are valid UTF-8, and only there.
#[verifier::external_body]
fn text_of(bytes: Vec<u8>) -> (text: Option<String>)
    ensures
        text is Some <==> valid_utf8(bytes@),
        text matches Some(t) ==> encode_utf8(t@) == bytes@,
{
    match String::from_utf8(bytes) {
        Ok(text) => Some(text),
        Err(_) => None,
    }
}

/// Runs the program text `prog` with nothing to read and no bound on its
/// loops short of the largest count, and returns what it wrote as text.
pub fn bf(prog: &str) -> (result: Result<String, Failure>)
    ensures
        match run_program(prog.spec_bytes(), Seq::empty(), u64::MAX as nat) {
            Outcome::Finished(s) => if valid_utf8(s.output) {
                result is Ok && encode_utf8(result->Ok_0@) == s.output
            } else {
                result == Err::<String, Failure>(Failure::NotText)
            },
            Outcome::Stopped(fault, _) => result == Err::<String, Failure>(
                Failure::Stopped(fault),
            ),
        },
{
    match run(prog.as_bytes(), Vec::new(), u64::MAX) {
        Ok(output) => match text_of(output) {
            Some(text) => Ok(text),
            None => Err(Failure::NotText),
        },
        Err(fault) => Err(Failure::Stopped(fault)),
    }
}

} // verus!
