use bf::execute::execute_all;
use bf::interpreter::Interpreter;
use bf::memory::Memory;
use bf::op::{Factor, Op};
use bf::reader::ByteReader;
use bf::run;
use bf::semantics::Fault;

/// Runs `op` on a fresh tape whose first two cells hold `first` and
/// `second`, with the cursor on the first. Returns the cell that the cursor
/// is on in the end, the cell above it, and the output.
fn on_two_cells(op: &Op, first: u8, second: u8, limit: u64) -> Result<(u8, u8, Vec<u8>), Fault> {
    let mut memory = Memory::new();
    memory.write(first);
    memory.seek(1);
    memory.write(second);
    memory.seek(-1);
    let mut reader = ByteReader::new(vec![]);
    let mut output = vec![];
    op.execute(&mut memory, &mut reader, &mut output, limit)?;
    let a = memory.read();
    memory.seek(1);
    let b = memory.read();
    Ok((a, b, output))
}

fn multiply_loop(factor: isize) -> Op {
    Op::Routine(
        vec![Op::Inc(-1), Op::Seek(1), Op::Inc(factor), Op::Seek(-1)],
        true,
    )
}

fn multiply_instruction(factor: isize) -> Op {
    Op::AddAndZero(vec![(1, Factor::new(factor, 1).unwrap())])
}

#[test]
fn simple_instructions() {
    let mut memory = Memory::new();
    let mut reader = ByteReader::new(vec![65, 66]);
    let mut output = vec![];
    assert_eq!(Op::Inc(3).execute(&mut memory, &mut reader, &mut output, 0), Ok(()));
    assert_eq!(memory.read(), 3);
    assert_eq!(Op::Output.execute(&mut memory, &mut reader, &mut output, 0), Ok(()));
    assert_eq!(output, vec![3]);
    assert_eq!(Op::Seek(2).execute(&mut memory, &mut reader, &mut output, 0), Ok(()));
    assert_eq!(memory.read(), 0);
    assert_eq!(Op::Input.execute(&mut memory, &mut reader, &mut output, 0), Ok(()));
    assert_eq!(memory.read(), 65);
    assert_eq!(Op::Zero.execute(&mut memory, &mut reader, &mut output, 0), Ok(()));
    assert_eq!(memory.read(), 0);
    assert_eq!(Op::Input.execute(&mut memory, &mut reader, &mut output, 0), Ok(()));
    assert_eq!(memory.read(), 66);
    assert_eq!(
        Op::Input.execute(&mut memory, &mut reader, &mut output, 0),
        Err(Fault::InputExhausted)
    );
    assert_eq!(output, vec![3]);
}

#[test]
fn a_plain_block_runs_once() {
    let block = Op::Routine(vec![Op::Inc(1), Op::Output], false);
    assert_eq!(on_two_cells(&block, 5, 0, 0), Ok((6, 0, vec![6])));
    assert_eq!(on_two_cells(&block, 255, 0, 0), Ok((0, 0, vec![0])));
    let empty = Op::Routine(vec![], false);
    assert_eq!(on_two_cells(&empty, 5, 7, 0), Ok((5, 7, vec![])));
}

#[test]
fn a_loop_is_skipped_on_zero() {
    let looped = Op::Routine(vec![Op::Output, Op::Inc(-1)], true);
    assert_eq!(on_two_cells(&looped, 0, 9, 0), Ok((0, 9, vec![])));
    assert_eq!(on_two_cells(&looped, 3, 9, 3), Ok((0, 9, vec![3, 2, 1])));
    assert_eq!(on_two_cells(&looped, 3, 9, 2), Err(Fault::LoopLimit));
}

#[test]
fn the_limit_holds_for_each_entry_of_a_loop() {
    // The inner loop is entered three times and runs two rounds each time.
    let inner = Op::Routine(vec![Op::Inc(-1), Op::Output], true);
    let outer = Op::Routine(
        vec![Op::Seek(1), Op::Inc(2), inner, Op::Seek(-1), Op::Inc(-1)],
        true,
    );
    assert_eq!(
        on_two_cells(&outer, 3, 0, 3),
        Ok((0, 0, vec![1, 0, 1, 0, 1, 0]))
    );
    assert_eq!(on_two_cells(&outer, 3, 0, 2), Err(Fault::LoopLimit));
    assert_eq!(on_two_cells(&outer, 2, 0, 2), Ok((0, 0, vec![1, 0, 1, 0])));
}

#[test]
fn a_fault_inside_a_loop_stops_the_run() {
    let mut memory = Memory::new();
    memory.write(3);
    let mut reader = ByteReader::new(vec![1, 1]);
    let mut output = vec![];
    let reads = Op::Routine(vec![Op::Seek(1), Op::Input, Op::Seek(-1), Op::Inc(-1)], true);
    assert_eq!(
        reads.execute(&mut memory, &mut reader, &mut output, 10),
        Err(Fault::InputExhausted)
    );
}

#[test]
fn execute_all_runs_in_order() {
    let mut memory = Memory::new();
    let mut reader = ByteReader::new(vec![]);
    let mut output = vec![];
    let ops = vec![Op::Inc(2), Op::Output, Op::Inc(2), Op::Output, Op::Input, Op::Output];
    assert_eq!(
        execute_all(&ops, &mut memory, &mut reader, &mut output, 0),
        Err(Fault::InputExhausted)
    );
    assert_eq!(execute_all(&vec![], &mut memory, &mut reader, &mut output, 0), Ok(()));
}

#[test]
fn folded_tokens_run_as_single_tokens_do() {
    let text = b"+++>>--<+>>>++++<<<<---.>.>.>.";
    let folded = Interpreter::interpret(text);
    let single = Op::Routine(
        text.iter()
            .map(|byte| match byte {
                b'+' => Op::Inc(1),
                b'-' => Op::Inc(-1),
                b'>' => Op::Seek(1),
                b'<' => Op::Seek(-1),
                _ => Op::Output,
            })
            .collect(),
        false,
    );
    assert_eq!(
        on_two_cells(&folded, 10, 20, 0),
        on_two_cells(&single, 10, 20, 0)
    );
    assert_eq!(
        on_two_cells(&folded, 10, 20, 0),
        Ok((0, 4, vec![10, 21, 254, 0]))
    );
}

#[test]
fn folded_seeks_wrap_as_single_seeks_do() {
    // Two cells down and two up again, from the first cell.
    assert_eq!(run(b"+<<>>.", vec![], 0), Ok(vec![1]));
    assert_eq!(run(b"<<+>>+<<.>>.", vec![], 0), Ok(vec![1, 1]));
}

#[test]
fn zero_and_the_zeroing_loop_agree() {
    let looped = Op::Routine(vec![Op::Inc(-1)], true);
    let up = Op::Routine(vec![Op::Inc(1)], true);
    for value in 0..=255u8 {
        assert_eq!(on_two_cells(&Op::Zero, value, 7, 255), Ok((0, 7, vec![])));
        assert_eq!(on_two_cells(&looped, value, 7, 255), Ok((0, 7, vec![])));
        assert_eq!(on_two_cells(&up, value, 7, 255), Ok((0, 7, vec![])));
    }
}

#[test]
fn a_zeroing_loop_that_never_ends() {
    // Steps of two from an odd value never meet zero.
    let by_two = Op::Routine(vec![Op::Inc(-2)], true);
    assert_eq!(on_two_cells(&by_two, 6, 7, 255), Ok((0, 7, vec![])));
    assert_eq!(on_two_cells(&by_two, 5, 7, 255), Err(Fault::LoopLimit));
    assert_eq!(on_two_cells(&by_two, 5, 7, 100_000), Err(Fault::LoopLimit));
}

#[test]
fn copy_loop_and_its_instruction_agree() {
    for source in 0..=255u8 {
        for target in [0u8, 1, 100, 255] {
            let expected = ((source as u32 + target as u32) % 256) as u8;
            assert_eq!(
                on_two_cells(&multiply_loop(1), source, target, 255),
                Ok((0, expected, vec![]))
            );
            assert_eq!(
                on_two_cells(&multiply_instruction(1), source, target, 0),
                Ok((0, expected, vec![]))
            );
        }
    }
}

#[test]
fn multiply_loop_and_its_instruction_agree() {
    for factor in [-3isize, -1, 0, 2, 4, 7, 255, 256, 1000] {
        for source in 0..=255u8 {
            for target in [0u8, 3, 200] {
                let sum = target as i64 + factor as i64 * source as i64;
                let expected = sum.rem_euclid(256) as u8;
                assert_eq!(
                    on_two_cells(&multiply_loop(factor), source, target, 255),
                    Ok((0, expected, vec![]))
                );
                assert_eq!(
                    on_two_cells(&multiply_instruction(factor), source, target, 0),
                    Ok((0, expected, vec![]))
                );
            }
        }
    }
}

#[test]
fn multiply_program_writes_twenty_either_way() {
    let rewritten = Interpreter::interpret(b"+++++[>++++<-]>.");
    let plain = Op::Routine(
        vec![
            Op::Inc(5),
            Op::Routine(
                vec![Op::Seek(1), Op::Inc(4), Op::Seek(-1), Op::Inc(-1)],
                true,
            ),
            Op::Seek(1),
            Op::Output,
        ],
        false,
    );
    // Text whose loop ends with the step is not of the rewritten shape.
    assert_eq!(rewritten, plain);
    assert_eq!(on_two_cells(&plain, 0, 0, 5), Ok((20, 0, vec![20])));
    // With the step first, the loop is rewritten.
    let first = Interpreter::interpret(b"+++++[->++++<]>.");
    assert_eq!(
        first,
        Op::Routine(
            vec![
                Op::Inc(5),
                Op::AddAndZero(vec![(1, Factor::new(4, 1).unwrap())]),
                Op::Seek(1),
                Op::Output
            ],
            false
        )
    );
    assert_eq!(on_two_cells(&first, 0, 0, 0), Ok((20, 0, vec![20])));
    assert_eq!(run(b"+++++[>++++<-]>.", vec![], 5), Ok(vec![20]));
    assert_eq!(run(b"+++++[->++++<]>.", vec![], 0), Ok(vec![20]));
}

#[test]
fn a_step_that_divides_the_cell() {
    // Steps of three from nine: three rounds.
    let looped = Op::Routine(
        vec![Op::Inc(-3), Op::Seek(1), Op::Inc(2), Op::Seek(-1)],
        true,
    );
    let instruction = Op::AddAndZero(vec![(1, Factor::new(2, 3).unwrap())]);
    assert_eq!(on_two_cells(&looped, 9, 1, 3), Ok((0, 7, vec![])));
    assert_eq!(on_two_cells(&instruction, 9, 1, 0), Ok((0, 7, vec![])));
    assert_eq!(
        Interpreter::interpret(b"[--->++<]"),
        Op::Routine(vec![instruction], false)
    );
}

#[test]
fn a_body_that_comes_back_early_runs_as_written() {
    // Each round takes two off the first cell and adds two to the second.
    assert_eq!(run(b"++++[->+<->+<]>.", vec![], 2), Ok(vec![4]));
    let body = vec![
        Op::Inc(-1),
        Op::Seek(1),
        Op::Inc(1),
        Op::Seek(-1),
        Op::Inc(-1),
        Op::Seek(1),
        Op::Inc(1),
        Op::Seek(-1),
    ];
    assert_eq!(
        on_two_cells(&Op::Routine(body, true), 4, 0, 2),
        Ok((0, 4, vec![]))
    );
}

#[test]
fn add_and_zero_on_a_zero_cell_changes_nothing() {
    assert_eq!(
        on_two_cells(&multiply_instruction(5), 0, 9, 0),
        Ok((0, 9, vec![]))
    );
}

#[test]
fn a_fault_leaves_the_state_of_its_moment() {
    let mut memory = Memory::new();
    let mut reader = ByteReader::new(vec![9]);
    let mut output = vec![];
    let program = Interpreter::interpret(b"+.>,.>,.");
    assert_eq!(
        program.execute(&mut memory, &mut reader, &mut output, 0),
        Err(Fault::InputExhausted)
    );
    assert_eq!(output, vec![1, 9]);
    // The cursor stands on the third cell, which was not written.
    assert_eq!(memory.read(), 0);
    memory.seek(-1);
    assert_eq!(memory.read(), 9);
    assert_eq!(reader.read_byte(), None);

    let mut memory = Memory::new();
    let mut reader = ByteReader::new(vec![9]);
    let mut output = vec![];
    let program = Interpreter::interpret(b"+++[.-.+]");
    assert_eq!(
        program.execute(&mut memory, &mut reader, &mut output, 2),
        Err(Fault::LoopLimit)
    );
    assert_eq!(output, vec![3, 2, 3, 2]);
    assert_eq!(memory.read(), 3);
    assert_eq!(reader.read_byte(), Some(9));
}
