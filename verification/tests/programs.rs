use bf::bf;
use bf::run;
use bf::semantics::Fault;
use bf::Failure;

#[test]
fn three_increments_write_three() {
    assert_eq!(run(b"+++.", vec![], 1000), Ok(vec![3]));
}

#[test]
fn multiply_loop_writes_twenty() {
    assert_eq!(run(b"+++++[>++++<-]>.", vec![], 1000), Ok(vec![20]));
}

#[test]
fn zeroing_loop_writes_zero() {
    assert_eq!(run(b"++[-].", vec![], 1000), Ok(vec![0]));
}

#[test]
fn input_byte_is_echoed() {
    assert_eq!(run(b",.", vec![65], 1000), Ok(vec![65]));
}

#[test]
fn input_without_bytes_is_a_fault() {
    assert_eq!(run(b",.", vec![], 1000), Err(Fault::InputExhausted));
    assert_eq!(run(b",,.", vec![7], 1000), Err(Fault::InputExhausted));
}

#[test]
fn endless_loop_reaches_the_limit() {
    assert_eq!(run(b"+[]", vec![], 1000), Err(Fault::LoopLimit));
    assert_eq!(run(b"+[>+<]", vec![], 10), Err(Fault::LoopLimit));
}

#[test]
fn loop_within_the_limit_finishes() {
    // The body runs five times; the sixth test of the cell ends the loop.
    assert_eq!(run(b"+++++[>+.<-]", vec![], 5), Ok(vec![1, 2, 3, 4, 5]));
    assert_eq!(run(b"+++++[>+.<-]", vec![], 4), Err(Fault::LoopLimit));
}

#[test]
fn text_output() {
    let hello = "++++++++[>++++[>++>+++>+++>+<<<<-]>+>+>->>+[<]<-]>>.>---.+++++++..+++.>>.<-.<.+++.------.--------.>>+.>++.";
    assert_eq!(bf(hello), Ok(String::from("Hello World!\n")));
    assert_eq!(bf("+++++++++[>++++++++<-]>."), Ok(String::from("H")));
    assert_eq!(bf(""), Ok(String::new()));
}

#[test]
fn output_that_is_not_text() {
    // One byte of value 255 is not UTF-8.
    assert_eq!(bf("-."), Err(Failure::NotText));
    assert_eq!(run(b"-.", vec![], 1000), Ok(vec![255]));
}

#[test]
fn bf_has_nothing_to_read() {
    assert_eq!(bf(",."), Err(Failure::Stopped(Fault::InputExhausted)));
}

#[test]
fn comments_are_skipped() {
    assert_eq!(run(b"add three: +++ and print .", vec![], 10), Ok(vec![3]));
    assert_eq!(run("+é+\n+.".as_bytes(), vec![], 10), Ok(vec![3]));
}

#[test]
fn cells_wrap_around() {
    assert_eq!(run(b"-.", vec![], 10), Ok(vec![255]));
    assert_eq!(run(b"-++.", vec![], 10), Ok(vec![1]));
}

#[test]
fn cursor_wraps_around_the_tape() {
    // One cell down from the first is the last; one up again is the first.
    assert_eq!(run(b"+<++>.<.", vec![], 10), Ok(vec![1, 2]));
}

#[test]
fn bf_stops_on_faults() {
    // Nothing to read.
    assert_eq!(bf("+[,]"), Err(Failure::Stopped(Fault::InputExhausted)));
    // Two bytes that are one character.
    let e_acute = "+".repeat(0xC3) + ".>" + &"+".repeat(0xA9) + ".";
    assert_eq!(bf(&e_acute), Ok(String::from("é")));
    // The first of them alone is not text.
    let half = "+".repeat(0xC3) + ".";
    assert_eq!(bf(&half), Err(Failure::NotText));
}
