use bf::memory::{Memory, MEM_SIZE};
use bf::op::Factor;

fn factor(amount: isize, step: isize) -> Factor {
    Factor::new(amount, step).unwrap()
}

#[test]
fn fresh_memory_is_zero() {
    let mut memory = Memory::new();
    assert_eq!(MEM_SIZE, 30_000);
    for _ in 0..MEM_SIZE {
        assert_eq!(memory.read(), 0);
        assert!(memory.zero());
        memory.seek(1);
    }
}

#[test]
fn inc_adds_modulo_256() {
    let mut memory = Memory::new();
    memory.inc(3);
    assert_eq!(memory.read(), 3);
    assert!(!memory.zero());
    memory.inc(-4);
    assert_eq!(memory.read(), 255);
    memory.inc(1);
    assert_eq!(memory.read(), 0);
    memory.inc(256);
    assert_eq!(memory.read(), 0);
    memory.inc(-257);
    assert_eq!(memory.read(), 255);
    memory.inc(1000);
    assert_eq!(memory.read(), ((255 + 1000) % 256) as u8);
}

#[test]
fn inc_takes_the_largest_amounts() {
    let mut memory = Memory::new();
    memory.inc(isize::MAX);
    assert_eq!(memory.read(), 255);
    memory.inc(isize::MIN);
    assert_eq!(memory.read(), 255);
    memory.inc(isize::MIN + 1);
    assert_eq!(memory.read(), 0);
}

#[test]
fn set_zero_and_write() {
    let mut memory = Memory::new();
    memory.write(200);
    assert_eq!(memory.read(), 200);
    memory.set_zero();
    assert_eq!(memory.read(), 0);
    assert!(memory.zero());
}

#[test]
fn seek_moves_between_cells() {
    let mut memory = Memory::new();
    memory.write(1);
    memory.seek(5);
    memory.write(2);
    memory.seek(-3);
    assert_eq!(memory.read(), 0);
    memory.seek(3);
    assert_eq!(memory.read(), 2);
    memory.seek(-5);
    assert_eq!(memory.read(), 1);
    memory.seek(0);
    assert_eq!(memory.read(), 1);
}

#[test]
fn seek_wraps_around_both_ends() {
    let mut memory = Memory::new();
    memory.write(7);
    memory.seek(-1);
    memory.write(9);
    memory.seek(1);
    assert_eq!(memory.read(), 7);
    memory.seek(29_999);
    assert_eq!(memory.read(), 9);
    memory.seek(1);
    assert_eq!(memory.read(), 7);
    memory.seek(30_000);
    assert_eq!(memory.read(), 7);
    memory.seek(-60_001);
    assert_eq!(memory.read(), 9);
}

#[test]
fn seek_takes_the_largest_amounts() {
    let mut memory = Memory::new();
    memory.write(7);
    memory.seek(isize::MAX);
    memory.seek(isize::MIN);
    // The two amounts sum to minus one.
    memory.seek(1);
    assert_eq!(memory.read(), 7);
    memory.seek(isize::MIN);
    memory.seek(isize::MAX);
    memory.seek(1);
    assert_eq!(memory.read(), 7);
}

#[test]
fn copy_zero_adds_scaled_values() {
    let mut memory = Memory::new();
    memory.write(5);
    memory.copy_zero(&vec![(1, factor(1, 1)), (2, factor(3, 1)), (-1, factor(-1, 1))]);
    assert_eq!(memory.read(), 0);
    memory.seek(1);
    assert_eq!(memory.read(), 5);
    memory.seek(1);
    assert_eq!(memory.read(), 15);
    memory.seek(-3);
    assert_eq!(memory.read(), 251);
}

#[test]
fn copy_zero_adds_to_what_is_there() {
    let mut memory = Memory::new();
    memory.seek(1);
    memory.write(250);
    memory.seek(-1);
    memory.write(10);
    memory.copy_zero(&vec![(1, factor(1, 1)), (1, factor(2, 1))]);
    memory.seek(1);
    assert_eq!(memory.read(), ((250 + 10 + 20) % 256) as u8);
}

#[test]
fn copy_zero_rounds_toward_zero() {
    let mut memory = Memory::new();
    memory.write(5);
    memory.copy_zero(&vec![(1, factor(1, 3)), (2, factor(-1, 3)), (3, factor(2, 3)), (4, factor(-7, 2))]);
    assert_eq!(memory.read(), 0);
    memory.seek(1);
    assert_eq!(memory.read(), 1);
    memory.seek(1);
    assert_eq!(memory.read(), 255);
    memory.seek(1);
    assert_eq!(memory.read(), 3);
    memory.seek(1);
    // -35 / 2 is -17 toward zero.
    assert_eq!(memory.read(), (256 - 17) as u8);
}

#[test]
fn copy_zero_without_targets_only_zeroes() {
    let mut memory = Memory::new();
    memory.write(5);
    memory.copy_zero(&vec![]);
    assert_eq!(memory.read(), 0);
}

#[test]
fn copy_zero_wraps_around_the_tape() {
    let mut memory = Memory::new();
    memory.write(4);
    memory.copy_zero(&vec![(-1, factor(2, 1)), (30_001, factor(1, 1))]);
    memory.seek(-1);
    assert_eq!(memory.read(), 8);
    memory.seek(2);
    assert_eq!(memory.read(), 4);
}

#[test]
fn factor_needs_a_positive_step() {
    assert!(Factor::new(1, 0).is_none());
    assert!(Factor::new(1, -1).is_none());
    assert!(Factor::new(0, isize::MIN).is_none());
    let f = Factor::new(-4, 3).unwrap();
    assert_eq!(f.amount(), -4);
    assert_eq!(f.step(), 3);
}

#[test]
fn factor_scales_exactly() {
    assert_eq!(factor(4, 1).scale(5), 20);
    assert_eq!(factor(1, 1).scale(255), 255);
    assert_eq!(factor(2, 1).scale(200), (400 % 256) as u8);
    assert_eq!(factor(-1, 1).scale(1), 255);
    assert_eq!(factor(-1, 1).scale(0), 0);
    assert_eq!(factor(0, 1).scale(77), 0);
    assert_eq!(factor(3, 3).scale(9), 9);
    assert_eq!(factor(1, 3).scale(9), 3);
    assert_eq!(factor(1, 3).scale(8), 2);
    assert_eq!(factor(-1, 3).scale(8), 254);
    assert_eq!(factor(1, 1000).scale(255), 0);
    assert_eq!(factor(-1, 1000).scale(255), 0);
}

#[test]
fn factor_scales_the_largest_amounts() {
    // (2^63 - 1) * 255 is -255 modulo 256.
    assert_eq!(factor(isize::MAX, 1).scale(255), 1);
    assert_eq!(factor(isize::MIN, 1).scale(255), 0);
    assert_eq!(factor(isize::MIN, 1).scale(1), 0);
    assert_eq!(factor(isize::MAX, isize::MAX).scale(255), 255);
    // -(2^63 * 255) / (2^63 - 1) is -255 toward zero.
    assert_eq!(factor(isize::MIN, isize::MAX).scale(255), 1);
    assert_eq!(factor(isize::MIN, isize::MAX).scale(128), 128);
}
