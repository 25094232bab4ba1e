//! The tape: a fixed number of byte cells, and a cursor on one of them.
//!
//! The tape is a ring. A seek past its last cell goes on at its first, and
//! a seek below its first cell goes on at its last. Cells hold bytes, and
//! all arithmetic on them is modulo 256.

use vstd::prelude::*;
use crate::op::{scaled, target_views, Factor, Ratio};

verus! {

/// The number of cells on the tape.
pub const MEM_SIZE: usize = 30_000;

/// The index that a position, taken anywhere on the number line, has on the
/// circular tape.
pub open spec fn wrap(position: int) -> int {
    position % (MEM_SIZE as int)
}

/// The byte that an integer is modulo 256.
pub open spec fn low_byte(value: int) -> u8 {
    (value % 256) as u8
}

/// The mathematical tape: the cells and the cursor.
pub struct Tape {
    pub cells: Seq<u8>,
    pub cursor: int,
}

impl Tape {
    /// The tape has its full length and the cursor is on it.
    pub open spec fn wf(self) -> bool {
        &&& self.cells.len() == MEM_SIZE
        &&& 0 <= self.cursor < MEM_SIZE
    }

    /// The tape a run starts with: every cell zero, the cursor on the first.
    pub open spec fn blank() -> Tape {
        Tape { cells: Seq::new(MEM_SIZE as nat, |i: int| 0u8), cursor: 0 }
    }

    /// The value of the cell under the cursor.
    pub open spec fn current(self) -> u8 {
        self.cells[self.cursor]
    }

    /// The cursor moved by `amount` cells, around the ends of the tape.
    pub open spec fn seek(self, amount: int) -> Tape {
        Tape { cursor: wrap(self.cursor + amount), ..self }
    }

    /// The cell under the cursor replaced by `value`.
    pub open spec fn write(self, value: u8) -> Tape {
        Tape { cells: self.cells.update(self.cursor, value), ..self }
    }

    /// `amount` added to the cell under the cursor, modulo 256.
    pub open spec fn inc(self, amount: int) -> Tape {
        self.write(low_byte(self.current() + amount))
    }

    /// The cell under the cursor set to zero.
    pub open spec fn set_zero(self) -> Tape {
        self.write(0)
    }

    /// `delta` added, modulo 256, to the cell `offset` cells from the cursor.
    pub open spec fn add_at(self, offset: int, delta: int) -> Tape {
        let at = wrap(self.cursor + offset);
        Tape { cells: self.cells.update(at, low_byte(self.cells[at] + delta)), ..self }
    }

    /// For each target in turn, a cell of value `value`, scaled by the
    /// target's factor, added to the cell at the target's offset.
    pub open spec fn add_scaled(self, targets: Seq<(isize, Ratio)>, value: u8) -> Tape
        decreases targets.len(),
    {
        if targets.len() == 0 {
            self
        } else {
            let target = targets.last();
            self.add_scaled(targets.drop_last(), value).add_at(
                target.0 as int,
                scaled(target.1, value) as int,
            )
        }
    }

    /// The current cell, scaled, added to every target, and then set to zero.
    pub open spec fn copy_zero(self, targets: Seq<(isize, Ratio)>) -> Tape {
        self.add_scaled(targets, self.current()).set_zero()
    }
}

/// Wrapping a position on the way to a sum changes nothing.
pub proof fn lemma_wrap_sum(a: int, b: int)
    ensures
        wrap(wrap(a) + b) == wrap(a + b),
        0 <= wrap(a) < MEM_SIZE,
{
    vstd::arithmetic::div_mod::lemma_add_mod_noop(a, b, MEM_SIZE as int);
    vstd::arithmetic::div_mod::lemma_mod_twice(b, MEM_SIZE as int);
    vstd::arithmetic::div_mod::lemma_add_mod_noop(wrap(a), b, MEM_SIZE as int);
    vstd::arithmetic::div_mod::lemma_mod_twice(a, MEM_SIZE as int);
}

/// Reducing a term modulo 256 on the way to a sum changes nothing.
pub proof fn lemma_low_byte_sum(a: int, b: int)
    ensures
        low_byte(low_byte(a) + b) == low_byte(a + b),
        low_byte(a + low_byte(b)) == low_byte(a + b),
{
    vstd::arithmetic::div_mod::lemma_add_mod_noop(a, b, 256);
    vstd::arithmetic::div_mod::lemma_mod_twice(a, 256);
    vstd::arithmetic::div_mod::lemma_mod_twice(b, 256);
    vstd::arithmetic::div_mod::lemma_add_mod_noop(a % 256, b, 256);
    vstd::arithmetic::div_mod::lemma_add_mod_noop(a, b % 256, 256);
}

/// The residue of a number below zero, from that of the number that mirrors
/// it above.
proof fn lemma_mod_below_zero(n: int, m: int)
    requires
        n >= 0,
        m > 0,
    ensures
        (-(n + 1)) % m == m - 1 - n % m,
{
    let q = n / m;
    let r = n % m;
    vstd::arithmetic::div_mod::lemma_fundamental_div_mod(n, m);
    vstd::arithmetic::div_mod::lemma_mod_pos_bound(n, m);
    assert(-(n + 1) == (-q - 1) * m + (m - 1 - r)) by (nonlinear_arith)
        requires
            n == m * q + r,
    ;
    vstd::arithmetic::div_mod::lemma_fundamental_div_mod_converse(
        -(n + 1),
        m,
        -q - 1,
        m - 1 - r,
    );
}

/// The byte that `amount` is modulo 256.
fn byte_of(amount: isize) -> (byte: u8)
    ensures
        byte == low_byte(amount as int),
{
    if amount >= 0 {
        ((amount as usize) % 256) as u8
    } else {
        let mirror: usize = (-(amount + 1)) as usize;
        proof {
            lemma_mod_below_zero(mirror as int, 256);
        }
        (255 - mirror % 256) as u8
    }
}

/// The index on the tape of the position `amount`.
fn residue(amount: isize) -> (index: usize)
    ensures
        index == wrap(amount as int),
{
    if amount >= 0 {
        (amount as usize) % MEM_SIZE
    } else {
        let mirror: usize = (-(amount + 1)) as usize;
        proof {
            lemma_mod_below_zero(mirror as int, MEM_SIZE as int);
        }
        MEM_SIZE - 1 - mirror % MEM_SIZE
    }
}

/// The index of the cell `amount` cells from the cell at `pointer`.
fn wrapped(pointer: usize, amount: isize) -> (index: usize)
    requires
        pointer < MEM_SIZE,
    ensures
        index == wrap(pointer + amount),
{
    let shift: usize = residue(amount);
    proof {
        lemma_wrap_sum(amount as int, pointer as int);
    }
    (pointer + shift) % MEM_SIZE
}

/// The tape of a running program.
pub struct Memory {
    data: Vec<u8>,
    pointer: usize,
}

impl View for Memory {
    type V = Tape;

    closed spec fn view(&self) -> Tape {
        Tape { cells: self.data@, cursor: self.pointer as int }
    }
}

impl Memory {
    #[verifier::type_invariant]
    spec fn inv(self) -> bool {
        &&& self.data@.len() == MEM_SIZE
        &&& self.pointer < MEM_SIZE
    }

    /// A fresh tape.
    pub fn new() -> (memory: Memory)
        ensures
            memory@ == Tape::blank(),
            memory@.wf(),
    {
        let mut data: Vec<u8> = Vec::with_capacity(MEM_SIZE);
        let mut filled: usize = 0;
        while filled < MEM_SIZE
            invariant
                filled <= MEM_SIZE,
                data@.len() == filled,
                forall|i: int| 0 <= i < filled ==> data@[i] == 0u8,
            decreases MEM_SIZE - filled,
        {
            data.push(0u8);
            filled += 1;
        }
        assert(data@ =~= Tape::blank().cells);
        Memory { data, pointer: 0 }
    }

    /// Moves the cursor by `amount` cells; past either end of the tape it
    /// comes back in at the other.
    pub fn seek(&mut self, amount: isize)
        ensures
            final(self)@ == old(self)@.seek(amount as int),
            final(self)@.wf(),
    {
        proof {
            use_type_invariant(&*self);
        }
        self.pointer = wrapped(self.pointer, amount);
    }

    /// Adds `amount` to the current cell, modulo 256.
    pub fn inc(&mut self, amount: isize)
        ensures
            final(self)@ == old(self)@.inc(amount as int),
            final(self)@.wf(),
    {
        proof {
            use_type_invariant(&*self);
        }
        let delta: u8 = byte_of(amount);
        let sum: u16 = self.data[self.pointer] as u16 + delta as u16;
        proof {
            lemma_low_byte_sum(self.data@[self.pointer as int] as int, amount as int);
        }
        self.data[self.pointer] = (sum % 256) as u8;
    }

    /// The value of the current cell.
    pub fn read(&self) -> (value: u8)
        ensures
            value == self@.current(),
    {
        proof {
            use_type_invariant(self);
        }
        self.data[self.pointer]
    }

    /// Whether the current cell is zero.
    pub fn zero(&self) -> (is_zero: bool)
        ensures
            is_zero == (self@.current() == 0),
    {
        proof {
            use_type_invariant(self);
        }
        self.data[self.pointer] == 0
    }

    /// Sets the current cell to zero.
    pub fn set_zero(&mut self)
        ensures
            final(self)@ == old(self)@.set_zero(),
            final(self)@.wf(),
    {
        proof {
            use_type_invariant(&*self);
        }
        self.data[self.pointer] = 0;
    }

    /// Stores `value` in the current cell.
    pub fn write(&mut self, value: u8)
        ensures
            final(self)@ == old(self)@.write(value),
            final(self)@.wf(),
    {
        proof {
            use_type_invariant(&*self);
        }
        self.data[self.pointer] = value;
    }

    /// Adds the current cell, scaled by each target's factor, to the cell at
    /// that target's offset, and then sets the current cell to zero.
    pub fn copy_zero(&mut self, targets: &Vec<(isize, Factor)>)
        ensures
            final(self)@ == old(self)@.copy_zero(target_views(targets@)),
            final(self)@.wf(),
    {
        proof {
            use_type_invariant(&*self);
        }
        let value: u8 = self.data[self.pointer];
        let ghost all = target_views(targets@);
        let mut done: usize = 0;
        while done < targets.len()
            invariant
                done <= targets.len(),
                all == target_views(targets@),
                self.pointer == old(self).pointer,
                self.pointer < MEM_SIZE,
                self.data@.len() == MEM_SIZE,
                self@ == old(self)@.add_scaled(all.take(done as int), value),
            decreases targets.len() - done,
        {
            let (offset, factor) = targets[done];
            let at: usize = wrapped(self.pointer, offset);
            let contribution: u8 = factor.scale(value);
            let sum: u16 = self.data[at] as u16 + contribution as u16;
            proof {
                assert(all.take(done + 1).drop_last() =~= all.take(done as int));
                assert(all.take(done + 1).last() == (offset, factor@));
            }
            self.data[at] = (sum % 256) as u8;
            done += 1;
        }
        proof {
            assert(all.take(done as int) =~= all);
        }
        self.data[self.pointer] = 0;
    }
}

} // verus!
