//! The instruction tree and its mathematical view.

use vstd::prelude::*;
use crate::memory::low_byte;

verus! {

/// A ratio `amount / step` with a positive `step`, as a pair of integers.
pub struct Ratio {
    pub amount: isize,
    pub step: isize,
}

/// The exact factor by which an add-and-zero instruction scales the current
/// cell for one target: `amount / step`, with `step` positive.
#[derive(Clone, Copy, Debug, PartialEq, Eq)]
pub struct Factor {
    amount: isize,
    step: isize,
}

impl View for Factor {
    type V = Ratio;

    closed spec fn view(&self) -> Ratio {
        Ratio { amount: self.amount, step: self.step }
    }
}

impl Factor {
    #[verifier::type_invariant]
    spec fn inv(self) -> bool {
        self.step > 0
    }

    /// The factor `amount / step`, which exists where `step` is positive.
    pub fn new(amount: isize, step: isize) -> (factor: Option<Factor>)
        ensures
            step > 0 ==> factor is Some && factor->0@ == (Ratio { amount, step }),
            step <= 0 ==> factor is None,
    {
        if step > 0 {
            Some(Factor { amount, step })
        } else {
            None
        }
    }

    /// The numerator.
    pub fn amount(&self) -> (amount: isize)
        ensures
            amount == self@.amount,
    {
        self.amount
    }

    /// The denominator, which is positive.
    pub fn step(&self) -> (step: isize)
        ensures
            step == self@.step,
            step > 0,
    {
        proof {
            use_type_invariant(self);
        }
        self.step
    }

    /// What a cell of value `value` contributes through this factor.
    pub fn scale(&self, value: u8) -> (contribution: u8)
        ensures
            contribution == scaled(self@, value),
    {
        proof {
            use_type_invariant(self);
        }
        let step: i128 = self.step as i128;
        let amount: i128 = self.amount as i128;
        assert(-0x8000_0000_0000_0000 * 255 <= amount * (value as i128) <= 0x8000_0000_0000_0000
            * 255) by (nonlinear_arith)
            requires
                -0x8000_0000_0000_0000 <= amount <= 0x8000_0000_0000_0000,
                0 <= value <= 255,
        ;
        let product: i128 = amount * (value as i128);
        if product >= 0 {
            ((product / step) % 256) as u8
        } else {
            let magnitude: i128 = ((-product) / step) % 256;
            ((256 - magnitude) % 256) as u8
        }
    }
}

/// The quotient of `numerator` by a positive `denominator`, rounded toward
/// zero.
pub open spec fn quotient_toward_zero(numerator: int, denominator: int) -> int {
    if numerator >= 0 {
        numerator / denominator
    } else {
        -((-numerator) / denominator)
    }
}

/// What a cell of value `value` contributes through `ratio`: the product
/// `amount * value`, divided by `step` toward zero, modulo 256.
pub open spec fn scaled(ratio: Ratio, value: u8) -> u8 {
    low_byte(quotient_toward_zero(ratio.amount * value, ratio.step as int))
}

/// One instruction of the tree that program text is parsed into.
#[derive(Debug, PartialEq, Eq)]
pub enum Op {
    /// A block of instructions; a loop where the flag is set.
    Routine(Vec<Op>, bool),
    /// Move the cursor by the amount.
    Seek(isize),
    /// Add the amount to the current cell.
    Inc(isize),
    /// Read one byte into the current cell.
    Input,
    /// Append the current cell to the output.
    Output,
    /// Set the current cell to zero.
    Zero,
    /// For each target, add the current cell, scaled by the factor, to the
    /// cell at the offset; then set the current cell to zero.
    AddAndZero(Vec<(isize, Factor)>),
}

/// The mathematical instruction tree.
pub enum OpView {
    Routine(Seq<OpView>, bool),
    Seek(isize),
    Inc(isize),
    Input,
    Output,
    Zero,
    AddAndZero(Seq<(isize, Ratio)>),
}

/// The views of a sequence of instructions, in order.
pub open spec fn views(ops: Seq<Op>) -> Seq<OpView>
    decreases ops,
{
    Seq::new(ops.len(), |i: int| if 0 <= i < ops.len() { ops[i]@ } else { OpView::Zero })
}

/// The views of the targets of an add-and-zero instruction, in order.
pub open spec fn target_views(targets: Seq<(isize, Factor)>) -> Seq<(isize, Ratio)> {
    targets.map_values(|t: (isize, Factor)| (t.0, t.1@))
}

/// The view of an instruction that may be absent.
pub open spec fn option_view(op: Option<Op>) -> Option<OpView> {
    match op {
        Some(op) => Some(op@),
        None => None,
    }
}

impl View for Op {
    type V = OpView;

    open spec fn view(&self) -> OpView
        decreases self,
    {
        match self {
            Op::Routine(ops, cond) => OpView::Routine(views(ops@), *cond),
            Op::Seek(amount) => OpView::Seek(*amount),
            Op::Inc(amount) => OpView::Inc(*amount),
            Op::Input => OpView::Input,
            Op::Output => OpView::Output,
            Op::Zero => OpView::Zero,
            Op::AddAndZero(targets) => OpView::AddAndZero(target_views(targets@)),
        }
    }
}

} // verus!
