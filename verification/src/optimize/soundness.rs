//! The add-and-zero rewrite keeps the meaning of the loop, where the loop's
//! step divides the cell it tests and no pair wraps around the tape onto
//! that cell.
//!
//! These are the runs in which the loop counts the cell down to zero without
//! passing it. In any other run the loop itself would wrap the cell around,
//! or never end; the instruction then still takes each quotient rounded
//! toward zero.

use vstd::prelude::*;
use vstd::arithmetic::div_mod::{lemma_div_multiples_vanish, lemma_fundamental_div_mod};
use crate::memory::{lemma_low_byte_sum, lemma_wrap_sum, low_byte, wrap, Tape, MEM_SIZE};
use crate::op::{quotient_toward_zero, scaled, OpView, Ratio};
use crate::optimize::add_and_zero::{
    add_and_zero, is_add_and_zero, offset_after, pair_count, pair_ok, step_of, targets_after,
    theorem_shortest_body,
};
use crate::semantics::{run_loop, run_op, run_seq, Outcome, State};

verus! {

/// The amount of an increment; zero for any other instruction.
pub open spec fn amount_of(op: OpView) -> int {
    match op {
        OpView::Inc(amount) => amount as int,
        _ => 0,
    }
}

/// What one round adds to the cell at index `cell` through the first
/// `pairs` pairs of `body`, with the tested cell at index `base`.
pub open spec fn gain(body: Seq<OpView>, pairs: int, base: int, cell: int) -> int
    decreases pairs,
{
    if pairs <= 0 {
        0
    } else {
        gain(body, pairs - 1, base, cell) + if wrap(base + offset_after(body, pairs)) == cell {
            amount_of(body[2 * pairs])
        } else {
            0
        }
    }
}

/// No pair of `body` stands at an offset that is a multiple of the tape's
/// length, where it would wrap around onto the tested cell.
pub open spec fn clear_of_base(body: Seq<OpView>) -> bool {
    forall|pair: int|
        1 <= pair <= pair_count(body) ==> wrap(#[trigger] offset_after(body, pair)) != 0
}

/// The value of the cell at index `i` once the step is taken and the first
/// `pairs` pairs of one round have run from `start`.
pub open spec fn round_cell(body: Seq<OpView>, pairs: int, start: State, i: int) -> u8 {
    if i == start.tape.cursor {
        low_byte(start.tape.current() - step_of(body))
    } else {
        low_byte(start.tape.cells[i] + gain(body, pairs, start.tape.cursor, i))
    }
}

/// The state after one round of the loop from `start`.
pub open spec fn after_round(body: Seq<OpView>, start: State) -> State {
    State {
        tape: Tape {
            cells: Seq::new(
                MEM_SIZE as nat,
                |i: int| round_cell(body, pair_count(body), start, i),
            ),
            cursor: start.tape.cursor,
        },
        ..start
    }
}

/// The state after `rounds` rounds of the loop from `start`, with the
/// tested cell at zero.
pub open spec fn settled(body: Seq<OpView>, start: State, rounds: int) -> State {
    State {
        tape: Tape {
            cells: Seq::new(
                MEM_SIZE as nat,
                |i: int|
                    if i == start.tape.cursor {
                        0u8
                    } else {
                        low_byte(
                            start.tape.cells[i] + rounds * gain(
                                body,
                                pair_count(body),
                                start.tape.cursor,
                                i,
                            ),
                        )
                    },
            ),
            cursor: start.tape.cursor,
        },
        ..start
    }
}

/// The last instruction of a round brings the cursor back.
proof fn lemma_round_end(body: Seq<OpView>, start: State, s: State, limit: nat)
    requires
        start.tape.wf(),
        is_add_and_zero(body),
        s.input == start.input,
        s.output == start.output,
        s.tape.cells.len() == MEM_SIZE,
        s.tape.cursor == wrap(start.tape.cursor + offset_after(body, pair_count(body))),
        forall|i: int|
            0 <= i < MEM_SIZE ==> #[trigger] s.tape.cells[i] == round_cell(
                body,
                pair_count(body),
                start,
                i,
            ),
    ensures
        run_seq(body, 2 * pair_count(body) + 1, s, limit) == Outcome::Finished(
            after_round(body, start),
        ),
{
    let k = pair_count(body);
    let base = start.tape.cursor;
    assert(body[2 * k + 1] == body.last());
    let back = body.last()->Seek_0;
    let end = State { tape: s.tape.seek(back as int), ..s };
    assert(run_op(body[2 * k + 1], s, limit) == Outcome::Finished(end));
    assert(run_seq(body, 2 * k + 2, end, limit) == Outcome::Finished(end));
    lemma_wrap_sum(base + offset_after(body, k), back as int);
    assert(end.tape.cursor == base);
    assert(end.tape.cells =~= after_round(body, start).tape.cells);
}

/// One pair of a round: the state behind pair `k + 1`, from the state
/// behind pair `k`.
proof fn lemma_round_pair(body: Seq<OpView>, k: int, start: State, s: State, limit: nat) -> (added:
    State)
    requires
        start.tape.wf(),
        is_add_and_zero(body),
        clear_of_base(body),
        0 <= k < pair_count(body),
        s.input == start.input,
        s.output == start.output,
        s.tape.cells.len() == MEM_SIZE,
        s.tape.cursor == wrap(start.tape.cursor + offset_after(body, k)),
        forall|i: int| 0 <= i < MEM_SIZE ==> #[trigger] s.tape.cells[i] == round_cell(body, k, start, i),
    ensures
        run_seq(body, 2 * k + 1, s, limit) == run_seq(body, 2 * k + 3, added, limit),
        added.input == start.input,
        added.output == start.output,
        added.tape.cells.len() == MEM_SIZE,
        added.tape.cursor == wrap(start.tape.cursor + offset_after(body, k + 1)),
        forall|i: int|
            0 <= i < MEM_SIZE ==> #[trigger] added.tape.cells[i] == round_cell(
                body,
                k + 1,
                start,
                i,
            ),
{
    let base = start.tape.cursor;
    let here = offset_after(body, k);
    let pair = k + 1;
    assert(pair_ok(body, pair));
    let moved = body[2 * pair - 1]->Seek_0;
    let amount = body[2 * pair]->Inc_0;
    let there = offset_after(body, pair);
    assert(there == here + moved);
    assert(wrap(there) != 0);
    let at = wrap(base + there);
    lemma_wrap_sum(base + here, moved as int);
    assert(at != base) by {
        lemma_wrap_sum(there, base);
        if at == base {
            assert(wrap(wrap(there) + base) == base);
            assert(false);
        }
    }
    let sought = State { tape: s.tape.seek(moved as int), ..s };
    assert(sought.tape.cursor == at);
    let added = State { tape: sought.tape.inc(amount as int), ..sought };
    assert(run_op(body[2 * k + 1], s, limit) == Outcome::Finished(sought));
    assert(run_op(body[2 * k + 2], sought, limit) == Outcome::Finished(added));
    assert(run_seq(body, 2 * k + 2, sought, limit) == run_seq(body, 2 * k + 3, added, limit));
    assert forall|i: int| 0 <= i < MEM_SIZE implies #[trigger] added.tape.cells[i] == round_cell(
        body,
        pair,
        start,
        i,
    ) by {
        assert(s.tape.cells[i] == round_cell(body, k, start, i));
        if i == at {
            lemma_low_byte_sum(start.tape.cells[i] + gain(body, k, base, i), amount as int);
        }
    }
    added
}

/// From behind pair `k` of a round, the rest of the round runs to its end.
proof fn lemma_round_from(body: Seq<OpView>, k: int, start: State, s: State, limit: nat)
    requires
        start.tape.wf(),
        is_add_and_zero(body),
        clear_of_base(body),
        0 <= k <= pair_count(body),
        s.input == start.input,
        s.output == start.output,
        s.tape.cells.len() == MEM_SIZE,
        s.tape.cursor == wrap(start.tape.cursor + offset_after(body, k)),
        forall|i: int| 0 <= i < MEM_SIZE ==> #[trigger] s.tape.cells[i] == round_cell(body, k, start, i),
    ensures
        run_seq(body, 2 * k + 1, s, limit) == Outcome::Finished(after_round(body, start)),
    decreases pair_count(body) - k,
{
    if k == pair_count(body) {
        lemma_round_end(body, start, s, limit);
    } else {
        let added = lemma_round_pair(body, k, start, s, limit);
        lemma_round_from(body, k + 1, start, added, limit);
    }
}

/// One round of the loop, as a whole.
proof fn lemma_round(body: Seq<OpView>, start: State, limit: nat)
    requires
        start.tape.wf(),
        is_add_and_zero(body),
        clear_of_base(body),
    ensures
        run_seq(body, 0, start, limit) == Outcome::Finished(after_round(body, start)),
{
    let first = body[0]->Inc_0;
    let stepped = State { tape: start.tape.inc(first as int), ..start };
    assert(run_op(body[0], start, limit) == Outcome::Finished(stepped));
    assert(offset_after(body, 0) == 0);
    assert forall|i: int| 0 <= i < MEM_SIZE implies #[trigger] stepped.tape.cells[i] == round_cell(
        body,
        0,
        start,
        i,
    ) by {
        assert(gain(body, 0, start.tape.cursor, i) == 0);
    }
    lemma_round_from(body, 0, start, stepped, limit);
}

/// A loop whose tested cell holds `rounds` steps runs `rounds` rounds and
/// ends with that cell at zero.
proof fn lemma_loop_settles(body: Seq<OpView>, s: State, limit: nat, left: nat, rounds: nat)
    requires
        s.tape.wf(),
        is_add_and_zero(body),
        clear_of_base(body),
        s.tape.current() == rounds * step_of(body),
        left >= rounds,
    ensures
        run_loop(body, s, limit, left) == Outcome::Finished(settled(body, s, rounds as int)),
    decreases rounds,
{
    let base = s.tape.cursor;
    let step = step_of(body);
    let pairs = pair_count(body);
    if rounds == 0 {
        assert(rounds * step == 0) by (nonlinear_arith)
            requires
                rounds == 0,
        ;
        assert forall|i: int| 0 <= i < MEM_SIZE implies #[trigger] s.tape.cells[i] == settled(
            body,
            s,
            0,
        ).tape.cells[i] by {
            let g = gain(body, pairs, base, i);
            assert(0 * g == 0) by (nonlinear_arith);
        }
        assert(s.tape.cells =~= settled(body, s, 0).tape.cells);
    } else {
        assert(rounds * step == (rounds - 1) * step + step && (rounds - 1) * step >= 0)
            by (nonlinear_arith)
            requires
                rounds >= 1,
                step >= 1,
        ;
        lemma_round(body, s, limit);
        let next = after_round(body, s);
        assert(next.tape.current() == round_cell(body, pairs, s, base));
        assert(next.tape.current() == (rounds - 1) * step);
        lemma_loop_settles(body, next, limit, (left - 1) as nat, (rounds - 1) as nat);
        assert forall|i: int| 0 <= i < MEM_SIZE implies #[trigger] settled(
            body,
            next,
            rounds - 1,
        ).tape.cells[i] == settled(body, s, rounds as int).tape.cells[i] by {
            let g = gain(body, pairs, base, i);
            assert(g + (rounds - 1) * g == rounds * g) by (nonlinear_arith);
            if i != base {
                assert(next.tape.cells[i] == low_byte(s.tape.cells[i] + g));
                lemma_low_byte_sum(s.tape.cells[i] + g, (rounds - 1) * g);
            }
        }
        assert(settled(body, next, rounds - 1).tape.cells =~= settled(
            body,
            s,
            rounds as int,
        ).tape.cells);
    }
}

/// A product by the step, divided by the step, is the other factor again.
proof fn lemma_scaled_exact(amount: int, rounds: int, step: int)
    requires
        step > 0,
    ensures
        quotient_toward_zero(amount * (rounds * step), step) == amount * rounds,
{
    let whole = amount * rounds;
    assert(amount * (rounds * step) == step * whole) by (nonlinear_arith)
        requires
            whole == amount * rounds,
    ;
    assert(-(step * whole) == step * (-whole)) by (nonlinear_arith);
    assert(step * whole >= 0 <==> whole >= 0) by (nonlinear_arith)
        requires
            step > 0,
    ;
    lemma_div_multiples_vanish(whole, step);
    lemma_div_multiples_vanish(-whole, step);
}

/// What the targets of the first `k` pairs add to each cell, where the
/// tested cell holds `rounds` steps.
proof fn lemma_targets_add(body: Seq<OpView>, k: int, tape: Tape, rounds: nat)
    requires
        tape.wf(),
        is_add_and_zero(body),
        0 <= k <= pair_count(body),
        tape.current() == rounds * step_of(body),
    ensures
        ({
            let after = tape.add_scaled(targets_after(body, k), tape.current());
            &&& after.cursor == tape.cursor
            &&& after.cells.len() == MEM_SIZE
            &&& forall|i: int|
                0 <= i < MEM_SIZE ==> #[trigger] after.cells[i] == low_byte(
                    tape.cells[i] + rounds * gain(body, k, tape.cursor, i),
                )
        }),
    decreases k,
{
    let value = tape.current();
    let base = tape.cursor;
    if k <= 0 {
        assert(targets_after(body, k) =~= Seq::empty());
        assert forall|i: int| 0 <= i < MEM_SIZE implies #[trigger] tape.cells[i] == low_byte(
            tape.cells[i] + rounds * gain(body, k, base, i),
        ) by {
            assert(rounds * 0 == 0) by (nonlinear_arith);
        }
    } else {
        lemma_targets_add(body, k - 1, tape, rounds);
        assert(pair_ok(body, k));
        let earlier = targets_after(body, k - 1);
        let before = tape.add_scaled(earlier, value);
        let amount = body[2 * k]->Inc_0;
        let offset = offset_after(body, k);
        let at = wrap(base + offset);
        let after = tape.add_scaled(targets_after(body, k), value);
        if amount != 0 {
            let step = step_of(body);
            let target = (offset as isize, Ratio { amount, step: step as isize });
            assert(targets_after(body, k) == earlier.push(target));
            assert(earlier.push(target).drop_last() =~= earlier);
            assert(earlier.push(target).last() == target);
            lemma_scaled_exact(amount as int, rounds as int, step);
            assert(scaled(target.1, value) == low_byte(amount * rounds));
            assert(after == before.add_at(offset, low_byte(amount * rounds) as int));
        } else {
            assert(after == before);
        }
        assert forall|i: int| 0 <= i < MEM_SIZE implies #[trigger] after.cells[i] == low_byte(
            tape.cells[i] + rounds * gain(body, k, base, i),
        ) by {
            let g = gain(body, k - 1, base, i);
            assert(before.cells[i] == low_byte(tape.cells[i] + rounds * g));
            lemma_low_byte_sum(tape.cells[i] + rounds * g, amount * rounds);
            lemma_low_byte_sum(before.cells[i] as int, amount * rounds);
            assert(rounds * (g + amount) == rounds * g + amount * rounds) by (nonlinear_arith);
            assert(rounds * (g + 0) == rounds * g) by (nonlinear_arith);
        }
    }
}

/// The add-and-zero rewrite is sound. Take a loop of the shape that is
/// rewritten, none of whose pairs wraps around the tape onto the tested cell,
/// and a state in which the step divides the tested cell. Then the loop, given
/// as many rounds as the cell's value, and the instruction that replaces it
/// finish in the same state.
pub proof fn theorem_add_and_zero(body: Seq<OpView>, s: State, limit: nat)
    requires
        s.tape.wf(),
        is_add_and_zero(body),
        clear_of_base(body),
        s.tape.current() as int % step_of(body) == 0,
        limit >= s.tape.current(),
    ensures
        add_and_zero(true, body) is Some,
        run_op(OpView::Routine(body, true), s, limit) is Finished,
        run_op(OpView::Routine(body, true), s, limit) == run_op(
            add_and_zero(true, body)->0,
            s,
            limit,
        ),
{
    let step = step_of(body);
    let value = s.tape.current() as int;
    let rounds = value / step;
    lemma_fundamental_div_mod(value, step);
    assert(step * rounds == rounds * step) by (nonlinear_arith);
    assert(0 <= rounds <= value) by (nonlinear_arith)
        requires
            value == rounds * step,
            step >= 1,
            value >= 0,
    ;
    lemma_loop_settles(body, s, limit, limit, rounds as nat);
    lemma_targets_add(body, pair_count(body), s.tape, rounds as nat);
    let targets = targets_after(body, pair_count(body));
    assert(s.tape.copy_zero(targets).cells =~= settled(body, s, rounds).tape.cells);
}

/// The body of the loop that adds the tested cell, `factor` times, to the
/// cell above it: a step of one, one cell up, `factor`, one cell down.
pub open spec fn multiply_body(factor: isize) -> Seq<OpView> {
    seq![OpView::Inc(-1isize), OpView::Seek(1), OpView::Inc(factor), OpView::Seek(-1isize)]
}

/// The state that a multiply loop by `factor` ends in: the cell above the
/// tested one has gained `factor` times the tested cell, modulo 256, the
/// tested cell is zero, and nothing else has changed.
pub open spec fn multiplied(factor: isize, s: State) -> State {
    let above = wrap(s.tape.cursor + 1);
    State {
        tape: Tape {
            cells: s.tape.cells.update(
                above,
                low_byte(s.tape.cells[above] + factor * s.tape.current()),
            ).update(s.tape.cursor, 0),
            ..s.tape
        },
        ..s
    }
}

/// The multiply loop and its rewrite agree, for every factor and every value
/// of the two cells: both end in the state `multiplied`.
pub proof fn theorem_multiply_loop(factor: isize, s: State, limit: nat)
    requires
        s.tape.wf(),
        limit >= s.tape.current(),
    ensures
        add_and_zero(true, multiply_body(factor)) is Some,
        run_op(add_and_zero(true, multiply_body(factor))->0, s, limit) == Outcome::Finished(
            multiplied(factor, s),
        ),
        run_op(OpView::Routine(multiply_body(factor), true), s, limit) == Outcome::Finished(
            multiplied(factor, s),
        ),
{
    let body = multiply_body(factor);
    let value = s.tape.current();
    let above = wrap(s.tape.cursor + 1);
    theorem_shortest_body(true, body, -1isize, 1, factor);
    assert(offset_after(body, 0) == 0);
    assert(offset_after(body, 1) == 1);
    assert(pair_count(body) == 1);
    assert(clear_of_base(body)) by {
        assert forall|pair: int| 1 <= pair <= pair_count(body) implies wrap(
            #[trigger] offset_after(body, pair),
        ) != 0 by {
            assert(pair == 1);
        }
    }
    theorem_add_and_zero(body, s, limit);
    let targets = add_and_zero(true, body)->0->AddAndZero_0;
    if factor != 0 {
        let target = (1isize, Ratio { amount: factor, step: 1 });
        assert(targets == seq![target]);
        assert(targets.drop_last() =~= Seq::empty());
        assert(s.tape.add_scaled(targets.drop_last(), value) == s.tape);
        assert(quotient_toward_zero(factor * value, 1) == factor * value);
        assert(scaled(target.1, value) == low_byte(factor * value));
        lemma_low_byte_sum(s.tape.cells[above] as int, factor * value);
        assert(s.tape.copy_zero(targets).cells =~= multiplied(factor, s).tape.cells);
    } else {
        assert(targets =~= Seq::empty());
        assert(factor * value == 0) by (nonlinear_arith)
            requires
                factor == 0,
        ;
        assert(s.tape.copy_zero(targets).cells =~= multiplied(factor, s).tape.cells);
    }
}

/// The copy loop and its rewrite agree, for every value of the two cells:
/// both leave the tested cell at zero and the cell above it at the sum of
/// the two, modulo 256.
pub proof fn theorem_copy_loop(s: State, limit: nat)
    requires
        s.tape.wf(),
        limit >= s.tape.current(),
    ensures
        run_op(OpView::Routine(multiply_body(1), true), s, limit) == run_op(
            add_and_zero(true, multiply_body(1))->0,
            s,
            limit,
        ),
        run_op(OpView::Routine(multiply_body(1), true), s, limit) matches Outcome::Finished(end)
            && end.tape.current() == 0 && end.tape.cells[wrap(s.tape.cursor + 1)] == low_byte(
            s.tape.cells[wrap(s.tape.cursor + 1)] + s.tape.current(),
        ),
{
    theorem_multiply_loop(1, s, limit);
    assert(1 * s.tape.current() == s.tape.current());
}

} // verus!
