//! The scalars of a network: weights and biases in fixed point, how fresh ones
//! are drawn, how two parents' values are mixed and how a value is perturbed.

use vstd::prelude::*;
use crate::random::random_below;

verus! {

/// The fixed-point unit: a parameter `p` stands for the number `p / UNIT`.
pub const UNIT: i64 = 1_000_000;

/// The largest step by which one mutation moves a parameter.
pub const MAX_STEP: i64 = 100_000;

/// The mutation rate that stands for probability one; rates count millionths.
pub const FULL_RATE: u32 = 1_000_000;

/// A freshly drawn parameter lies between minus one and one.
pub open spec fn within_unit(value: i64) -> bool {
    -UNIT <= value <= UNIT
}

/// The parameter that a draw below `2 * UNIT + 1` stands for.
pub open spec fn spec_weight_from_draw(draw: u128) -> int {
    draw - UNIT
}

/// The step that a draw below `2 * MAX_STEP` stands for: never zero.
pub open spec fn spec_step_from_draw(draw: u128) -> int {
    if draw < MAX_STEP {
        draw - MAX_STEP
    } else {
        draw - MAX_STEP + 1
    }
}

/// A value moved by a step; where the sum leaves the range of a parameter,
/// the step is taken the other way.
pub open spec fn spec_perturbed(value: i64, step: i64) -> int {
    if i64::MIN <= value + step <= i64::MAX {
        value + step
    } else {
        value - step
    }
}

/// What mutation at `rate` makes of a value, given the draw that decides
/// whether it is touched and the draw that gives the step.
pub open spec fn spec_mutated(value: i64, rate: u32, chance: u128, step_draw: u128) -> int {
    if chance < rate {
        spec_perturbed(value, spec_step_from_draw(step_draw) as i64)
    } else {
        value as int
    }
}

/// How mutation at `rate` may relate a value to what it was: never further
/// than `MAX_STEP` away, untouched at rate zero, changed at the full rate.
pub open spec fn drifted(before: i64, after: i64, rate: u32) -> bool {
    &&& -MAX_STEP <= after - before <= MAX_STEP
    &&& rate == 0 ==> after == before
    &&& rate >= FULL_RATE ==> after != before
}

/// Every entry of a row is a fresh parameter.
pub open spec fn row_within_unit(row: Seq<i64>) -> bool {
    forall|c: int| 0 <= c < row.len() ==> within_unit(#[trigger] row[c])
}

/// Every entry of the child comes from one of the parents, place by place.
pub open spec fn row_mixes(child: Seq<i64>, first: Seq<i64>, second: Seq<i64>) -> bool {
    &&& child.len() == first.len()
    &&& forall|c: int|
        0 <= c < child.len() ==> #[trigger] child[c] == first[c] || child[c] == second[c]
}

/// Every entry has drifted from the entry at its place.
pub open spec fn row_drifted(before: Seq<i64>, after: Seq<i64>, rate: u32) -> bool {
    &&& after.len() == before.len()
    &&& forall|c: int| 0 <= c < after.len() ==> drifted(before[c], #[trigger] after[c], rate)
}

/// The rows of a matrix, each as the sequence of its entries.
pub open spec fn rows_of(matrix: &Vec<Vec<i64>>) -> Seq<Seq<i64>> {
    Seq::new(matrix@.len(), |r: int| matrix@[r]@)
}

/// A matrix with the given number of rows, each of the given length.
pub open spec fn matrix_shaped(matrix: Seq<Seq<i64>>, rows: int, columns: int) -> bool {
    &&& matrix.len() == rows
    &&& forall|r: int| 0 <= r < matrix.len() ==> (#[trigger] matrix[r]).len() == columns
}

/// Every row of a matrix holds fresh parameters.
pub open spec fn matrix_within_unit(matrix: Seq<Seq<i64>>) -> bool {
    forall|r: int| 0 <= r < matrix.len() ==> row_within_unit(#[trigger] matrix[r])
}

/// Every row of the child mixes the parents' rows at its place.
pub open spec fn matrix_mixes(
    child: Seq<Seq<i64>>,
    first: Seq<Seq<i64>>,
    second: Seq<Seq<i64>>,
) -> bool {
    &&& child.len() == first.len()
    &&& forall|r: int|
        0 <= r < child.len() ==> row_mixes(#[trigger] child[r], first[r], second[r])
}

/// Every row has drifted from the row at its place.
pub open spec fn matrix_drifted(before: Seq<Seq<i64>>, after: Seq<Seq<i64>>, rate: u32) -> bool {
    &&& after.len() == before.len()
    &&& forall|r: int| 0 <= r < after.len() ==> row_drifted(before[r], #[trigger] after[r], rate)
}

/// The fresh parameter for a draw.
pub fn weight_from_draw(draw: u128) -> (weight: i64)
    requires
        draw <= 2 * UNIT,
    ensures
        weight == spec_weight_from_draw(draw),
        within_unit(weight),
{
    (draw as i64) - UNIT
}

/// The mutation step for a draw.
pub fn step_from_draw(draw: u128) -> (step: i64)
    requires
        draw < 2 * MAX_STEP,
    ensures
        step == spec_step_from_draw(draw),
        step != 0,
        -MAX_STEP <= step <= MAX_STEP,
{
    if draw < MAX_STEP as u128 {
        (draw as i64) - MAX_STEP
    } else {
        (draw as i64) - MAX_STEP + 1
    }
}

/// Moves a value by a step, turning the step round where the sum would not
/// fit a parameter.
pub fn perturbed(value: i64, step: i64) -> (moved: i64)
    ensures
        moved == spec_perturbed(value, step),
        step != 0 ==> moved != value,
{
    let sum: i128 = value as i128 + step as i128;
    if sum >= i64::MIN as i128 && sum <= i64::MAX as i128 {
        sum as i64
    } else {
        (value as i128 - step as i128) as i64
    }
}

/// What mutation at `rate` makes of a value for the two draws it takes.
pub fn mutated(value: i64, rate: u32, chance: u128, step_draw: u128) -> (after: i64)
    requires
        step_draw < 2 * MAX_STEP,
    ensures
        after == spec_mutated(value, rate, chance, step_draw),
        chance < FULL_RATE ==> drifted(value, after, rate),
{
    if chance < rate as u128 {
        perturbed(value, step_from_draw(step_draw))
    } else {
        value
    }
}

/// The parent's value that a child carries for a draw: the first parent's
/// for zero, the second's otherwise.
pub fn inherited(first: i64, second: i64, draw: u128) -> (value: i64)
    ensures
        value == if draw == 0 { first } else { second },
{
    if draw == 0 {
        first
    } else {
        second
    }
}

/// A row of fresh parameters, each drawn on its own.
pub fn draw_row(length: usize) -> (row: Vec<i64>)
    ensures
        row@.len() == length,
        row_within_unit(row@),
{
    let mut row: Vec<i64> = Vec::new();
    while row.len() < length
        invariant
            row@.len() <= length,
            row_within_unit(row@),
        decreases length - row@.len(),
    {
        let draw: u128 = random_below(2 * (UNIT as u128) + 1);
        row.push(weight_from_draw(draw));
    }
    row
}

/// A row whose entries are taken from either parent with even chances.
pub fn mix_rows(first: &Vec<i64>, second: &Vec<i64>) -> (child: Vec<i64>)
    requires
        first@.len() == second@.len(),
    ensures
        row_mixes(child@, first@, second@),
{
    let mut child: Vec<i64> = Vec::new();
    while child.len() < first.len()
        invariant
            first@.len() == second@.len(),
            child@.len() <= first@.len(),
            forall|c: int|
                0 <= c < child@.len() ==> #[trigger] child@[c] == first@[c] || child@[c]
                    == second@[c],
        decreases first@.len() - child@.len(),
    {
        let c: usize = child.len();
        let draw: u128 = random_below(2);
        child.push(inherited(first[c], second[c], draw));
    }
    child
}

/// A row in which every entry was mutated at `rate`, each on its own.
pub fn drift_row(before: &Vec<i64>, rate: u32) -> (after: Vec<i64>)
    ensures
        row_drifted(before@, after@, rate),
{
    let mut after: Vec<i64> = Vec::new();
    while after.len() < before.len()
        invariant
            after@.len() <= before@.len(),
            forall|c: int|
                0 <= c < after@.len() ==> drifted(before@[c], #[trigger] after@[c], rate),
        decreases before@.len() - after@.len(),
    {
        let c: usize = after.len();
        let chance: u128 = random_below(FULL_RATE as u128);
        let step_draw: u128 = random_below(2 * (MAX_STEP as u128));
        after.push(mutated(before[c], rate, chance, step_draw));
    }
    after
}

/// A matrix of fresh parameters.
pub fn draw_matrix(rows: usize, columns: usize) -> (matrix: Vec<Vec<i64>>)
    ensures
        matrix_shaped(rows_of(&matrix), rows as int, columns as int),
        matrix_within_unit(rows_of(&matrix)),
{
    let mut matrix: Vec<Vec<i64>> = Vec::new();
    while matrix.len() < rows
        invariant
            matrix@.len() <= rows,
            matrix_shaped(rows_of(&matrix), matrix@.len() as int, columns as int),
            matrix_within_unit(rows_of(&matrix)),
        decreases rows - matrix@.len(),
    {
        let row = draw_row(columns);
        let ghost earlier = rows_of(&matrix);
        matrix.push(row);
        proof {
            assert(rows_of(&matrix) =~= earlier.push(row@));
        }
    }
    matrix
}

/// A matrix whose rows mix the parents' rows.
pub fn mix_matrices(first: &Vec<Vec<i64>>, second: &Vec<Vec<i64>>) -> (child: Vec<Vec<i64>>)
    requires
        first@.len() == second@.len(),
        forall|r: int|
            0 <= r < first@.len() ==> (#[trigger] rows_of(first)[r]).len()
                == rows_of(second)[r].len(),
    ensures
        matrix_mixes(rows_of(&child), rows_of(first), rows_of(second)),
{
    let mut child: Vec<Vec<i64>> = Vec::new();
    while child.len() < first.len()
        invariant
            first@.len() == second@.len(),
            forall|r: int|
                0 <= r < first@.len() ==> (#[trigger] rows_of(first)[r]).len()
                    == rows_of(second)[r].len(),
            child@.len() <= first@.len(),
            forall|r: int|
                0 <= r < child@.len() ==> row_mixes(
                    #[trigger] rows_of(&child)[r],
                    rows_of(first)[r],
                    rows_of(second)[r],
                ),
        decreases first@.len() - child@.len(),
    {
        let r: usize = child.len();
        proof {
            assert(rows_of(first)[r as int].len() == rows_of(second)[r as int].len());
        }
        let row = mix_rows(&first[r], &second[r]);
        let ghost earlier = rows_of(&child);
        child.push(row);
        proof {
            assert(rows_of(&child) =~= earlier.push(row@));
        }
    }
    child
}

/// A matrix in which every entry was mutated at `rate`.
pub fn drift_matrix(before: &Vec<Vec<i64>>, rate: u32) -> (after: Vec<Vec<i64>>)
    ensures
        matrix_drifted(rows_of(before), rows_of(&after), rate),
{
    let mut after: Vec<Vec<i64>> = Vec::new();
    while after.len() < before.len()
        invariant
            after@.len() <= before@.len(),
            forall|r: int|
                0 <= r < after@.len() ==> row_drifted(
                    rows_of(before)[r],
                    #[trigger] rows_of(&after)[r],
                    rate,
                ),
        decreases before@.len() - after@.len(),
    {
        let r: usize = after.len();
        let row = drift_row(&before[r], rate);
        let ghost earlier = rows_of(&after);
        after.push(row);
        proof {
            assert(rows_of(&after) =~= earlier.push(row@));
        }
    }
    after
}

} // verus!
