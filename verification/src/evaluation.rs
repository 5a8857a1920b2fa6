//! The forward pass: layer by layer, every neuron forms the weighted sum of
//! the layer before it, and the activation makes the neuron's value of that
//! sum. The sums are exact integers; the activation is a function that the
//! caller hands in.

use vstd::prelude::*;
use crate::error::NetworkError;
use crate::network::{Activation, Network, NetworkView};
use crate::parameters::UNIT;

verus! {

/// A number brought into the range of a sum.
pub open spec fn clamped_sum(value: int) -> i128 {
    if value > i128::MAX {
        i128::MAX
    } else if value < i128::MIN {
        i128::MIN
    } else {
        value as i128
    }
}

/// The bias, counted in units of `1 / (UNIT * UNIT)`, and the products of the
/// first `n` weights with their inputs, added one by one; a sum that leaves
/// the range stays at its end.
pub open spec fn sum_upto(row: Seq<i64>, input: Seq<i64>, bias: i64, n: nat) -> i128
    decreases n,
{
    if n == 0 {
        (bias * UNIT) as i128
    } else {
        clamped_sum(sum_upto(row, input, bias, (n - 1) as nat) + row[n - 1] * input[n - 1])
    }
}

/// The weighted sum of one neuron: `bias + row . input`, in units of
/// `1 / (UNIT * UNIT)`.
pub open spec fn weighted_sum(row: Seq<i64>, input: Seq<i64>, bias: i64) -> i128 {
    sum_upto(row, input, bias, row.len())
}

/// The weighted sums of all neurons of the layer after layer `layer`.
pub open spec fn spec_weighted_sums(net: NetworkView, layer: int, input: Seq<i64>) -> Seq<i128> {
    Seq::new(
        net.weights[layer].len(),
        |r: int| weighted_sum(net.weights[layer][r], input, net.biases[layer][r]),
    )
}

/// The values of the layer after layer `layer` are what the activation makes
/// of the weighted sums, neuron by neuron.
pub open spec fn squashed<F: Fn(Activation, i128) -> i64>(
    net: NetworkView,
    layer: int,
    input: Seq<i64>,
    output: Seq<i64>,
    squash: F,
) -> bool {
    let sums = spec_weighted_sums(net, layer, input);
    &&& output.len() == sums.len()
    &&& forall|r: int|
        0 <= r < sums.len() ==> squash.ensures((net.activation, sums[r]), #[trigger] output[r])
}

/// `values` holds what every layer holds in one forward pass: the input
/// first, and after it, for every layer, what the activation makes of the
/// sums over the layer before.
pub open spec fn forward_pass<F: Fn(Activation, i128) -> i64>(
    net: NetworkView,
    values: Seq<Seq<i64>>,
    squash: F,
) -> bool {
    &&& values.len() == net.topology.len()
    &&& forall|l: int|
        0 <= l < values.len() - 1 ==> squashed(net, l, values[l], #[trigger] values[l + 1], squash)
}

/// The activation gives one value for every sum.
pub open spec fn single_valued<F: Fn(Activation, i128) -> i64>(squash: F) -> bool {
    forall|activation: Activation, sum: i128, one: i64, other: i64|
        #![trigger squash.ensures((activation, sum), one), squash.ensures((activation, sum), other)]
        squash.ensures((activation, sum), one) && squash.ensures((activation, sum), other) ==> one
            == other
}

/// With an activation that gives one value for every sum, a forward pass is
/// a function of the network and the input: two passes over the same input
/// hold the same values in every layer, the output among them.
pub proof fn lemma_forward_pass_is_a_function<F: Fn(Activation, i128) -> i64>(
    net: NetworkView,
    one: Seq<Seq<i64>>,
    other: Seq<Seq<i64>>,
    squash: F,
)
    requires
        forward_pass(net, one, squash),
        forward_pass(net, other, squash),
        net.topology.len() >= 1,
        one[0] == other[0],
        single_valued(squash),
    ensures
        one == other,
{
    lemma_passes_agree_upto(net, one, other, squash, one.len() - 1);
    assert(one =~= other);
}

/// Two passes over the same input agree in every layer up to `layer`.
proof fn lemma_passes_agree_upto<F: Fn(Activation, i128) -> i64>(
    net: NetworkView,
    one: Seq<Seq<i64>>,
    other: Seq<Seq<i64>>,
    squash: F,
    layer: int,
)
    requires
        forward_pass(net, one, squash),
        forward_pass(net, other, squash),
        0 <= layer < one.len(),
        one[0] == other[0],
        single_valued(squash),
    ensures
        forall|l: int| 0 <= l <= layer ==> one[l] == other[l],
    decreases layer,
{
    if layer > 0 {
        lemma_passes_agree_upto(net, one, other, squash, layer - 1);
        let before = layer - 1;
        assert(squashed(net, before, one[before], one[before + 1], squash));
        assert(squashed(net, before, other[before], other[before + 1], squash));
        let sums = spec_weighted_sums(net, before, one[before]);
        assert forall|r: int| 0 <= r < sums.len() implies one[layer][r] == other[layer][r] by {
            assert(squash.ensures((net.activation, sums[r]), one[layer][r]));
            assert(squash.ensures((net.activation, sums[r]), other[layer][r]));
        }
        assert(one[layer] =~= other[layer]);
    }
}

/// The product of two parameters fits a sum.
proof fn lemma_product_fits(a: i64, b: i64)
    ensures
        i128::MIN < a * b < i128::MAX,
        i128::MIN < a * UNIT < i128::MAX,
{
    assert(-0x4000_0000_0000_0000_0000_0000_0000_0000 <= a * b
        <= 0x4000_0000_0000_0000_0000_0000_0000_0000) by (nonlinear_arith)
        requires
            -0x8000_0000_0000_0000 <= a <= 0x8000_0000_0000_0000,
            -0x8000_0000_0000_0000 <= b <= 0x8000_0000_0000_0000,
    ;
    assert(-0x4000_0000_0000_0000_0000_0000_0000_0000 <= a * UNIT
        <= 0x4000_0000_0000_0000_0000_0000_0000_0000) by (nonlinear_arith)
        requires
            -0x8000_0000_0000_0000 <= a <= 0x8000_0000_0000_0000,
            UNIT == 1_000_000,
    ;
}

/// The sum of two numbers, kept at the end of the range where it leaves it.
fn add_clamped(left: i128, right: i128) -> (sum: i128)
    ensures
        sum == clamped_sum(left + right),
{
    match left.checked_add(right) {
        Some(sum) => sum,
        None => if right > 0 {
            i128::MAX
        } else {
            i128::MIN
        },
    }
}

/// The weighted sum of one neuron.
pub fn neuron_sum(row: &Vec<i64>, input: &Vec<i64>, bias: i64) -> (sum: i128)
    requires
        row@.len() == input@.len(),
    ensures
        sum == weighted_sum(row@, input@, bias),
{
    proof {
        lemma_product_fits(bias, bias);
    }
    let mut sum: i128 = (bias as i128) * (UNIT as i128);
    let mut c: usize = 0;
    while c < row.len()
        invariant
            c <= row@.len(),
            row@.len() == input@.len(),
            sum == sum_upto(row@, input@, bias, c as nat),
        decreases row@.len() - c,
    {
        proof {
            lemma_product_fits(row@[c as int], input@[c as int]);
        }
        sum = add_clamped(sum, (row[c] as i128) * (input[c] as i128));
        c += 1;
    }
    sum
}

impl Network {
    /// The weighted sums that the neurons after layer `layer` form of the
    /// values of that layer. A layer that the network does not have, or a
    /// number of values other than the width of the layer, is refused.
    /// Nothing in the network changes.
    pub fn weighted_sums(&self, layer: usize, input: &Vec<i64>) -> (sums: Result<
        Vec<i128>,
        NetworkError,
    >)
        requires
            self.well_formed(),
        ensures
            sums is Ok <==> layer < self@.weights.len() && input@.len()
                == self@.topology[layer as int],
            sums is Err ==> sums == Err::<Vec<i128>, NetworkError>(
                NetworkError::DimensionMismatch,
            ),
            sums matches Ok(values) ==> values@ == spec_weighted_sums(
                self@,
                layer as int,
                input@,
            ),
    {
        let weights = self.weights();
        let biases = self.biases();
        if layer >= weights.len() || input.len() != self.topology()[layer] {
            return Err(NetworkError::DimensionMismatch);
        }
        let matrix = &weights[layer];
        let bias_row = &biases[layer];
        let mut values: Vec<i128> = Vec::new();
        proof {
            assert(self@.weights[layer as int].len() == self@.topology[layer + 1]);
            assert(self@.biases[layer as int].len() == self@.topology[layer + 1]);
        }
        while values.len() < matrix.len()
            invariant
                self.well_formed(),
                layer < self@.weights.len(),
                input@.len() == self@.topology[layer as int],
                crate::parameters::rows_of(matrix) == self@.weights[layer as int],
                bias_row@ == self@.biases[layer as int],
                matrix@.len() == bias_row@.len(),
                values@.len() <= matrix@.len(),
                forall|r: int|
                    0 <= r < values@.len() ==> values@[r] == weighted_sum(
                        self@.weights[layer as int][r],
                        input@,
                        self@.biases[layer as int][r],
                    ),
            decreases matrix@.len() - values@.len(),
        {
            let r: usize = values.len();
            proof {
                assert(crate::parameters::rows_of(matrix)[r as int] == matrix@[r as int]@);
                assert(self@.weights[layer as int][r as int].len()
                    == self@.topology[layer as int]);
            }
            values.push(neuron_sum(&matrix[r], input, bias_row[r]));
        }
        proof {
            assert(values@ =~= spec_weighted_sums(self@, layer as int, input@));
        }
        Ok(values)
    }

    /// The output of the network for an input. An input whose length is not
    /// the width of the input layer is refused. Layer by layer, every neuron
    /// forms its weighted sum, and `squash` is asked what the network's
    /// activation makes of it. The network does not change.
    pub fn evaluate<F: Fn(Activation, i128) -> i64>(&self, input: &Vec<i64>, squash: F) -> (output:
        Result<Vec<i64>, NetworkError>)
        requires
            self.well_formed(),
            forall|activation: Activation, sum: i128| squash.requires((activation, sum)),
        ensures
            output is Ok <==> input@.len() == self@.topology[0],
            output is Err ==> output == Err::<Vec<i64>, NetworkError>(
                NetworkError::DimensionMismatch,
            ),
            output matches Ok(last) ==> {
                &&& last@.len() == self@.topology.last()
                &&& exists|values: Seq<Seq<i64>>|
                    {
                        &&& #[trigger] forward_pass(self@, values, squash)
                        &&& values[0] == input@
                        &&& values.last() == last@
                    }
            },
    {
        if input.len() != self.input_width() {
            return Err(NetworkError::DimensionMismatch);
        }
        let activation = self.activation();
        let layers: usize = self.weights().len();
        let mut current: Vec<i64> = input.clone();
        let ghost mut values: Seq<Seq<i64>> = seq![input@];
        let mut layer: usize = 0;
        while layer < layers
            invariant
                self.well_formed(),
                forall|activation: Activation, sum: i128| squash.requires((activation, sum)),
                activation == self@.activation,
                layers == self@.weights.len(),
                layer <= layers,
                values.len() == layer + 1,
                values[0] == input@,
                values.last() == current@,
                current@.len() == self@.topology[layer as int],
                forall|l: int|
                    0 <= l < layer ==> squashed(
                        self@,
                        l,
                        values[l],
                        #[trigger] values[l + 1],
                        squash,
                    ),
            decreases layers - layer,
        {
            let sums = match self.weighted_sums(layer, &current) {
                Ok(sums) => sums,
                Err(_) => unreached(),
            };
            let mut next: Vec<i64> = Vec::new();
            while next.len() < sums.len()
                invariant
                    forall|activation: Activation, sum: i128| squash.requires((activation, sum)),
                    next@.len() <= sums@.len(),
                    forall|r: int|
                        0 <= r < next@.len() ==> squash.ensures(
                            (activation, sums@[r]),
                            #[trigger] next@[r],
                        ),
                decreases sums@.len() - next@.len(),
            {
                let r: usize = next.len();
                next.push(squash(activation, sums[r]));
            }
            proof {
                let earlier = values;
                values = values.push(next@);
                assert(squashed(self@, layer as int, earlier[layer as int], next@, squash));
                assert forall|l: int| 0 <= l < layer + 1 implies squashed(
                    self@,
                    l,
                    values[l],
                    #[trigger] values[l + 1],
                    squash,
                ) by {
                    if l < layer {
                        assert(squashed(self@, l, earlier[l], earlier[l + 1], squash));
                    }
                }
                assert(self@.weights[layer as int].len() == self@.topology[layer + 1]);
            }
            current = next;
            layer += 1;
        }
        proof {
            assert(forward_pass(self@, values, squash));
        }
        Ok(current)
    }
}

} // verus!
