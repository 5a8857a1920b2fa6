//! The feed-forward network: a topology, one weight matrix and one bias row
//! for every layer after the input layer, an activation and a mutation rate.

use vstd::prelude::*;
use crate::error::NetworkError;
use crate::parameters::{
    draw_matrix, draw_row, drift_matrix, drift_row, matrix_drifted, matrix_mixes, matrix_shaped,
    matrix_within_unit, mix_matrices, mix_rows, row_drifted, row_mixes, row_within_unit, rows_of,
    FULL_RATE,
};
use crate::topology::{
    compact, compacted, lemma_compacted_fixed, lemma_compacted_positive, same_widths, usable,
};

verus! {

/// The function applied to every neuron's weighted sum.
#[derive(Clone, Copy, Debug, PartialEq, Eq, Structural)]
pub enum Activation {
    ReLU,
    Sigmoid,
    Tanh,
}

/// The matrices of a network, layer by layer.
pub open spec fn layers_of(tensor: &Vec<Vec<Vec<i64>>>) -> Seq<Seq<Seq<i64>>> {
    Seq::new(tensor@.len(), |l: int| rows_of(&tensor@[l]))
}

/// A mutation rate brought into the range of a probability.
pub open spec fn clamped_rate(rate: u32) -> u32 {
    if rate > FULL_RATE {
        FULL_RATE
    } else {
        rate
    }
}

/// A feed-forward network with fixed-point parameters.
pub struct Network {
    topology: Vec<usize>,
    weights: Vec<Vec<Vec<i64>>>,
    biases: Vec<Vec<i64>>,
    activation: Activation,
    mutation_rate: u32,
}

/// What a network is: its widths, its parameters and its two settings.
///
/// `weights[l][r][c]` is the weight from neuron `c` of layer `l` to neuron `r`
/// of layer `l + 1`, and `biases[l][r]` the bias of that neuron.
pub struct NetworkView {
    pub topology: Seq<usize>,
    pub weights: Seq<Seq<Seq<i64>>>,
    pub biases: Seq<Seq<i64>>,
    pub activation: Activation,
    pub mutation_rate: u32,
}

impl NetworkView {
    /// The parameters have the shapes that the topology asks for.
    pub open spec fn shaped(self) -> bool {
        &&& self.weights.len() == self.topology.len() - 1
        &&& self.biases.len() == self.topology.len() - 1
        &&& forall|l: int|
            0 <= l < self.weights.len() ==> matrix_shaped(
                #[trigger] self.weights[l],
                self.topology[l + 1] as int,
                self.topology[l] as int,
            )
        &&& forall|l: int|
            0 <= l < self.biases.len() ==> (#[trigger] self.biases[l]).len() == self.topology[l
                + 1]
    }

    /// The invariant of every network: a usable topology, parameters of
    /// matching shape and a mutation rate that is a probability.
    pub open spec fn well_formed(self) -> bool {
        &&& usable(self.topology)
        &&& self.shaped()
        &&& self.mutation_rate <= FULL_RATE
    }

    /// Every parameter lies between minus one and one.
    pub open spec fn fresh(self) -> bool {
        &&& forall|l: int|
            0 <= l < self.weights.len() ==> matrix_within_unit(#[trigger] self.weights[l])
        &&& forall|l: int| 0 <= l < self.biases.len() ==> row_within_unit(#[trigger] self.biases[l])
    }

    /// Every parameter is that of `first` or that of `second` at its place.
    pub open spec fn mixes(self, first: NetworkView, second: NetworkView) -> bool {
        &&& self.weights.len() == first.weights.len()
        &&& self.biases.len() == first.biases.len()
        &&& forall|l: int|
            0 <= l < self.weights.len() ==> matrix_mixes(
                #[trigger] self.weights[l],
                first.weights[l],
                second.weights[l],
            )
        &&& forall|l: int|
            0 <= l < self.biases.len() ==> row_mixes(
                #[trigger] self.biases[l],
                first.biases[l],
                second.biases[l],
            )
    }

    /// Every parameter has drifted from that of `before` at its place, as a
    /// mutation at `rate` allows.
    pub open spec fn drifted_from(self, before: NetworkView, rate: u32) -> bool {
        &&& self.weights.len() == before.weights.len()
        &&& self.biases.len() == before.biases.len()
        &&& forall|l: int|
            0 <= l < self.weights.len() ==> matrix_drifted(
                before.weights[l],
                #[trigger] self.weights[l],
                rate,
            )
        &&& forall|l: int|
            0 <= l < self.biases.len() ==> row_drifted(
                before.biases[l],
                #[trigger] self.biases[l],
                rate,
            )
    }

    /// Whether two networks can be crossed: same widths, same activation.
    pub open spec fn compatible(self, other: NetworkView) -> bool {
        self.topology == other.topology && self.activation == other.activation
    }
}

/// A network mixed from two parents with the same parameters has those
/// parameters too.
pub proof fn lemma_mix_of_equals(child: NetworkView, first: NetworkView, second: NetworkView)
    requires
        child.mixes(first, second),
        first.weights == second.weights,
        first.biases == second.biases,
    ensures
        child.weights == first.weights,
        child.biases == first.biases,
{
    assert forall|l: int| 0 <= l < child.weights.len() implies child.weights[l]
        == first.weights[l] by {
        let (c, f, s) = (child.weights[l], first.weights[l], second.weights[l]);
        assert(matrix_mixes(c, f, s));
        assert forall|r: int| 0 <= r < c.len() implies c[r] == f[r] by {
            assert(row_mixes(c[r], f[r], s[r]));
            assert(c[r] =~= f[r]);
        }
        assert(c =~= f);
    }
    assert(child.weights =~= first.weights);
    assert forall|l: int| 0 <= l < child.biases.len() implies child.biases[l]
        == first.biases[l] by {
        assert(row_mixes(child.biases[l], first.biases[l], second.biases[l]));
        assert(child.biases[l] =~= first.biases[l]);
    }
    assert(child.biases =~= first.biases);
}

/// A network that drifted at rate zero has not moved.
pub proof fn lemma_drift_at_zero(after: NetworkView, before: NetworkView)
    requires
        after.drifted_from(before, 0),
    ensures
        after.weights == before.weights,
        after.biases == before.biases,
{
    assert forall|l: int| 0 <= l < after.weights.len() implies after.weights[l]
        == before.weights[l] by {
        let (a, b) = (after.weights[l], before.weights[l]);
        assert(matrix_drifted(b, a, 0));
        assert forall|r: int| 0 <= r < a.len() implies a[r] == b[r] by {
            assert(row_drifted(b[r], a[r], 0));
            assert(a[r] =~= b[r]);
        }
        assert(a =~= b);
    }
    assert(after.weights =~= before.weights);
    assert forall|l: int| 0 <= l < after.biases.len() implies after.biases[l]
        == before.biases[l] by {
        assert(row_drifted(before.biases[l], after.biases[l], 0));
        assert(after.biases[l] =~= before.biases[l]);
    }
    assert(after.biases =~= before.biases);
}

/// A network that drifted at the full rate differs from what it was in every
/// weight and every bias.
pub proof fn lemma_drift_at_full(after: NetworkView, before: NetworkView, rate: u32)
    requires
        after.drifted_from(before, rate),
        rate >= FULL_RATE,
    ensures
        forall|l: int, r: int, c: int|
            0 <= l < after.weights.len() && 0 <= r < after.weights[l].len() && 0 <= c
                < after.weights[l][r].len() ==> #[trigger] after.weights[l][r][c]
                != before.weights[l][r][c],
        forall|l: int, r: int|
            0 <= l < after.biases.len() && 0 <= r < after.biases[l].len()
                ==> #[trigger] after.biases[l][r] != before.biases[l][r],
{
    assert forall|l: int, r: int, c: int|
        0 <= l < after.weights.len() && 0 <= r < after.weights[l].len() && 0 <= c
            < after.weights[l][r].len() implies #[trigger] after.weights[l][r][c]
        != before.weights[l][r][c] by {
        assert(matrix_drifted(before.weights[l], after.weights[l], rate));
        assert(row_drifted(before.weights[l][r], after.weights[l][r], rate));
    }
    assert forall|l: int, r: int|
        0 <= l < after.biases.len() && 0 <= r < after.biases[l].len()
        implies #[trigger] after.biases[l][r] != before.biases[l][r] by {
        assert(row_drifted(before.biases[l], after.biases[l], rate));
    }
}

/// A network as it is written to a model file and read back: the same parts,
/// open to any value, so that nothing is known of one until it is imported.
pub struct NetworkRecord {
    pub topology: Vec<usize>,
    pub weights: Vec<Vec<Vec<i64>>>,
    pub biases: Vec<Vec<i64>>,
    pub activation: Activation,
    pub mutation_rate: u32,
}

impl View for NetworkRecord {
    type V = NetworkView;

    open spec fn view(&self) -> NetworkView {
        NetworkView {
            topology: self.topology@,
            weights: layers_of(&self.weights),
            biases: rows_of(&self.biases),
            activation: self.activation,
            mutation_rate: self.mutation_rate,
        }
    }
}

/// What importing a record gives: the network it describes, with the
/// mutation rate brought into range, or the reason why it describes none.
pub open spec fn spec_import(record: NetworkView) -> Result<NetworkView, NetworkError> {
    if compacted(record.topology).len() < 2 {
        Err(NetworkError::InvalidTopology)
    } else if !usable(record.topology) || !record.shaped() {
        Err(NetworkError::DimensionMismatch)
    } else {
        Ok(NetworkView { mutation_rate: clamped_rate(record.mutation_rate), ..record })
    }
}

/// Exporting a network and importing the record gives the same network
/// back: same widths, same weights and biases, same activation, same
/// mutation rate.
pub proof fn lemma_export_then_import(net: NetworkView)
    requires
        net.well_formed(),
    ensures
        spec_import(net) == Ok::<NetworkView, NetworkError>(net),
{
    lemma_compacted_fixed(net.topology);
}

/// Whether no width is zero.
fn all_positive(widths: &Vec<usize>) -> (positive: bool)
    ensures
        positive == (forall|i: int| 0 <= i < widths@.len() ==> #[trigger] widths@[i] > 0),
{
    let mut i: usize = 0;
    while i < widths.len()
        invariant
            i <= widths@.len(),
            forall|j: int| 0 <= j < i ==> #[trigger] widths@[j] > 0,
        decreases widths@.len() - i,
    {
        if widths[i] == 0 {
            return false;
        }
        i += 1;
    }
    true
}

/// Whether a matrix has the given number of rows, each of the given length.
fn has_shape(matrix: &Vec<Vec<i64>>, rows: usize, columns: usize) -> (fits: bool)
    ensures
        fits == matrix_shaped(rows_of(matrix), rows as int, columns as int),
{
    if matrix.len() != rows {
        return false;
    }
    let mut r: usize = 0;
    while r < matrix.len()
        invariant
            r <= matrix@.len(),
            matrix@.len() == rows,
            forall|k: int| 0 <= k < r ==> (#[trigger] rows_of(matrix)[k]).len() == columns,
        decreases matrix@.len() - r,
    {
        if matrix[r].len() != columns {
            proof {
                assert(rows_of(matrix)[r as int].len() != columns);
            }
            return false;
        }
        r += 1;
    }
    true
}

/// Whether the parameters of a record have the shapes its widths ask for.
fn shapes_agree(record: &NetworkRecord) -> (agree: bool)
    requires
        record.topology@.len() >= 1,
    ensures
        agree == record@.shaped(),
{
    let layers: usize = record.topology.len() - 1;
    if record.weights.len() != layers || record.biases.len() != layers {
        return false;
    }
    let mut l: usize = 0;
    while l < layers
        invariant
            l <= layers,
            layers == record.topology@.len() - 1,
            record.weights@.len() == layers,
            record.biases@.len() == layers,
            forall|k: int|
                0 <= k < l ==> matrix_shaped(
                    #[trigger] record@.weights[k],
                    record@.topology[k + 1] as int,
                    record@.topology[k] as int,
                ),
            forall|k: int|
                0 <= k < l ==> (#[trigger] record@.biases[k]).len() == record@.topology[k + 1],
        decreases layers - l,
    {
        let fits = has_shape(&record.weights[l], record.topology[l + 1], record.topology[l]);
        if !fits {
            proof {
                assert(!matrix_shaped(
                    record@.weights[l as int],
                    record@.topology[l + 1] as int,
                    record@.topology[l as int] as int,
                ));
            }
            return false;
        }
        if record.biases[l].len() != record.topology[l + 1] {
            proof {
                assert(record@.biases[l as int].len() != record@.topology[l + 1]);
            }
            return false;
        }
        l += 1;
    }
    true
}

impl View for Network {
    type V = NetworkView;

    closed spec fn view(&self) -> NetworkView {
        NetworkView {
            topology: self.topology@,
            weights: layers_of(&self.weights),
            biases: rows_of(&self.biases),
            activation: self.activation,
            mutation_rate: self.mutation_rate,
        }
    }
}

impl Network {
    /// The invariant that every constructor establishes and every method
    /// keeps.
    pub open spec fn well_formed(&self) -> bool {
        self@.well_formed()
    }

    /// A fresh network on the given widths, absent layers left out, with
    /// every weight and bias drawn between minus one and one. A mutation rate
    /// above the full rate counts as the full rate.
    pub fn create(topology: Vec<usize>, activation: Activation, mutation_rate: u32) -> (made:
        Result<Network, NetworkError>)
        ensures
            made is Ok <==> compacted(topology@).len() >= 2,
            made is Err ==> made == Err::<Network, NetworkError>(NetworkError::InvalidTopology),
            made matches Ok(net) ==> {
                &&& net@.well_formed()
                &&& net@.fresh()
                &&& net@.topology == compacted(topology@)
                &&& net@.activation == activation
                &&& net@.mutation_rate == clamped_rate(mutation_rate)
            },
    {
        let widths = compact(&topology);
        if widths.len() < 2 {
            return Err(NetworkError::InvalidTopology);
        }
        proof {
            lemma_compacted_positive(topology@);
        }
        let mut weights: Vec<Vec<Vec<i64>>> = Vec::new();
        let mut biases: Vec<Vec<i64>> = Vec::new();
        let layers: usize = widths.len() - 1;
        let mut l: usize = 0;
        while l < layers
            invariant
                layers == widths@.len() - 1,
                l <= layers,
                weights@.len() == l,
                biases@.len() == l,
                forall|k: int|
                    0 <= k < l ==> matrix_shaped(
                        #[trigger] layers_of(&weights)[k],
                        widths@[k + 1] as int,
                        widths@[k] as int,
                    ),
                forall|k: int| 0 <= k < l ==> matrix_within_unit(#[trigger] layers_of(&weights)[k]),
                forall|k: int|
                    0 <= k < l ==> (#[trigger] rows_of(&biases)[k]).len() == widths@[k + 1],
                forall|k: int| 0 <= k < l ==> row_within_unit(#[trigger] rows_of(&biases)[k]),
            decreases layers - l,
        {
            let matrix = draw_matrix(widths[l + 1], widths[l]);
            let row = draw_row(widths[l + 1]);
            let ghost earlier_weights = layers_of(&weights);
            let ghost earlier_biases = rows_of(&biases);
            weights.push(matrix);
            biases.push(row);
            proof {
                assert(layers_of(&weights) =~= earlier_weights.push(rows_of(&matrix)));
                assert(rows_of(&biases) =~= earlier_biases.push(row@));
            }
            l += 1;
        }
        let rate: u32 = if mutation_rate > FULL_RATE {
            FULL_RATE
        } else {
            mutation_rate
        };
        Ok(Network { topology: widths, weights, biases, activation, mutation_rate: rate })
    }

    /// The widths of the layers, input layer first.
    pub fn topology(&self) -> (widths: &Vec<usize>)
        ensures
            widths@ == self@.topology,
    {
        &self.topology
    }

    /// The weight matrices, one for every layer after the input layer.
    pub fn weights(&self) -> (weights: &Vec<Vec<Vec<i64>>>)
        ensures
            layers_of(weights) == self@.weights,
    {
        &self.weights
    }

    /// The bias rows, one for every layer after the input layer.
    pub fn biases(&self) -> (biases: &Vec<Vec<i64>>)
        ensures
            rows_of(biases) == self@.biases,
    {
        &self.biases
    }

    /// The activation applied when the network is evaluated.
    pub fn activation(&self) -> (activation: Activation)
        ensures
            activation == self@.activation,
    {
        self.activation
    }

    /// The mutation rate, in millionths.
    pub fn mutation_rate(&self) -> (rate: u32)
        ensures
            rate == self@.mutation_rate,
    {
        self.mutation_rate
    }

    /// The number of values that the network takes.
    pub fn input_width(&self) -> (width: usize)
        requires
            self.well_formed(),
        ensures
            width == self@.topology[0],
    {
        self.topology[0]
    }

    /// The number of values that the network gives.
    pub fn output_width(&self) -> (width: usize)
        requires
            self.well_formed(),
        ensures
            width == self@.topology.last(),
    {
        self.topology[self.topology.len() - 1]
    }

    /// Whether an input vector of the given length can be fed to the network.
    pub fn check_input(&self, length: usize) -> (checked: Result<(), NetworkError>)
        requires
            self.well_formed(),
        ensures
            checked is Ok <==> length == self@.topology[0],
            checked is Err ==> checked == Err::<(), NetworkError>(
                NetworkError::DimensionMismatch,
            ),
    {
        if length == self.topology[0] {
            Ok(())
        } else {
            Err(NetworkError::DimensionMismatch)
        }
    }

    /// A network equal to this one in every part.
    pub fn duplicate(&self) -> (copy: Network)
        ensures
            copy@ == self@,
    {
        let topology = self.topology.clone();
        let mut weights: Vec<Vec<Vec<i64>>> = Vec::new();
        let mut biases: Vec<Vec<i64>> = Vec::new();
        let mut l: usize = 0;
        while l < self.weights.len()
            invariant
                l <= self.weights@.len(),
                weights@.len() == l,
                layers_of(&weights) == layers_of(&self.weights).take(l as int),
            decreases self.weights@.len() - l,
        {
            let mut matrix: Vec<Vec<i64>> = Vec::new();
            let mut r: usize = 0;
            while r < self.weights[l].len()
                invariant
                    l < self.weights@.len(),
                    r <= self.weights@[l as int]@.len(),
                    matrix@.len() == r,
                    rows_of(&matrix) == rows_of(&self.weights@[l as int]).take(r as int),
                decreases self.weights@[l as int]@.len() - r,
            {
                let row = self.weights[l][r].clone();
                let ghost earlier = rows_of(&matrix);
                matrix.push(row);
                proof {
                    assert(rows_of(&matrix) =~= earlier.push(row@));
                    assert(rows_of(&matrix) =~= rows_of(&self.weights@[l as int]).take(r + 1));
                }
                r += 1;
            }
            let ghost earlier = layers_of(&weights);
            proof {
                assert(rows_of(&matrix) =~= rows_of(&self.weights@[l as int]));
            }
            weights.push(matrix);
            proof {
                assert(layers_of(&weights) =~= earlier.push(rows_of(&matrix)));
                assert(layers_of(&weights) =~= layers_of(&self.weights).take(l + 1));
            }
            l += 1;
        }
        let mut b: usize = 0;
        while b < self.biases.len()
            invariant
                b <= self.biases@.len(),
                biases@.len() == b,
                rows_of(&biases) == rows_of(&self.biases).take(b as int),
            decreases self.biases@.len() - b,
        {
            let row = self.biases[b].clone();
            let ghost earlier = rows_of(&biases);
            biases.push(row);
            proof {
                assert(rows_of(&biases) =~= earlier.push(row@));
                assert(rows_of(&biases) =~= rows_of(&self.biases).take(b + 1));
            }
            b += 1;
        }
        proof {
            assert(layers_of(&weights) =~= layers_of(&self.weights));
            assert(rows_of(&biases) =~= rows_of(&self.biases));
        }
        Network {
            topology,
            weights,
            biases,
            activation: self.activation,
            mutation_rate: self.mutation_rate,
        }
    }

    /// Uniform crossover: a child on the same widths, with this network's
    /// activation and mutation rate, whose every weight and bias is taken
    /// from this network or from the other, each with even chances.
    pub fn crossover(&self, other: &Network) -> (bred: Result<Network, NetworkError>)
        requires
            self.well_formed(),
            other.well_formed(),
        ensures
            bred is Ok <==> self@.compatible(other@),
            bred is Err ==> bred == Err::<Network, NetworkError>(
                NetworkError::IncompatibleTopology,
            ),
            bred matches Ok(child) ==> {
                &&& child@.well_formed()
                &&& child@.topology == self@.topology
                &&& child@.activation == self@.activation
                &&& child@.mutation_rate == self@.mutation_rate
                &&& child@.mixes(self@, other@)
                &&& (self@.weights == other@.weights && self@.biases == other@.biases) ==> child@
                    == self@
            },
    {
        if !same_widths(&self.topology, &other.topology) || self.activation != other.activation {
            return Err(NetworkError::IncompatibleTopology);
        }
        let mut weights: Vec<Vec<Vec<i64>>> = Vec::new();
        let mut biases: Vec<Vec<i64>> = Vec::new();
        let mut l: usize = 0;
        while l < self.weights.len()
            invariant
                self.well_formed(),
                other.well_formed(),
                self@.topology == other@.topology,
                l <= self.weights@.len(),
                weights@.len() == l,
                biases@.len() == l,
                forall|k: int|
                    0 <= k < l ==> matrix_mixes(
                        #[trigger] layers_of(&weights)[k],
                        self@.weights[k],
                        other@.weights[k],
                    ),
                forall|k: int|
                    0 <= k < l ==> row_mixes(
                        #[trigger] rows_of(&biases)[k],
                        self@.biases[k],
                        other@.biases[k],
                    ),
            decreases self.weights@.len() - l,
        {
            proof {
                let (mine, theirs) = (self@.weights[l as int], other@.weights[l as int]);
                assert(matrix_shaped(
                    mine,
                    self@.topology[l + 1] as int,
                    self@.topology[l as int] as int,
                ));
                assert(matrix_shaped(
                    theirs,
                    self@.topology[l + 1] as int,
                    self@.topology[l as int] as int,
                ));
                assert(self@.biases[l as int].len() == other@.biases[l as int].len());
            }
            let matrix = mix_matrices(&self.weights[l], &other.weights[l]);
            let row = mix_rows(&self.biases[l], &other.biases[l]);
            let ghost earlier_weights = layers_of(&weights);
            let ghost earlier_biases = rows_of(&biases);
            weights.push(matrix);
            biases.push(row);
            proof {
                assert(layers_of(&weights) =~= earlier_weights.push(rows_of(&matrix)));
                assert(rows_of(&biases) =~= earlier_biases.push(row@));
            }
            l += 1;
        }
        let child = Network {
            topology: self.topology.clone(),
            weights,
            biases,
            activation: self.activation,
            mutation_rate: self.mutation_rate,
        };
        proof {
            assert(child@.mixes(self@, other@));
            assert forall|k: int| 0 <= k < child@.weights.len() implies matrix_shaped(
                #[trigger] child@.weights[k],
                child@.topology[k + 1] as int,
                child@.topology[k] as int,
            ) by {
                let (c, f, s) = (child@.weights[k], self@.weights[k], other@.weights[k]);
                assert(matrix_mixes(c, f, s));
                assert(matrix_shaped(f, self@.topology[k + 1] as int, self@.topology[k] as int));
                assert forall|r: int| 0 <= r < c.len() implies (#[trigger] c[r]).len()
                    == self@.topology[k] by {
                    assert(row_mixes(c[r], f[r], s[r]));
                }
            }
            assert forall|k: int| 0 <= k < child@.biases.len() implies (#[trigger] child@.biases[k]).len()
                == child@.topology[k + 1] by {
                assert(row_mixes(child@.biases[k], self@.biases[k], other@.biases[k]));
            }
            if self@.weights == other@.weights && self@.biases == other@.biases {
                lemma_mix_of_equals(child@, self@, other@);
            }
        }
        Ok(child)
    }

    /// Mutates every weight and every bias on its own: with probability
    /// `rate` (in millionths; more than the full rate counts as the full
    /// rate) the value moves by a random step that is not zero and not larger
    /// than `MAX_STEP`. Widths, activation and the stored mutation rate stay.
    pub fn mutate_in_place(&mut self, rate: u32)
        requires
            old(self).well_formed(),
        ensures
            final(self)@.well_formed(),
            final(self)@.topology == old(self)@.topology,
            final(self)@.activation == old(self)@.activation,
            final(self)@.mutation_rate == old(self)@.mutation_rate,
            final(self)@.drifted_from(old(self)@, rate),
            rate == 0 ==> final(self)@ == old(self)@,
    {
        let mut weights: Vec<Vec<Vec<i64>>> = Vec::new();
        let mut biases: Vec<Vec<i64>> = Vec::new();
        let mut l: usize = 0;
        while l < self.weights.len()
            invariant
                self.well_formed(),
                l <= self.weights@.len(),
                weights@.len() == l,
                biases@.len() == l,
                forall|k: int|
                    0 <= k < l ==> matrix_drifted(
                        self@.weights[k],
                        #[trigger] layers_of(&weights)[k],
                        rate,
                    ),
                forall|k: int|
                    0 <= k < l ==> row_drifted(
                        self@.biases[k],
                        #[trigger] rows_of(&biases)[k],
                        rate,
                    ),
            decreases self.weights@.len() - l,
        {
            let matrix = drift_matrix(&self.weights[l], rate);
            let row = drift_row(&self.biases[l], rate);
            let ghost earlier_weights = layers_of(&weights);
            let ghost earlier_biases = rows_of(&biases);
            weights.push(matrix);
            biases.push(row);
            proof {
                assert(layers_of(&weights) =~= earlier_weights.push(rows_of(&matrix)));
                assert(rows_of(&biases) =~= earlier_biases.push(row@));
            }
            l += 1;
        }
        let ghost before = self@;
        self.weights = weights;
        self.biases = biases;
        proof {
            let after = self@;
            assert(after.drifted_from(before, rate));
            assert forall|k: int| 0 <= k < after.weights.len() implies matrix_shaped(
                #[trigger] after.weights[k],
                after.topology[k + 1] as int,
                after.topology[k] as int,
            ) by {
                let (a, b) = (after.weights[k], before.weights[k]);
                assert(matrix_drifted(b, a, rate));
                assert(matrix_shaped(b, before.topology[k + 1] as int, before.topology[k] as int));
                assert forall|r: int| 0 <= r < a.len() implies (#[trigger] a[r]).len()
                    == before.topology[k] by {
                    assert(row_drifted(b[r], a[r], rate));
                }
            }
            assert forall|k: int| 0 <= k < after.biases.len() implies (#[trigger] after.biases[k]).len()
                == after.topology[k + 1] by {
                assert(row_drifted(before.biases[k], after.biases[k], rate));
            }
            if rate == 0 {
                lemma_drift_at_zero(after, before);
            }
        }
    }

    /// The record of this network, for a model file.
    pub fn export(&self) -> (record: NetworkRecord)
        ensures
            record@ == self@,
    {
        let copy = self.duplicate();
        NetworkRecord {
            topology: copy.topology,
            weights: copy.weights,
            biases: copy.biases,
            activation: copy.activation,
            mutation_rate: copy.mutation_rate,
        }
    }

    /// The network that a record describes. A record with fewer than two
    /// layers of positive width is refused for its topology; one that holds a
    /// layer of width zero, or whose matrices and bias rows do not have the
    /// shapes its widths ask for, is refused for its dimensions. Nothing is
    /// cut or filled up. A mutation rate above the full rate counts as the
    /// full rate.
    pub fn import(record: NetworkRecord) -> (read: Result<Network, NetworkError>)
        ensures
            match read {
                Ok(net) => spec_import(record@) == Ok::<NetworkView, NetworkError>(net@)
                    && net@.well_formed(),
                Err(error) => spec_import(record@) == Err::<NetworkView, NetworkError>(error),
            },
    {
        let kept = compact(&record.topology);
        if kept.len() < 2 {
            return Err(NetworkError::InvalidTopology);
        }
        proof {
            lemma_compacted_positive(record.topology@);
        }
        if !all_positive(&record.topology) {
            return Err(NetworkError::DimensionMismatch);
        }
        proof {
            lemma_compacted_fixed(record.topology@);
        }
        if !shapes_agree(&record) {
            return Err(NetworkError::DimensionMismatch);
        }
        let rate: u32 = if record.mutation_rate > FULL_RATE {
            FULL_RATE
        } else {
            record.mutation_rate
        };
        Ok(
            Network {
                topology: record.topology,
                weights: record.weights,
                biases: record.biases,
                activation: record.activation,
                mutation_rate: rate,
            },
        )
    }

    /// Rebinds the activation used at evaluation; no parameter changes.
    pub fn change_activation(&mut self, activation: Activation)
        ensures
            final(self)@ == (NetworkView { activation, ..old(self)@ }),
    {
        self.activation = activation;
    }

    /// Sets the stored mutation rate, brought into the range of a
    /// probability; no parameter changes.
    pub fn change_mutation_rate(&mut self, rate: u32)
        ensures
            final(self)@ == (NetworkView { mutation_rate: clamped_rate(rate), ..old(self)@ }),
    {
        self.mutation_rate = if rate > FULL_RATE {
            FULL_RATE
        } else {
            rate
        };
    }
}

} // verus!
