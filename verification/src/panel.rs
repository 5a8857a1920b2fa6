//! The settings that an operator changes while a run is on: the pace, the
//! activation picked from a list, the hidden layers shown in a fixed number
//! of slots, and what a change of settings does to the population.

use vstd::prelude::*;
use crate::network::Activation;
use crate::population::{Population, INPUT_WIDTH, OUTPUT_WIDTH};
use crate::topology::{assembled, same_widths};

verus! {

/// The largest number of ticks run between two frames.
pub const MAX_PACE: u32 = 1000;

/// The number of slots in which hidden layers are shown.
pub const LAYER_SLOTS: usize = 3;

/// The settings of a run that can change while it is on.
pub struct Settings {
    /// The widths of the hidden layers; zero leaves a layer out.
    pub hidden_layers: Vec<usize>,
    /// The mutation rate, in millionths.
    pub mutation_rate: u32,
    /// The activation of the networks.
    pub activation: Activation,
}

/// The pace after one step down: a tenth, and not less than one.
pub open spec fn spec_slower(pace: u32) -> u32 {
    if pace / 10 < 1 {
        1
    } else {
        pace / 10
    }
}

/// The pace after one step up: ten times as much, and not more than
/// `MAX_PACE`.
pub open spec fn spec_faster(pace: u32) -> u32 {
    if pace * 10 > MAX_PACE {
        MAX_PACE
    } else {
        (pace * 10) as u32
    }
}

/// The activation at a place of the list that the operator picks from.
pub open spec fn spec_activation_at(index: usize) -> Option<Activation> {
    if index == 0 {
        Some(Activation::ReLU)
    } else if index == 1 {
        Some(Activation::Sigmoid)
    } else if index == 2 {
        Some(Activation::Tanh)
    } else {
        None
    }
}

/// The place of an activation in that list.
pub open spec fn spec_activation_index(activation: Activation) -> usize {
    match activation {
        Activation::ReLU => 0,
        Activation::Sigmoid => 1,
        Activation::Tanh => 2,
    }
}

/// The hidden layers of a topology in a fixed number of slots: the widths
/// between the first and the last, in order, as far as the slots go, and
/// zero in the slots that are left.
pub open spec fn spec_hidden_layers(widths: Seq<usize>, slots: usize) -> Seq<usize> {
    Seq::new(
        slots as nat,
        |i: int|
            if i + 2 < widths.len() {
                widths[i + 1]
            } else {
                0usize
            },
    )
}

/// Every activation stands in the list at its own place.
pub proof fn lemma_activation_has_its_place(activation: Activation)
    ensures
        spec_activation_at(spec_activation_index(activation)) == Some(activation),
{
}

/// One step down in pace.
pub fn slower(pace: u32) -> (next: u32)
    ensures
        next == spec_slower(pace),
{
    if pace / 10 < 1 {
        1
    } else {
        pace / 10
    }
}

/// One step up in pace.
pub fn faster(pace: u32) -> (next: u32)
    ensures
        next == spec_faster(pace),
{
    if pace > MAX_PACE / 10 {
        MAX_PACE
    } else {
        pace * 10
    }
}

/// The activation at a place of the list.
pub fn activation_at(index: usize) -> (activation: Option<Activation>)
    ensures
        activation == spec_activation_at(index),
{
    if index == 0 {
        Some(Activation::ReLU)
    } else if index == 1 {
        Some(Activation::Sigmoid)
    } else if index == 2 {
        Some(Activation::Tanh)
    } else {
        None
    }
}

/// The place of an activation in the list.
pub fn activation_index(activation: Activation) -> (index: usize)
    ensures
        index == spec_activation_index(activation),
{
    match activation {
        Activation::ReLU => 0,
        Activation::Sigmoid => 1,
        Activation::Tanh => 2,
    }
}

/// The hidden layers of a topology, in a fixed number of slots.
pub fn hidden_layers(widths: &Vec<usize>, slots: usize) -> (layers: Vec<usize>)
    ensures
        layers@ == spec_hidden_layers(widths@, slots),
{
    let mut layers: Vec<usize> = Vec::new();
    while layers.len() < slots
        invariant
            layers@.len() <= slots,
            forall|i: int|
                0 <= i < layers@.len() ==> layers@[i] == if i + 2 < widths@.len() {
                    widths@[i + 1]
                } else {
                    0usize
                },
        decreases slots - layers@.len(),
    {
        let i: usize = layers.len();
        if i < widths.len() && widths.len() - i > 2 {
            layers.push(widths[i + 1]);
        } else {
            layers.push(0);
        }
    }
    proof {
        assert(layers@ =~= spec_hidden_layers(widths@, slots));
    }
    layers
}

/// What a change of settings does to a population.
#[derive(Clone, Copy, Debug, PartialEq, Eq, Structural)]
pub enum Change {
    /// The settings are as they were.
    Nothing,
    /// The generation goes on with another mutation rate or activation.
    Retuned,
    /// The run has started over on other hidden layers.
    Rebuilt,
}

/// Brings a population in line with the settings after the operator has
/// changed them. Other hidden layers start the run over, on fresh networks
/// at generation zero; that is the only way in which widths ever change.
/// Without that, another mutation rate or activation is taken over by the
/// generation in progress.
pub fn apply_settings(
    population: &mut Population,
    previous: &Settings,
    current: &Settings,
) -> (change: Change)
    requires
        old(population).well_formed(),
    ensures
        final(population).well_formed(),
        change == if previous.hidden_layers@ != current.hidden_layers@ {
            Change::Rebuilt
        } else if previous.mutation_rate != current.mutation_rate || previous.activation
            != current.activation {
            Change::Retuned
        } else {
            Change::Nothing
        },
        change == Change::Nothing ==> final(population)@ == old(population)@,
        change == Change::Retuned ==> final(population)@ == {
            let retuned = if previous.mutation_rate != current.mutation_rate {
                old(population)@.retuned(current.mutation_rate)
            } else {
                old(population)@
            };
            if previous.activation != current.activation {
                retuned.rebound(current.activation)
            } else {
                retuned
            }
        },
        change == Change::Rebuilt ==> {
            let retuned = if previous.mutation_rate != current.mutation_rate {
                old(population)@.retuned(current.mutation_rate)
            } else {
                old(population)@
            };
            let rebound = if previous.activation != current.activation {
                retuned.rebound(current.activation)
            } else {
                retuned
            };
            &&& final(population)@.fresh_start()
            &&& final(population)@.members.len() == old(population)@.members.len()
            &&& final(population)@.tracking_policy == old(population)@.tracking_policy
            &&& final(population)@.topology == assembled(
                INPUT_WIDTH,
                current.hidden_layers@,
                OUTPUT_WIDTH,
            )
            &&& final(population)@.mutation_rate == rebound.mutation_rate
            &&& final(population)@.activation == rebound.activation
        },
{
    let mut change = Change::Nothing;
    if previous.mutation_rate != current.mutation_rate {
        population.change_mutation_rate(current.mutation_rate);
        change = Change::Retuned;
    }
    if previous.activation != current.activation {
        population.change_activation(current.activation);
        change = Change::Retuned;
    }
    if !same_widths(&previous.hidden_layers, &current.hidden_layers) {
        population.change_topology(current.hidden_layers.clone());
        change = Change::Rebuilt;
    }
    change
}

} // verus!
