//! The population controller: the members of one generation, their fitness
//! and survival as the generation runs, the individual that is tracked, and
//! the step from one generation to the next.

use vstd::prelude::*;
use crate::network::{clamped_rate, Activation, Network, NetworkView};
use crate::parameters::FULL_RATE;
use crate::error::NetworkError;
use crate::selection::{
    best, best_among, lemma_best_upto, lemma_ranking_starts_with_best, rank, select,
};
use crate::topology::{
    assemble, assembled, compact, compacted, lemma_assembled_usable, lemma_compacted_fixed,
    lemma_compacted_positive, usable,
};

verus! {

/// The number of values that the environment shows a network each tick.
pub const INPUT_WIDTH: usize = 4;

/// The number of actions that the environment takes from a network.
pub const OUTPUT_WIDTH: usize = 4;

/// Which individual comes into focus when the tracked one dies or a
/// generation ends.
#[derive(Clone, Copy, Debug, PartialEq, Eq, Structural)]
pub enum TrackingPolicy {
    /// Never re-track; the operator picks.
    Manual,
    /// When the tracked member dies, track the fittest member still alive.
    TrackBestAlive,
    /// Track the first of the ranking of each new generation.
    TrackCurrentBest,
}

/// What an environment reports of its member after one tick.
#[derive(Clone, Copy, Debug, PartialEq, Eq, Structural)]
pub struct StepReport {
    /// The fitness that the member has reached.
    pub fitness: u64,
    /// Whether the tick ended the member's run.
    pub terminal: bool,
}

/// One individual of a generation.
pub struct Member {
    network: Network,
    fitness: u64,
    alive: bool,
}

/// An individual as contracts see it.
pub struct MemberView {
    pub network: NetworkView,
    pub fitness: u64,
    pub alive: bool,
}

impl View for Member {
    type V = MemberView;

    closed spec fn view(&self) -> MemberView {
        MemberView { network: self.network@, fitness: self.fitness, alive: self.alive }
    }
}

impl Member {
    /// The member's network.
    pub fn network(&self) -> (network: &Network)
        ensures
            network@ == self@.network,
    {
        &self.network
    }

    /// The fitness that the member has reached in this generation.
    pub fn fitness(&self) -> (fitness: u64)
        ensures
            fitness == self@.fitness,
    {
        self.fitness
    }

    /// Whether the member is still running.
    pub fn alive(&self) -> (alive: bool)
        ensures
            alive == self@.alive,
    {
        self.alive
    }
}

/// The population of one generation.
pub struct Population {
    members: Vec<Member>,
    generation_index: u64,
    tracked_index: usize,
    tracking_policy: TrackingPolicy,
    topology: Vec<usize>,
    mutation_rate: u32,
    activation: Activation,
}

/// A population as contracts see it.
pub struct PopulationView {
    pub members: Seq<MemberView>,
    pub generation_index: u64,
    pub tracked_index: usize,
    pub tracking_policy: TrackingPolicy,
    pub topology: Seq<usize>,
    pub mutation_rate: u32,
    pub activation: Activation,
}

/// The views of the members of a population, in order.
pub closed spec fn members_of(members: &Vec<Member>) -> Seq<MemberView> {
    Seq::new(members@.len(), |i: int| members@[i]@)
}

/// A member after a tick: a dead one stays as it is; a live one keeps its
/// network, takes the reported fitness unless that is less than what it had,
/// and dies if the tick was its last.
pub open spec fn stepped_member(member: MemberView, report: StepReport) -> MemberView {
    if member.alive {
        MemberView {
            network: member.network,
            fitness: if report.fitness > member.fitness {
                report.fitness
            } else {
                member.fitness
            },
            alive: !report.terminal,
        }
    } else {
        member
    }
}

/// The child was bred from the two parents: crossed from them, then mutated
/// at `rate`.
pub open spec fn bred_from(
    child: NetworkView,
    first: NetworkView,
    second: NetworkView,
    rate: u32,
) -> bool {
    exists|mixed: NetworkView| #[trigger]
        mixed.mixes(first, second) && child.drifted_from(mixed, rate)
}

/// The network is a child of members `p` and `q` of the population: bred from
/// their networks at the population's mutation rate, on their widths, with
/// the population's activation and mutation rate as its own.
pub open spec fn descends(child: NetworkView, parents: PopulationView, p: int, q: int) -> bool {
    &&& 0 <= p < parents.members.len()
    &&& 0 <= q < parents.members.len()
    &&& child.topology == parents.topology
    &&& child.activation == parents.activation
    &&& child.mutation_rate == parents.mutation_rate
    &&& bred_from(
        child,
        parents.members[p].network,
        parents.members[q].network,
        parents.mutation_rate,
    )
}

/// The network is a child of two members of the population.
pub open spec fn offspring(child: NetworkView, parents: PopulationView) -> bool {
    exists|p: int, q: int| #[trigger] descends(child, parents, p, q)
}

/// A member whose network runs with another mutation rate, if it is alive.
pub open spec fn retuned_member(member: MemberView, rate: u32) -> MemberView {
    if member.alive {
        MemberView {
            network: NetworkView { mutation_rate: clamped_rate(rate), ..member.network },
            ..member
        }
    } else {
        member
    }
}

/// A member whose network runs with another activation, if it is alive.
pub open spec fn rebound_member(member: MemberView, activation: Activation) -> MemberView {
    if member.alive {
        MemberView { network: NetworkView { activation, ..member.network }, ..member }
    } else {
        member
    }
}

impl PopulationView {
    /// The fitness of every member, in order.
    pub open spec fn fitness(self) -> Seq<u64> {
        Seq::new(self.members.len(), |i: int| self.members[i].fitness)
    }

    /// Which members are alive, in order.
    pub open spec fn alive(self) -> Seq<bool> {
        Seq::new(self.members.len(), |i: int| self.members[i].alive)
    }

    /// Every member counted in, alive or not.
    pub open spec fn everyone(self) -> Seq<bool> {
        Seq::new(self.members.len(), |i: int| true)
    }

    /// The generation is complete: no member is alive.
    pub open spec fn complete(self) -> bool {
        forall|i: int| 0 <= i < self.members.len() ==> !(#[trigger] self.members[i]).alive
    }

    /// The invariant of every population: it has members, one of them is
    /// tracked, and all networks are well formed on the population's widths.
    pub open spec fn well_formed(self) -> bool {
        &&& self.members.len() > 0
        &&& self.tracked_index < self.members.len()
        &&& usable(self.topology)
        &&& self.mutation_rate <= FULL_RATE
        &&& forall|i: int|
            0 <= i < self.members.len() ==> {
                &&& (#[trigger] self.members[i]).network.well_formed()
                &&& self.members[i].network.topology == self.topology
            }
    }

    /// The start of a run: generation zero, the first member tracked, every
    /// member alive without fitness, on a fresh network with the population's
    /// activation and mutation rate.
    pub open spec fn fresh_start(self) -> bool {
        &&& self.generation_index == 0
        &&& self.tracked_index == 0
        &&& forall|i: int|
            0 <= i < self.members.len() ==> {
                &&& (#[trigger] self.members[i]).alive
                &&& self.members[i].fitness == 0
                &&& self.members[i].network.fresh()
                &&& self.members[i].network.activation == self.activation
                &&& self.members[i].network.mutation_rate == self.mutation_rate
            }
    }

    /// This population is a next generation of `before`: as many members,
    /// all alive without fitness; the first is the best of `before`, fitness
    /// first and place second, with its network unchanged; every other is a
    /// child of two members of `before`; the first member is tracked.
    pub open spec fn succeeds(self, before: PopulationView) -> bool {
        &&& self.members.len() == before.members.len()
        &&& self.generation_index == before.generation_index + 1
        &&& self.tracked_index == 0
        &&& self.tracking_policy == before.tracking_policy
        &&& self.topology == before.topology
        &&& self.mutation_rate == before.mutation_rate
        &&& self.activation == before.activation
        &&& forall|i: int|
            0 <= i < self.members.len() ==> (#[trigger] self.members[i]).alive
                && self.members[i].fitness == 0
        &&& match best_among(before.fitness(), before.everyone()) {
            Some(elite) => self.members[0].network == before.members[elite].network,
            None => false,
        }
        &&& forall|k: int|
            1 <= k < self.members.len() ==> #[trigger] offspring(self.members[k].network, before)
    }

    /// The population with another mutation rate, brought into range, for
    /// the children to come and for every member alive.
    pub open spec fn retuned(self, rate: u32) -> PopulationView {
        PopulationView {
            members: Seq::new(self.members.len(), |i: int| retuned_member(self.members[i], rate)),
            mutation_rate: clamped_rate(rate),
            ..self
        }
    }

    /// The population with another activation, for the children to come and
    /// for every member alive.
    pub open spec fn rebound(self, activation: Activation) -> PopulationView {
        PopulationView {
            members: Seq::new(
                self.members.len(),
                |i: int| rebound_member(self.members[i], activation),
            ),
            activation,
            ..self
        }
    }

    /// The population with the focus on `index`, if there is such a member.
    pub open spec fn focused(self, index: usize) -> PopulationView {
        PopulationView {
            tracked_index: if index < self.members.len() {
                index
            } else {
                self.tracked_index
            },
            ..self
        }
    }

    /// The population with the focus on the best member, among all if
    /// `overall`, else among those alive; as it is if there is none.
    pub open spec fn focused_on_best(self, overall: bool) -> PopulationView {
        let eligible = if overall {
            self.everyone()
        } else {
            self.alive()
        };
        PopulationView {
            tracked_index: match best_among(self.fitness(), eligible) {
                Some(b) => b as usize,
                None => self.tracked_index,
            },
            ..self
        }
    }

    /// The number of members that are fitter than member `index`.
    pub open spec fn fitter_than(self, index: int) -> nat {
        let mark = self.members[index].fitness;
        self.fitness().filter(|f: u64| f > mark).len()
    }

    /// The population after one tick in which member `i` got `reports[i]`.
    /// Under `TrackBestAlive`, when the tracked member was alive and is no
    /// more, the best member still alive is tracked, if there is one.
    pub open spec fn stepped(self, reports: Seq<StepReport>) -> PopulationView {
        let members = Seq::new(
            self.members.len(),
            |i: int| stepped_member(self.members[i], reports[i]),
        );
        let moved = PopulationView { members, ..self };
        let focus = self.tracked_index as int;
        let retrack = self.tracking_policy == TrackingPolicy::TrackBestAlive
            && self.members[focus].alive && !members[focus].alive;
        PopulationView {
            tracked_index: if retrack {
                match best_among(moved.fitness(), moved.alive()) {
                    Some(b) => b as usize,
                    None => self.tracked_index,
                }
            } else {
                self.tracked_index
            },
            ..moved
        }
    }
}

/// Within a generation no tick lowers a member's fitness, brings a dead
/// member back or touches a network, and the tracked index stays that of a
/// member.
pub proof fn lemma_step_keeps_order(population: PopulationView, reports: Seq<StepReport>)
    requires
        population.well_formed(),
        reports.len() == population.members.len(),
    ensures
        population.stepped(reports).well_formed(),
        population.stepped(reports).members.len() == population.members.len(),
        forall|i: int|
            0 <= i < population.members.len() ==> {
                let before = #[trigger] population.members[i];
                let after = population.stepped(reports).members[i];
                &&& after.fitness >= before.fitness
                &&& after.alive ==> before.alive
                &&& after.network == before.network
            },
{
    let after = population.stepped(reports);
    let moved = PopulationView { tracked_index: population.tracked_index, ..after };
    lemma_best_upto(moved.fitness(), moved.alive(), moved.members.len());
    assert forall|i: int| 0 <= i < after.members.len() implies {
        &&& (#[trigger] after.members[i]).network.well_formed()
        &&& after.members[i].network.topology == after.topology
    } by {
        assert(after.members[i].network == population.members[i].network);
    }
}

/// The member that a next generation carries over is a fittest one: no
/// member of the generation before was fitter than the one whose network
/// the first member has.
pub proof fn lemma_succession_keeps_fittest(after: PopulationView, before: PopulationView)
    requires
        after.succeeds(before),
    ensures
        exists|elite: int|
            {
                &&& 0 <= elite < before.members.len()
                &&& after.members[0].network == (#[trigger] before.members[elite]).network
                &&& forall|j: int|
                    0 <= j < before.members.len() ==> (#[trigger] before.members[j]).fitness
                        <= before.members[elite].fitness
            },
{
    lemma_best_upto(before.fitness(), before.everyone(), before.members.len());
    let elite = best_among(before.fitness(), before.everyone()).unwrap();
    assert forall|j: int| 0 <= j < before.members.len() implies (#[trigger] before.members[j]).fitness
        <= before.members[elite].fitness by {
        assert(before.everyone()[j]);
        assert(before.fitness()[j] == before.members[j].fitness);
    }
    assert(after.members[0].network == before.members[elite].network);
}

impl View for Population {
    type V = PopulationView;

    closed spec fn view(&self) -> PopulationView {
        PopulationView {
            members: members_of(&self.members),
            generation_index: self.generation_index,
            tracked_index: self.tracked_index,
            tracking_policy: self.tracking_policy,
            topology: self.topology@,
            mutation_rate: self.mutation_rate,
            activation: self.activation,
        }
    }
}

/// Fresh members on the given widths.
fn fresh_members(
    size: usize,
    topology: &Vec<usize>,
    mutation_rate: u32,
    activation: Activation,
) -> (members: Vec<Member>)
    requires
        usable(topology@),
        compacted(topology@) == topology@,
        mutation_rate <= FULL_RATE,
    ensures
        members@.len() == size,
        forall|i: int|
            0 <= i < size ==> {
                &&& (#[trigger] members_of(&members)[i]).alive
                &&& members_of(&members)[i].fitness == 0
                &&& members_of(&members)[i].network.well_formed()
                &&& members_of(&members)[i].network.fresh()
                &&& members_of(&members)[i].network.topology == topology@
                &&& members_of(&members)[i].network.activation == activation
                &&& members_of(&members)[i].network.mutation_rate == mutation_rate
            },
{
    let mut members: Vec<Member> = Vec::new();
    while members.len() < size
        invariant
            usable(topology@),
            compacted(topology@) == topology@,
            mutation_rate <= FULL_RATE,
            members@.len() <= size,
            forall|i: int|
                0 <= i < members@.len() ==> {
                    &&& (#[trigger] members_of(&members)[i]).alive
                    &&& members_of(&members)[i].fitness == 0
                    &&& members_of(&members)[i].network.well_formed()
                    &&& members_of(&members)[i].network.fresh()
                    &&& members_of(&members)[i].network.topology == topology@
                    &&& members_of(&members)[i].network.activation == activation
                    &&& members_of(&members)[i].network.mutation_rate == mutation_rate
                },
        decreases size - members@.len(),
    {
        let network = match Network::create(topology.clone(), activation, mutation_rate) {
            Ok(network) => network,
            Err(_) => unreached(),
        };
        let ghost earlier = members_of(&members);
        let member = Member { network, fitness: 0, alive: true };
        members.push(member);
        proof {
            assert(members_of(&members) =~= earlier.push(member@));
        }
    }
    members
}

impl Population {
    /// The invariant that every constructor establishes and every method
    /// keeps.
    pub open spec fn well_formed(&self) -> bool {
        self@.well_formed()
    }

    /// A population of `size` fresh networks on the given widths, absent
    /// layers left out, at generation zero, tracking its first member.
    pub fn on_topology(
        size: usize,
        topology: Vec<usize>,
        mutation_rate: u32,
        activation: Activation,
        tracking_policy: TrackingPolicy,
    ) -> (made: Result<Population, NetworkError>)
        requires
            size > 0,
        ensures
            made is Ok <==> compacted(topology@).len() >= 2,
            made is Err ==> made == Err::<Population, NetworkError>(
                NetworkError::InvalidTopology,
            ),
            made matches Ok(population) ==> {
                &&& population@.well_formed()
                &&& population@.fresh_start()
                &&& population@.members.len() == size
                &&& population@.tracking_policy == tracking_policy
                &&& population@.topology == compacted(topology@)
                &&& population@.mutation_rate == clamped_rate(mutation_rate)
                &&& population@.activation == activation
            },
    {
        let widths = compact(&topology);
        if widths.len() < 2 {
            return Err(NetworkError::InvalidTopology);
        }
        proof {
            lemma_compacted_positive(topology@);
            lemma_compacted_fixed(widths@);
        }
        let rate: u32 = if mutation_rate > FULL_RATE {
            FULL_RATE
        } else {
            mutation_rate
        };
        let members = fresh_members(size, &widths, rate, activation);
        Ok(
            Population {
                members,
                generation_index: 0,
                tracked_index: 0,
                tracking_policy,
                topology: widths,
                mutation_rate: rate,
                activation,
            },
        )
    }

    /// A population of `size` fresh networks between the environment's input
    /// and output layers, with the given hidden layers (width zero: absent),
    /// at generation zero, tracking its first member.
    pub fn construct(
        size: usize,
        hidden_layers: Vec<usize>,
        mutation_rate: u32,
        activation: Activation,
        tracking_policy: TrackingPolicy,
    ) -> (made: Population)
        requires
            size > 0,
        ensures
            made@.well_formed(),
            made@.fresh_start(),
            made@.members.len() == size,
            made@.tracking_policy == tracking_policy,
            made@.topology == assembled(INPUT_WIDTH, hidden_layers@, OUTPUT_WIDTH),
            made@.mutation_rate == clamped_rate(mutation_rate),
            made@.activation == activation,
    {
        let topology = assemble(INPUT_WIDTH, &hidden_layers, OUTPUT_WIDTH);
        proof {
            lemma_assembled_usable(INPUT_WIDTH, hidden_layers@, OUTPUT_WIDTH);
        }
        match Population::on_topology(size, topology, mutation_rate, activation, tracking_policy) {
            Ok(population) => population,
            Err(_) => unreached(),
        }
    }

    /// The number of members.
    pub fn len(&self) -> (count: usize)
        ensures
            count == self@.members.len(),
    {
        self.members.len()
    }

    /// The number of generations completed so far.
    pub fn generation_index(&self) -> (index: u64)
        ensures
            index == self@.generation_index,
    {
        self.generation_index
    }

    /// The index of the member in focus.
    pub fn tracked_index(&self) -> (index: usize)
        ensures
            index == self@.tracked_index,
    {
        self.tracked_index
    }

    /// The policy of automatic tracking.
    pub fn tracking_policy(&self) -> (policy: TrackingPolicy)
        ensures
            policy == self@.tracking_policy,
    {
        self.tracking_policy
    }

    /// The widths of every member's network.
    pub fn topology(&self) -> (widths: &Vec<usize>)
        ensures
            widths@ == self@.topology,
    {
        &self.topology
    }

    /// The mutation rate applied to children, in millionths.
    pub fn mutation_rate(&self) -> (rate: u32)
        ensures
            rate == self@.mutation_rate,
    {
        self.mutation_rate
    }

    /// The activation given to children.
    pub fn activation(&self) -> (activation: Activation)
        ensures
            activation == self@.activation,
    {
        self.activation
    }

    /// The member at an index.
    pub fn member(&self, index: usize) -> (member: &Member)
        requires
            index < self@.members.len(),
        ensures
            member@ == self@.members[index as int],
    {
        &self.members[index]
    }

    /// The member in focus.
    pub fn tracked_member(&self) -> (member: &Member)
        requires
            self.well_formed(),
        ensures
            member@ == self@.members[self@.tracked_index as int],
    {
        &self.members[self.tracked_index]
    }

    /// The fitness of every member, in order.
    pub fn fitnesses(&self) -> (fitness: Vec<u64>)
        ensures
            fitness@ == self@.fitness(),
    {
        let mut fitness: Vec<u64> = Vec::new();
        while fitness.len() < self.members.len()
            invariant
                fitness@.len() <= self.members@.len(),
                forall|i: int| 0 <= i < fitness@.len() ==> fitness@[i] == self@.members[i].fitness,
            decreases self.members@.len() - fitness@.len(),
        {
            let i: usize = fitness.len();
            fitness.push(self.members[i].fitness);
        }
        proof {
            assert(fitness@ =~= self@.fitness());
        }
        fitness
    }

    /// Which members are alive, in order.
    pub fn survivors(&self) -> (alive: Vec<bool>)
        ensures
            alive@ == self@.alive(),
    {
        let mut alive: Vec<bool> = Vec::new();
        while alive.len() < self.members.len()
            invariant
                alive@.len() <= self.members@.len(),
                forall|i: int| 0 <= i < alive@.len() ==> alive@[i] == self@.members[i].alive,
            decreases self.members@.len() - alive@.len(),
        {
            let i: usize = alive.len();
            alive.push(self.members[i].alive);
        }
        proof {
            assert(alive@ =~= self@.alive());
        }
        alive
    }

    /// Whether every member has ended its run.
    pub fn generation_is_complete(&self) -> (complete: bool)
        ensures
            complete == self@.complete(),
    {
        let mut i: usize = 0;
        while i < self.members.len()
            invariant
                i <= self.members@.len(),
                forall|j: int| 0 <= j < i ==> !(#[trigger] self@.members[j]).alive,
            decreases self.members@.len() - i,
        {
            if self.members[i].alive {
                proof {
                    assert(self@.members[i as int].alive);
                }
                return false;
            }
            i += 1;
        }
        true
    }

    /// Takes in what the environments report after one tick, report `i` for
    /// member `i`. Reports for members that were dead already are ignored.
    pub fn step_all(&mut self, reports: &Vec<StepReport>)
        requires
            old(self).well_formed(),
            reports@.len() == old(self)@.members.len(),
        ensures
            final(self)@ == old(self)@.stepped(reports@),
            final(self).well_formed(),
    {
        let ghost before = self@;
        let tracked_was_alive = self.members[self.tracked_index].alive;
        let mut i: usize = 0;
        while i < self.members.len()
            invariant
                i <= self.members@.len(),
                self.members@.len() == before.members.len(),
                reports@.len() == before.members.len(),
                self@ == (PopulationView { members: self@.members, ..before }),
                forall|j: int|
                    0 <= j < i ==> #[trigger] self@.members[j] == stepped_member(
                        before.members[j],
                        reports@[j],
                    ),
                forall|j: int|
                    i <= j < self.members@.len() ==> #[trigger] self@.members[j]
                        == before.members[j],
            decreases self.members@.len() - i,
        {
            let ghost earlier = self@.members;
            if self.members[i].alive {
                let report = reports[i];
                if report.fitness > self.members[i].fitness {
                    self.members[i].fitness = report.fitness;
                }
                self.members[i].alive = !report.terminal;
            }
            proof {
                assert forall|j: int| 0 <= j < self.members@.len() implies #[trigger] self@.members[j]
                    == if j == i {
                    stepped_member(earlier[j], reports@[j])
                } else {
                    earlier[j]
                } by {}
            }
            i += 1;
        }
        proof {
            let members = Seq::new(
                before.members.len(),
                |i: int| stepped_member(before.members[i], reports@[i]),
            );
            assert(self@.members =~= members);
        }
        if self.tracking_policy == TrackingPolicy::TrackBestAlive && tracked_was_alive
            && !self.members[self.tracked_index].alive {
            let fitness = self.fitnesses();
            let alive = self.survivors();
            match best(&fitness, &alive) {
                Some(b) => {
                    proof {
                        lemma_best_upto(fitness@, alive@, fitness@.len());
                    }
                    self.tracked_index = b;
                },
                None => {},
            }
        }
    }
    /// A child of members `p` and `q`: their networks crossed, then mutated
    /// at the population's rate.
    fn breed(&self, p: usize, q: usize) -> (child: Network)
        requires
            self.well_formed(),
            p < self@.members.len(),
            q < self@.members.len(),
        ensures
            child@.well_formed(),
            descends(child@, self@, p as int, q as int),
    {
        let mut first = self.members[p].network.duplicate();
        first.change_activation(self.activation);
        first.change_mutation_rate(self.mutation_rate);
        let mut second = self.members[q].network.duplicate();
        second.change_activation(self.activation);
        let mut child = match first.crossover(&second) {
            Ok(child) => child,
            Err(_) => unreached(),
        };
        let ghost mixed = child@;
        child.mutate_in_place(self.mutation_rate);
        proof {
            assert(mixed.mixes(self@.members[p as int].network, self@.members[q as int].network));
        }
        child
    }

    /// Replaces a complete generation by the next one. The fittest member
    /// (the earliest among equally fit ones) is carried over unchanged as the
    /// first member. Every other member is a child of two parents, each
    /// chosen with a probability in proportion to its fitness, crossed and
    /// then mutated at the population's rate. All members start alive, with
    /// no fitness, and the first one is tracked.
    pub fn reproduce(&mut self)
        requires
            old(self).well_formed(),
            old(self)@.complete(),
            old(self)@.generation_index < u64::MAX,
        ensures
            final(self).well_formed(),
            final(self)@.succeeds(old(self)@),
    {
        let ghost before = self@;
        let fitness = self.fitnesses();
        let order = rank(&fitness);
        let count: usize = fitness.len();
        proof {
            assert(count == before.members.len());
            lemma_ranking_starts_with_best(order@, fitness@);
            assert(before.everyone() =~= Seq::new(fitness@.len(), |i: int| true));
        }
        let elite: usize = order[0];
        let mut next: Vec<Member> = Vec::new();
        let carried = Member {
            network: self.members[elite].network.duplicate(),
            fitness: 0,
            alive: true,
        };
        next.push(carried);
        proof {
            assert(members_of(&next) =~= seq![carried@]);
        }
        while next.len() < self.members.len()
            invariant
                self@ == before,
                self.well_formed(),
                fitness@ == before.fitness(),
                1 <= next@.len() <= self.members@.len(),
                members_of(&next)[0].network == before.members[elite as int].network,
                forall|i: int|
                    0 <= i < next@.len() ==> {
                        &&& (#[trigger] members_of(&next)[i]).alive
                        &&& members_of(&next)[i].fitness == 0
                        &&& members_of(&next)[i].network.well_formed()
                        &&& members_of(&next)[i].network.topology == before.topology
                    },
                forall|k: int|
                    1 <= k < next@.len() ==> #[trigger] offspring(
                        members_of(&next)[k].network,
                        before,
                    ),
            decreases self.members@.len() - next@.len(),
        {
            let p = select(&fitness);
            let q = select(&fitness);
            let child = self.breed(p, q);
            let ghost earlier = members_of(&next);
            let member = Member { network: child, fitness: 0, alive: true };
            next.push(member);
            proof {
                assert(members_of(&next) =~= earlier.push(member@));
                assert forall|k: int| 1 <= k < next@.len() implies #[trigger] offspring(
                    members_of(&next)[k].network,
                    before,
                ) by {
                    if k < earlier.len() {
                        assert(offspring(earlier[k].network, before));
                    } else {
                        assert(descends(members_of(&next)[k].network, before, p as int, q as int));
                    }
                }
            }
        }
        self.members = next;
        self.generation_index = self.generation_index + 1;
        self.tracked_index = 0;
    }

    /// One tick of the whole run: takes in the reports, and when that
    /// completes the generation, replaces it by the next. Says whether a new
    /// generation has begun.
    pub fn update(&mut self, reports: &Vec<StepReport>) -> (begun: bool)
        requires
            old(self).well_formed(),
            reports@.len() == old(self)@.members.len(),
            old(self)@.generation_index < u64::MAX,
        ensures
            final(self).well_formed(),
            begun == old(self)@.stepped(reports@).complete(),
            begun ==> final(self)@.succeeds(old(self)@.stepped(reports@)),
            !begun ==> final(self)@ == old(self)@.stepped(reports@),
    {
        self.step_all(reports);
        if self.generation_is_complete() {
            self.reproduce();
            true
        } else {
            false
        }
    }

    /// Sets the mutation rate for the children to come and for every member
    /// that is alive; the generation goes on.
    pub fn change_mutation_rate(&mut self, rate: u32)
        requires
            old(self).well_formed(),
        ensures
            final(self).well_formed(),
            final(self)@ == old(self)@.retuned(rate),
    {
        let ghost before = self@;
        self.mutation_rate = if rate > FULL_RATE {
            FULL_RATE
        } else {
            rate
        };
        let mut i: usize = 0;
        while i < self.members.len()
            invariant
                i <= self.members@.len(),
                self.members@.len() == before.members.len(),
                self@ == (PopulationView {
                    members: self@.members,
                    mutation_rate: clamped_rate(rate),
                    ..before
                }),
                forall|j: int|
                    0 <= j < i ==> #[trigger] self@.members[j] == retuned_member(
                        before.members[j],
                        rate,
                    ),
                forall|j: int|
                    i <= j < self.members@.len() ==> #[trigger] self@.members[j]
                        == before.members[j],
            decreases self.members@.len() - i,
        {
            let ghost earlier = self@.members;
            if self.members[i].alive {
                self.members[i].network.change_mutation_rate(rate);
            }
            proof {
                assert forall|j: int| 0 <= j < self.members@.len() implies #[trigger] self@.members[j]
                    == if j == i {
                    retuned_member(earlier[j], rate)
                } else {
                    earlier[j]
                } by {}
            }
            i += 1;
        }
        proof {
            assert(self@.members =~= before.retuned(rate).members);
        }
    }

    /// Sets the activation for the children to come and for every member
    /// that is alive; the generation goes on and no weight changes.
    pub fn change_activation(&mut self, activation: Activation)
        requires
            old(self).well_formed(),
        ensures
            final(self).well_formed(),
            final(self)@ == old(self)@.rebound(activation),
    {
        let ghost before = self@;
        self.activation = activation;
        let mut i: usize = 0;
        while i < self.members.len()
            invariant
                i <= self.members@.len(),
                self.members@.len() == before.members.len(),
                self@ == (PopulationView { members: self@.members, activation, ..before }),
                forall|j: int|
                    0 <= j < i ==> #[trigger] self@.members[j] == rebound_member(
                        before.members[j],
                        activation,
                    ),
                forall|j: int|
                    i <= j < self.members@.len() ==> #[trigger] self@.members[j]
                        == before.members[j],
            decreases self.members@.len() - i,
        {
            let ghost earlier = self@.members;
            if self.members[i].alive {
                self.members[i].network.change_activation(activation);
            }
            proof {
                assert forall|j: int| 0 <= j < self.members@.len() implies #[trigger] self@.members[j]
                    == if j == i {
                    rebound_member(earlier[j], activation)
                } else {
                    earlier[j]
                } by {}
            }
            i += 1;
        }
        proof {
            assert(self@.members =~= before.rebound(activation).members);
        }
    }

    /// Starts the run over on other hidden layers: the same number of
    /// members, all on fresh networks of the new widths, at generation zero.
    /// Nothing of the generation in progress is kept.
    pub fn change_topology(&mut self, hidden_layers: Vec<usize>)
        requires
            old(self).well_formed(),
        ensures
            final(self).well_formed(),
            final(self)@.fresh_start(),
            final(self)@.members.len() == old(self)@.members.len(),
            final(self)@.tracking_policy == old(self)@.tracking_policy,
            final(self)@.topology == assembled(INPUT_WIDTH, hidden_layers@, OUTPUT_WIDTH),
            final(self)@.mutation_rate == old(self)@.mutation_rate,
            final(self)@.activation == old(self)@.activation,
    {
        let made = Population::construct(
            self.members.len(),
            hidden_layers,
            self.mutation_rate,
            self.activation,
            self.tracking_policy,
        );
        *self = made;
    }

    /// Puts the focus on the member at `index`; an index past the last member
    /// changes nothing.
    pub fn change_track(&mut self, index: usize)
        requires
            old(self).well_formed(),
        ensures
            final(self).well_formed(),
            final(self)@ == old(self)@.focused(index),
    {
        if index < self.members.len() {
            self.tracked_index = index;
        }
    }

    /// Puts the focus on the best member: among all if `overall`, else among
    /// those alive. Without such a member the focus stays.
    pub fn track_best(&mut self, overall: bool)
        requires
            old(self).well_formed(),
        ensures
            final(self).well_formed(),
            final(self)@ == old(self)@.focused_on_best(overall),
    {
        let fitness = self.fitnesses();
        let eligible = if overall {
            self.everyone()
        } else {
            self.survivors()
        };
        proof {
            lemma_best_upto(fitness@, eligible@, fitness@.len());
        }
        match best(&fitness, &eligible) {
            Some(b) => {
                self.tracked_index = b;
            },
            None => {},
        }
    }

    /// Puts the focus on the first member, which a new generation carries
    /// over from the one before.
    pub fn track_prev_best(&mut self)
        requires
            old(self).well_formed(),
        ensures
            final(self).well_formed(),
            final(self)@ == old(self)@.focused(0),
    {
        self.tracked_index = 0;
    }

    /// Sets the policy of automatic tracking.
    pub fn change_tracking_policy(&mut self, tracking_policy: TrackingPolicy)
        ensures
            final(self)@ == (PopulationView { tracking_policy, ..old(self)@ }),
    {
        self.tracking_policy = tracking_policy;
    }

    /// A flag for every member.
    fn everyone(&self) -> (all: Vec<bool>)
        ensures
            all@ == self@.everyone(),
    {
        let mut all: Vec<bool> = Vec::new();
        while all.len() < self.members.len()
            invariant
                all@.len() <= self.members@.len(),
                forall|i: int| 0 <= i < all@.len() ==> all@[i],
            decreases self.members@.len() - all@.len(),
        {
            all.push(true);
        }
        proof {
            assert(all@ =~= self@.everyone());
        }
        all
    }

    /// The place of a member among all: one more than the number of members
    /// that are fitter.
    pub fn standing(&self, index: usize) -> (place: usize)
        requires
            index < self@.members.len(),
        ensures
            place == self@.fitter_than(index as int) + 1,
    {
        let mark: u64 = self.members[index].fitness;
        let ghost fitter = |f: u64| f > mark;
        let ghost fitness = self@.fitness();
        let mut count: usize = 0;
        let mut i: usize = 0;
        proof {
            reveal(Seq::filter);
            assert(fitness.take(0).len() == 0);
        }
        while i < self.members.len()
            invariant
                i <= self.members@.len(),
                index < self.members@.len(),
                fitness == self@.fitness(),
                mark == self@.members[index as int].fitness,
                fitter == |f: u64| f > mark,
                count == fitness.take(i as int).filter(fitter).len(),
                count + (if index < i { 1int } else { 0int }) <= i,
            decreases self.members@.len() - i,
        {
            proof {
                fitness.take(i as int).lemma_filter_push(fitness[i as int], fitter);
                assert(fitness.take(i as int).push(fitness[i as int]) == fitness.take(i + 1));
            }
            if self.members[i].fitness > mark {
                count += 1;
            }
            i += 1;
        }
        proof {
            assert(fitness.take(fitness.len() as int) == fitness);
        }
        count + 1
    }

    /// A population of one, around an imported network that goes on from
    /// where it is: the widths, activation and mutation rate are the
    /// network's. A network that does not fit the environment's input and
    /// output is refused.
    pub fn with_imported(network: Network, tracking_policy: TrackingPolicy) -> (made: Result<
        Population,
        NetworkError,
    >)
        requires
            network.well_formed(),
        ensures
            made is Ok <==> network@.topology[0] == INPUT_WIDTH && network@.topology.last()
                == OUTPUT_WIDTH,
            made is Err ==> made == Err::<Population, NetworkError>(
                NetworkError::DimensionMismatch,
            ),
            made matches Ok(population) ==> {
                &&& population@.well_formed()
                &&& population@.members.len() == 1
                &&& population@.members[0] == (MemberView {
                    network: network@,
                    fitness: 0,
                    alive: true,
                })
                &&& population@.generation_index == 0
                &&& population@.tracked_index == 0
                &&& population@.tracking_policy == tracking_policy
                &&& population@.topology == network@.topology
                &&& population@.mutation_rate == network@.mutation_rate
                &&& population@.activation == network@.activation
            },
    {
        if network.input_width() != INPUT_WIDTH || network.output_width() != OUTPUT_WIDTH {
            return Err(NetworkError::DimensionMismatch);
        }
        let topology = network.topology().clone();
        let mutation_rate = network.mutation_rate();
        let activation = network.activation();
        let mut members: Vec<Member> = Vec::new();
        let member = Member { network, fitness: 0, alive: true };
        members.push(member);
        proof {
            assert(members_of(&members) =~= seq![member@]);
        }
        Ok(
            Population {
                members,
                generation_index: 0,
                tracked_index: 0,
                tracking_policy,
                topology,
                mutation_rate,
                activation,
            },
        )
    }
}

} // verus!
