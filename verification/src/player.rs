//! The pilot of one ship: how long it has lived, when it may fire again, what
//! it does with the keys that its network or a human presses, and when its
//! run is over.

use vstd::prelude::*;
use crate::network::{Activation, Network, NetworkView};
use crate::topology::lemma_compacted_fixed;

verus! {

/// The number of ticks after which a run is ended, whatever happened in it.
pub const MAX_LIFESPAN: u32 = 4000;

/// The number of ticks that must pass between two shots.
pub const SHOT_INTERVAL: u8 = 18;

/// The number of shots that a new player is counted to have fired.
pub const FIRST_SHOTS: u32 = 4;

/// The mutation rate of the network that a player gets when none is given,
/// in millionths.
pub const DEFAULT_RATE: u32 = 50_000;

/// The four keys of a ship, pressed or not.
#[derive(Clone, Copy, Debug, PartialEq, Eq, Structural)]
pub struct Controls {
    pub right: bool,
    pub left: bool,
    pub thrust: bool,
    pub fire: bool,
}

/// What a ship does in one tick.
#[derive(Clone, Copy, Debug, PartialEq, Eq, Structural)]
pub struct Actions {
    pub turn_right: bool,
    pub turn_left: bool,
    pub thrust: bool,
    pub fire: bool,
}

/// The pilot of one ship.
pub struct Player {
    last_shot: u8,
    shot_interval: u8,
    brain: Option<Network>,
    debug: bool,
    alive: bool,
    lifespan: u32,
    shots: u32,
}

/// A player as contracts see it.
pub struct PlayerView {
    pub last_shot: u8,
    pub shot_interval: u8,
    pub brain: Option<NetworkView>,
    pub debug: bool,
    pub alive: bool,
    pub lifespan: u32,
    pub shots: u32,
}

/// What happens to a player in one tick: the keys its network presses, the
/// keys a human holds, whether the debug key was pressed, and whether the
/// ship ran into an asteroid.
pub struct Round {
    pub pressed: Controls,
    pub held: Controls,
    pub toggle_debug: bool,
    pub hit: bool,
}

/// One more, as long as the number fits a byte.
pub open spec fn next_u8(n: u8) -> u8 {
    if n < u8::MAX {
        (n + 1) as u8
    } else {
        n
    }
}

/// One more, as long as the number fits.
pub open spec fn next_u32(n: u32) -> u32 {
    if n < u32::MAX {
        (n + 1) as u32
    } else {
        n
    }
}

impl PlayerView {
    /// The player as it starts out.
    pub open spec fn start() -> PlayerView {
        PlayerView {
            last_shot: 0,
            shot_interval: SHOT_INTERVAL,
            brain: None,
            debug: false,
            alive: true,
            lifespan: 0,
            shots: FIRST_SHOTS,
        }
    }

    /// The keys that count in a tick: those the network presses, and in
    /// debug mode those a human holds as well.
    pub open spec fn keys(self, pressed: Controls, held: Controls) -> Controls {
        Controls {
            right: (held.right && self.debug) || pressed.right,
            left: (held.left && self.debug) || pressed.left,
            thrust: (held.thrust && self.debug) || pressed.thrust,
            fire: (held.fire && self.debug) || pressed.fire,
        }
    }

    /// What the ship does in a tick: it turns and thrusts as the keys say,
    /// and fires if the key is pressed and the last shot is longer ago than
    /// the shot interval.
    pub open spec fn actions(self, pressed: Controls, held: Controls) -> Actions {
        let keys = self.keys(pressed, held);
        Actions {
            turn_right: keys.right,
            turn_left: keys.left,
            thrust: keys.thrust,
            fire: keys.fire && next_u8(self.last_shot) > self.shot_interval,
        }
    }

    /// The player after a tick: one tick older, the shot counted and the
    /// wait for the next one begun if it fired, debug mode switched if the
    /// debug key was pressed.
    pub open spec fn updated(
        self,
        pressed: Controls,
        held: Controls,
        toggle_debug: bool,
    ) -> PlayerView {
        let fire = self.actions(pressed, held).fire;
        PlayerView {
            lifespan: next_u32(self.lifespan),
            last_shot: if fire {
                0
            } else {
                next_u8(self.last_shot)
            },
            shots: if fire {
                next_u32(self.shots)
            } else {
                self.shots
            },
            debug: self.debug != toggle_debug,
            ..self
        }
    }

    /// Whether the run is over for a player that did or did not hit an
    /// asteroid: a hit ends it, and so does a life beyond the longest one.
    pub open spec fn ended(self, hit: bool) -> bool {
        hit || self.lifespan > MAX_LIFESPAN
    }

    /// The player after the test for the end of its run.
    pub open spec fn checked(self, hit: bool) -> PlayerView {
        PlayerView { alive: self.alive && !self.ended(hit), ..self }
    }

    /// The player after a number of rounds, each a tick followed by the
    /// test for the end of the run.
    pub open spec fn after(self, rounds: Seq<Round>) -> PlayerView
        decreases rounds.len(),
    {
        if rounds.len() == 0 {
            self
        } else {
            let round = rounds.last();
            self.after(rounds.drop_last()).updated(
                round.pressed,
                round.held,
                round.toggle_debug,
            ).checked(round.hit)
        }
    }
}

/// No run outlasts the longest life: after more rounds than that, a player
/// is dead, whatever keys were pressed and though it never hit anything.
pub proof fn lemma_every_run_ends(start: PlayerView, rounds: Seq<Round>)
    requires
        rounds.len() > MAX_LIFESPAN,
    ensures
        !start.after(rounds).alive,
{
    lemma_lifespan_grows(start, rounds);
}

/// After a number of rounds a player has lived that many ticks at least,
/// counted up to the longest life and one more.
pub proof fn lemma_lifespan_grows(start: PlayerView, rounds: Seq<Round>)
    ensures
        start.after(rounds).lifespan >= rounds.len() || start.after(rounds).lifespan
            > MAX_LIFESPAN,
        rounds.len() > 0 && start.after(rounds).lifespan > MAX_LIFESPAN ==> !start.after(
            rounds,
        ).alive,
    decreases rounds.len(),
{
    if rounds.len() > 0 {
        lemma_lifespan_grows(start, rounds.drop_last());
    }
}

/// A player that is dead stays dead.
pub proof fn lemma_dead_stays_dead(start: PlayerView, rounds: Seq<Round>)
    requires
        !start.alive,
    ensures
        !start.after(rounds).alive,
    decreases rounds.len(),
{
    if rounds.len() > 0 {
        lemma_dead_stays_dead(start, rounds.drop_last());
    }
}

impl View for Player {
    type V = PlayerView;

    closed spec fn view(&self) -> PlayerView {
        PlayerView {
            last_shot: self.last_shot,
            shot_interval: self.shot_interval,
            brain: match self.brain {
                Some(network) => Some(network@),
                None => None,
            },
            debug: self.debug,
            alive: self.alive,
            lifespan: self.lifespan,
            shots: self.shots,
        }
    }
}

impl Player {
    /// A player at the start of its run, without a network.
    pub fn new() -> (player: Player)
        ensures
            player@ == PlayerView::start(),
    {
        Player {
            last_shot: 0,
            shot_interval: SHOT_INTERVAL,
            brain: None,
            debug: false,
            alive: true,
            lifespan: 0,
            shots: FIRST_SHOTS,
        }
    }

    /// A player at the start of its run that is steered by the given
    /// network, or, if none is given, by a fresh one with two hidden layers
    /// of eight neurons.
    pub fn simulate(brain: Option<Network>) -> (player: Player)
        ensures
            player@.brain is Some,
            player@ == (PlayerView { brain: player@.brain, ..PlayerView::start() }),
            brain matches Some(network) ==> player@.brain == Some(network@),
            brain is None ==> {
                let network = player@.brain.unwrap();
                &&& network.well_formed()
                &&& network.fresh()
                &&& network.topology == seq![4usize, 8usize, 8usize, 4usize]
                &&& network.activation == Activation::ReLU
                &&& network.mutation_rate == DEFAULT_RATE
            },
    {
        let mut player = Player::new();
        match brain {
            Some(network) => {
                player.brain = Some(network);
            },
            None => {
                let mut widths: Vec<usize> = Vec::new();
                widths.push(4);
                widths.push(8);
                widths.push(8);
                widths.push(4);
                proof {
                    assert(widths@ =~= seq![4usize, 8usize, 8usize, 4usize]);
                    lemma_compacted_fixed(widths@);
                }
                match Network::create(widths, Activation::ReLU, DEFAULT_RATE) {
                    Ok(network) => {
                        player.brain = Some(network);
                    },
                    Err(_) => {
                        unreached::<()>();
                    },
                }
            },
        }
        player
    }

    /// The network that steers the player, if it has one.
    pub fn brain(&self) -> (brain: Option<&Network>)
        ensures
            match brain {
                Some(network) => self@.brain == Some(network@),
                None => self@.brain is None,
            },
    {
        self.brain.as_ref()
    }

    /// Whether the run is still on.
    pub fn alive(&self) -> (alive: bool)
        ensures
            alive == self@.alive,
    {
        self.alive
    }

    /// Whether a human's keys count too.
    pub fn debug(&self) -> (debug: bool)
        ensures
            debug == self@.debug,
    {
        self.debug
    }

    /// The number of ticks lived.
    pub fn lifespan(&self) -> (lifespan: u32)
        ensures
            lifespan == self@.lifespan,
    {
        self.lifespan
    }

    /// The number of shots counted.
    pub fn shots(&self) -> (shots: u32)
        ensures
            shots == self@.shots,
    {
        self.shots
    }

    /// Tests whether the run is over, given whether the ship has run into
    /// an asteroid, and ends it if so.
    pub fn check_player_collision(&mut self, hit: bool) -> (ended: bool)
        ensures
            ended == old(self)@.ended(hit),
            final(self)@ == old(self)@.checked(hit),
    {
        if hit || self.lifespan > MAX_LIFESPAN {
            self.alive = false;
            return true;
        }
        false
    }

    /// Finds the bullet that strikes an asteroid, given for every bullet
    /// whether it touches it: the first that does.
    pub fn check_bullet_collisions(&self, touching: &Vec<bool>) -> (struck: Option<usize>)
        ensures
            match struck {
                Some(b) => {
                    &&& b < touching@.len()
                    &&& touching@[b as int]
                    &&& forall|j: int| 0 <= j < b ==> !touching@[j]
                },
                None => forall|j: int| 0 <= j < touching@.len() ==> !touching@[j],
            },
    {
        let mut b: usize = 0;
        while b < touching.len()
            invariant
                b <= touching@.len(),
                forall|j: int| 0 <= j < b ==> !touching@[j],
            decreases touching@.len() - b,
        {
            if touching[b] {
                return Some(b);
            }
            b += 1;
        }
        None
    }

    /// One tick: the player grows older, and says what the ship does for
    /// the keys that its network presses and those a human holds.
    pub fn update(&mut self, pressed: Controls, held: Controls, toggle_debug: bool) -> (actions:
        Actions)
        ensures
            actions == old(self)@.actions(pressed, held),
            final(self)@ == old(self)@.updated(pressed, held, toggle_debug),
    {
        if self.lifespan < u32::MAX {
            self.lifespan += 1;
        }
        if self.last_shot < u8::MAX {
            self.last_shot += 1;
        }
        let turn_right = (held.right && self.debug) || pressed.right;
        let turn_left = (held.left && self.debug) || pressed.left;
        let thrust = (held.thrust && self.debug) || pressed.thrust;
        let mut fire = false;
        if (held.fire && self.debug) || pressed.fire {
            if self.last_shot > self.shot_interval {
                self.last_shot = 0;
                if self.shots < u32::MAX {
                    self.shots += 1;
                }
                fire = true;
            }
        }
        if toggle_debug {
            self.debug = !self.debug;
        }
        Actions { turn_right, turn_left, thrust, fire }
    }
}

} // verus!
