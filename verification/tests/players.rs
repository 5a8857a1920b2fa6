use neuroevo::network::{Activation, Network};
use neuroevo::player::{Actions, Controls, Player, MAX_LIFESPAN};

const IDLE: Controls = Controls { right: false, left: false, thrust: false, fire: false };
const FIRE: Controls = Controls { right: false, left: false, thrust: false, fire: true };

#[test]
fn a_new_player_is_alive_and_young() {
    let player = Player::new();
    assert!(player.alive());
    assert!(!player.debug());
    assert_eq!(player.lifespan(), 0);
    assert_eq!(player.shots(), 4);
    assert!(player.brain().is_none());
}

#[test]
fn simulate_keeps_the_given_network() {
    let network = Network::create(vec![4, 5, 4], Activation::Tanh, 10).unwrap();
    let copy = network.duplicate();
    let player = Player::simulate(Some(network));
    let brain = player.brain().unwrap();
    assert_eq!(brain.topology(), copy.topology());
    assert_eq!(brain.weights(), copy.weights());
    assert_eq!(brain.biases(), copy.biases());
    assert_eq!(brain.activation(), Activation::Tanh);
    assert!(player.alive());
    assert_eq!(player.shots(), 4);
}

#[test]
fn simulate_makes_a_network_when_none_is_given() {
    let player = Player::simulate(None);
    let brain = player.brain().unwrap();
    assert_eq!(brain.topology(), &vec![4, 8, 8, 4]);
    assert_eq!(brain.activation(), Activation::ReLU);
    assert_eq!(brain.mutation_rate(), 50_000);
}

#[test]
fn a_hit_ends_the_run() {
    let mut player = Player::new();
    assert!(!player.check_player_collision(false));
    assert!(player.alive());
    assert!(player.check_player_collision(true));
    assert!(!player.alive());
    assert!(!player.check_player_collision(false));
    assert!(!player.alive());
}

#[test]
fn a_run_ends_after_the_longest_life() {
    let mut player = Player::new();
    for tick in 1..=MAX_LIFESPAN {
        player.update(IDLE, IDLE, false);
        assert_eq!(player.lifespan(), tick);
        assert!(!player.check_player_collision(false));
        assert!(player.alive());
    }
    player.update(IDLE, IDLE, false);
    assert_eq!(player.lifespan(), 4001);
    assert!(player.check_player_collision(false));
    assert!(!player.alive());
}

#[test]
fn the_first_touching_bullet_strikes() {
    let player = Player::new();
    assert_eq!(player.check_bullet_collisions(&vec![false, true, false, true]), Some(1));
    assert_eq!(player.check_bullet_collisions(&vec![false, false]), None);
    assert_eq!(player.check_bullet_collisions(&vec![]), None);
}

#[test]
fn keys_become_actions() {
    let mut player = Player::new();
    let pressed = Controls { right: true, left: false, thrust: true, fire: false };
    assert_eq!(
        player.update(pressed, IDLE, false),
        Actions { turn_right: true, turn_left: false, thrust: true, fire: false }
    );
    let both = Controls { right: true, left: true, thrust: false, fire: false };
    assert_eq!(
        player.update(both, IDLE, false),
        Actions { turn_right: true, turn_left: true, thrust: false, fire: false }
    );
}

#[test]
fn shots_wait_for_the_interval() {
    let mut player = Player::new();
    for _ in 0..18 {
        assert!(!player.update(FIRE, IDLE, false).fire);
    }
    assert_eq!(player.shots(), 4);
    assert!(player.update(FIRE, IDLE, false).fire);
    assert_eq!(player.shots(), 5);
    for _ in 0..18 {
        assert!(!player.update(FIRE, IDLE, false).fire);
    }
    assert!(player.update(FIRE, IDLE, false).fire);
    assert_eq!(player.shots(), 6);
    assert_eq!(player.lifespan(), 38);
}

#[test]
fn a_long_wait_does_not_lose_the_shot() {
    let mut player = Player::new();
    for _ in 0..1000 {
        assert!(!player.update(IDLE, IDLE, false).fire);
    }
    assert!(player.update(FIRE, IDLE, false).fire);
    assert!(!player.update(FIRE, IDLE, false).fire);
}

#[test]
fn held_keys_count_in_debug_mode_only() {
    let mut player = Player::new();
    let held = Controls { right: false, left: true, thrust: false, fire: false };
    assert!(!player.update(IDLE, held, false).turn_left);
    assert!(!player.update(IDLE, held, true).turn_left);
    assert!(player.debug());
    assert!(player.update(IDLE, held, false).turn_left);
    assert!(player.update(IDLE, held, true).turn_left);
    assert!(!player.debug());
    assert!(!player.update(IDLE, held, false).turn_left);
}
