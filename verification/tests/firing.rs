use num_bigint::BigUint;
use ring_cycles::color::SocketColor;
use ring_cycles::cycle::{fire_socket, on_socket_triggered, red_cascade_events, SocketTriggered};
use ring_cycles::game::Game;
use ring_cycles::ring::{append_socket, spawn_socket};
use ring_cycles::shop::on_purchase;
use ring_cycles::upgrade::{
    AddRingUpgrade, EnhanceColorUpgrade, Purchase, Upgrade, UpgradeHistory, UpgradeKind,
};

fn units(n: u64) -> BigUint {
    BigUint::from(n)
}

fn request(ring: usize, socket: usize) -> SocketTriggered {
    SocketTriggered { socket, ring }
}

/// A game whose one ring holds orbs of the given colours.
fn game_with(colors: &[SocketColor]) -> Game {
    let mut game = Game::new(0);
    while game.rings[0].sockets.len() < colors.len() {
        append_socket(&mut game.rings[0]);
    }
    for (index, color) in colors.iter().enumerate() {
        game.rings[0].sockets[index] = spawn_socket(*color, 0, index);
    }
    game
}

fn enhance(game: &mut Game, color: SocketColor) {
    game.upgrade_history.record(UpgradeKind::EnhanceColor(EnhanceColorUpgrade { color, tier: 1 }));
}

fn add_free_ring(game: &mut Game, level: u32) {
    let purchase = Purchase {
        upgrade: Upgrade {
            upgrade_kind: UpgradeKind::AddRing(AddRingUpgrade { level }),
            cost: units(0),
        },
    };
    assert!(on_purchase(game, &purchase, 0).accepted);
}

#[test]
fn a_blue_orb_scores_one() {
    let mut game = Game::new(0);
    let outcome = on_socket_triggered(&mut game, request(0, 1), 1_000_000);
    let firing = outcome.firing.unwrap();
    assert_eq!(firing.ring, 0);
    assert_eq!(firing.socket, 1);
    assert_eq!(firing.color, SocketColor::BLUE);
    assert_eq!(firing.score_diff, units(1));
    assert_eq!(firing.multiplier_diff, units(0));
    assert!(outcome.cascade.is_empty());
    assert!(outcome.play_click);
    let ring = &game.rings[0];
    assert_eq!(ring.cycle, vec![SocketColor::BLUE]);
    assert_eq!(ring.cycle_score, units(1));
    assert_eq!(ring.pending_amount, units(1));
    assert_eq!(ring.sockets[1].last_triggered_time_micros, 1_000_000);
    assert_eq!(game.currency.amount, units(0));
}

#[test]
fn an_empty_socket_never_fires() {
    let mut game = Game::new(0);
    let outcome = on_socket_triggered(&mut game, request(0, 0), 5_000_000);
    assert!(outcome.firing.is_none());
    assert!(outcome.cascade.is_empty());
    assert!(!outcome.play_click);
    assert!(game.rings[0].cycle.is_empty());
    assert_eq!(game.rings[0].cycle_score, units(0));
    assert_eq!(game.rings[0].sockets[0].last_triggered_time_micros, -100_000_000);
}

#[test]
fn a_socket_rests_for_its_cooldown_after_firing() {
    let mut game = Game::new(0);
    assert!(on_socket_triggered(&mut game, request(0, 1), 1_000_000).firing.is_some());
    let early = on_socket_triggered(&mut game, request(0, 1), 1_399_999);
    assert!(early.firing.is_none());
    assert!(early.cascade.is_empty());
    assert_eq!(game.rings[0].cycle_score, units(1));
    assert_eq!(game.rings[0].cycle.len(), 1);
    assert_eq!(game.rings[0].sockets[1].last_triggered_time_micros, 1_000_000);
    let same_moment = on_socket_triggered(&mut game, request(0, 1), 1_000_000);
    assert!(same_moment.firing.is_none());
    let on_time = on_socket_triggered(&mut game, request(0, 1), 1_400_000);
    assert!(on_time.firing.is_some());
    assert_eq!(game.rings[0].cycle_score, units(2));
    assert_eq!(game.rings[0].cycle, vec![SocketColor::BLUE, SocketColor::BLUE]);
}

#[test]
fn an_enhanced_blue_orb_scores_the_blue_orbs_of_its_ring() {
    let mut game = game_with(&[SocketColor::BLUE, SocketColor::RED, SocketColor::BLUE]);
    enhance(&mut game, SocketColor::BLUE);
    let outcome = on_socket_triggered(&mut game, request(0, 0), 1_000_000);
    assert_eq!(outcome.firing.unwrap().score_diff, units(2));
    assert_eq!(game.rings[0].cycle_score, units(2));
}

#[test]
fn a_red_orb_sets_off_its_neighbors_and_scores_nothing() {
    let mut game = game_with(&[SocketColor::BLUE, SocketColor::RED, SocketColor::BLUE]);
    let outcome = on_socket_triggered(&mut game, request(0, 1), 1_000_000);
    let firing = outcome.firing.unwrap();
    assert_eq!(firing.color, SocketColor::RED);
    assert_eq!(firing.score_diff, units(0));
    assert_eq!(firing.multiplier_diff, units(0));
    assert_eq!(outcome.cascade, vec![request(0, 0), request(0, 2)]);
    assert_eq!(game.rings[0].cycle_score, units(0));
    assert_eq!(game.rings[0].cycle, vec![SocketColor::RED]);
}

#[test]
fn the_neighbors_of_a_red_orb_wrap_around_the_ring() {
    let mut game = game_with(&[SocketColor::RED, SocketColor::BLUE, SocketColor::BLUE]);
    let outcome = on_socket_triggered(&mut game, request(0, 0), 1_000_000);
    assert_eq!(outcome.cascade, vec![request(0, 2), request(0, 1)]);
    let mut last = game_with(&[SocketColor::BLUE, SocketColor::BLUE, SocketColor::RED]);
    let outcome = on_socket_triggered(&mut last, request(0, 2), 1_000_000);
    assert_eq!(outcome.cascade, vec![request(0, 1), request(0, 0)]);
}

#[test]
fn a_red_orb_on_a_ring_of_two_names_the_other_socket_twice() {
    let game = game_with(&[SocketColor::RED, SocketColor::BLUE]);
    let events =
        red_cascade_events(&game.rings, &game.ring_index, &game.upgrade_history, 0, 0);
    assert_eq!(events, vec![request(0, 1), request(0, 1)]);
}

#[test]
fn an_enhanced_red_orb_reaches_the_rings_to_its_right_and_left() {
    let mut game = game_with(&[SocketColor::RED, SocketColor::BLUE]);
    for level in 1..=5 {
        add_free_ring(&mut game, level);
    }
    assert_eq!(game.rings.len(), 6);
    let plain = red_cascade_events(&game.rings, &game.ring_index, &game.upgrade_history, 0, 0);
    assert_eq!(plain, vec![request(0, 1), request(0, 1)]);
    enhance(&mut game, SocketColor::RED);
    // Ring 1 lies to the right of ring 0, ring 5 to its left.
    let events = red_cascade_events(&game.rings, &game.ring_index, &game.upgrade_history, 0, 0);
    assert_eq!(
        events,
        vec![
            request(0, 1),
            request(0, 1),
            request(1, 1),
            request(1, 1),
            request(5, 1),
            request(5, 1),
        ]
    );
}

#[test]
fn an_enhanced_red_orb_skips_sockets_that_a_neighbor_ring_lacks() {
    // The second ring is bought while the first has two sockets.
    let mut game = Game::new(0);
    add_free_ring(&mut game, 1);
    append_socket(&mut game.rings[0]);
    game.rings[0].sockets[1] = spawn_socket(SocketColor::RED, 0, 1);
    assert_eq!(game.rings[0].sockets.len(), 3);
    assert_eq!(game.rings[1].sockets.len(), 2);
    enhance(&mut game, SocketColor::RED);
    let events = red_cascade_events(&game.rings, &game.ring_index, &game.upgrade_history, 0, 1);
    assert_eq!(events, vec![request(0, 0), request(0, 2), request(1, 0)]);
}

#[test]
fn an_enhanced_red_orb_with_no_neighbor_rings_sets_off_its_own_ring_only() {
    let mut game = game_with(&[SocketColor::BLUE, SocketColor::RED, SocketColor::BLUE]);
    enhance(&mut game, SocketColor::RED);
    let outcome = on_socket_triggered(&mut game, request(0, 1), 1_000_000);
    assert_eq!(outcome.cascade, vec![request(0, 0), request(0, 2)]);
}

#[test]
fn a_green_orb_scores_the_length_of_the_previous_cycle() {
    let mut game = game_with(&[SocketColor::GREEN, SocketColor::NONE]);
    game.rings[0].previous_cycle = vec![SocketColor::BLUE, SocketColor::BLUE, SocketColor::RED];
    game.currency.pending_amount = units(125);
    let outcome = on_socket_triggered(&mut game, request(0, 0), 1_000_000);
    assert_eq!(outcome.firing.unwrap().score_diff, units(3));
    assert_eq!(game.rings[0].cycle_score, units(3));
}

#[test]
fn an_enhanced_green_orb_adds_a_tenth_of_the_pending_currency() {
    let mut game = game_with(&[SocketColor::GREEN, SocketColor::NONE]);
    game.rings[0].previous_cycle = vec![SocketColor::BLUE, SocketColor::BLUE, SocketColor::RED];
    game.currency.pending_amount = units(125);
    enhance(&mut game, SocketColor::GREEN);
    let outcome = on_socket_triggered(&mut game, request(0, 0), 1_000_000);
    assert_eq!(outcome.firing.unwrap().score_diff, units(15));
    assert_eq!(game.rings[0].cycle_score, units(15));
    assert_eq!(game.rings[0].pending_amount, units(15));
}

#[test]
fn an_orange_orb_cools_the_other_sockets_that_have_fired() {
    let mut game = game_with(&[SocketColor::ORANGE, SocketColor::BLUE, SocketColor::RED]);
    game.rings[0].sockets[1].last_triggered_time_micros = 2_000_000;
    let outcome = on_socket_triggered(&mut game, request(0, 0), 3_000_000);
    let firing = outcome.firing.unwrap();
    assert_eq!(firing.score_diff, units(0));
    assert_eq!(firing.multiplier_diff, units(0));
    assert!(outcome.cascade.is_empty());
    let sockets = &game.rings[0].sockets;
    assert_eq!(sockets[0].last_triggered_time_micros, 3_000_000);
    assert_eq!(sockets[1].last_triggered_time_micros, 1_500_000);
    assert_eq!(sockets[2].last_triggered_time_micros, -100_000_000);
    assert_eq!(sockets[1].trigger_duration_micros, 400_000);
}

#[test]
fn an_orange_orb_leaves_a_socket_recolored_at_time_zero_alone() {
    let mut game = game_with(&[SocketColor::ORANGE, SocketColor::BLUE]);
    game.rings[0].sockets[1].last_triggered_time_micros = 0;
    on_socket_triggered(&mut game, request(0, 0), 3_000_000);
    assert_eq!(game.rings[0].sockets[1].last_triggered_time_micros, 0);
}

#[test]
fn a_pink_orb_raises_the_multiplier() {
    let mut game = game_with(&[SocketColor::PINK, SocketColor::BLUE]);
    on_socket_triggered(&mut game, request(0, 1), 1_000_000);
    let outcome = on_socket_triggered(&mut game, request(0, 0), 1_000_000);
    let firing = outcome.firing.unwrap();
    assert_eq!(firing.score_diff, units(0));
    assert_eq!(firing.multiplier_diff, units(1));
    assert_eq!(game.rings[0].cycle_multiplier, units(2));
    assert_eq!(game.rings[0].cycle_score, units(1));
    assert_eq!(game.rings[0].pending_amount, units(2));
    on_socket_triggered(&mut game, request(0, 1), 2_000_000);
    assert_eq!(game.rings[0].pending_amount, units(4));
}

#[test]
fn firing_is_heard_only_while_there_is_one_ring() {
    let mut game = Game::new(0);
    add_free_ring(&mut game, 1);
    let outcome = on_socket_triggered(&mut game, request(0, 1), 1_000_000);
    assert!(outcome.firing.is_some());
    assert!(!outcome.play_click);
    // A ring that was bought starts empty.
    assert!(on_socket_triggered(&mut game, request(1, 1), 1_000_000).firing.is_none());
    game.rings[1].sockets[1] = spawn_socket(SocketColor::BLUE, 1, 1);
    let other = on_socket_triggered(&mut game, request(1, 1), 1_000_000);
    assert_eq!(other.firing.unwrap().ring, 1);
    assert_eq!(game.rings[1].cycle_score, units(1));
    assert_eq!(game.rings[0].cycle_score, units(1));
}

#[test]
fn a_socket_can_be_fired_directly() {
    let mut game = game_with(&[SocketColor::BLUE, SocketColor::BLUE]);
    let history = UpgradeHistory::new();
    let firing = fire_socket(&mut game.rings[0], 0, 2_000_000, &history, &units(0));
    assert_eq!(firing.score_diff, units(1));
    assert_eq!(firing.socket, 0);
    assert_eq!(game.rings[0].sockets[0].last_triggered_time_micros, 2_000_000);
    assert_eq!(game.rings[0].sockets[1].last_triggered_time_micros, -100_000_000);
}
