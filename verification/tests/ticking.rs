use num_bigint::BigUint;
use ring_cycles::color::SocketColor;
use ring_cycles::cycle::SocketTriggered;
use ring_cycles::game::Game;
use ring_cycles::progress::{progress_cycle, resolve_events, tick, Feedback, RingEvent};
use ring_cycles::ring::{append_socket, spawn_socket};
use ring_cycles::settle::CycleComplete;
use ring_cycles::shop::on_purchase;
use ring_cycles::upgrade::{AddRingUpgrade, Purchase, Upgrade, UpgradeKind};

const BUDGET: usize = 1000;

fn points(n: u64) -> BigUint {
    BigUint::from(n)
}

fn fire(ring: usize, socket: usize) -> RingEvent {
    RingEvent::SocketTriggered(SocketTriggered { socket, ring })
}

fn ring_of(colors: &[SocketColor]) -> Game {
    let mut game = Game::new(0);
    while game.rings[0].sockets.len() < colors.len() {
        append_socket(&mut game.rings[0]);
    }
    for (index, color) in colors.iter().enumerate() {
        game.rings[0].sockets[index] = spawn_socket(*color, 0, index);
    }
    game
}

fn fired_sockets(feedback: &[Feedback]) -> Vec<(usize, usize)> {
    let mut fired = Vec::new();
    for item in feedback {
        if let Feedback::Fired(firing, _) = item {
            fired.push((firing.ring, firing.socket));
        }
    }
    fired
}

#[test]
fn the_hand_reaches_the_second_of_two_sockets_at_half_the_cycle() {
    // One ring of two sockets, the second one blue, cycles of four seconds.
    let mut game = Game::new(0);
    let quiet = tick(&mut game, 1_000_000, BUDGET);
    assert!(quiet.feedback.is_empty());
    assert!(!quiet.cut_short);
    let report = tick(&mut game, 2_000_000, BUDGET);
    assert_eq!(fired_sockets(&report.feedback), vec![(0, 1)]);
    assert_eq!(game.rings[0].cycle_score, points(1));
    assert_eq!(game.rings[0].cycle, vec![SocketColor::BLUE]);
    assert_eq!(game.rings[0].pending_amount, points(1));
    assert_eq!(game.currency.amount, points(0));
    let report = tick(&mut game, 4_100_000, BUDGET);
    match &report.feedback[0] {
        Feedback::Settled(settlement) => {
            assert_eq!(settlement.payout, points(1));
            assert_eq!(settlement.ring, 0);
            assert!(settlement.bonuses.is_empty());
        },
        Feedback::Fired(_, _) => panic!("the cycle was to be settled first"),
    }
    assert_eq!(game.currency.amount, points(1));
    let ring = &game.rings[0];
    assert_eq!(ring.previous_cycle, vec![SocketColor::BLUE]);
    assert_eq!(ring.cycle_start_micros, 4_000_000);
    assert_eq!(ring.cycle_count, points(1));
    assert_eq!(ring.cycle_multiplier, points(1));
}

#[test]
fn a_cycle_that_runs_out_leaves_the_ring_as_new() {
    let mut game = Game::new(0);
    assert!(tick(&mut game, 1_900_000, BUDGET).feedback.is_empty());
    assert_eq!(fired_sockets(&tick(&mut game, 2_100_000, BUDGET).feedback), vec![(0, 1)]);
    // The hand has passed the socket; nothing happens until the cycle ends.
    assert!(tick(&mut game, 3_000_000, BUDGET).feedback.is_empty());
    assert!(tick(&mut game, 4_000_000, BUDGET).feedback.is_empty());
    let report = tick(&mut game, 4_100_000, BUDGET);
    assert_eq!(report.feedback.len(), 1);
    assert!(matches!(report.feedback[0], Feedback::Settled(_)));
    assert_eq!(game.currency.amount, points(1));
    let ring = &game.rings[0];
    assert!(ring.cycle.is_empty());
    assert_eq!(ring.cycle_score, points(0));
    assert_eq!(ring.cycle_multiplier, points(1));
    assert_eq!(ring.previous_cycle, vec![SocketColor::BLUE]);
    assert_eq!(ring.cycle_start_micros, 4_000_000);
    // The next cycle scores again, half a cycle after its start.
    assert!(tick(&mut game, 4_200_000, BUDGET).feedback.is_empty());
    assert_eq!(fired_sockets(&tick(&mut game, 6_050_000, BUDGET).feedback), vec![(0, 1)]);
    assert_eq!(game.rings[0].cycle_score, points(1));
}

#[test]
fn a_socket_that_the_last_tick_stopped_on_is_passed_once_more() {
    let mut game = Game::new(0);
    tick(&mut game, 2_000_000, BUDGET);
    assert_eq!(game.rings[0].cycle_score, points(1));
    // The progress at the last tick still counts as on the socket.
    let report = tick(&mut game, 4_100_000, BUDGET);
    assert_eq!(report.feedback.len(), 2);
    assert!(matches!(report.feedback[0], Feedback::Settled(_)));
    assert!(matches!(report.feedback[1], Feedback::Fired(_, _)));
    assert_eq!(game.currency.amount, points(1));
    assert_eq!(game.rings[0].previous_cycle, vec![SocketColor::BLUE]);
    assert_eq!(game.rings[0].cycle, vec![SocketColor::BLUE]);
    assert_eq!(game.rings[0].cycle_score, points(1));
}

#[test]
fn the_first_socket_is_passed_when_a_new_cycle_begins() {
    let mut game = ring_of(&[SocketColor::BLUE, SocketColor::NONE]);
    assert!(tick(&mut game, 3_900_000, BUDGET).feedback.is_empty());
    // The cycle runs out: it is settled, and the progress is beyond the end.
    let report = tick(&mut game, 4_100_000, BUDGET);
    assert_eq!(report.feedback.len(), 1);
    assert!(matches!(report.feedback[0], Feedback::Settled(_)));
    assert_eq!(game.rings[0].cycle_start_micros, 4_000_000);
    // In the new cycle the progress has fallen back.
    let report = tick(&mut game, 4_200_000, BUDGET);
    assert_eq!(fired_sockets(&report.feedback), vec![(0, 0)]);
    assert_eq!(game.rings[0].cycle_score, points(1));
}

#[test]
fn progress_tells_what_happens_without_handling_it() {
    let mut game = Game::new(0);
    let events = progress_cycle(&mut game, 2_000_000);
    assert_eq!(events, vec![fire(0, 1)]);
    assert_eq!(game.rings[0].previous_elapsed_micros, 2_000_000);
    assert_eq!(game.rings[0].cycle_score, points(0));
    let events = progress_cycle(&mut game, 4_500_000);
    assert_eq!(
        events,
        vec![
            RingEvent::CycleComplete(CycleComplete { ring: 0, new_cycle_start_micros: 4_000_000 }),
            fire(0, 1),
        ]
    );
    assert_eq!(game.rings[0].previous_elapsed_micros, 4_500_000);
    assert_eq!(game.rings[0].cycle_start_micros, 0);
}

#[test]
fn sockets_sit_at_equal_steps_of_the_sweep() {
    // Four sockets sit at 1, 3/4, 1/2 and 1/4 of the sweep.
    let mut game =
        ring_of(&[SocketColor::NONE, SocketColor::BLUE, SocketColor::BLUE, SocketColor::BLUE]);
    assert!(progress_cycle(&mut game, 999_999).is_empty());
    assert_eq!(progress_cycle(&mut game, 1_000_001), vec![fire(0, 3)]);
    assert_eq!(progress_cycle(&mut game, 3_500_000), vec![fire(0, 1), fire(0, 2)]);
    assert!(progress_cycle(&mut game, 3_900_000).is_empty());
}

#[test]
fn the_rings_are_advanced_in_order() {
    let mut game = Game::new(0);
    let purchase = Purchase {
        upgrade: Upgrade {
            upgrade_kind: UpgradeKind::AddRing(AddRingUpgrade { level: 1 }),
            cost: points(0),
        },
    };
    assert!(on_purchase(&mut game, &purchase, 1_000_000).accepted);
    assert_eq!(game.rings[1].cycle_start_micros, 1_000_000);
    // Ring 0 is at 3/4 of its sweep, ring 1 at 1/2 of its own.
    let events = progress_cycle(&mut game, 3_000_001);
    assert_eq!(events, vec![fire(0, 1), fire(1, 1)]);
    let events = progress_cycle(&mut game, 4_500_000);
    assert_eq!(
        events,
        vec![RingEvent::CycleComplete(CycleComplete { ring: 0, new_cycle_start_micros: 4_000_000 })]
    );
}

#[test]
fn what_a_red_orb_sets_off_is_handled_in_the_same_tick() {
    let mut game = ring_of(&[SocketColor::BLUE, SocketColor::RED, SocketColor::BLUE]);
    let report = resolve_events(&mut game, vec![fire(0, 1)], 1_000_000, BUDGET);
    assert!(!report.cut_short);
    assert_eq!(fired_sockets(&report.feedback), vec![(0, 1), (0, 0), (0, 2)]);
    assert_eq!(game.rings[0].cycle_score, points(2));
    assert_eq!(
        game.rings[0].cycle,
        vec![SocketColor::RED, SocketColor::BLUE, SocketColor::BLUE]
    );
}

#[test]
fn what_an_event_sets_off_comes_before_the_events_that_were_waiting() {
    // Socket 0 is red with a red neighbor before it and a blue one after.
    let mut game = ring_of(&[SocketColor::RED, SocketColor::BLUE, SocketColor::RED]);
    let report = resolve_events(&mut game, vec![fire(0, 0), fire(0, 1)], 1_000_000, BUDGET);
    // Red 0 sets off 2 and then 1; red 2 sets off 1 and then 0 (which rests).
    assert_eq!(fired_sockets(&report.feedback), vec![(0, 0), (0, 2), (0, 1)]);
    assert_eq!(game.rings[0].cycle_score, points(1));
    assert!(!report.cut_short);
}

#[test]
fn two_red_orbs_do_not_keep_each_other_firing() {
    let mut game = ring_of(&[SocketColor::RED, SocketColor::RED]);
    let report = resolve_events(&mut game, vec![fire(0, 0)], 1_000_000, BUDGET);
    assert!(!report.cut_short);
    assert_eq!(fired_sockets(&report.feedback), vec![(0, 0), (0, 1)]);
    assert_eq!(game.rings[0].cycle.len(), 2);
}

#[test]
fn the_budget_cuts_a_tick_short() {
    let mut game = ring_of(&[SocketColor::BLUE, SocketColor::RED, SocketColor::BLUE]);
    let report = resolve_events(&mut game, vec![fire(0, 1)], 1_000_000, 2);
    assert!(report.cut_short);
    assert_eq!(fired_sockets(&report.feedback), vec![(0, 1), (0, 0)]);
    assert_eq!(game.rings[0].cycle_score, points(1));
    let mut idle = Game::new(0);
    let nothing = resolve_events(&mut idle, Vec::new(), 1_000_000, 0);
    assert!(!nothing.cut_short);
    let mut blocked = Game::new(0);
    let report = resolve_events(&mut blocked, vec![fire(0, 1)], 1_000_000, 0);
    assert!(report.cut_short);
    assert!(report.feedback.is_empty());
    assert_eq!(blocked.rings[0].cycle_score, points(0));
}

#[test]
fn an_orange_orb_lets_a_blue_orb_fire_again_in_the_same_tick() {
    // Red 1 sets off blue 0 and orange 2; red 3 sets off orange 2 and blue 0.
    let mut game = ring_of(&[
        SocketColor::BLUE,
        SocketColor::RED,
        SocketColor::ORANGE,
        SocketColor::RED,
    ]);
    let report = resolve_events(&mut game, vec![fire(0, 1), fire(0, 3)], 1_000_000, BUDGET);
    assert!(!report.cut_short);
    // Blue fires, orange pulls it half a second back, and the second red
    // finds it ready again while orange itself still rests.
    assert_eq!(fired_sockets(&report.feedback), vec![(0, 1), (0, 0), (0, 2), (0, 3), (0, 0)]);
    assert_eq!(game.rings[0].cycle_score, points(2));
}
