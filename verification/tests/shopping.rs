use num_bigint::BigUint;
use ring_cycles::color::SocketColor;
use ring_cycles::game::Game;
use ring_cycles::grid::GridCoordinates;
use ring_cycles::ring::SocketSlot;
use ring_cycles::shop::{is_purchasable, on_new_shop, on_purchase};
use ring_cycles::unlocks::{
    add_ring_and_socket_unlocks, build_color_enhance_unlocks, build_color_unlocks, is_satisfied,
    resolve_unlocks, starting_unlocks,
};
use ring_cycles::upgrade::{
    is_priced, price_offers, upgrade_cost, AddColorUpgrade, AddRingUpgrade, AddSocketUpgrade, EnhanceColorUpgrade,
    Purchase, SocketCostCurve, Unlock, Unlocks, Upgrade, UpgradeHistory, UpgradeKind,
};

fn price(n: u64) -> BigUint {
    BigUint::from(n)
}

fn socket(level: u32) -> UpgradeKind {
    UpgradeKind::AddSocket(AddSocketUpgrade { level })
}

fn ring(level: u32) -> UpgradeKind {
    UpgradeKind::AddRing(AddRingUpgrade { level })
}

fn color(color: SocketColor) -> UpgradeKind {
    UpgradeKind::AddColor(AddColorUpgrade { color })
}

fn enhancement(color: SocketColor, tier: u32) -> UpgradeKind {
    UpgradeKind::EnhanceColor(EnhanceColorUpgrade { color, tier })
}

fn buy(kind: UpgradeKind, cost: u64) -> Purchase {
    Purchase { upgrade: Upgrade { upgrade_kind: kind, cost: price(cost) } }
}

fn flat() -> SocketCostCurve {
    SocketCostCurve { growth_scaled: 1_000_000, threshold_scaled: 1_000_000 }
}

#[test]
fn a_purchase_beyond_the_wallet_changes_nothing() {
    let mut game = Game::new(0);
    on_new_shop(&mut game, 0);
    game.currency.amount = price(3);
    let pool = game.unlocks.0.len();
    let outcome = on_purchase(&mut game, &buy(socket(1), 4), 1_000_000);
    assert!(!outcome.accepted);
    assert!(outcome.unlocked.is_empty());
    assert!(outcome.layout.is_empty());
    assert_eq!(outcome.hotkey, None);
    assert_eq!(outcome.new_ring, None);
    assert!(!outcome.zoom_out);
    assert_eq!(game.currency.amount, price(3));
    assert!(!game.upgrade_history.owns(socket(1)));
    assert_eq!(game.rings.len(), 1);
    assert_eq!(game.rings[0].sockets.len(), 2);
    assert_eq!(game.unlocks.0.len(), pool);
}

#[test]
fn a_purchase_for_exactly_the_wallet_goes_through() {
    let mut game = Game::new(0);
    on_new_shop(&mut game, 0);
    game.currency.amount = price(4);
    let outcome = on_purchase(&mut game, &buy(socket(1), 4), 1_000_000);
    assert!(outcome.accepted);
    assert_eq!(game.currency.amount, price(0));
    assert!(game.upgrade_history.owns(socket(1)));
}

#[test]
fn buying_a_socket_grows_the_newest_ring() {
    let mut game = Game::new(0);
    on_new_shop(&mut game, 0);
    game.currency.amount = price(10);
    let outcome = on_purchase(&mut game, &buy(socket(1), 4), 1_000_000);
    assert!(outcome.accepted);
    assert_eq!(game.currency.amount, price(6));
    assert_eq!(game.rings[0].sockets.len(), 3);
    assert_eq!(game.rings[0].sockets[2].color, SocketColor::NONE);
    assert_eq!(game.rings[0].sockets[2].index, 2);
    assert_eq!(
        outcome.layout,
        vec![
            SocketSlot { index: 0, count: 3 },
            SocketSlot { index: 1, count: 3 },
            SocketSlot { index: 2, count: 3 },
        ]
    );
    assert_eq!(outcome.unlocked, vec![socket(2)]);
    let next = on_purchase(&mut game, &buy(socket(2), 5), 1_000_000);
    assert_eq!(next.unlocked, vec![socket(3), color(SocketColor::RED)]);
    assert_eq!(game.currency.amount, price(1));
    assert_eq!(game.rings[0].sockets.len(), 4);
}

#[test]
fn a_socket_goes_to_the_newest_ring_only() {
    let mut game = Game::new(0);
    assert!(on_purchase(&mut game, &buy(ring(1), 0), 0).accepted);
    assert!(on_purchase(&mut game, &buy(socket(11), 0), 0).accepted);
    assert_eq!(game.rings[0].sockets.len(), 2);
    assert_eq!(game.rings[1].sockets.len(), 3);
}

#[test]
fn buying_a_color_puts_it_on_the_hotbar() {
    let mut game = Game::new(0);
    game.currency.amount = price(15);
    let outcome = on_purchase(&mut game, &buy(color(SocketColor::RED), 15), 0);
    assert!(outcome.accepted);
    assert_eq!(outcome.hotkey, Some(2));
    assert_eq!(game.hotbar.color_mappings, vec![SocketColor::BLUE, SocketColor::RED]);
    assert_eq!(game.hotbar.selected_index, 0);
    assert!(game.upgrade_history.owns(color(SocketColor::RED)));
    assert_eq!(game.rings[0].sockets.len(), 2);
}

#[test]
fn buying_a_ring_spawns_it_at_the_next_cell() {
    let mut game = Game::new(0);
    game.currency.amount = price(2000);
    let outcome = on_purchase(&mut game, &buy(ring(1), 1250), 7_000_000);
    assert!(outcome.accepted);
    assert_eq!(outcome.new_ring, Some(1));
    assert!(outcome.zoom_out);
    assert_eq!(game.currency.amount, price(750));
    assert_eq!(game.rings.len(), 2);
    assert_eq!(game.rings[1].index, 1);
    assert_eq!(game.rings[1].sockets.len(), 2);
    assert_eq!(game.rings[1].sockets[0].color, SocketColor::NONE);
    assert_eq!(game.rings[1].sockets[1].color, SocketColor::NONE);
    assert_eq!(game.rings[1].sockets[1].ring, 1);
    assert_eq!(game.rings[0].sockets[1].color, SocketColor::BLUE);
    assert_eq!(game.rings[1].cycle_start_micros, 7_000_000);
    assert_eq!(game.ring_index.lookup(GridCoordinates { x: 1, y: 0 }), Some(1));
    let second = on_purchase(&mut game, &buy(ring(2), 0), 8_000_000);
    assert_eq!(second.new_ring, Some(2));
    assert!(!second.zoom_out);
    assert_eq!(game.ring_index.lookup(GridCoordinates { x: 1, y: -1 }), Some(2));
}

#[test]
fn buying_an_enhancement_changes_the_history_only() {
    let mut game = Game::new(0);
    game.currency.amount = price(1000);
    let outcome = on_purchase(&mut game, &buy(enhancement(SocketColor::BLUE, 1), 1000), 0);
    assert!(outcome.accepted);
    assert!(outcome.layout.is_empty());
    assert_eq!(outcome.hotkey, None);
    assert_eq!(outcome.new_ring, None);
    assert!(game.upgrade_history.owns(enhancement(SocketColor::BLUE, 1)));
    assert!(!game.upgrade_history.owns(enhancement(SocketColor::BLUE, 2)));
    assert_eq!(game.rings.len(), 1);
    assert_eq!(game.rings[0].sockets.len(), 2);
    assert_eq!(game.hotbar.color_mappings, vec![SocketColor::BLUE]);
}

#[test]
fn opening_the_shop_offers_the_first_socket() {
    let mut game = Game::new(0);
    assert!(game.unlocks.0.is_empty());
    let outcome = on_new_shop(&mut game, 0);
    assert!(outcome.accepted);
    assert_eq!(outcome.unlocked, vec![socket(1)]);
    assert_eq!(game.unlocks.0.len(), 64 * 11 + 4 + 6 - 1);
    assert!(!game.upgrade_history.owns(UpgradeKind::Nothing));
    assert!(!game.upgrade_history.owns(socket(1)));
    assert_eq!(game.currency.amount, price(0));
}

#[test]
fn a_rule_is_realized_once() {
    let mut pool = starting_unlocks();
    let mut history = UpgradeHistory::new();
    assert_eq!(resolve_unlocks(&mut pool, &history), vec![socket(1)]);
    assert!(resolve_unlocks(&mut pool, &history).is_empty());
    history.record(socket(1));
    assert_eq!(resolve_unlocks(&mut pool, &history), vec![socket(2)]);
    assert!(resolve_unlocks(&mut pool, &history).is_empty());
    let left = pool.0.len();
    assert_eq!(left, 64 * 11 + 4 + 6 - 2);
    // Buying the same socket again brings nothing back.
    history.record(socket(1));
    assert!(resolve_unlocks(&mut pool, &history).is_empty());
    assert_eq!(pool.0.len(), left);
}

#[test]
fn resolving_keeps_the_order_of_the_rules_that_remain() {
    let mut pool = Unlocks(vec![
        Unlock { prerequisites: vec![socket(1)], grants: socket(2) },
        Unlock { prerequisites: vec![], grants: socket(1) },
        Unlock { prerequisites: vec![socket(2), ring(1)], grants: socket(3) },
        Unlock { prerequisites: vec![], grants: ring(1) },
        Unlock { prerequisites: vec![ring(2)], grants: ring(3) },
    ]);
    let history = UpgradeHistory::new();
    assert_eq!(resolve_unlocks(&mut pool, &history), vec![socket(1), ring(1)]);
    assert_eq!(pool.0.len(), 3);
    assert_eq!(pool.0[0].grants, socket(2));
    assert_eq!(pool.0[1].grants, socket(3));
    assert_eq!(pool.0[2].grants, ring(3));
}

#[test]
fn a_rule_asks_for_all_its_prerequisites() {
    let rule = Unlock { prerequisites: vec![socket(10), color(SocketColor::PINK)], grants: ring(1) };
    let mut history = UpgradeHistory::new();
    assert!(!is_satisfied(&rule, &history));
    history.record(socket(10));
    assert!(!is_satisfied(&rule, &history));
    history.record(color(SocketColor::PINK));
    assert!(is_satisfied(&rule, &history));
    let free = Unlock { prerequisites: vec![], grants: socket(1) };
    assert!(is_satisfied(&free, &UpgradeHistory::new()));
}

#[test]
fn the_history_tells_upgrades_apart_by_what_they_hold() {
    let mut history = UpgradeHistory::new();
    assert!(!history.owns(socket(1)));
    history.record(socket(1));
    assert!(history.owns(socket(1)));
    assert!(!history.owns(socket(2)));
    assert!(!history.owns(ring(1)));
    history.record(socket(1));
    assert!(history.owns(socket(1)));
    history.record(enhancement(SocketColor::RED, 1));
    assert!(history.owns(enhancement(SocketColor::RED, 1)));
    assert!(!history.owns(enhancement(SocketColor::RED, 2)));
    assert!(!history.owns(enhancement(SocketColor::BLUE, 1)));
    assert!(history.owns(socket(1)));
}

#[test]
fn the_ladder_of_sockets_and_rings() {
    let ladder = add_ring_and_socket_unlocks();
    assert_eq!(ladder.len(), 704);
    assert!(ladder[0].prerequisites.is_empty());
    assert_eq!(ladder[0].grants, socket(1));
    assert_eq!(ladder[1].prerequisites, vec![socket(1)]);
    assert_eq!(ladder[1].grants, socket(2));
    assert_eq!(ladder[9].grants, socket(10));
    assert_eq!(ladder[10].prerequisites, vec![color(SocketColor::PINK), socket(10)]);
    assert_eq!(ladder[10].grants, ring(1));
    assert_eq!(ladder[11].prerequisites, vec![socket(10), ring(1)]);
    assert_eq!(ladder[11].grants, socket(11));
    assert_eq!(ladder[21].prerequisites, vec![socket(20)]);
    assert_eq!(ladder[21].grants, ring(2));
    assert_eq!(ladder[703].prerequisites, vec![socket(640)]);
    assert_eq!(ladder[703].grants, ring(64));
    assert_eq!(ladder[702].prerequisites, vec![socket(639), ring(63)]);
    assert_eq!(ladder[702].grants, socket(640));
}

#[test]
fn the_ladders_of_colors_and_enhancements() {
    let colors = build_color_unlocks();
    assert_eq!(colors.len(), 4);
    assert_eq!(colors[0].prerequisites, vec![socket(2)]);
    assert_eq!(colors[0].grants, color(SocketColor::RED));
    assert_eq!(colors[1].prerequisites, vec![color(SocketColor::RED)]);
    assert_eq!(colors[1].grants, color(SocketColor::GREEN));
    assert_eq!(colors[2].grants, color(SocketColor::ORANGE));
    assert_eq!(colors[3].prerequisites, vec![color(SocketColor::ORANGE)]);
    assert_eq!(colors[3].grants, color(SocketColor::PINK));
    let enhancements = build_color_enhance_unlocks();
    assert_eq!(enhancements.len(), 6);
    assert_eq!(enhancements[0].prerequisites, vec![ring(1)]);
    assert_eq!(enhancements[0].grants, enhancement(SocketColor::BLUE, 1));
    assert_eq!(enhancements[1].grants, enhancement(SocketColor::RED, 1));
    assert_eq!(enhancements[2].grants, enhancement(SocketColor::ORANGE, 1));
    assert_eq!(enhancements[3].prerequisites, vec![enhancement(SocketColor::ORANGE, 1)]);
    assert_eq!(enhancements[3].grants, enhancement(SocketColor::GREEN, 1));
    assert_eq!(enhancements[4].prerequisites, vec![enhancement(SocketColor::ORANGE, 1)]);
    assert_eq!(enhancements[4].grants, enhancement(SocketColor::BLUE, 2));
    assert_eq!(enhancements[5].prerequisites, vec![enhancement(SocketColor::BLUE, 2)]);
    assert_eq!(enhancements[5].grants, enhancement(SocketColor::BLUE, 3));
}

#[test]
fn the_price_of_nothing_is_nothing() {
    assert_eq!(upgrade_cost(UpgradeKind::Nothing, flat()), price(0));
}

#[test]
fn the_price_of_a_socket_follows_its_curve() {
    assert_eq!(upgrade_cost(socket(1), flat()), price(4));
    let steep = SocketCostCurve { growth_scaled: 4_287_094, threshold_scaled: 9_000_000 };
    // Up to level ten the threshold curve is not read.
    assert_eq!(upgrade_cost(socket(3), steep), price(17));
    assert_eq!(upgrade_cost(socket(10), steep), price(17));
    // Beyond it both curves pay.
    assert_eq!(upgrade_cost(socket(11), steep), price(36 + 17));
    let half = SocketCostCurve { growth_scaled: 1_400_000, threshold_scaled: 2_300_000 };
    assert_eq!(upgrade_cost(socket(11), half), price(9 + 5));
}

#[test]
fn the_price_of_a_socket_may_exceed_machine_words() {
    let top = SocketCostCurve { growth_scaled: u64::MAX, threshold_scaled: u64::MAX };
    let each = BigUint::from(4u32) * BigUint::from(u64::MAX) / BigUint::from(1_000_000u32);
    assert_eq!(upgrade_cost(socket(640), top), &each + &each);
}

#[test]
fn the_prices_of_the_colors() {
    assert_eq!(upgrade_cost(color(SocketColor::RED), flat()), price(15));
    assert_eq!(upgrade_cost(color(SocketColor::GREEN), flat()), price(40));
    assert_eq!(upgrade_cost(color(SocketColor::ORANGE), flat()), price(100));
    assert_eq!(upgrade_cost(color(SocketColor::PINK), flat()), price(250));
}

#[test]
fn the_prices_of_the_rings() {
    let table: [u64; 9] = [
        1250,
        200_000,
        2_000_000,
        20_000_000,
        200_000_000,
        2_000_000_000,
        20_000_000_000,
        200_000_000_000,
        2_000_000_000_000,
    ];
    for (i, expected) in table.iter().enumerate() {
        assert_eq!(upgrade_cost(ring(i as u32 + 1), flat()), price(*expected));
    }
    assert_eq!(upgrade_cost(ring(10), flat()), price(2_000_000_000_000));
    assert_eq!(upgrade_cost(ring(11), flat()), price(20_000_000_000_000));
    assert_eq!(upgrade_cost(ring(0), flat()), price(200));
    let far = BigUint::parse_bytes(b"200000000000000000000000000000", 10).unwrap();
    assert_eq!(upgrade_cost(ring(27), flat()), far);
}

#[test]
fn the_prices_of_the_enhancements() {
    assert_eq!(upgrade_cost(enhancement(SocketColor::BLUE, 1), flat()), price(1000));
    assert_eq!(upgrade_cost(enhancement(SocketColor::BLUE, 2), flat()), price(25000));
    assert_eq!(upgrade_cost(enhancement(SocketColor::BLUE, 3), flat()), price(50000));
    assert_eq!(upgrade_cost(enhancement(SocketColor::RED, 1), flat()), price(3000));
    assert_eq!(upgrade_cost(enhancement(SocketColor::GREEN, 1), flat()), price(100_000));
    assert_eq!(upgrade_cost(enhancement(SocketColor::ORANGE, 1), flat()), price(20000));
    assert_eq!(upgrade_cost(enhancement(SocketColor::PINK, 1), flat()), price(1_000_000));
}

#[test]
fn the_wallet_never_goes_below_zero() {
    let mut game = Game::new(0);
    game.currency.amount = price(10);
    let costs: [u64; 6] = [4, 7, 6, 1, 0, 5];
    let mut expected: u64 = 10;
    for cost in costs.iter() {
        let outcome = on_purchase(&mut game, &buy(UpgradeKind::Nothing, *cost), 0);
        if *cost <= expected {
            assert!(outcome.accepted);
            expected -= *cost;
        } else {
            assert!(!outcome.accepted);
        }
        assert_eq!(game.currency.amount, price(expected));
    }
    assert_eq!(game.currency.amount, price(0));
}

#[test]
fn what_has_no_price_is_told_apart() {
    assert!(is_priced(UpgradeKind::Nothing));
    assert!(is_priced(socket(0)));
    assert!(is_priced(color(SocketColor::RED)));
    assert!(is_priced(color(SocketColor::PINK)));
    assert!(!is_priced(color(SocketColor::NONE)));
    assert!(!is_priced(color(SocketColor::BLUE)));
    assert!(is_priced(ring(0)));
    assert!(is_priced(ring(u32::MAX - 1)));
    assert!(!is_priced(ring(u32::MAX)));
    assert!(is_priced(enhancement(SocketColor::BLUE, 1)));
    assert!(is_priced(enhancement(SocketColor::BLUE, 3)));
    assert!(!is_priced(enhancement(SocketColor::BLUE, 0)));
    assert!(!is_priced(enhancement(SocketColor::BLUE, 4)));
    assert!(is_priced(enhancement(SocketColor::GREEN, 9)));
    assert!(!is_priced(enhancement(SocketColor::NONE, 1)));
}

#[test]
fn a_colour_without_a_key_cannot_be_bought() {
    assert!(!is_purchasable(color(SocketColor::NONE)));
    assert!(is_purchasable(color(SocketColor::BLUE)));
    assert!(is_purchasable(UpgradeKind::Nothing));
    assert!(is_purchasable(socket(3)));
    assert!(is_purchasable(enhancement(SocketColor::NONE, 1)));
}

#[test]
fn a_bought_ring_has_as_many_sockets_as_the_newest_ring() {
    let mut game = Game::new(0);
    assert!(on_purchase(&mut game, &buy(socket(1), 0), 0).accepted);
    assert!(on_purchase(&mut game, &buy(socket(2), 0), 0).accepted);
    assert_eq!(game.rings[0].sockets.len(), 4);
    let outcome = on_purchase(&mut game, &buy(ring(1), 0), 5_000_000);
    assert_eq!(outcome.new_ring, Some(1));
    assert_eq!(game.rings[1].sockets.len(), 4);
    for (index, socket) in game.rings[1].sockets.iter().enumerate() {
        assert_eq!(socket.color, SocketColor::NONE);
        assert_eq!(socket.index, index);
        assert_eq!(socket.ring, 1);
        assert_eq!(socket.trigger_duration_micros, 0);
    }
    assert!(game.rings[1].cycle.is_empty());
    assert_eq!(game.rings[1].cycle_multiplier, price(1));
    // The next ring follows the ring that is the newest by then.
    assert!(on_purchase(&mut game, &buy(socket(11), 0), 0).accepted);
    assert_eq!(game.rings[1].sockets.len(), 5);
    assert_eq!(game.rings[0].sockets.len(), 4);
    assert!(on_purchase(&mut game, &buy(ring(2), 0), 6_000_000).accepted);
    assert_eq!(game.rings[2].sockets.len(), 5);
    assert_eq!(game.rings[0].sockets.len(), 4);
    assert_eq!(game.rings[1].sockets.len(), 5);
    assert!(game.check());
}

#[test]
fn offers_are_priced_in_their_order() {
    let kinds = vec![socket(3), color(SocketColor::RED), ring(1), socket(11)];
    let curves = vec![
        SocketCostCurve { growth_scaled: 4_287_094, threshold_scaled: 0 },
        flat(),
        flat(),
        SocketCostCurve { growth_scaled: 1_400_000, threshold_scaled: 2_300_000 },
    ];
    let offers = price_offers(&kinds, &curves);
    assert_eq!(offers.len(), 4);
    assert_eq!(offers[0].upgrade_kind, socket(3));
    assert_eq!(offers[0].cost, price(17));
    assert_eq!(offers[1].upgrade_kind, color(SocketColor::RED));
    assert_eq!(offers[1].cost, price(15));
    assert_eq!(offers[2].upgrade_kind, ring(1));
    assert_eq!(offers[2].cost, price(1250));
    assert_eq!(offers[3].upgrade_kind, socket(11));
    assert_eq!(offers[3].cost, price(14));
    assert!(price_offers(&Vec::new(), &Vec::new()).is_empty());
}

#[test]
fn what_a_purchase_unlocks_is_priced_at_that_moment() {
    let mut game = Game::new(0);
    on_new_shop(&mut game, 0);
    let outcome = on_purchase(&mut game, &buy(socket(1), 0), 0);
    let curves = vec![flat(); outcome.unlocked.len()];
    let offers = price_offers(&outcome.unlocked, &curves);
    assert_eq!(offers.len(), 1);
    assert_eq!(offers[0].upgrade_kind, socket(2));
    assert_eq!(offers[0].cost, price(4));
}
