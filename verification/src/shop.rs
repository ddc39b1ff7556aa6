//! Buying upgrades: the check against the wallet, what each upgrade
//! changes, and the rules that a purchase realizes.

use crate::bignum::{big_from_u64, big_gt, big_sub, biguint_value};
use crate::color::{hotkey_ordinal, map_socket_color_hotkey, SocketColor};
use crate::game::{Currency, Game, GameView, Hotbar};
use crate::grid::{grid_key, no_cells, spawn_ring, RingIndex};
use crate::ring::{
    append_socket, fresh_ring, ring_layout, ring_views, with_appended_socket, Ring, RingView,
    SocketSlot, MAX_TIME_MICROS,
};
use crate::unlocks::{
    lemma_resolution_priced, lemma_starting_rules_priced, realized, remaining, resolve_unlocks,
    starting_rules, starting_unlocks,
};
use crate::upgrade::{
    kinds_priced, Purchase, UnlockView, Unlocks, UpgradeHistory, UpgradeKind,
};
use vstd::prelude::*;

verus! {

/// How many sockets the first ring has.
pub const STARTING_SOCKETS: usize = 2;

/// How many sockets a ring that is bought starts with: as many as the
/// newest ring has, or as the first ring would have where there is none.
pub open spec fn newest_socket_count(rings: Seq<RingView>) -> usize {
    if rings.len() == 0 {
        STARTING_SOCKETS
    } else {
        rings[rings.len() - 1].sockets.len() as usize
    }
}

/// The wallet after a request to pay `cost`: the cost is taken if the
/// wallet holds it, and nothing is taken otherwise.
pub open spec fn balance_after_purchase(amount: int, cost: int) -> int {
    if cost <= amount {
        amount - cost
    } else {
        amount
    }
}

/// A change to the wallet: a request to pay a cost, or a payout.
pub enum WalletStep {
    Purchase(nat),
    Payout(nat),
}

/// The wallet after a list of changes, first to last.
pub open spec fn balance_after(amount: int, steps: Seq<WalletStep>) -> int
    decreases steps.len(),
{
    if steps.len() == 0 {
        amount
    } else {
        let before = balance_after(amount, steps.drop_last());
        match steps.last() {
            WalletStep::Purchase(cost) => balance_after_purchase(before, cost as int),
            WalletStep::Payout(payout) => before + payout,
        }
    }
}

/// The wallet never goes below zero, whatever is bought and paid out, in
/// whatever order.
pub proof fn lemma_currency_never_negative(amount: nat, steps: Seq<WalletStep>)
    ensures
        balance_after(amount as int, steps) >= 0,
    decreases steps.len(),
{
    if steps.len() > 0 {
        lemma_currency_never_negative(amount, steps.drop_last());
    }
}

/// The history after an upgrade was bought. The purchase that opens the
/// shop is not recorded.
pub open spec fn recorded(history: Set<UpgradeKind>, kind: UpgradeKind) -> Set<UpgradeKind> {
    if kind != UpgradeKind::Nothing {
        history.insert(kind)
    } else {
        history
    }
}

/// The game with one more socket on its newest ring.
pub open spec fn with_new_socket(game: GameView) -> GameView {
    if game.rings.len() == 0 {
        game
    } else {
        let newest = game.rings.len() - 1;
        GameView {
            rings: game.rings.update(newest, with_appended_socket(game.rings[newest])),
            ..game
        }
    }
}

/// The game with one more ring: it has as many sockets as the newest
/// ring, all of them empty, its first cycle starts at `now`, and it lies
/// at the next cell of the spiral.
pub open spec fn with_new_ring(game: GameView, now: int) -> GameView {
    let ordinal = game.rings.len() as usize;
    GameView {
        rings: game.rings.push(fresh_ring(newest_socket_count(game.rings), now, ordinal)),
        cells: game.cells.insert(grid_key(ordinal as nat), ordinal),
        ..game
    }
}

/// The game with what an upgrade changes: a socket, a colour on the
/// hotbar, or a ring. An enhancement changes nothing but the history.
pub open spec fn granted(game: GameView, kind: UpgradeKind, now: int) -> GameView {
    match kind {
        UpgradeKind::AddSocket(_) => with_new_socket(game),
        UpgradeKind::AddColor(upgrade) => GameView {
            color_mappings: game.color_mappings.push(upgrade.color),
            ..game
        },
        UpgradeKind::AddRing(_) => with_new_ring(game, now),
        _ => game,
    }
}

/// The game after a request to buy an upgrade for `cost` at `now`. A cost
/// above what the wallet holds changes nothing. Otherwise the cost is
/// paid, the upgrade is recorded and takes effect, and the rules that are
/// now satisfied leave the pool.
pub open spec fn purchased(game: GameView, kind: UpgradeKind, cost: nat, now: int) -> GameView {
    if cost > game.amount {
        game
    } else {
        let paid = GameView {
            amount: balance_after_purchase(game.amount as int, cost as int) as nat,
            history: recorded(game.history, kind),
            ..game
        };
        let grown = granted(paid, kind, now);
        GameView { unlocks: remaining(grown.unlocks, grown.history), ..grown }
    }
}

/// The upgrades that go on offer through a purchase, in the order of the
/// pool of rules.
pub open spec fn unlocked_by(game: GameView, kind: UpgradeKind, cost: nat) -> Seq<UpgradeKind> {
    if cost > game.amount {
        Seq::empty()
    } else {
        realized(game.unlocks, recorded(game.history, kind))
    }
}

/// What became of a request to buy an upgrade.
pub struct PurchaseOutcome {
    /// Whether the wallet held the cost. If not, nothing changed.
    pub accepted: bool,
    /// The slots of all sockets of the ring that got a socket.
    pub layout: Vec<SocketSlot>,
    /// The number key of the colour that was added.
    pub hotkey: Option<u32>,
    /// The ordinal of the ring that was added.
    pub new_ring: Option<usize>,
    /// Whether the view is to widen: the second ring has arrived.
    pub zoom_out: bool,
    /// The upgrades that are on offer from now on.
    pub unlocked: Vec<UpgradeKind>,
}

/// Whether an upgrade can be named in a purchase: a colour that is added
/// must have a number key.
pub open spec fn purchasable(kind: UpgradeKind) -> bool {
    match kind {
        UpgradeKind::AddColor(upgrade) => upgrade.color != SocketColor::NONE,
        _ => true,
    }
}

/// Tells whether an upgrade can be named in a purchase.
pub fn is_purchasable(kind: UpgradeKind) -> (ok: bool)
    ensures
        ok == purchasable(kind),
{
    match kind {
        UpgradeKind::AddColor(upgrade) => upgrade.color != SocketColor::NONE,
        _ => true,
    }
}

/// The slots that a purchase hands back: those of the newest ring after
/// it got a socket.
pub open spec fn layout_after(game: GameView, kind: UpgradeKind, cost: nat) -> Seq<SocketSlot> {
    if cost <= game.amount && kind is AddSocket && game.rings.len() > 0 {
        ring_layout(game.rings[game.rings.len() - 1].sockets.len() + 1)
    } else {
        Seq::empty()
    }
}

/// The number key that a purchase hands back: that of an added colour.
pub open spec fn hotkey_after(game: GameView, kind: UpgradeKind, cost: nat) -> Option<u32> {
    match kind {
        UpgradeKind::AddColor(upgrade) => if cost <= game.amount {
            Some(hotkey_ordinal(upgrade.color) as u32)
        } else {
            None
        },
        _ => None,
    }
}

/// The ordinal that a purchase hands back: that of an added ring.
pub open spec fn new_ring_after(game: GameView, kind: UpgradeKind, cost: nat) -> Option<usize> {
    if cost <= game.amount && kind is AddRing {
        Some(game.rings.len() as usize)
    } else {
        None
    }
}

/// Handles a request to buy an upgrade at `now`. A cost above what the
/// wallet holds is turned down and nothing changes. Otherwise the cost
/// is paid, the upgrade is recorded (all but the one that opens the shop)
/// and takes effect, and every rule whose prerequisites are now all
/// bought is taken out of the pool and what it grants is handed back. All
/// of that has a price, which [`crate::upgrade::price_offers`] makes.
pub fn on_purchase(game: &mut Game, purchase: &Purchase, now: i64) -> (outcome: PurchaseOutcome)
    requires
        old(game).wf(),
        purchasable(purchase.upgrade.upgrade_kind),
        0 <= now <= MAX_TIME_MICROS,
    ensures
        final(game)@ == purchased(
            old(game)@,
            purchase.upgrade.upgrade_kind,
            biguint_value(purchase.upgrade.cost),
            now as int,
        ),
        final(game).wf(),
        outcome.accepted == (biguint_value(purchase.upgrade.cost) <= old(game)@.amount),
        final(game)@.amount == balance_after_purchase(
            old(game)@.amount as int,
            biguint_value(purchase.upgrade.cost) as int,
        ),
        outcome.unlocked@ == unlocked_by(
            old(game)@,
            purchase.upgrade.upgrade_kind,
            biguint_value(purchase.upgrade.cost),
        ),
        outcome.layout@ == layout_after(
            old(game)@,
            purchase.upgrade.upgrade_kind,
            biguint_value(purchase.upgrade.cost),
        ),
        outcome.hotkey == hotkey_after(
            old(game)@,
            purchase.upgrade.upgrade_kind,
            biguint_value(purchase.upgrade.cost),
        ),
        outcome.new_ring == new_ring_after(
            old(game)@,
            purchase.upgrade.upgrade_kind,
            biguint_value(purchase.upgrade.cost),
        ),
        outcome.zoom_out == (outcome.new_ring is Some && old(game)@.rings.len() == 1),
        kinds_priced(outcome.unlocked@),
{
    let cost = &purchase.upgrade.cost;
    let kind = purchase.upgrade.upgrade_kind;
    if big_gt(cost, &game.currency.amount) {
        return PurchaseOutcome {
            accepted: false,
            layout: Vec::new(),
            hotkey: None,
            new_ring: None,
            zoom_out: false,
            unlocked: Vec::new(),
        };
    }
    game.currency.amount = big_sub(&game.currency.amount, cost);

    if kind != UpgradeKind::Nothing {
        game.upgrade_history.record(kind);
    }
    let ring_count = game.rings.len();
    let mut layout: Vec<SocketSlot> = Vec::new();
    let mut hotkey: Option<u32> = None;
    let mut new_ring: Option<usize> = None;
    let mut zoom_out = false;

    match kind {
        UpgradeKind::Nothing => {},
        UpgradeKind::AddSocket(_) => {
            if ring_count > 0 {
                // Sockets only get added to the newest ring.
                let newest = ring_count - 1;
                assert(old(game)@.rings[newest as int].wf());
                layout = append_socket(&mut game.rings[newest]);
                proof {
                    let before = old(game)@;
                    let grown = with_new_socket(before);
                    assert(game@.rings =~= grown.rings);
                    assert forall|i: int| 0 <= i < grown.rings.len() implies (
                    #[trigger] grown.rings[i]).wf() && grown.rings[i].index == i by {
                        assert(before.rings[i].wf());
                    }
                }
            }
        },
        UpgradeKind::AddColor(color_upgrade) => {
            game.hotbar.color_mappings.push(color_upgrade.color);
            hotkey = Some(map_socket_color_hotkey(color_upgrade.color));
        },
        UpgradeKind::AddRing(_) => {
            let existing_ring_count = ring_count;
            zoom_out = existing_ring_count == 1;
            let num_sockets = if existing_ring_count == 0 {
                STARTING_SOCKETS
            } else {
                game.rings[existing_ring_count - 1].sockets.len()
            };
            let ring = spawn_ring(
                &mut game.rings,
                &mut game.ring_index,
                num_sockets,
                now,
                existing_ring_count,
            );
            new_ring = Some(ring);
        },
        UpgradeKind::EnhanceColor(_) => {},
    }

    proof {
        lemma_resolution_priced(game@.unlocks, game@.history);
    }
    let unlocked = resolve_unlocks(&mut game.unlocks, &game.upgrade_history);

    PurchaseOutcome { accepted: true, layout, hotkey, new_ring, zoom_out, unlocked }
}

/// The game as it starts at `now`: one ring of two sockets with a blue
/// orb in the second, an empty wallet, nothing bought, no rule in the
/// pool yet, and blue as the one colour on the hotbar.
pub open spec fn new_game(now: int) -> GameView {
    GameView {
        rings: seq![fresh_ring(STARTING_SOCKETS, now, 0)],
        cells: no_cells().insert(grid_key(0), 0),
        amount: 0,
        pending_amount: 0,
        history: Set::empty(),
        unlocks: Seq::empty(),
        selected_index: 0,
        color_mappings: seq![SocketColor::BLUE],
    }
}

impl Game {
    /// Starts a game at `now`.
    pub fn new(now: i64) -> (game: Game)
        requires
            0 <= now <= MAX_TIME_MICROS,
        ensures
            game@ == new_game(now as int),
            game.wf(),
    {
        let mut rings: Vec<Ring> = Vec::new();
        let mut ring_index = RingIndex::new();
        assert(ring_views(rings@) =~= Seq::empty());
        spawn_ring(&mut rings, &mut ring_index, STARTING_SOCKETS, now, 0);
        let mut color_mappings: Vec<SocketColor> = Vec::new();
        color_mappings.push(SocketColor::BLUE);
        let game = Game {
            rings,
            ring_index,
            currency: Currency { amount: big_from_u64(0), pending_amount: big_from_u64(0) },
            upgrade_history: UpgradeHistory::new(),
            unlocks: Unlocks(Vec::new()),
            hotbar: Hotbar { selected_index: 0, color_mappings },
        };
        proof {
            assert(game@.rings =~= new_game(now as int).rings);
            assert(game@.unlocks =~= Seq::<UnlockView>::empty());
            assert(game@.color_mappings =~= seq![SocketColor::BLUE]);
        }
        game
    }
}

/// The game after the shop opened: the pool holds the starting rules
/// that are not satisfied yet.
pub open spec fn shop_opened(game: GameView) -> GameView {
    GameView { unlocks: remaining(starting_rules(), game.history), ..game }
}

/// Opens the shop at `now`: fills the pool with the rules that a game
/// starts with and makes the purchase of nothing for nothing, which puts
/// on offer what asks for no prerequisite.
pub fn on_new_shop(game: &mut Game, now: i64) -> (outcome: PurchaseOutcome)
    requires
        old(game).wf(),
        0 <= now <= MAX_TIME_MICROS,
    ensures
        final(game)@ == shop_opened(old(game)@),
        final(game).wf(),
        outcome.accepted,
        outcome.unlocked@ == realized(starting_rules(), old(game)@.history),
        kinds_priced(outcome.unlocked@),
{
    proof {
        lemma_starting_rules_priced();
    }
    game.unlocks = starting_unlocks();
    let purchase = Purchase {
        upgrade: crate::upgrade::Upgrade {
            upgrade_kind: UpgradeKind::Nothing,
            cost: big_from_u64(0),
        },
    };
    on_purchase(game, &purchase, now)
}

} // verus!
