//! The whole state of a game in one value, handed to every step of the
//! simulation.

use crate::bignum::biguint_value;
use crate::color::SocketColor;
use crate::grid::{index_wf, RingIndex};
use crate::ring::check_rings;
use crate::ring::{ring_views, rings_wf, Ring, RingView};
use crate::unlocks::check_rules;
use crate::upgrade::{rules_priced, UnlockView, Unlocks, UpgradeHistory, UpgradeKind};
use num_bigint::BigUint;
use vstd::prelude::*;

verus! {

/// The wallet. `amount` is settled and can be spent; `pending_amount` is
/// what the running cycles of all rings would pay, and is only shown.
pub struct Currency {
    pub amount: BigUint,
    pub pending_amount: BigUint,
}

/// The colours that the player can put into sockets, and the one chosen.
pub struct Hotbar {
    pub selected_index: u32,
    pub color_mappings: Vec<SocketColor>,
}

/// Everything that the simulation reads and changes.
pub struct Game {
    pub rings: Vec<Ring>,
    pub ring_index: RingIndex,
    pub currency: Currency,
    pub upgrade_history: UpgradeHistory,
    pub unlocks: Unlocks,
    pub hotbar: Hotbar,
}

/// The mathematical content of a [`Game`].
pub struct GameView {
    pub rings: Seq<RingView>,
    pub cells: Map<(i64, i64), usize>,
    pub amount: nat,
    pub pending_amount: nat,
    pub history: Set<UpgradeKind>,
    pub unlocks: Seq<UnlockView>,
    pub selected_index: nat,
    pub color_mappings: Seq<SocketColor>,
}

impl View for Game {
    type V = GameView;

    open spec fn view(&self) -> GameView {
        GameView {
            rings: ring_views(self.rings@),
            cells: self.ring_index@,
            amount: biguint_value(self.currency.amount),
            pending_amount: biguint_value(self.currency.pending_amount),
            history: self.upgrade_history@,
            unlocks: self.unlocks@,
            selected_index: self.hotbar.selected_index as nat,
            color_mappings: self.hotbar.color_mappings@,
        }
    }
}

impl GameView {
    /// The rings are well formed, the index of cells knows exactly the
    /// rings that exist, the hotbar has a colour selected, and every rule
    /// of the shop grants an upgrade that has a price.
    pub open spec fn wf(&self) -> bool {
        &&& rings_wf(self.rings)
        &&& index_wf(self.cells, self.rings.len())
        &&& self.selected_index < self.color_mappings.len()
        &&& rules_priced(self.unlocks)
    }
}

impl Game {
    pub open spec fn wf(&self) -> bool {
        self@.wf()
    }

    /// Tells whether the game is well formed, which every step of the
    /// simulation asks for and keeps.
    pub fn check(&self) -> (ok: bool)
        ensures
            ok == self.wf(),
    {
        check_rings(&self.rings) && self.ring_index.check(self.rings.len())
            && (self.hotbar.selected_index as usize) < self.hotbar.color_mappings.len()
            && check_rules(&self.unlocks)
    }
}

} // verus!
