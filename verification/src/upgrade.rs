//! What can be bought, and the record of what has been bought.

use crate::bignum::{
    big_add, big_from_u64, big_mul_u64, big_pow, biguint_value, multiply_biguint_scaled,
    scaled_product,
};
use crate::color::SocketColor;
use bevy::utils::HashSet;
use num_bigint::BigUint;
use vstd::arithmetic::power::pow;
use vstd::prelude::*;

verus! {

/// One more socket on the newest ring.
#[derive(PartialEq, Eq, Hash, Clone, Copy, Debug, Structural)]
pub struct AddSocketUpgrade {
    pub level: u32,
}

/// One more ring.
#[derive(PartialEq, Eq, Hash, Clone, Copy, Debug, Structural)]
pub struct AddRingUpgrade {
    pub level: u32,
}

/// A new colour of orb for the hotbar.
#[derive(PartialEq, Eq, Hash, Clone, Copy, Debug, Structural)]
pub struct AddColorUpgrade {
    pub color: SocketColor,
}

/// A stronger behaviour for the orbs of one colour.
#[derive(PartialEq, Eq, Hash, Clone, Copy, Debug, Structural)]
pub struct EnhanceColorUpgrade {
    pub color: SocketColor,
    pub tier: u32,
}

/// An upgrade, told apart by its variant and what the variant holds.
/// `Nothing` is the purchase that opens the shop and is never recorded.
#[derive(Default, PartialEq, Eq, Hash, Clone, Copy, Debug, Structural)]
pub enum UpgradeKind {
    #[default]
    Nothing,
    AddSocket(AddSocketUpgrade),
    AddColor(AddColorUpgrade),
    AddRing(AddRingUpgrade),
    EnhanceColor(EnhanceColorUpgrade),
}

/// An upgrade on offer, with its price.
pub struct Upgrade {
    pub upgrade_kind: UpgradeKind,
    pub cost: BigUint,
}

/// The request to buy an upgrade at the price it was offered for.
pub struct Purchase {
    pub upgrade: Upgrade,
}

/// Every upgrade ever bought. It only grows.
///
/// The upgrades are kept in a `bevy::utils::HashSet`, a type that cannot
/// be declared to the verifier; what it holds is known as
/// [`history_contents`], on the word of the three functions below.
#[verifier::external_body]
pub struct UpgradeHistory {
    history: HashSet<UpgradeKind>,
}

/// The set of upgrades that a history holds.
pub uninterp spec fn history_contents(history: UpgradeHistory) -> Set<UpgradeKind>;

/// `HashSet::default`: trusted to make a set that holds nothing.
#[verifier::external_body]
pub(crate) fn history_empty() -> (history: UpgradeHistory)
    ensures
        history_contents(history) == Set::<UpgradeKind>::empty(),
{
    UpgradeHistory { history: HashSet::default() }
}

/// `HashSet::insert`: trusted to add the one value to the set, and to leave
/// a set that already holds it as it was.
#[verifier::external_body]
pub(crate) fn history_insert(history: &mut UpgradeHistory, kind: UpgradeKind)
    ensures
        history_contents(*final(history)) == history_contents(*old(history)).insert(kind),
{
    history.history.insert(kind);
}

/// `HashSet::contains`: trusted to tell whether the set holds a value equal
/// to the given one.
#[verifier::external_body]
pub(crate) fn history_contains(history: &UpgradeHistory, kind: &UpgradeKind) -> (found: bool)
    ensures
        found == history_contents(*history).contains(*kind),
{
    history.history.contains(kind)
}

impl View for UpgradeHistory {
    type V = Set<UpgradeKind>;

    open spec fn view(&self) -> Set<UpgradeKind> {
        history_contents(*self)
    }
}

impl UpgradeHistory {
    /// A history in which nothing has been bought yet.
    pub fn new() -> (history: UpgradeHistory)
        ensures
            history@ == Set::<UpgradeKind>::empty(),
    {
        history_empty()
    }

    /// Records an upgrade as bought.
    pub fn record(&mut self, kind: UpgradeKind)
        ensures
            final(self)@ == old(self)@.insert(kind),
    {
        history_insert(self, kind)
    }

    /// Whether an upgrade has been bought.
    pub fn owns(&self, kind: UpgradeKind) -> (found: bool)
        ensures
            found == self@.contains(kind),
    {
        history_contains(self, &kind)
    }
}

/// The first enhancement of a colour, which the scoring rules ask about.
pub open spec fn first_enhancement(color: SocketColor) -> UpgradeKind {
    UpgradeKind::EnhanceColor(EnhanceColorUpgrade { color, tier: 1 })
}

/// Whether the first enhancement of a colour has been bought.
pub fn is_enhanced(history: &UpgradeHistory, color: SocketColor) -> (found: bool)
    ensures
        found == history@.contains(first_enhancement(color)),
{
    history.owns(UpgradeKind::EnhanceColor(EnhanceColorUpgrade { color, tier: 1 }))
}

/// A rule of the shop: once every prerequisite has been bought, the
/// upgrade that the rule grants goes on offer.
pub struct Unlock {
    pub prerequisites: Vec<UpgradeKind>,
    pub grants: UpgradeKind,
}

/// The mathematical content of an [`Unlock`].
pub struct UnlockView {
    pub prerequisites: Seq<UpgradeKind>,
    pub grants: UpgradeKind,
}

impl View for Unlock {
    type V = UnlockView;

    open spec fn view(&self) -> UnlockView {
        UnlockView { prerequisites: self.prerequisites@, grants: self.grants }
    }
}

/// The rules that have not been realized yet.
pub struct Unlocks(pub Vec<Unlock>);

/// The views of a list of rules, in order.
pub open spec fn unlock_views(pool: Seq<Unlock>) -> Seq<UnlockView> {
    Seq::new(pool.len(), |i: int| pool[i]@)
}

impl View for Unlocks {
    type V = Seq<UnlockView>;

    open spec fn view(&self) -> Seq<UnlockView> {
        unlock_views(self.0@)
    }
}

impl View for Upgrade {
    type V = (UpgradeKind, nat);

    open spec fn view(&self) -> (UpgradeKind, nat) {
        (self.upgrade_kind, biguint_value(self.cost))
    }
}

/// The two powers behind the price of a socket, as fixed-point numbers in
/// millionths. For a socket of level `n` up to ten, `growth_scaled` is
/// `n` to the power of `1 + 0.115 n`. Beyond ten, `growth_scaled` is `n`
/// to the power of `1 + 0.07 n` and `threshold_scaled` is `n` to the
/// power of `2.25`. The powers are taken in floating point by the caller.
#[derive(PartialEq, Eq, Clone, Copy, Debug, Structural)]
pub struct SocketCostCurve {
    pub growth_scaled: u64,
    pub threshold_scaled: u64,
}

/// What the first socket costs.
pub const BASE_ADD_SOCKET_COST: u64 = 4;

/// The level of socket up to which the price follows one curve alone.
pub const SOCKET_SCALING_THRESHOLD: u32 = 10;

/// Whether an upgrade has a price. The empty colour and blue cannot be
/// added, the empty colour cannot be enhanced, blue has three tiers, and
/// the level of a ring must leave room for the exponent of its price.
pub open spec fn priced(kind: UpgradeKind) -> bool {
    match kind {
        UpgradeKind::Nothing => true,
        UpgradeKind::AddSocket(_) => true,
        UpgradeKind::AddColor(upgrade) => upgrade.color != SocketColor::NONE && upgrade.color
            != SocketColor::BLUE,
        UpgradeKind::AddRing(upgrade) => upgrade.level < u32::MAX,
        UpgradeKind::EnhanceColor(upgrade) => upgrade.color != SocketColor::NONE && (upgrade.color
            == SocketColor::BLUE ==> 1 <= upgrade.tier <= 3),
    }
}

/// Whether every upgrade of a list has a price.
pub open spec fn kinds_priced(kinds: Seq<UpgradeKind>) -> bool {
    forall|i: int| 0 <= i < kinds.len() ==> priced(#[trigger] kinds[i])
}

/// Whether every rule of a pool grants an upgrade that has a price.
pub open spec fn rules_priced(pool: Seq<UnlockView>) -> bool {
    forall|i: int| 0 <= i < pool.len() ==> priced((#[trigger] pool[i]).grants)
}

/// Tells whether an upgrade has a price.
pub fn is_priced(kind: UpgradeKind) -> (ok: bool)
    ensures
        ok == priced(kind),
{
    match kind {
        UpgradeKind::Nothing => true,
        UpgradeKind::AddSocket(_) => true,
        UpgradeKind::AddColor(upgrade) => upgrade.color != SocketColor::NONE && upgrade.color
            != SocketColor::BLUE,
        UpgradeKind::AddRing(upgrade) => upgrade.level < u32::MAX,
        UpgradeKind::EnhanceColor(upgrade) => upgrade.color != SocketColor::NONE && (upgrade.color
            != SocketColor::BLUE || (1 <= upgrade.tier && upgrade.tier <= 3)),
    }
}

/// The price of a socket: the base price scaled by the growth curve, and
/// beyond level ten the base price scaled by the threshold curve on top.
pub open spec fn add_socket_cost(level: u32, curve: SocketCostCurve) -> nat {
    if level <= SOCKET_SCALING_THRESHOLD {
        scaled_product(BASE_ADD_SOCKET_COST as nat, curve.growth_scaled as nat)
    } else {
        scaled_product(BASE_ADD_SOCKET_COST as nat, curve.threshold_scaled as nat)
            + scaled_product(BASE_ADD_SOCKET_COST as nat, curve.growth_scaled as nat)
    }
}

/// The price of a colour.
pub open spec fn add_color_cost(color: SocketColor) -> nat {
    match color {
        SocketColor::RED => 15,
        SocketColor::GREEN => 40,
        SocketColor::ORANGE => 100,
        SocketColor::PINK => 250,
        _ => 0,
    }
}

/// The price of a ring: a table for the first nine, then twenty times ten
/// to the power of the level plus one.
pub open spec fn add_ring_cost(level: u32) -> nat {
    if level == 1 {
        1250
    } else if level == 2 {
        200_000
    } else if level == 3 {
        2_000_000
    } else if level == 4 {
        20_000_000
    } else if level == 5 {
        200_000_000
    } else if level == 6 {
        2_000_000_000
    } else if level == 7 {
        20_000_000_000
    } else if level == 8 {
        200_000_000_000
    } else if level == 9 {
        2_000_000_000_000
    } else {
        (20 * pow(10, (level + 1) as nat)) as nat
    }
}

/// The price of an enhancement.
pub open spec fn enhance_color_cost(color: SocketColor, tier: u32) -> nat {
    match color {
        SocketColor::NONE => 0,
        SocketColor::BLUE => if tier == 1 {
            1000
        } else if tier == 2 {
            25000
        } else {
            50000
        },
        SocketColor::RED => 3000,
        SocketColor::GREEN => 100_000,
        SocketColor::ORANGE => 20000,
        SocketColor::PINK => 1_000_000,
    }
}

/// The price of an upgrade.
pub open spec fn cost_of(kind: UpgradeKind, curve: SocketCostCurve) -> nat {
    match kind {
        UpgradeKind::Nothing => 0,
        UpgradeKind::AddSocket(upgrade) => add_socket_cost(upgrade.level, curve),
        UpgradeKind::AddColor(upgrade) => add_color_cost(upgrade.color),
        UpgradeKind::AddRing(upgrade) => add_ring_cost(upgrade.level),
        UpgradeKind::EnhanceColor(upgrade) => enhance_color_cost(upgrade.color, upgrade.tier),
    }
}

/// The price of an upgrade. `curve` is read for a socket only.
pub fn upgrade_cost(upgrade_kind: UpgradeKind, curve: SocketCostCurve) -> (cost: BigUint)
    requires
        priced(upgrade_kind),
    ensures
        biguint_value(cost) == cost_of(upgrade_kind, curve),
{
    match upgrade_kind {
        UpgradeKind::Nothing => big_from_u64(0),
        UpgradeKind::AddSocket(upgrade) => {
            let base_add_socket_cost = big_from_u64(BASE_ADD_SOCKET_COST);
            if upgrade.level <= SOCKET_SCALING_THRESHOLD {
                multiply_biguint_scaled(&base_add_socket_cost, curve.growth_scaled)
            } else {
                let cost_at_scaling_threshold = multiply_biguint_scaled(
                    &base_add_socket_cost,
                    curve.threshold_scaled,
                );
                let cost_after_threshold = multiply_biguint_scaled(
                    &base_add_socket_cost,
                    curve.growth_scaled,
                );
                big_add(&cost_at_scaling_threshold, &cost_after_threshold)
            }
        },
        UpgradeKind::AddColor(upgrade) => match upgrade.color {
            SocketColor::RED => big_from_u64(15),
            SocketColor::GREEN => big_from_u64(40),
            SocketColor::ORANGE => big_from_u64(100),
            _ => big_from_u64(250),
        },
        UpgradeKind::AddRing(upgrade) => {
            if upgrade.level == 1 {
                big_from_u64(1250)
            } else if upgrade.level == 2 {
                big_from_u64(200_000)
            } else if upgrade.level == 3 {
                big_from_u64(2_000_000)
            } else if upgrade.level == 4 {
                big_from_u64(20_000_000)
            } else if upgrade.level == 5 {
                big_from_u64(200_000_000)
            } else if upgrade.level == 6 {
                big_from_u64(2_000_000_000)
            } else if upgrade.level == 7 {
                big_from_u64(20_000_000_000)
            } else if upgrade.level == 8 {
                big_from_u64(200_000_000_000)
            } else if upgrade.level == 9 {
                big_from_u64(2_000_000_000_000)
            } else {
                let base = big_from_u64(10);
                let exponent = upgrade.level + 1;
                let power = big_pow(&base, exponent);
                big_mul_u64(&power, 20)
            }
        },
        UpgradeKind::EnhanceColor(upgrade) => match upgrade.color {
            SocketColor::BLUE => if upgrade.tier == 1 {
                big_from_u64(1000)
            } else if upgrade.tier == 2 {
                big_from_u64(25000)
            } else {
                big_from_u64(50000)
            },
            SocketColor::RED => big_from_u64(3000),
            SocketColor::GREEN => big_from_u64(100_000),
            SocketColor::ORANGE => big_from_u64(20000),
            _ => big_from_u64(1_000_000),
        },
    }
}

/// The offers for a list of upgrades that have come on offer, each at
/// its price of this moment. `curves[i]` holds the two powers for
/// `unlocked[i]`; it is read where that is a socket.
pub open spec fn priced_offers(
    unlocked: Seq<UpgradeKind>,
    curves: Seq<SocketCostCurve>,
) -> Seq<(UpgradeKind, nat)> {
    Seq::new(unlocked.len(), |i: int| (unlocked[i], cost_of(unlocked[i], curves[i])))
}

/// The views of a list of offers, in order.
pub open spec fn upgrade_views(offers: Seq<Upgrade>) -> Seq<(UpgradeKind, nat)> {
    Seq::new(offers.len(), |i: int| offers[i]@)
}

/// Prices the upgrades that a purchase has put on offer, in their order.
/// The prices are those of the moment of the call, not of the moment at
/// which the rules were written.
pub fn price_offers(unlocked: &Vec<UpgradeKind>, curves: &Vec<SocketCostCurve>) -> (offers: Vec<
    Upgrade,
>)
    requires
        curves.len() == unlocked.len(),
        kinds_priced(unlocked@),
    ensures
        upgrade_views(offers@) == priced_offers(unlocked@, curves@),
        offers.len() == unlocked.len(),
        forall|i: int|
            0 <= i < offers.len() ==> (#[trigger] offers[i])@ == (
                unlocked[i],
                cost_of(unlocked[i], curves[i]),
            ),
{
    let mut offers: Vec<Upgrade> = Vec::new();
    let mut i: usize = 0;
    while i < unlocked.len()
        invariant
            i <= unlocked.len(),
            curves.len() == unlocked.len(),
            offers.len() == i,
            kinds_priced(unlocked@),
            forall|k: int|
                0 <= k < i ==> (#[trigger] offers[k])@ == (
                    unlocked[k],
                    cost_of(unlocked[k], curves[k]),
                ),
        decreases unlocked.len() - i,
    {
        let upgrade_kind = unlocked[i];
        assert(priced(unlocked@[i as int]));
        let cost = upgrade_cost(upgrade_kind, curves[i]);
        offers.push(Upgrade { upgrade_kind, cost });
        i += 1;
    }
    assert(upgrade_views(offers@) =~= priced_offers(unlocked@, curves@));
    offers
}

} // verus!
