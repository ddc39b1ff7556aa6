//! The end of a cycle: the bonuses it earned, what it pays, and the reset
//! of the ring for its next cycle.

use crate::bignum::{big_add, big_clone, big_from_u64, big_gt, big_mul, biguint_value};
use crate::game::{Game, GameView};
use crate::ring::{bonus_views, CycleBonus, CycleBonusView, Ring, RingView, MAX_TIME_MICROS};
use num_bigint::BigUint;
use vstd::prelude::*;

verus! {

/// Tells a ring that its cycle is over and when its next one starts.
#[derive(PartialEq, Eq, Clone, Copy, Debug, Structural)]
pub struct CycleComplete {
    pub ring: usize,
    pub new_cycle_start_micros: i64,
}

/// The rings with an index below this one are heard when a cycle of theirs
/// pays out.
pub const AUDIBLE_RINGS: usize = 9;

/// The bonuses that the running cycle of a ring has earned. There is one
/// kind: when more sockets fired than the ring has, the excess.
pub open spec fn earned_bonuses(ring: RingView) -> Seq<CycleBonusView> {
    if ring.cycle.len() > ring.sockets.len() {
        seq![CycleBonusView::Overflow((ring.cycle.len() - ring.sockets.len()) as nat)]
    } else {
        Seq::empty()
    }
}

/// What a bonus pays.
pub open spec fn bonus_value(bonus: CycleBonusView) -> nat {
    match bonus {
        CycleBonusView::Overflow(size) => size,
    }
}

/// What a list of bonuses pays in all.
pub open spec fn total_bonus(bonuses: Seq<CycleBonusView>) -> nat
    decreases bonuses.len(),
{
    if bonuses.len() == 0 {
        0
    } else {
        total_bonus(bonuses.drop_last()) + bonus_value(bonuses.last())
    }
}

/// What the running cycle of a ring pays when it ends: its score times
/// its multiplier, and the bonuses on top.
pub open spec fn cycle_payout(ring: RingView) -> nat {
    ring.cycle_score * ring.cycle_multiplier + total_bonus(earned_bonuses(ring))
}

/// The overflow bonus is the number of firings beyond the number of
/// sockets, and there is no bonus without such an excess.
pub proof fn lemma_overflow_bonus(ring: RingView)
    ensures
        ring.cycle.len() > ring.sockets.len() ==> total_bonus(earned_bonuses(ring))
            == ring.cycle.len() - ring.sockets.len(),
        ring.cycle.len() <= ring.sockets.len() ==> earned_bonuses(ring).len() == 0
            && total_bonus(earned_bonuses(ring)) == 0,
{
    let bonuses = earned_bonuses(ring);
    if ring.cycle.len() > ring.sockets.len() {
        assert(bonuses.drop_last().len() == 0);
        assert(total_bonus(bonuses.drop_last()) == 0);
    }
}

/// A ring after its cycle was settled: the cycle and its bonuses become
/// the previous ones, the count of cycles goes up by one, and the score,
/// the multiplier and the list of firings start over.
pub open spec fn settled_ring(ring: RingView, new_cycle_start: int) -> RingView {
    RingView {
        cycle_count: ring.cycle_count + 1,
        previous_bonuses: earned_bonuses(ring),
        previous_cycle: ring.cycle,
        cycle: Seq::empty(),
        cycle_score: 0,
        cycle_start_micros: new_cycle_start,
        cycle_multiplier: 1,
        ..ring
    }
}

/// The game after the cycle of a ring was settled: the ring starts over
/// and the wallet grows by what the cycle pays.
pub open spec fn settled(game: GameView, event: CycleComplete) -> GameView {
    let ring = game.rings[event.ring as int];
    GameView {
        rings: game.rings.update(
            event.ring as int,
            settled_ring(ring, event.new_cycle_start_micros as int),
        ),
        amount: game.amount + cycle_payout(ring),
        ..game
    }
}

/// The bonuses that the running cycle of a ring has earned.
pub fn calculate_cycle_bonuses(ring: &Ring) -> (result: Vec<CycleBonus>)
    ensures
        bonus_views(result@) == earned_bonuses(ring@),
{
    let mut result: Vec<CycleBonus> = Vec::new();
    if ring.cycle.len() > ring.sockets.len() {
        let excess = ring.cycle.len() - ring.sockets.len();
        result.push(CycleBonus::Overflow(big_from_u64(excess as u64)));
    }
    assert(bonus_views(result@) =~= earned_bonuses(ring@));
    result
}

/// What a bonus pays.
pub fn score_bonus(bonus: &CycleBonus) -> (score: BigUint)
    ensures
        biguint_value(score) == bonus_value(bonus@),
{
    match bonus {
        CycleBonus::Overflow(size) => big_clone(size),
    }
}

/// What a list of bonuses pays in all.
pub fn score_bonuses(bonuses: &Vec<CycleBonus>) -> (score: BigUint)
    ensures
        biguint_value(score) == total_bonus(bonus_views(bonuses@)),
{
    let mut score = big_from_u64(0);
    let mut i: usize = 0;
    while i < bonuses.len()
        invariant
            i <= bonuses.len(),
            biguint_value(score) == total_bonus(bonus_views(bonuses@).take(i as int)),
        decreases bonuses.len() - i,
    {
        proof {
            let views = bonus_views(bonuses@);
            assert(views.take(i + 1).drop_last() =~= views.take(i as int));
            assert(views.take(i + 1).last() == bonuses[i as int]@);
        }
        let next = score_bonus(&bonuses[i]);
        score = big_add(&score, &next);
        i += 1;
    }
    proof {
        assert(bonus_views(bonuses@).take(i as int) =~= bonus_views(bonuses@));
    }
    score
}

/// What the settling of a cycle did, for the presentation to show.
pub struct CycleSettlement {
    pub ring: usize,
    /// What the cycle paid into the wallet.
    pub payout: BigUint,
    /// The score of the cycle before the multiplier and the bonuses.
    pub unmultiplied_score: BigUint,
    /// The multiplier that the cycle ended with.
    pub multiplier: BigUint,
    pub bonuses: Vec<CycleBonus>,
    /// Whether the payout is to be heard.
    pub play_sound: bool,
}

/// The mathematical content of a [`CycleSettlement`].
pub struct CycleSettlementView {
    pub ring: usize,
    pub payout: nat,
    pub unmultiplied_score: nat,
    pub multiplier: nat,
    pub bonuses: Seq<CycleBonusView>,
    pub play_sound: bool,
}

impl View for CycleSettlement {
    type V = CycleSettlementView;

    open spec fn view(&self) -> CycleSettlementView {
        CycleSettlementView {
            ring: self.ring,
            payout: biguint_value(self.payout),
            unmultiplied_score: biguint_value(self.unmultiplied_score),
            multiplier: biguint_value(self.multiplier),
            bonuses: bonus_views(self.bonuses@),
            play_sound: self.play_sound,
        }
    }
}

/// What the settling of the running cycle of a ring reports. A payout is
/// heard when it is not zero and the ring is one of the first nine.
pub open spec fn settlement_of(ring: RingView) -> CycleSettlementView {
    CycleSettlementView {
        ring: ring.index as usize,
        payout: cycle_payout(ring),
        unmultiplied_score: ring.cycle_score,
        multiplier: ring.cycle_multiplier,
        bonuses: earned_bonuses(ring),
        play_sound: cycle_payout(ring) > 0 && ring.index < AUDIBLE_RINGS,
    }
}

/// Whether a settling names a ring that exists and a start of the next
/// cycle that the clock can show.
pub open spec fn completion_valid(rings: Seq<RingView>, event: CycleComplete) -> bool {
    event.ring < rings.len() && 0 <= event.new_cycle_start_micros <= MAX_TIME_MICROS
}

/// Settling a cycle keeps the game well formed and leaves every ring with
/// the sockets it had.
pub proof fn lemma_settled_wf(game: GameView, event: CycleComplete)
    requires
        game.wf(),
        completion_valid(game.rings, event),
    ensures
        settled(game, event).wf(),
        settled(game, event).rings.len() == game.rings.len(),
        forall|i: int|
            0 <= i < game.rings.len() ==> (#[trigger] settled(game, event).rings[i]).sockets
                == game.rings[i].sockets,
{
    let after = settled(game, event);
    assert forall|i: int| 0 <= i < after.rings.len() implies (#[trigger] after.rings[i]).wf()
        && after.rings[i].index == i by {
        assert(game.rings[i].wf());
    }
}

/// Settles the running cycle of a ring: pays its score times its
/// multiplier plus its bonuses into the wallet, keeps the cycle and the
/// bonuses as the previous ones, and starts the ring over with an empty
/// cycle, no score and a multiplier of one, whatever they were.
pub fn on_cycle_complete(game: &mut Game, event: CycleComplete) -> (settlement: CycleSettlement)
    requires
        old(game).wf(),
        completion_valid(old(game)@.rings, event),
    ensures
        final(game)@ == settled(old(game)@, event),
        final(game).wf(),
        settlement@ == settlement_of(old(game)@.rings[event.ring as int]),
        final(game)@.rings[event.ring as int].cycle.len() == 0,
        final(game)@.rings[event.ring as int].cycle_score == 0,
        final(game)@.rings[event.ring as int].cycle_multiplier == 1,
        final(game)@.amount >= old(game)@.amount,
{
    let bonuses = calculate_cycle_bonuses(&game.rings[event.ring]);
    let kept_bonuses = calculate_cycle_bonuses(&game.rings[event.ring]);
    let bonus_score = score_bonuses(&bonuses);

    let multiplied = big_mul(
        &game.rings[event.ring].cycle_score,
        &game.rings[event.ring].cycle_multiplier,
    );
    let cycle_score = big_add(&multiplied, &bonus_score);

    let old_multiplier = big_clone(&game.rings[event.ring].cycle_multiplier);
    let unmultiplied_score = big_clone(&game.rings[event.ring].cycle_score);
    let ring_ordinal = game.rings[event.ring].index;

    let one = big_from_u64(1);
    game.rings[event.ring].cycle_count = big_add(&game.rings[event.ring].cycle_count, &one);
    game.rings[event.ring].previous_bonuses = kept_bonuses;
    let mut finished_cycle: Vec<crate::color::SocketColor> = Vec::new();
    std::mem::swap(&mut game.rings[event.ring].cycle, &mut finished_cycle);
    game.rings[event.ring].previous_cycle = finished_cycle;

    game.currency.amount = big_add(&game.currency.amount, &cycle_score);

    game.rings[event.ring].cycle_score = big_from_u64(0);
    game.rings[event.ring].cycle_start_micros = event.new_cycle_start_micros;
    game.rings[event.ring].cycle_multiplier = big_from_u64(1);

    let zero = big_from_u64(0);
    let play_sound = big_gt(&cycle_score, &zero) && ring_ordinal < AUDIBLE_RINGS;

    proof {
        let before = old(game)@;
        let ring = before.rings[event.ring as int];
        assert(game@.rings[event.ring as int].cycle =~= Seq::<crate::color::SocketColor>::empty());
        assert(game@.rings =~= settled(before, event).rings);
        assert(ring.wf() && ring.index == event.ring);
        lemma_settled_wf(before, event);
    }

    CycleSettlement {
        ring: event.ring,
        payout: cycle_score,
        unmultiplied_score,
        multiplier: old_multiplier,
        bonuses,
        play_sound,
    }
}

/// Settling twice in a row pays nothing the second time and leaves the
/// score, the multiplier and the list of firings as the first settling
/// left them.
pub proof fn lemma_settle_resets(game: GameView, first: CycleComplete, second: CycleComplete)
    requires
        game.wf(),
        completion_valid(game.rings, first),
        completion_valid(game.rings, second),
        first.ring == second.ring,
    ensures
        settled(game, first).rings[first.ring as int].cycle.len() == 0,
        settled(game, first).rings[first.ring as int].cycle_score == 0,
        settled(game, first).rings[first.ring as int].cycle_multiplier == 1,
        cycle_payout(settled(game, first).rings[first.ring as int]) == 0,
        settled(settled(game, first), second).amount == settled(game, first).amount,
        settled(settled(game, first), second).rings[first.ring as int].cycle.len() == 0,
        settled(settled(game, first), second).rings[first.ring as int].cycle_score == 0,
        settled(settled(game, first), second).rings[first.ring as int].cycle_multiplier == 1,
{
    let once = settled(game, first).rings[first.ring as int];
    lemma_overflow_bonus(once);
}

} // verus!
