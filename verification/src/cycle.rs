//! The firing of sockets: the cooldown gate, what each colour scores, and
//! which further sockets a firing sets off.

use crate::bignum::{
    big_add, big_clone, big_from_u64, big_mul, big_sub, biguint_value, multiply_biguint_scaled,
    scaled_product,
};
use crate::color::SocketColor;
use crate::game::{Game, GameView};
use crate::grid::{
    get_grid_coordinates, grid_cell, index_wf, ring_at, GridCoordinates, RingIndex, GRID_LIMIT,
};
use crate::ring::{
    count_blue_orbs, count_color, ring_views, Ring, RingView, Socket,
    MAX_TIME_MICROS,
};
use crate::upgrade::{first_enhancement, is_enhanced, UpgradeHistory, UpgradeKind};
use num_bigint::BigUint;
use vstd::prelude::*;

verus! {

/// Asks a socket of a ring to fire.
#[derive(PartialEq, Eq, Clone, Copy, Debug, Structural)]
pub struct SocketTriggered {
    pub socket: usize,
    pub ring: usize,
}

/// By how much an orange orb shortens the cooldowns of the other sockets
/// of its ring.
pub struct ReduceCooldownEffect {
    pub ring: usize,
    pub amount_micros: i64,
}

/// What a firing does to sockets other than the one that fired.
pub enum SocketEffect {
    ReduceCooldown(ReduceCooldownEffect),
}

/// Half a second: what one orange orb takes off the other cooldowns.
pub const COOLDOWN_REDUCTION_MICROS: i64 = 500_000;

/// A tenth, in millionths: the share of the pending currency that an
/// enhanced green orb adds to the score.
pub const PENDING_SHARE_SCALED: u64 = 100_000;

/// The cooldown gate: an empty socket never fires, another one fires once
/// its cooldown is over.
pub open spec fn can_fire(socket: Socket, now: int) -> bool {
    socket.color != SocketColor::NONE && now >= socket.cooldown_end()
}

/// What an orb of the given colour adds to the score of its ring's cycle
/// when it fires.
pub open spec fn score_gain(
    ring: RingView,
    color: SocketColor,
    history: Set<UpgradeKind>,
    pending_currency: nat,
) -> nat {
    match color {
        SocketColor::BLUE => if history.contains(first_enhancement(SocketColor::BLUE)) {
            count_color(ring.sockets, SocketColor::BLUE)
        } else {
            1
        },
        SocketColor::GREEN => ring.previous_cycle.len() + if history.contains(
            first_enhancement(SocketColor::GREEN),
        ) {
            scaled_product(pending_currency, PENDING_SHARE_SCALED as nat)
        } else {
            0
        },
        _ => 0,
    }
}

/// What an orb of the given colour adds to the multiplier of its ring's
/// cycle when it fires.
pub open spec fn multiplier_gain(color: SocketColor) -> nat {
    if color == SocketColor::PINK {
        1
    } else {
        0
    }
}

/// A socket with its last firing moved to another time.
pub open spec fn fired_at(socket: Socket, time: int) -> Socket {
    Socket { last_triggered_time_micros: time as i64, ..socket }
}

/// The sockets of a ring after the cooldowns of all but socket `fired`
/// were reduced: every other socket that fired after time zero has its
/// last firing moved `amount` into the past.
pub open spec fn cooled(sockets: Seq<Socket>, fired: int, amount: int) -> Seq<Socket> {
    Seq::new(
        sockets.len(),
        |j: int|
            if j != fired && sockets[j].last_triggered_time_micros > 0 {
                fired_at(sockets[j], sockets[j].last_triggered_time_micros - amount)
            } else {
                sockets[j]
            },
    )
}

/// The sockets of a ring after socket `fired` fired at `now`: it rests
/// from `now` on, and if its orb is orange the others are cooled by half
/// a second.
pub open spec fn sockets_after_fire(sockets: Seq<Socket>, fired: int, now: int) -> Seq<Socket> {
    let rested = sockets.update(fired, fired_at(sockets[fired], now));
    if sockets[fired].color == SocketColor::ORANGE {
        cooled(rested, fired, COOLDOWN_REDUCTION_MICROS as int)
    } else {
        rested
    }
}

/// A ring after its socket `fired` fired at `now`.
pub open spec fn fired_ring(
    ring: RingView,
    fired: int,
    now: int,
    history: Set<UpgradeKind>,
    pending_currency: nat,
) -> RingView {
    let color = ring.sockets[fired].color;
    let score = ring.cycle_score + score_gain(ring, color, history, pending_currency);
    let multiplier = ring.cycle_multiplier + multiplier_gain(color);
    RingView {
        cycle: ring.cycle.push(color),
        cycle_score: score,
        cycle_multiplier: multiplier,
        pending_amount: score * multiplier,
        sockets: sockets_after_fire(ring.sockets, fired, now),
        ..ring
    }
}

/// Firing keeps a ring well formed.
pub proof fn lemma_fired_ring_wf(
    ring: RingView,
    fired: int,
    now: int,
    history: Set<UpgradeKind>,
    pending_currency: nat,
)
    requires
        ring.wf(),
        0 <= fired < ring.sockets.len(),
        0 <= now <= MAX_TIME_MICROS,
    ensures
        fired_ring(ring, fired, now, history, pending_currency).wf(),
        fired_ring(ring, fired, now, history, pending_currency).index == ring.index,
        fired_ring(ring, fired, now, history, pending_currency).sockets.len()
            == ring.sockets.len(),
{
    let after = fired_ring(ring, fired, now, history, pending_currency);
    assert forall|j: int| 0 <= j < after.sockets.len() implies {
        &&& (#[trigger] after.sockets[j]).wf()
        &&& after.sockets[j].index == j
        &&& after.sockets[j].ring == after.index
    } by {
        assert(ring.sockets[j].wf());
    }
}

/// The effect on the other sockets that the firing of an orb of the given
/// colour on ring `ring` queues, if it queues one.
pub open spec fn queued_effect(color: SocketColor, ring: usize) -> Option<(usize, i64)> {
    if color == SocketColor::ORANGE {
        Some((ring, COOLDOWN_REDUCTION_MICROS))
    } else {
        None
    }
}

/// The ring and the amount that an effect holds.
pub open spec fn effect_view(effect: Option<SocketEffect>) -> Option<(usize, i64)> {
    match effect {
        Some(SocketEffect::ReduceCooldown(reduce)) => Some((reduce.ring, reduce.amount_micros)),
        None => None,
    }
}

/// Moves the last firing of every socket but `fired` that fired after time
/// zero `amount` into the past.
fn reduce_cooldowns(sockets: &mut Vec<Socket>, fired: usize, amount: i64)
    requires
        forall|j: int| 0 <= j < old(sockets).len() ==> (#[trigger] old(sockets)[j]).wf(),
        0 <= amount <= COOLDOWN_REDUCTION_MICROS,
    ensures
        final(sockets)@ == cooled(old(sockets)@, fired as int, amount as int),
{
    let mut j: usize = 0;
    while j < sockets.len()
        invariant
            j <= sockets.len(),
            sockets.len() == old(sockets).len(),
            0 <= amount <= COOLDOWN_REDUCTION_MICROS,
            forall|k: int|
                0 <= k < j ==> sockets[k] == cooled(old(sockets)@, fired as int, amount as int)[k],
            forall|k: int| j <= k < sockets.len() ==> sockets[k] == old(sockets)[k],
            forall|k: int| 0 <= k < old(sockets).len() ==> (#[trigger] old(sockets)[k]).wf(),
        decreases sockets.len() - j,
    {
        assert(old(sockets)[j as int].wf());
        if sockets[j].last_triggered_time_micros > 0 && j != fired {
            sockets[j].last_triggered_time_micros = sockets[j].last_triggered_time_micros - amount;
        }
        j += 1;
    }
    assert(sockets@ =~= cooled(old(sockets)@, fired as int, amount as int));
}

/// What the firing of a socket changed, for the presentation to show.
pub struct Firing {
    pub ring: usize,
    pub socket: usize,
    pub color: SocketColor,
    /// What the firing added to the score of the cycle.
    pub score_diff: BigUint,
    /// What the firing added to the multiplier of the cycle.
    pub multiplier_diff: BigUint,
}

/// The mathematical content of a [`Firing`].
pub struct FiringView {
    pub ring: usize,
    pub socket: usize,
    pub color: SocketColor,
    pub score_diff: nat,
    pub multiplier_diff: nat,
}

impl View for Firing {
    type V = FiringView;

    open spec fn view(&self) -> FiringView {
        FiringView {
            ring: self.ring,
            socket: self.socket,
            color: self.color,
            score_diff: biguint_value(self.score_diff),
            multiplier_diff: biguint_value(self.multiplier_diff),
        }
    }
}

/// What the firing of socket `fired` of a ring reports.
pub open spec fn firing_of(
    ring: RingView,
    fired: int,
    history: Set<UpgradeKind>,
    pending_currency: nat,
) -> FiringView {
    let color = ring.sockets[fired].color;
    FiringView {
        ring: ring.index as usize,
        socket: fired as usize,
        color,
        score_diff: score_gain(ring, color, history, pending_currency),
        multiplier_diff: multiplier_gain(color),
    }
}

/// Fires socket `fired` of a ring at `now`, whatever its cooldown says:
/// scores its orb, puts the socket to rest and applies what the orb does
/// to the other sockets. `pending_currency` is what all running cycles
/// would pay together.
pub fn fire_socket(
    ring: &mut Ring,
    fired: usize,
    now: i64,
    history: &UpgradeHistory,
    pending_currency: &BigUint,
) -> (firing: Firing)
    requires
        old(ring).wf(),
        fired < old(ring).sockets.len(),
        old(ring).sockets[fired as int].color != SocketColor::NONE,
        0 <= now <= MAX_TIME_MICROS,
    ensures
        final(ring)@ == fired_ring(
            old(ring)@,
            fired as int,
            now as int,
            history@,
            biguint_value(*pending_currency),
        ),
        final(ring).wf(),
        firing@ == firing_of(old(ring)@, fired as int, history@, biguint_value(*pending_currency)),
{
    let color = ring.sockets[fired].color;
    let old_score = big_clone(&ring.cycle_score);
    let old_multiplier = big_clone(&ring.cycle_multiplier);
    let mut effect: Option<SocketEffect> = None;

    ring.cycle.push(color);

    match color {
        SocketColor::BLUE => {
            if is_enhanced(history, SocketColor::BLUE) {
                let blue_orbs = count_blue_orbs(ring);
                let gain = big_from_u64(blue_orbs.0 as u64);
                ring.cycle_score = big_add(&ring.cycle_score, &gain);
            } else {
                let gain = big_from_u64(1);
                ring.cycle_score = big_add(&ring.cycle_score, &gain);
            }
        },
        SocketColor::RED => {},
        SocketColor::GREEN => {
            let score_gained = big_from_u64(ring.previous_cycle.len() as u64);
            ring.cycle_score = big_add(&ring.cycle_score, &score_gained);
            if is_enhanced(history, SocketColor::GREEN) {
                let share = multiply_biguint_scaled(pending_currency, PENDING_SHARE_SCALED);
                ring.cycle_score = big_add(&ring.cycle_score, &share);
            }
        },
        SocketColor::ORANGE => {
            effect = Some(
                SocketEffect::ReduceCooldown(
                    ReduceCooldownEffect {
                        ring: ring.index,
                        amount_micros: COOLDOWN_REDUCTION_MICROS,
                    },
                ),
            );
        },
        SocketColor::NONE => {},
        SocketColor::PINK => {
            let one = big_from_u64(1);
            ring.cycle_multiplier = big_add(&ring.cycle_multiplier, &one);
        },
    }

    ring.pending_amount = big_mul(&ring.cycle_score, &ring.cycle_multiplier);
    ring.sockets[fired].last_triggered_time_micros = now;

    let score_diff = big_sub(&ring.cycle_score, &old_score);
    let multiplier_diff = big_sub(&ring.cycle_multiplier, &old_multiplier);

    assert(effect_view(effect) == queued_effect(color, ring.index));
    match effect {
        Some(SocketEffect::ReduceCooldown(reduce)) => {
            assert forall|j: int| 0 <= j < ring.sockets.len() implies (
            #[trigger] ring.sockets[j]).wf() by {
                assert(old(ring)@.sockets[j].wf());
            }
            reduce_cooldowns(&mut ring.sockets, fired, reduce.amount_micros);
        },
        None => {},
    }

    proof {
        let before = old(ring)@;
        let after = fired_ring(
            before,
            fired as int,
            now as int,
            history@,
            biguint_value(*pending_currency),
        );
        assert(ring@.sockets =~= after.sockets);
        assert(ring@.cycle =~= after.cycle);
        assert(ring@.previous_bonuses =~= before.previous_bonuses);
        lemma_fired_ring_wf(
            before,
            fired as int,
            now as int,
            history@,
            biguint_value(*pending_currency),
        );
    }

    Firing { ring: ring.index, socket: fired, color, score_diff, multiplier_diff }
}

/// The socket before socket `socket` on a ring of `count` sockets, going
/// round.
pub open spec fn previous_index(socket: int, count: int) -> int {
    (socket + count - 1) % count
}

/// The socket after socket `socket` on a ring of `count` sockets, going
/// round.
pub open spec fn next_index(socket: int, count: int) -> int {
    (socket + 1) % count
}

/// Requests for the sockets `previous` and `next` of a ring, in that
/// order, leaving out a socket that the ring does not have.
pub open spec fn pair_on(rings: Seq<RingView>, ring: usize, previous: usize, next: usize) -> Seq<
    SocketTriggered,
> {
    let first = if previous < rings[ring as int].sockets.len() {
        seq![SocketTriggered { socket: previous, ring }]
    } else {
        Seq::empty()
    };
    let second = if next < rings[ring as int].sockets.len() {
        seq![SocketTriggered { socket: next, ring }]
    } else {
        Seq::empty()
    };
    first + second
}

/// Requests for the sockets `previous` and `next` of the ring that lies
/// `step` cells to the right of ring `ring`, if a ring lies there.
pub open spec fn neighbor_pair(
    rings: Seq<RingView>,
    cells: Map<(i64, i64), usize>,
    ring: usize,
    step: int,
    previous: usize,
    next: usize,
) -> Seq<SocketTriggered> {
    let cell = grid_cell(ring as nat);
    match ring_at(cells, (cell.0 + step) as i64, cell.1 as i64) {
        Some(neighbor) => pair_on(rings, neighbor, previous, next),
        None => Seq::empty(),
    }
}

/// What a red orb sets off when it fires in socket `socket` of ring
/// `ring`: the socket before and the socket after it and, once red is
/// enhanced, the sockets with the same two indices on the ring to the
/// right and then on the ring to the left.
pub open spec fn red_cascade(
    rings: Seq<RingView>,
    cells: Map<(i64, i64), usize>,
    history: Set<UpgradeKind>,
    ring: usize,
    socket: usize,
) -> Seq<SocketTriggered> {
    let count = rings[ring as int].sockets.len() as int;
    let previous = previous_index(socket as int, count) as usize;
    let next = next_index(socket as int, count) as usize;
    let own = seq![SocketTriggered { socket: previous, ring }, SocketTriggered { socket: next, ring }];
    if history.contains(first_enhancement(SocketColor::RED)) {
        own + neighbor_pair(rings, cells, ring, 1, previous, next) + neighbor_pair(
            rings,
            cells,
            ring,
            -1,
            previous,
            next,
        )
    } else {
        own
    }
}

/// Whether a request names a socket that exists.
pub open spec fn event_valid(rings: Seq<RingView>, event: SocketTriggered) -> bool {
    event.ring < rings.len() && event.socket < rings[event.ring as int].sockets.len()
}

/// Whether every request of a list names a socket that exists.
pub open spec fn events_valid(rings: Seq<RingView>, events: Seq<SocketTriggered>) -> bool {
    forall|i: int| 0 <= i < events.len() ==> event_valid(rings, #[trigger] events[i])
}

/// Appends the requests for sockets `previous` and `next` of a ring.
fn push_pair(
    events: &mut Vec<SocketTriggered>,
    rings: &Vec<Ring>,
    ring: usize,
    previous: usize,
    next: usize,
)
    requires
        ring < rings.len(),
    ensures
        final(events)@ == old(events)@ + pair_on(ring_views(rings@), ring, previous, next),
{
    if previous < rings[ring].sockets.len() {
        events.push(SocketTriggered { socket: previous, ring });
    }
    if next < rings[ring].sockets.len() {
        events.push(SocketTriggered { socket: next, ring });
    }
    assert(events@ =~= old(events)@ + pair_on(ring_views(rings@), ring, previous, next));
}

/// Appends the requests for the ring `step` cells to the right of a cell.
fn push_neighbor_pair(
    events: &mut Vec<SocketTriggered>,
    rings: &Vec<Ring>,
    ring_index: &RingIndex,
    coordinates: GridCoordinates,
    ring: usize,
    step: i64,
    previous: usize,
    next: usize,
)
    requires
        index_wf(ring_index@, rings.len() as nat),
        (coordinates.x as int, coordinates.y as int) == grid_cell(ring as nat),
        -GRID_LIMIT <= coordinates.x <= GRID_LIMIT,
        -1 <= step <= 1,
    ensures
        final(events)@ == old(events)@ + neighbor_pair(
            ring_views(rings@),
            ring_index@,
            ring,
            step as int,
            previous,
            next,
        ),
{
    let neighbor_coordinates = GridCoordinates { x: coordinates.x + step, y: coordinates.y };
    match ring_index.lookup(neighbor_coordinates) {
        Some(neighbor_ring) => {
            assert(ring_index@.contains_key((neighbor_coordinates.x, neighbor_coordinates.y)));
            push_pair(events, rings, neighbor_ring, previous, next);
        },
        None => {
            assert(events@ =~= old(events)@ + Seq::<SocketTriggered>::empty());
        },
    }
}

/// The requests that a red orb in socket `socket` of ring `ring` sets off.
pub fn red_cascade_events(
    rings: &Vec<Ring>,
    ring_index: &RingIndex,
    history: &UpgradeHistory,
    ring: usize,
    socket: usize,
) -> (events: Vec<SocketTriggered>)
    requires
        index_wf(ring_index@, rings.len() as nat),
        event_valid(ring_views(rings@), SocketTriggered { socket, ring }),
    ensures
        events@ == red_cascade(ring_views(rings@), ring_index@, history@, ring, socket),
        events_valid(ring_views(rings@), events@),
{
    let num_sockets = rings[ring].sockets.len();
    let previous = if socket == 0 {
        num_sockets - 1
    } else {
        socket - 1
    };
    let next = if socket == num_sockets - 1 {
        0
    } else {
        socket + 1
    };
    proof {
        let s = socket as int;
        let n = num_sockets as int;
        assert(previous_index(s, n) == previous) by {
            if s == 0 {
                vstd::arithmetic::div_mod::lemma_small_mod((n - 1) as nat, n as nat);
            } else {
                vstd::arithmetic::div_mod::lemma_mod_add_multiples_vanish(s - 1, n);
                vstd::arithmetic::div_mod::lemma_small_mod((s - 1) as nat, n as nat);
            }
        }
        assert(next_index(s, n) == next) by {
            if s == n - 1 {
                vstd::arithmetic::div_mod::lemma_mod_self_0(n);
            } else {
                vstd::arithmetic::div_mod::lemma_small_mod((s + 1) as nat, n as nat);
            }
        }
    }
    let mut events: Vec<SocketTriggered> = Vec::new();
    events.push(SocketTriggered { socket: previous, ring });
    events.push(SocketTriggered { socket: next, ring });
    let ghost own = events@;
    if is_enhanced(history, SocketColor::RED) {
        let ring_grid_coordinates = get_grid_coordinates(ring);
        push_neighbor_pair(
            &mut events,
            rings,
            ring_index,
            ring_grid_coordinates,
            ring,
            1,
            previous,
            next,
        );
        push_neighbor_pair(
            &mut events,
            rings,
            ring_index,
            ring_grid_coordinates,
            ring,
            -1,
            previous,
            next,
        );
    }
    proof {
        let views = ring_views(rings@);
        assert(own =~= seq![
            SocketTriggered { socket: previous, ring },
            SocketTriggered { socket: next, ring },
        ]);
        assert(events@ =~= red_cascade(views, ring_index@, history@, ring, socket));
        lemma_red_cascade_valid(views, ring_index@, history@, ring, socket);
    }
    events
}

/// Every request that a red orb sets off names a socket that exists.
pub proof fn lemma_red_cascade_valid(
    rings: Seq<RingView>,
    cells: Map<(i64, i64), usize>,
    history: Set<UpgradeKind>,
    ring: usize,
    socket: usize,
)
    requires
        index_wf(cells, rings.len()),
        event_valid(rings, SocketTriggered { socket, ring }),
    ensures
        events_valid(rings, red_cascade(rings, cells, history, ring, socket)),
{
    let count = rings[ring as int].sockets.len() as int;
    let previous = previous_index(socket as int, count) as usize;
    let next = next_index(socket as int, count) as usize;
    assert(0 <= previous_index(socket as int, count) < count);
    assert(0 <= next_index(socket as int, count) < count);
    let events = red_cascade(rings, cells, history, ring, socket);
    let cell = grid_cell(ring as nat);
    let right = ring_at(cells, (cell.0 + 1) as i64, cell.1 as i64);
    let left = ring_at(cells, (cell.0 - 1) as i64, cell.1 as i64);
    assert forall|i: int| 0 <= i < events.len() implies event_valid(rings, #[trigger] events[i]) by {
        if right is Some {
            assert(cells.contains_key(((cell.0 + 1) as i64, cell.1 as i64)));
            assert(right.unwrap() < rings.len());
        }
        if left is Some {
            assert(cells.contains_key(((cell.0 - 1) as i64, cell.1 as i64)));
            assert(left.unwrap() < rings.len());
        }
    }
}

/// The view of a firing that may not have happened.
pub open spec fn firing_view(firing: Option<Firing>) -> Option<FiringView> {
    match firing {
        Some(firing) => Some(firing@),
        None => None,
    }
}

/// Whether the socket that a request names fires at `now`.
pub open spec fn fires(game: GameView, event: SocketTriggered, now: int) -> bool {
    can_fire(game.rings[event.ring as int].sockets[event.socket as int], now)
}

/// The game after a request to fire a socket at `now`: the socket fires
/// if the cooldown gate lets it, otherwise nothing changes.
pub open spec fn triggered(game: GameView, event: SocketTriggered, now: int) -> GameView {
    if fires(game, event, now) {
        GameView {
            rings: game.rings.update(
                event.ring as int,
                fired_ring(
                    game.rings[event.ring as int],
                    event.socket as int,
                    now,
                    game.history,
                    game.pending_amount,
                ),
            ),
            ..game
        }
    } else {
        game
    }
}

/// The further requests that a request to fire a socket sets off: those of
/// a red orb that fires, none otherwise.
pub open spec fn triggered_cascade(game: GameView, event: SocketTriggered, now: int) -> Seq<
    SocketTriggered,
> {
    if fires(game, event, now) && game.rings[event.ring as int].sockets[event.socket as int].color
        == SocketColor::RED {
        red_cascade(game.rings, game.cells, game.history, event.ring, event.socket)
    } else {
        Seq::empty()
    }
}

/// What a request to fire a socket reports, if the socket fires.
pub open spec fn triggered_firing(game: GameView, event: SocketTriggered, now: int) -> Option<
    FiringView,
> {
    if fires(game, event, now) {
        Some(
            firing_of(
                game.rings[event.ring as int],
                event.socket as int,
                game.history,
                game.pending_amount,
            ),
        )
    } else {
        None
    }
}

/// Two lists of rings with as many rings, and as many sockets on each.
pub open spec fn same_shape(a: Seq<RingView>, b: Seq<RingView>) -> bool {
    &&& a.len() == b.len()
    &&& forall|i: int| 0 <= i < a.len() ==> (#[trigger] a[i]).sockets.len() == b[i].sockets.len()
}

/// A request to fire a socket keeps the game well formed and leaves every
/// ring with the sockets it had.
pub proof fn lemma_triggered_wf(game: GameView, event: SocketTriggered, now: int)
    requires
        game.wf(),
        event_valid(game.rings, event),
        0 <= now <= MAX_TIME_MICROS,
    ensures
        triggered(game, event, now).wf(),
        same_shape(game.rings, triggered(game, event, now).rings),
        events_valid(triggered(game, event, now).rings, triggered_cascade(game, event, now)),
{
    let after = triggered(game, event, now);
    if fires(game, event, now) {
        lemma_fired_ring_wf(
            game.rings[event.ring as int],
            event.socket as int,
            now,
            game.history,
            game.pending_amount,
        );
        assert forall|i: int| 0 <= i < after.rings.len() implies (#[trigger] after.rings[i]).wf()
            && after.rings[i].index == i by {
            assert(game.rings[i].wf());
        }
        assert(game.rings[event.ring as int].wf());
        lemma_red_cascade_valid(game.rings, game.cells, game.history, event.ring, event.socket);
    }
    let cascade = triggered_cascade(game, event, now);
    assert forall|i: int| 0 <= i < cascade.len() implies event_valid(
        after.rings,
        #[trigger] cascade[i],
    ) by {
        assert(event_valid(game.rings, cascade[i]));
    }
}

/// What became of a request to fire a socket.
pub struct TriggerOutcome {
    /// What the firing changed, if the socket fired.
    pub firing: Option<Firing>,
    /// The sockets that the firing asks to fire in turn, in order.
    pub cascade: Vec<SocketTriggered>,
    /// Whether the firing is to be heard: only while there is one ring.
    pub play_click: bool,
}

/// Handles a request to fire a socket at `now`. Behind the cooldown gate
/// the request changes nothing. Otherwise the orb of the socket scores,
/// the socket starts to rest, and the requests that the orb sets off are
/// handed back for the caller to handle next.
pub fn on_socket_triggered(game: &mut Game, event: SocketTriggered, now: i64) -> (outcome:
    TriggerOutcome)
    requires
        old(game).wf(),
        event_valid(old(game)@.rings, event),
        0 <= now <= MAX_TIME_MICROS,
    ensures
        final(game)@ == triggered(old(game)@, event, now as int),
        final(game).wf(),
        firing_view(outcome.firing) == triggered_firing(old(game)@, event, now as int),
        outcome.cascade@ == triggered_cascade(old(game)@, event, now as int),
        outcome.play_click == (fires(old(game)@, event, now as int) && old(game).rings.len() == 1),
{
    let ring_count = game.rings.len();
    let socket = game.rings[event.ring].sockets[event.socket];
    proof {
        assert(old(game)@.rings[event.ring as int].wf());
        assert(old(game)@.rings[event.ring as int].sockets[event.socket as int].wf());
        lemma_triggered_wf(old(game)@, event, now as int);
    }
    let triggered_successfully = socket.color != SocketColor::NONE
        && socket.last_triggered_time_micros + socket.trigger_duration_micros <= now;

    if !triggered_successfully {
        return TriggerOutcome { firing: None, cascade: Vec::new(), play_click: false };
    }
    let cascade = if socket.color == SocketColor::RED {
        red_cascade_events(
            &game.rings,
            &game.ring_index,
            &game.upgrade_history,
            event.ring,
            event.socket,
        )
    } else {
        Vec::new()
    };
    let firing = fire_socket(
        &mut game.rings[event.ring],
        event.socket,
        now,
        &game.upgrade_history,
        &game.currency.pending_amount,
    );
    proof {
        assert(game@.rings =~= triggered(old(game)@, event, now as int).rings);
    }
    TriggerOutcome { firing: Some(firing), cascade, play_click: ring_count == 1 }
}

/// The cooldown gate: a socket that fired at `time` does not fire again
/// before `time` plus its cooldown. A request at any moment in between
/// changes nothing, sets nothing off and reports nothing.
pub proof fn lemma_cooldown_gate(game: GameView, event: SocketTriggered, time: int, later: int)
    requires
        game.wf(),
        event_valid(game.rings, event),
        0 <= time <= MAX_TIME_MICROS,
        fires(game, event, time),
        time <= later < time + game.rings[event.ring as int].sockets[event.socket
            as int].trigger_duration_micros,
    ensures
        !fires(triggered(game, event, time), event, later),
        triggered(triggered(game, event, time), event, later) == triggered(game, event, time),
        triggered_cascade(triggered(game, event, time), event, later)
            == Seq::<SocketTriggered>::empty(),
        triggered_firing(triggered(game, event, time), event, later) is None,
{
    let ring = game.rings[event.ring as int];
    assert(ring.wf());
    assert(ring.sockets[event.socket as int].wf());
}

} // verus!
