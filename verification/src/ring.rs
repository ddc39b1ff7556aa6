//! Rings and their sockets.
//!
//! A ring owns its sockets in index order; a ring is known by its position
//! in the list of rings, which is also its ordinal on the spiral grid. All
//! times are whole microseconds since the start of the game.

use crate::bignum::{big_from_u64, biguint_value, is_zero};
use crate::color::{
    map_socket_color_trigger_duration, trigger_duration_micros, SocketColor,
    MAX_TRIGGER_DURATION_MICROS,
};
use num_bigint::BigUint;
use vstd::prelude::*;

verus! {

/// The latest time that the clock may show: 2^60 microseconds.
pub const MAX_TIME_MICROS: i64 = 0x1000_0000_0000_0000;

/// The time at which a socket that never fired counts as having fired last.
pub const NEVER_TRIGGERED_MICROS: i64 = -100_000_000;

/// How long one sweep of a ring takes.
pub const CYCLE_DURATION_MICROS: i64 = 4_000_000;

/// A slot of a ring that holds an orb of some colour, or none.
#[derive(PartialEq, Eq, Clone, Copy, Debug, Structural)]
pub struct Socket {
    pub color: SocketColor,
    /// The ring that owns this socket.
    pub ring: usize,
    /// The position of this socket on its ring, counted from zero.
    pub index: usize,
    pub last_triggered_time_micros: i64,
    pub trigger_duration_micros: i64,
}

impl Socket {
    /// The time from which the socket may fire again.
    pub open spec fn cooldown_end(&self) -> int {
        self.last_triggered_time_micros + self.trigger_duration_micros
    }

    /// The times of a socket stay within what 64 bits can add up.
    pub open spec fn wf(&self) -> bool {
        &&& NEVER_TRIGGERED_MICROS <= self.last_triggered_time_micros
        &&& 0 <= self.trigger_duration_micros <= MAX_TRIGGER_DURATION_MICROS
        &&& self.cooldown_end() <= MAX_TIME_MICROS + MAX_TRIGGER_DURATION_MICROS
    }
}

/// A reward that a finished cycle earns on top of its score.
pub enum CycleBonus {
    /// More sockets fired in the cycle than the ring has; holds the excess.
    Overflow(BigUint),
}

/// A [`CycleBonus`] with its amount as a number.
pub enum CycleBonusView {
    Overflow(nat),
}

impl View for CycleBonus {
    type V = CycleBonusView;

    open spec fn view(&self) -> CycleBonusView {
        match self {
            CycleBonus::Overflow(size) => CycleBonusView::Overflow(biguint_value(*size)),
        }
    }
}

/// The views of a list of bonuses, in order.
pub open spec fn bonus_views(bonuses: Seq<CycleBonus>) -> Seq<CycleBonusView> {
    Seq::new(bonuses.len(), |i: int| bonuses[i]@)
}

/// A circle of sockets with its own cycle timer.
pub struct Ring {
    /// The colours that fired so far in the running cycle, in order.
    pub cycle: Vec<SocketColor>,
    pub previous_cycle: Vec<SocketColor>,
    pub previous_bonuses: Vec<CycleBonus>,
    /// What the running cycle would pay if it ended now.
    pub pending_amount: BigUint,
    pub cycle_start_micros: i64,
    pub cycle_duration_micros: i64,
    pub cycle_score: BigUint,
    pub cycle_count: BigUint,
    pub cycle_multiplier: BigUint,
    pub sockets: Vec<Socket>,
    /// The ordinal of the ring on the spiral grid.
    pub index: usize,
    /// How far into its cycle the ring was when it was last advanced.
    pub previous_elapsed_micros: i64,
}

/// The mathematical content of a [`Ring`].
pub struct RingView {
    pub cycle: Seq<SocketColor>,
    pub previous_cycle: Seq<SocketColor>,
    pub previous_bonuses: Seq<CycleBonusView>,
    pub pending_amount: nat,
    pub cycle_start_micros: int,
    pub cycle_duration_micros: int,
    pub cycle_score: nat,
    pub cycle_count: nat,
    pub cycle_multiplier: nat,
    pub sockets: Seq<Socket>,
    pub index: nat,
    pub previous_elapsed_micros: int,
}

impl View for Ring {
    type V = RingView;

    open spec fn view(&self) -> RingView {
        RingView {
            cycle: self.cycle@,
            previous_cycle: self.previous_cycle@,
            previous_bonuses: bonus_views(self.previous_bonuses@),
            pending_amount: biguint_value(self.pending_amount),
            cycle_start_micros: self.cycle_start_micros as int,
            cycle_duration_micros: self.cycle_duration_micros as int,
            cycle_score: biguint_value(self.cycle_score),
            cycle_count: biguint_value(self.cycle_count),
            cycle_multiplier: biguint_value(self.cycle_multiplier),
            sockets: self.sockets@,
            index: self.index as nat,
            previous_elapsed_micros: self.previous_elapsed_micros as int,
        }
    }
}

impl RingView {
    /// Socket `j` sits at position `j` and names this ring as its owner,
    /// the multiplier is at least one, and the times stay in range.
    pub open spec fn wf(&self) -> bool {
        &&& forall|j: int|
            0 <= j < self.sockets.len() ==> {
                &&& (#[trigger] self.sockets[j]).wf()
                &&& self.sockets[j].index == j
                &&& self.sockets[j].ring == self.index
            }
        &&& self.cycle_multiplier >= 1
        &&& 0 <= self.cycle_start_micros <= MAX_TIME_MICROS
        &&& 0 < self.cycle_duration_micros <= MAX_TIME_MICROS
        &&& -MAX_TIME_MICROS <= self.previous_elapsed_micros <= MAX_TIME_MICROS
    }
}

impl Ring {
    pub open spec fn wf(&self) -> bool {
        self@.wf()
    }
}

/// The views of a list of rings, in order.
pub open spec fn ring_views(rings: Seq<Ring>) -> Seq<RingView> {
    Seq::new(rings.len(), |i: int| rings[i]@)
}

/// Every ring is well formed and sits at the position that its index names.
pub open spec fn rings_wf(rings: Seq<RingView>) -> bool {
    forall|i: int| 0 <= i < rings.len() ==> (#[trigger] rings[i]).wf() && rings[i].index == i
}

impl Socket {
    /// Tells whether the socket is well formed.
    pub fn check(&self) -> (ok: bool)
        ensures
            ok == self.wf(),
    {
        let last = self.last_triggered_time_micros;
        let duration = self.trigger_duration_micros;
        NEVER_TRIGGERED_MICROS <= last && 0 <= duration && duration <= MAX_TRIGGER_DURATION_MICROS
            && last <= MAX_TIME_MICROS + MAX_TRIGGER_DURATION_MICROS - duration
    }
}

impl Ring {
    /// Tells whether the ring is well formed.
    pub fn check(&self) -> (ok: bool)
        ensures
            ok == self.wf(),
    {
        if is_zero(&self.cycle_multiplier) {
            return false;
        }
        if self.cycle_start_micros < 0 || self.cycle_start_micros > MAX_TIME_MICROS {
            return false;
        }
        if self.cycle_duration_micros <= 0 || self.cycle_duration_micros > MAX_TIME_MICROS {
            return false;
        }
        if self.previous_elapsed_micros < -MAX_TIME_MICROS || self.previous_elapsed_micros
            > MAX_TIME_MICROS {
            return false;
        }
        let mut j: usize = 0;
        while j < self.sockets.len()
            invariant
                j <= self.sockets.len(),
                forall|k: int|
                    0 <= k < j ==> {
                        &&& (#[trigger] self.sockets[k]).wf()
                        &&& self.sockets[k].index == k
                        &&& self.sockets[k].ring == self.index
                    },
            decreases self.sockets.len() - j,
        {
            let socket = &self.sockets[j];
            if !socket.check() || socket.index != j || socket.ring != self.index {
                assert(!self@.wf()) by {
                    let found = self@.sockets[j as int];
                    assert(!(found.wf() && found.index == j && found.ring == self@.index));
                }
                return false;
            }
            j += 1;
        }
        true
    }
}

/// Tells whether every ring is well formed and sits at the position that
/// its index names.
pub fn check_rings(rings: &Vec<Ring>) -> (ok: bool)
    ensures
        ok == rings_wf(ring_views(rings@)),
{
    let mut i: usize = 0;
    while i < rings.len()
        invariant
            i <= rings.len(),
            forall|k: int|
                0 <= k < i ==> (#[trigger] ring_views(rings@)[k]).wf() && ring_views(
                    rings@,
                )[k].index == k,
        decreases rings.len() - i,
    {
        if !rings[i].check() || rings[i].index != i {
            assert(!rings_wf(ring_views(rings@))) by {
                let found = ring_views(rings@)[i as int];
                assert(!(found.wf() && found.index == i));
            }
            return false;
        }
        i += 1;
    }
    true
}

/// A socket as it is when it is made: it has never fired.
pub open spec fn fresh_socket(color: SocketColor, ring: usize, index: usize) -> Socket {
    Socket {
        color,
        ring,
        index,
        last_triggered_time_micros: NEVER_TRIGGERED_MICROS,
        trigger_duration_micros: trigger_duration_micros(color) as i64,
    }
}

/// Makes a socket of the given colour for position `index` of ring `ring`.
pub fn spawn_socket(color: SocketColor, ring: usize, index: usize) -> (socket: Socket)
    ensures
        socket == fresh_socket(color, ring, index),
        socket.wf(),
{
    Socket {
        color,
        ring,
        index,
        last_triggered_time_micros: NEVER_TRIGGERED_MICROS,
        trigger_duration_micros: map_socket_color_trigger_duration(color),
    }
}

/// The colour that socket `i` of the new ring with ordinal `ring` starts
/// with: the very first ring starts with a blue orb in its second socket,
/// every other socket of every ring starts empty.
pub open spec fn starting_color(i: int, ring: int) -> SocketColor {
    if i == 1 && ring == 0 {
        SocketColor::BLUE
    } else {
        SocketColor::NONE
    }
}

/// The sockets of a new ring.
pub open spec fn starting_sockets(num_sockets: usize, ring: usize) -> Seq<Socket> {
    Seq::new(
        num_sockets as nat,
        |i: int| fresh_socket(starting_color(i, ring as int), ring, i as usize),
    )
}

/// A ring as it is when it is made at time `now`.
pub open spec fn fresh_ring(num_sockets: usize, now: int, index: usize) -> RingView {
    RingView {
        cycle: Seq::empty(),
        previous_cycle: Seq::empty(),
        previous_bonuses: Seq::empty(),
        pending_amount: 0,
        cycle_start_micros: now,
        cycle_duration_micros: CYCLE_DURATION_MICROS as int,
        cycle_score: 0,
        cycle_count: 0,
        cycle_multiplier: 1,
        sockets: starting_sockets(num_sockets, index),
        index: index as nat,
        previous_elapsed_micros: 0,
    }
}

impl Ring {
    /// Makes ring number `index` with `num_sockets` sockets, its first
    /// cycle starting at `now`.
    pub fn new(num_sockets: usize, now: i64, index: usize) -> (ring: Ring)
        requires
            0 <= now <= MAX_TIME_MICROS,
        ensures
            ring@ == fresh_ring(num_sockets, now as int, index),
            ring.wf(),
    {
        let mut sockets: Vec<Socket> = Vec::new();
        let mut i: usize = 0;
        while i < num_sockets
            invariant
                i <= num_sockets,
                sockets@ =~= starting_sockets(num_sockets, index).take(i as int),
            decreases num_sockets - i,
        {
            let socket_color = if i == 1 && index == 0 {
                // the first ring spawns pre-socketed with 1 blue
                SocketColor::BLUE
            } else {
                SocketColor::NONE
            };
            sockets.push(spawn_socket(socket_color, index, i));
            i += 1;
        }
        let ring = Ring {
            cycle: Vec::new(),
            previous_cycle: Vec::new(),
            previous_bonuses: Vec::new(),
            pending_amount: big_from_u64(0),
            cycle_start_micros: now,
            cycle_duration_micros: CYCLE_DURATION_MICROS,
            cycle_score: big_from_u64(0),
            cycle_count: big_from_u64(0),
            cycle_multiplier: big_from_u64(1),
            sockets,
            index,
            previous_elapsed_micros: 0,
        };
        assert(ring@.sockets =~= starting_sockets(num_sockets, index));
        assert(ring@.previous_bonuses =~= Seq::empty());
        ring
    }
}

/// How many of the sockets hold an orb of the given colour.
pub open spec fn count_color(sockets: Seq<Socket>, color: SocketColor) -> nat
    decreases sockets.len(),
{
    if sockets.len() == 0 {
        0
    } else {
        count_color(sockets.drop_last(), color) + if sockets.last().color == color {
            1nat
        } else {
            0nat
        }
    }
}

/// The number of blue orbs on a ring.
pub struct BlueOrbCount(pub usize);

/// Counts the blue orbs that sit in the sockets of a ring.
pub fn count_blue_orbs(ring: &Ring) -> (count: BlueOrbCount)
    ensures
        count.0 == count_color(ring@.sockets, SocketColor::BLUE),
{
    let mut count: usize = 0;
    let mut i: usize = 0;
    while i < ring.sockets.len()
        invariant
            i <= ring.sockets.len(),
            count == count_color(ring.sockets@.take(i as int), SocketColor::BLUE),
            count <= i,
        decreases ring.sockets.len() - i,
    {
        proof {
            assert(ring.sockets@.take(i + 1).drop_last() =~= ring.sockets@.take(i as int));
        }
        let socket_color = ring.sockets[i].color;
        if socket_color == SocketColor::BLUE {
            count += 1;
        }
        i += 1;
    }
    proof {
        assert(ring.sockets@.take(i as int) =~= ring.sockets@);
    }
    BlueOrbCount(count)
}

/// A socket after the player put an orb of colour `selected` into it, or
/// took its orb out, at time `now`. The colour becomes `selected`, or
/// `NONE` on removal, and the cooldown becomes that of the new colour.
/// A cooldown that is still running keeps its end; otherwise the socket
/// counts as having fired at time zero.
pub open spec fn recolored(socket: Socket, selected: SocketColor, remove: bool, now: int) -> Socket {
    let new_color = if remove {
        SocketColor::NONE
    } else {
        selected
    };
    let new_duration = trigger_duration_micros(new_color);
    let cooldown_remaining = socket.cooldown_end() - now;
    Socket {
        color: new_color,
        last_triggered_time_micros: if cooldown_remaining > 0 {
            (socket.cooldown_end() - new_duration) as i64
        } else {
            0
        },
        trigger_duration_micros: new_duration as i64,
        ..socket
    }
}

/// Puts an orb of colour `selected_color` into a socket, or removes its
/// orb, without cutting short or stretching a cooldown that is running.
pub fn set_socket_color(socket: &mut Socket, selected_color: SocketColor, remove: bool, now: i64)
    requires
        old(socket).wf(),
        0 <= now <= MAX_TIME_MICROS,
    ensures
        *final(socket) == recolored(*old(socket), selected_color, remove, now as int),
        final(socket).wf(),
        final(socket).trigger_duration_micros == trigger_duration_micros(final(socket).color),
        old(socket).cooldown_end() > now ==> final(socket).cooldown_end() == old(
            socket,
        ).cooldown_end(),
{
    let new_color = if remove {
        SocketColor::NONE
    } else {
        selected_color
    };
    let new_trigger_duration = map_socket_color_trigger_duration(new_color);
    let old_cooldown_end = socket.last_triggered_time_micros + socket.trigger_duration_micros;
    let cooldown_remaining = old_cooldown_end - now;
    if cooldown_remaining > 0 {
        socket.last_triggered_time_micros = old_cooldown_end - new_trigger_duration;
    } else {
        socket.last_triggered_time_micros = 0;
    }
    socket.trigger_duration_micros = new_trigger_duration;
    socket.color = new_color;
}

/// Where a socket sits on its ring: position `index` of `count` equal
/// steps round the circle, the first of them at a quarter turn.
#[derive(PartialEq, Eq, Clone, Copy, Debug, Structural)]
pub struct SocketSlot {
    pub index: usize,
    pub count: usize,
}

/// Whether two slots lie at the same angle: `index / count` is the same
/// fraction of a turn for both.
pub open spec fn same_angle(a: SocketSlot, b: SocketSlot) -> bool {
    a.index * b.count == b.index * a.count
}

/// The slots of a ring of `count` sockets, in index order.
pub open spec fn ring_layout(count: nat) -> Seq<SocketSlot> {
    Seq::new(count, |i: int| SocketSlot { index: i as usize, count: count as usize })
}

/// The slot of every socket of a ring.
pub fn socket_layout(ring: &Ring) -> (layout: Vec<SocketSlot>)
    ensures
        layout@ == ring_layout(ring@.sockets.len()),
{
    let count = ring.sockets.len();
    let mut layout: Vec<SocketSlot> = Vec::new();
    let mut i: usize = 0;
    while i < count
        invariant
            i <= count,
            count == ring.sockets.len(),
            layout@ =~= ring_layout(count as nat).take(i as int),
        decreases count - i,
    {
        layout.push(SocketSlot { index: i, count });
        i += 1;
    }
    assert(layout@ =~= ring_layout(count as nat));
    layout
}

/// A ring after one empty socket was added behind its last one.
pub open spec fn with_appended_socket(ring: RingView) -> RingView {
    RingView {
        sockets: ring.sockets.push(
            fresh_socket(SocketColor::NONE, ring.index as usize, ring.sockets.len() as usize),
        ),
        ..ring
    }
}

/// Adds an empty socket at the next index of a ring and returns the slots
/// that all its sockets, old and new, now have: the ring is laid out anew
/// with one more step round the circle.
pub fn append_socket(ring: &mut Ring) -> (layout: Vec<SocketSlot>)
    requires
        old(ring).wf(),
    ensures
        final(ring)@ == with_appended_socket(old(ring)@),
        final(ring).wf(),
        layout@ == ring_layout(old(ring)@.sockets.len() + 1),
{
    let count = ring.sockets.len();
    let socket = spawn_socket(SocketColor::NONE, ring.index, count);
    ring.sockets.push(socket);
    socket_layout(ring)
}

/// When a ring grows from `n` to `n + 1` sockets, every socket but the
/// first moves to another angle. The first one keeps its quarter turn.
pub proof fn lemma_relayout_moves_sockets(i: usize, n: usize)
    requires
        0 < i < n,
        n < usize::MAX,
    ensures
        !same_angle(
            SocketSlot { index: i, count: n },
            SocketSlot { index: i, count: (n + 1) as usize },
        ),
        same_angle(
            SocketSlot { index: 0, count: n },
            SocketSlot { index: 0, count: (n + 1) as usize },
        ),
{
    assert(i * (n + 1) == i * n + i) by (nonlinear_arith);
}

} // verus!
