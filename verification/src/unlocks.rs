//! The rules that put upgrades on offer, and their resolution.

use crate::color::SocketColor;
use crate::upgrade::{
    is_priced, kinds_priced, priced, rules_priced, unlock_views, AddColorUpgrade, AddRingUpgrade,
    AddSocketUpgrade, EnhanceColorUpgrade, Unlock, UnlockView, Unlocks, UpgradeHistory,
    UpgradeKind,
};
use vstd::prelude::*;

verus! {

/// How many sockets are bought between one ring and the next.
pub const SOCKETS_PER_RING: u32 = 10;

/// How many rings the ladder provides for.
pub const RING_LEVELS: u32 = 64;

/// The upgrade that adds the socket of a level.
pub open spec fn socket_of(level: int) -> UpgradeKind {
    UpgradeKind::AddSocket(AddSocketUpgrade { level: level as u32 })
}

/// The upgrade that adds the ring of a level.
pub open spec fn ring_of(level: int) -> UpgradeKind {
    UpgradeKind::AddRing(AddRingUpgrade { level: level as u32 })
}

/// The upgrade that adds a colour.
pub open spec fn color_of(color: SocketColor) -> UpgradeKind {
    UpgradeKind::AddColor(AddColorUpgrade { color })
}

/// The upgrade that enhances a colour to a tier.
pub open spec fn enhancement_of(color: SocketColor, tier: u32) -> UpgradeKind {
    UpgradeKind::EnhanceColor(EnhanceColorUpgrade { color, tier })
}

/// The rule for socket `socket_level` (from one to ten) of the sockets
/// that belong to ring level `ring_level`. A socket asks for the socket
/// before it, and beyond the first ten also for the ring of its level.
/// The very first socket asks for nothing.
pub open spec fn socket_rule(ring_level: int, socket_level: int) -> UnlockView {
    let socket_index = ring_level * SOCKETS_PER_RING + socket_level;
    UnlockView {
        prerequisites: if socket_index == 1 {
            Seq::empty()
        } else if ring_level > 0 {
            seq![socket_of(socket_index - 1), ring_of(ring_level)]
        } else {
            seq![socket_of(socket_index - 1)]
        },
        grants: socket_of(socket_index),
    }
}

/// The rule for the ring after ring level `ring_level`. It asks for the
/// last socket of that level; the first ring also asks for pink.
pub open spec fn ring_rule(ring_level: int) -> UnlockView {
    let last_socket = socket_of(ring_level * SOCKETS_PER_RING + SOCKETS_PER_RING);
    UnlockView {
        prerequisites: if ring_level == 0 {
            seq![color_of(SocketColor::PINK), last_socket]
        } else {
            seq![last_socket]
        },
        grants: ring_of(ring_level + 1),
    }
}

/// Rule number `i` of the ladder of sockets and rings: for each ring level
/// its ten sockets, then the next ring.
pub open spec fn ladder_rule(i: int) -> UnlockView {
    let ring_level = i / (SOCKETS_PER_RING + 1);
    let step = i % (SOCKETS_PER_RING + 1);
    if step < SOCKETS_PER_RING {
        socket_rule(ring_level, step + 1)
    } else {
        ring_rule(ring_level)
    }
}

/// The ladder of sockets and rings.
pub open spec fn ring_and_socket_ladder() -> Seq<UnlockView> {
    Seq::new((RING_LEVELS * (SOCKETS_PER_RING + 1)) as nat, |i: int| ladder_rule(i))
}

/// The ladder of colours: red comes with the second socket, and each
/// further colour with the colour before it.
pub open spec fn color_ladder() -> Seq<UnlockView> {
    seq![
        UnlockView { prerequisites: seq![socket_of(2)], grants: color_of(SocketColor::RED) },
        UnlockView {
            prerequisites: seq![color_of(SocketColor::RED)],
            grants: color_of(SocketColor::GREEN),
        },
        UnlockView {
            prerequisites: seq![color_of(SocketColor::GREEN)],
            grants: color_of(SocketColor::ORANGE),
        },
        UnlockView {
            prerequisites: seq![color_of(SocketColor::ORANGE)],
            grants: color_of(SocketColor::PINK),
        },
    ]
}

/// The ladder of enhancements: blue comes with the first new ring, then
/// red, then orange; orange brings both green and the second tier of
/// blue, which brings the third.
pub open spec fn enhancement_ladder() -> Seq<UnlockView> {
    seq![
        UnlockView {
            prerequisites: seq![ring_of(1)],
            grants: enhancement_of(SocketColor::BLUE, 1),
        },
        UnlockView {
            prerequisites: seq![enhancement_of(SocketColor::BLUE, 1)],
            grants: enhancement_of(SocketColor::RED, 1),
        },
        UnlockView {
            prerequisites: seq![enhancement_of(SocketColor::RED, 1)],
            grants: enhancement_of(SocketColor::ORANGE, 1),
        },
        UnlockView {
            prerequisites: seq![enhancement_of(SocketColor::ORANGE, 1)],
            grants: enhancement_of(SocketColor::GREEN, 1),
        },
        UnlockView {
            prerequisites: seq![enhancement_of(SocketColor::ORANGE, 1)],
            grants: enhancement_of(SocketColor::BLUE, 2),
        },
        UnlockView {
            prerequisites: seq![enhancement_of(SocketColor::BLUE, 2)],
            grants: enhancement_of(SocketColor::BLUE, 3),
        },
    ]
}

/// All the rules that a new game starts with.
pub open spec fn starting_rules() -> Seq<UnlockView> {
    ring_and_socket_ladder() + color_ladder() + enhancement_ladder()
}

fn add_socket(level: u32) -> (kind: UpgradeKind)
    ensures
        kind == socket_of(level as int),
{
    UpgradeKind::AddSocket(AddSocketUpgrade { level })
}

fn add_ring(level: u32) -> (kind: UpgradeKind)
    ensures
        kind == ring_of(level as int),
{
    UpgradeKind::AddRing(AddRingUpgrade { level })
}

fn add_color(color: SocketColor) -> (kind: UpgradeKind)
    ensures
        kind == color_of(color),
{
    UpgradeKind::AddColor(AddColorUpgrade { color })
}

fn enhance(color: SocketColor, tier: u32) -> (kind: UpgradeKind)
    ensures
        kind == enhancement_of(color, tier),
{
    UpgradeKind::EnhanceColor(EnhanceColorUpgrade { color, tier })
}

/// Builds the ladder of sockets and rings.
pub fn add_ring_and_socket_unlocks() -> (unlocks: Vec<Unlock>)
    ensures
        unlock_views(unlocks@) == ring_and_socket_ladder(),
{
    let mut unlocks: Vec<Unlock> = Vec::new();
    let sockets_per_ring: u32 = SOCKETS_PER_RING;

    let mut ring_level: u32 = 0;
    while ring_level < RING_LEVELS
        invariant
            ring_level <= RING_LEVELS,
            sockets_per_ring == SOCKETS_PER_RING,
            unlocks.len() == ring_level * (SOCKETS_PER_RING + 1),
            forall|i: int| 0 <= i < unlocks.len() ==> (#[trigger] unlocks[i])@ == ladder_rule(i),
        decreases RING_LEVELS - ring_level,
    {
        let mut socket_level: u32 = 1;
        while socket_level <= sockets_per_ring
            invariant
                ring_level < RING_LEVELS,
                sockets_per_ring == SOCKETS_PER_RING,
                1 <= socket_level <= sockets_per_ring + 1,
                unlocks.len() == ring_level * (SOCKETS_PER_RING + 1) + socket_level - 1,
                forall|i: int|
                    0 <= i < unlocks.len() ==> (#[trigger] unlocks[i])@ == ladder_rule(i),
            decreases sockets_per_ring + 1 - socket_level,
        {
            let socket_index = ring_level * sockets_per_ring + socket_level;
            let unlock = if socket_index == 1 {
                Unlock { prerequisites: Vec::new(), grants: add_socket(1) }
            } else {
                if ring_level > 0 {
                    Unlock {
                        prerequisites: vec![add_socket(socket_index - 1), add_ring(ring_level)],
                        grants: add_socket(socket_index),
                    }
                } else {
                    Unlock {
                        prerequisites: vec![add_socket(socket_index - 1)],
                        grants: add_socket(socket_index),
                    }
                }
            };
            proof {
                let i = unlocks.len() as int;
                assert(i == ring_level * 11 + (socket_level - 1));
                assert(i / 11 == ring_level && i % 11 == socket_level - 1) by (nonlinear_arith)
                    requires
                        i == ring_level * 11 + (socket_level - 1),
                        0 <= socket_level - 1 < 11,
                        ring_level >= 0,
                ;
                assert(unlock@.prerequisites =~= ladder_rule(i).prerequisites);
            }
            unlocks.push(unlock);
            socket_level += 1;
        }

        let last_socket = add_socket(ring_level * sockets_per_ring + sockets_per_ring);
        let prerequisites = if ring_level == 0 {
            vec![add_color(SocketColor::PINK), last_socket]
        } else {
            vec![last_socket]
        };
        let unlock = Unlock { prerequisites, grants: add_ring(ring_level + 1) };
        proof {
            let i = unlocks.len() as int;
            assert(i == ring_level * 11 + 10);
            assert(i / 11 == ring_level && i % 11 == 10) by (nonlinear_arith)
                requires
                    i == ring_level * 11 + 10,
                    ring_level >= 0,
            ;
            assert(unlock@.prerequisites =~= ladder_rule(i).prerequisites);
        }
        unlocks.push(unlock);
        ring_level += 1;
    }
    assert(unlock_views(unlocks@) =~= ring_and_socket_ladder());
    unlocks
}

/// Builds the ladder of colours.
pub fn build_color_unlocks() -> (unlocks: Vec<Unlock>)
    ensures
        unlock_views(unlocks@) == color_ladder(),
{
    let mut unlocks: Vec<Unlock> = Vec::new();
    unlocks.push(
        Unlock { prerequisites: vec![add_socket(2)], grants: add_color(SocketColor::RED) },
    );
    unlocks.push(
        Unlock {
            prerequisites: vec![add_color(SocketColor::RED)],
            grants: add_color(SocketColor::GREEN),
        },
    );
    unlocks.push(
        Unlock {
            prerequisites: vec![add_color(SocketColor::GREEN)],
            grants: add_color(SocketColor::ORANGE),
        },
    );
    unlocks.push(
        Unlock {
            prerequisites: vec![add_color(SocketColor::ORANGE)],
            grants: add_color(SocketColor::PINK),
        },
    );
    proof {
        let built = unlock_views(unlocks@);
        let ladder = color_ladder();
        assert(built.len() == ladder.len());
        assert forall|i: int| 0 <= i < built.len() implies built[i] == ladder[i] by {
            assert(built[i].prerequisites =~= ladder[i].prerequisites);
        }
        assert(built =~= ladder);
    }
    unlocks
}

/// Builds the ladder of enhancements.
pub fn build_color_enhance_unlocks() -> (unlocks: Vec<Unlock>)
    ensures
        unlock_views(unlocks@) == enhancement_ladder(),
{
    let mut unlocks: Vec<Unlock> = Vec::new();
    unlocks.push(
        Unlock { prerequisites: vec![add_ring(1)], grants: enhance(SocketColor::BLUE, 1) },
    );
    unlocks.push(
        Unlock {
            prerequisites: vec![enhance(SocketColor::BLUE, 1)],
            grants: enhance(SocketColor::RED, 1),
        },
    );
    unlocks.push(
        Unlock {
            prerequisites: vec![enhance(SocketColor::RED, 1)],
            grants: enhance(SocketColor::ORANGE, 1),
        },
    );
    unlocks.push(
        Unlock {
            prerequisites: vec![enhance(SocketColor::ORANGE, 1)],
            grants: enhance(SocketColor::GREEN, 1),
        },
    );
    unlocks.push(
        Unlock {
            prerequisites: vec![enhance(SocketColor::ORANGE, 1)],
            grants: enhance(SocketColor::BLUE, 2),
        },
    );
    unlocks.push(
        Unlock {
            prerequisites: vec![enhance(SocketColor::BLUE, 2)],
            grants: enhance(SocketColor::BLUE, 3),
        },
    );
    proof {
        let built = unlock_views(unlocks@);
        let ladder = enhancement_ladder();
        assert(built.len() == ladder.len());
        assert forall|i: int| 0 <= i < built.len() implies built[i] == ladder[i] by {
            assert(built[i].prerequisites =~= ladder[i].prerequisites);
        }
        assert(built =~= ladder);
    }
    unlocks
}

/// Builds all the rules that a new game starts with.
pub fn starting_unlocks() -> (unlocks: Unlocks)
    ensures
        unlocks@ == starting_rules(),
{
    let mut pool = add_ring_and_socket_unlocks();
    let mut colors = build_color_unlocks();
    let mut enhancements = build_color_enhance_unlocks();
    let ghost ladder = pool@;
    let ghost color_rules = colors@;
    let ghost enhancement_rules = enhancements@;
    pool.append(&mut colors);
    pool.append(&mut enhancements);
    proof {
        assert(pool@ =~= ladder + color_rules + enhancement_rules);
        assert(unlock_views(pool@) =~= unlock_views(ladder) + unlock_views(color_rules)
            + unlock_views(enhancement_rules));
    }
    Unlocks(pool)
}

/// Everything that the starting rules grant has a price.
pub proof fn lemma_starting_rules_priced()
    ensures
        rules_priced(starting_rules()),
{
    let rules = starting_rules();
    let ladder = ring_and_socket_ladder();
    let colors = color_ladder();
    let enhancements = enhancement_ladder();
    assert forall|i: int| 0 <= i < rules.len() implies priced((#[trigger] rules[i]).grants) by {
        if i < ladder.len() {
            assert(rules[i] == ladder_rule(i));
            assert(0 <= i / 11 < 64);
        } else if i < ladder.len() + colors.len() {
            assert(rules[i] == colors[i - ladder.len()]);
        } else {
            assert(rules[i] == enhancements[i - ladder.len() - colors.len()]);
        }
    }
}

/// Tells whether every rule of a pool grants an upgrade that has a price.
pub fn check_rules(unlocks: &Unlocks) -> (ok: bool)
    ensures
        ok == rules_priced(unlocks@),
{
    let mut i: usize = 0;
    while i < unlocks.0.len()
        invariant
            i <= unlocks.0.len(),
            forall|k: int| 0 <= k < i ==> priced((#[trigger] unlocks@[k]).grants),
        decreases unlocks.0.len() - i,
    {
        if !is_priced(unlocks.0[i].grants) {
            assert(!priced(unlocks@[i as int].grants));
            return false;
        }
        i += 1;
    }
    true
}

/// Whether every prerequisite of a rule has been bought.
pub open spec fn satisfied(rule: UnlockView, history: Set<UpgradeKind>) -> bool {
    forall|i: int|
        0 <= i < rule.prerequisites.len() ==> history.contains(#[trigger] rule.prerequisites[i])
}

/// What the satisfied rules of a pool grant, in the order of the pool.
pub open spec fn realized(pool: Seq<UnlockView>, history: Set<UpgradeKind>) -> Seq<UpgradeKind>
    decreases pool.len(),
{
    if pool.len() == 0 {
        Seq::empty()
    } else {
        let before = realized(pool.drop_last(), history);
        if satisfied(pool.last(), history) {
            before.push(pool.last().grants)
        } else {
            before
        }
    }
}

/// The rules of a pool that are not satisfied, in the order of the pool.
pub open spec fn remaining(pool: Seq<UnlockView>, history: Set<UpgradeKind>) -> Seq<UnlockView>
    decreases pool.len(),
{
    if pool.len() == 0 {
        Seq::empty()
    } else {
        let before = remaining(pool.drop_last(), history);
        if satisfied(pool.last(), history) {
            before
        } else {
            before.push(pool.last())
        }
    }
}

/// Whether every prerequisite of a rule has been bought.
pub fn is_satisfied(rule: &Unlock, history: &UpgradeHistory) -> (all: bool)
    ensures
        all == satisfied(rule@, history@),
{
    let mut i: usize = 0;
    while i < rule.prerequisites.len()
        invariant
            i <= rule.prerequisites.len(),
            forall|k: int| 0 <= k < i ==> history@.contains(#[trigger] rule.prerequisites[k]),
        decreases rule.prerequisites.len() - i,
    {
        if !history.owns(rule.prerequisites[i]) {
            assert(!history@.contains(rule@.prerequisites[i as int]));
            return false;
        }
        i += 1;
    }
    true
}

/// Every rule falls on one side: it is realized or it remains.
pub proof fn lemma_resolution_splits(pool: Seq<UnlockView>, history: Set<UpgradeKind>)
    ensures
        realized(pool, history).len() + remaining(pool, history).len() == pool.len(),
        forall|i: int|
            0 <= i < remaining(pool, history).len() ==> !satisfied(
                #[trigger] remaining(pool, history)[i],
                history,
            ),
    decreases pool.len(),
{
    if pool.len() > 0 {
        lemma_resolution_splits(pool.drop_last(), history);
    }
}

/// Where every rule of a pool grants an upgrade that has a price, so does
/// every rule that remains, and everything that is realized has a price.
pub proof fn lemma_resolution_priced(pool: Seq<UnlockView>, history: Set<UpgradeKind>)
    requires
        rules_priced(pool),
    ensures
        rules_priced(remaining(pool, history)),
        kinds_priced(realized(pool, history)),
    decreases pool.len(),
{
    if pool.len() > 0 {
        let shorter = pool.drop_last();
        assert forall|i: int| 0 <= i < shorter.len() implies priced(
            (#[trigger] shorter[i]).grants,
        ) by {
            assert(shorter[i] == pool[i]);
        }
        lemma_resolution_priced(shorter, history);
        assert(priced(pool[pool.len() - 1].grants));
    }
}

/// What remains of a pool keeps every rule of it that is not satisfied.
proof fn lemma_remaining_of_unsatisfied(pool: Seq<UnlockView>, history: Set<UpgradeKind>)
    requires
        forall|i: int| 0 <= i < pool.len() ==> !satisfied(#[trigger] pool[i], history),
    ensures
        remaining(pool, history) == pool,
        realized(pool, history) == Seq::<UpgradeKind>::empty(),
    decreases pool.len(),
{
    if pool.len() > 0 {
        let shorter = pool.drop_last();
        assert forall|i: int| 0 <= i < shorter.len() implies !satisfied(
            #[trigger] shorter[i],
            history,
        ) by {
            assert(shorter[i] == pool[i]);
        }
        lemma_remaining_of_unsatisfied(shorter, history);
        assert(!satisfied(pool[pool.len() - 1], history));
        assert(shorter.push(pool.last()) =~= pool);
    } else {
        assert(remaining(pool, history) =~= pool);
    }
}

/// A rule is realized once. After the rules of a pool were resolved
/// against a history, resolving what remains against the same history
/// realizes nothing and removes nothing.
pub proof fn lemma_unlock_one_shot(pool: Seq<UnlockView>, history: Set<UpgradeKind>)
    ensures
        realized(remaining(pool, history), history) == Seq::<UpgradeKind>::empty(),
        remaining(remaining(pool, history), history) == remaining(pool, history),
{
    lemma_resolution_splits(pool, history);
    lemma_remaining_of_unsatisfied(remaining(pool, history), history);
}

/// Takes the satisfied rules out of the pool and returns what they grant,
/// in the order of the pool. A rule that was taken out is gone for good.
pub fn resolve_unlocks(unlocks: &mut Unlocks, history: &UpgradeHistory) -> (granted: Vec<
    UpgradeKind,
>)
    ensures
        granted@ == realized(old(unlocks)@, history@),
        final(unlocks)@ == remaining(old(unlocks)@, history@),
{
    let mut granted: Vec<UpgradeKind> = Vec::new();
    let mut kept: usize = 0;
    let ghost mut done: int = 0;
    let ghost pool = old(unlocks)@;
    while kept < unlocks.0.len()
        invariant
            0 <= done <= pool.len(),
            pool == old(unlocks)@,
            kept <= unlocks.0.len(),
            unlocks.0.len() - kept == pool.len() - done,
            granted@ == realized(pool.take(done), history@),
            unlocks@.take(kept as int) == remaining(pool.take(done), history@),
            unlocks@.skip(kept as int) == pool.skip(done),
        decreases unlocks.0.len() - kept,
    {
        proof {
            assert(pool.take(done + 1).drop_last() =~= pool.take(done));
            assert(pool.take(done + 1).last() == pool[done]);
            assert(unlocks@.skip(kept as int)[0] == pool.skip(done)[0]);
            assert(unlocks@[kept as int] == pool[done]);
        }
        let ghost before = unlocks@;
        if is_satisfied(&unlocks.0[kept], history) {
            let rule = unlocks.0.remove(kept);
            granted.push(rule.grants);
            proof {
                assert(unlocks@ =~= before.remove(kept as int));
                assert(unlocks@.take(kept as int) =~= before.take(kept as int));
                let ahead = unlocks@.skip(kept as int);
                assert forall|k: int| 0 <= k < ahead.len() implies #[trigger] ahead[k]
                    == pool.skip(done + 1)[k] by {
                    assert(before.skip(kept as int)[k + 1] == pool.skip(done)[k + 1]);
                }
                assert(unlocks@.skip(kept as int) =~= pool.skip(done + 1));
            }
        } else {
            kept += 1;
            proof {
                assert(unlocks@.take(kept as int) =~= before.take(kept - 1).push(pool[done]));
                let ahead = unlocks@.skip(kept as int);
                assert forall|k: int| 0 <= k < ahead.len() implies #[trigger] ahead[k]
                    == pool.skip(done + 1)[k] by {
                    assert(before.skip(kept - 1)[k + 1] == pool.skip(done)[k + 1]);
                }
                assert(unlocks@.skip(kept as int) =~= pool.skip(done + 1));
            }
        }
        proof {
            done = done + 1;
        }
    }
    proof {
        assert(pool.take(done) =~= pool);
        assert(unlocks@.take(kept as int) =~= unlocks@);
    }
    granted
}

} // verus!
