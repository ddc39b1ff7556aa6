//! The hotbar: which colour the player has chosen, putting it into a
//! socket, and what the colours do in words.

use crate::color::SocketColor;
use crate::game::{Game, GameView, Hotbar};
use crate::ring::{recolored, set_socket_color, RingView, MAX_TIME_MICROS};
use crate::upgrade::{
    AddRingUpgrade, EnhanceColorUpgrade, UpgradeHistory, UpgradeKind,
};
use vstd::prelude::*;
use vstd::string::*;

verus! {

/// Tells the hotbar which of its slots was clicked.
#[derive(PartialEq, Eq, Clone, Copy, Debug, Structural)]
pub struct HotbarChanged {
    pub index: u32,
}

/// Asks to put the chosen colour into a socket, or to take its orb out.
#[derive(PartialEq, Eq, Clone, Copy, Debug, Structural)]
pub struct UpdateSocketColor {
    pub ring: usize,
    pub socket: usize,
    pub remove: bool,
}

/// How many number keys there are.
pub const HOTKEYS: usize = 10;

/// The lowest slot at or above `from` whose key is pressed and which
/// holds a colour, if there is one. Key `k` of the ten stands for slot
/// `k`: the keys one to nine and then zero.
pub open spec fn pressed_slot(pressed: Seq<bool>, colors: nat, from: int) -> Option<u32>
    decreases HOTKEYS - from,
{
    if from < 0 || from >= HOTKEYS || from >= pressed.len() {
        None
    } else if pressed[from] && from < colors {
        Some(from as u32)
    } else {
        pressed_slot(pressed, colors, from + 1)
    }
}

/// Selects the slot of the first pressed number key that has a colour;
/// the selection stays where it is when there is none. Returns whether a
/// slot was selected.
pub fn update_hotbar_selection(hotbar: &mut Hotbar, just_pressed: [bool; 10]) -> (selected: bool)
    ensures
        final(hotbar).color_mappings == old(hotbar).color_mappings,
        selected == pressed_slot(just_pressed@, old(hotbar).color_mappings@.len(), 0).is_some(),
        final(hotbar).selected_index == match pressed_slot(
            just_pressed@,
            old(hotbar).color_mappings@.len(),
            0,
        ) {
            Some(slot) => slot,
            None => old(hotbar).selected_index,
        },
        selected ==> final(hotbar).selected_index < final(hotbar).color_mappings@.len(),
{
    let mut slot: usize = 0;
    while slot < HOTKEYS
        invariant
            slot <= HOTKEYS,
            *hotbar == *old(hotbar),
            pressed_slot(just_pressed@, hotbar.color_mappings@.len(), 0) == pressed_slot(
                just_pressed@,
                hotbar.color_mappings@.len(),
                slot as int,
            ),
        decreases HOTKEYS - slot,
    {
        if just_pressed[slot] && hotbar.color_mappings.len() > slot {
            hotbar.selected_index = slot as u32;
            return true;
        }
        slot += 1;
    }
    false
}

/// The game after the player chose a slot of the hotbar.
pub open spec fn hotbar_changed(game: GameView, event: HotbarChanged) -> GameView {
    GameView { selected_index: event.index as nat, ..game }
}

/// Selects the slot of the hotbar that was clicked.
pub fn on_hotbar_changed(game: &mut Game, event: HotbarChanged)
    requires
        old(game).wf(),
        event.index < old(game)@.color_mappings.len(),
    ensures
        final(game)@ == hotbar_changed(old(game)@, event),
        final(game).wf(),
{
    game.hotbar.selected_index = event.index;
}

/// A ring with one of its sockets recoloured.
pub open spec fn ring_recolored(
    ring: RingView,
    socket: int,
    selected: SocketColor,
    remove: bool,
    now: int,
) -> RingView {
    RingView {
        sockets: ring.sockets.update(socket, recolored(ring.sockets[socket], selected, remove, now)),
        ..ring
    }
}

/// The game after the chosen colour was put into a socket, or the orb of
/// the socket was taken out, at `now`.
pub open spec fn socket_color_set(game: GameView, event: UpdateSocketColor, now: int) -> GameView {
    GameView {
        rings: game.rings.update(
            event.ring as int,
            ring_recolored(
                game.rings[event.ring as int],
                event.socket as int,
                game.color_mappings[game.selected_index as int],
                event.remove,
                now,
            ),
        ),
        ..game
    }
}

/// Puts the colour that is chosen on the hotbar into a socket, or takes
/// the orb of the socket out. A cooldown that is running keeps its end.
pub fn on_set_socket_color(game: &mut Game, event: UpdateSocketColor, now: i64)
    requires
        old(game).wf(),
        event.ring < old(game)@.rings.len(),
        event.socket < old(game)@.rings[event.ring as int].sockets.len(),
        0 <= now <= MAX_TIME_MICROS,
    ensures
        final(game)@ == socket_color_set(old(game)@, event, now as int),
        final(game).wf(),
{
    let selected_color = game.hotbar.color_mappings[game.hotbar.selected_index as usize];
    proof {
        assert(old(game)@.rings[event.ring as int].wf());
        assert(old(game)@.rings[event.ring as int].sockets[event.socket as int].wf());
    }
    set_socket_color(
        &mut game.rings[event.ring].sockets[event.socket],
        selected_color,
        event.remove,
        now,
    );
    proof {
        let before = old(game)@;
        let after = socket_color_set(before, event, now as int);
        assert(game@.rings[event.ring as int].sockets =~= after.rings[event.ring as int].sockets);
        assert(game@.rings[event.ring as int].previous_bonuses
            =~= before.rings[event.ring as int].previous_bonuses);
        assert(game@.rings =~= after.rings);
        assert forall|i: int| 0 <= i < after.rings.len() implies (#[trigger] after.rings[i]).wf()
            && after.rings[i].index == i by {
            assert(before.rings[i].wf());
            if i == event.ring {
                assert forall|j: int| 0 <= j < after.rings[i].sockets.len() implies {
                    &&& (#[trigger] after.rings[i].sockets[j]).wf()
                    &&& after.rings[i].sockets[j].index == j
                    &&& after.rings[i].sockets[j].ring == after.rings[i].index
                } by {
                    assert(before.rings[i].sockets[j].wf());
                }
            }
        }
    }
}

/// The upgrade that lets the player move and zoom the view.
pub open spec fn first_ring_upgrade() -> UpgradeKind {
    UpgradeKind::AddRing(AddRingUpgrade { level: 1 })
}

/// Whether the player may move and zoom the view: once a ring was bought.
pub fn camera_unlocked(history: &UpgradeHistory) -> (unlocked: bool)
    ensures
        unlocked == history@.contains(first_ring_upgrade()),
{
    history.owns(UpgradeKind::AddRing(AddRingUpgrade { level: 1 }))
}

/// An enhancement of a colour.
pub open spec fn tier_of(color: SocketColor, tier: u32) -> UpgradeKind {
    UpgradeKind::EnhanceColor(EnhanceColorUpgrade { color, tier })
}

/// What an orb of a colour does, in words, given what has been bought.
pub open spec fn description_text(color: SocketColor, history: Set<UpgradeKind>) -> Seq<char> {
    match color {
        SocketColor::NONE => "???"@,
        SocketColor::BLUE => if history.contains(tier_of(SocketColor::BLUE, 3)) {
            "Slots into a socket. Grants $6 for ALL other socketed blue orbs. Triggers ALL other blue orbs. "@
        } else if history.contains(tier_of(SocketColor::BLUE, 2)) {
            "Slots into a socket. Grants $4 for ALL other socketed blue orbs."@
        } else if history.contains(tier_of(SocketColor::BLUE, 1)) {
            "Slots into a socket. Grants $2 for ALL other socketed blue orbs."@
        } else {
            "Slots into a socket. Grants $1 every time it is triggered."@
        },
        SocketColor::RED => if history.contains(tier_of(SocketColor::RED, 1)) {
            "Grants no $. Triggers adjacent sockets when triggered. Sockets triggered this way are twice as effective."@
        } else {
            "Grants no $. Triggers adjacent sockets when triggered."@
        },
        SocketColor::GREEN => if history.contains(tier_of(SocketColor::GREEN, 1)) {
            "Grants $1 for each trigger in the ALL rings' previous cycles. Retriggers pay 5x."@
        } else {
            "Grants $1 for each trigger in the ring's previous cycle."@
        },
        SocketColor::ORANGE => if history.contains(tier_of(SocketColor::ORANGE, 1)) {
            "Reduces the cooldown of all sockets in the ring by 1 second(s)."@
        } else {
            "Reduces the cooldown of all sockets in the ring by 0.5 second(s)."@
        },
        SocketColor::PINK => "When triggered, increases the cycle's multiplier by 1."@,
    }
}

fn owns_tier(history: &UpgradeHistory, color: SocketColor, tier: u32) -> (found: bool)
    ensures
        found == history@.contains(tier_of(color, tier)),
{
    history.owns(UpgradeKind::EnhanceColor(EnhanceColorUpgrade { color, tier }))
}

/// What an orb of a colour does, in words, given what has been bought.
pub fn map_socket_color_description_text(
    socket_color: SocketColor,
    upgrade_history: &UpgradeHistory,
) -> (text: String)
    ensures
        text@ == description_text(socket_color, upgrade_history@),
{
    let text = match socket_color {
        SocketColor::NONE => "???",
        SocketColor::BLUE => {
            if owns_tier(upgrade_history, SocketColor::BLUE, 3) {
                "Slots into a socket. Grants $6 for ALL other socketed blue orbs. Triggers ALL other blue orbs. "
            } else if owns_tier(upgrade_history, SocketColor::BLUE, 2) {
                "Slots into a socket. Grants $4 for ALL other socketed blue orbs."
            } else if owns_tier(upgrade_history, SocketColor::BLUE, 1) {
                "Slots into a socket. Grants $2 for ALL other socketed blue orbs."
            } else {
                "Slots into a socket. Grants $1 every time it is triggered."
            }
        },
        SocketColor::RED => {
            if owns_tier(upgrade_history, SocketColor::RED, 1) {
                "Grants no $. Triggers adjacent sockets when triggered. Sockets triggered this way are twice as effective."
            } else {
                "Grants no $. Triggers adjacent sockets when triggered."
            }
        },
        SocketColor::GREEN => {
            if owns_tier(upgrade_history, SocketColor::GREEN, 1) {
                "Grants $1 for each trigger in the ALL rings' previous cycles. Retriggers pay 5x."
            } else {
                "Grants $1 for each trigger in the ring's previous cycle."
            }
        },
        SocketColor::ORANGE => {
            if owns_tier(upgrade_history, SocketColor::ORANGE, 1) {
                "Reduces the cooldown of all sockets in the ring by 1 second(s)."
            } else {
                "Reduces the cooldown of all sockets in the ring by 0.5 second(s)."
            }
        },
        SocketColor::PINK => "When triggered, increases the cycle's multiplier by 1.",
    };
    String::from_str(text)
}

} // verus!
