//! The socket colours and the fixed table of what each colour means.
//!
//! Times are whole microseconds; a palette entry is named by a [`Swatch`],
//! which the presentation layer turns into an actual colour.

use vstd::prelude::*;

verus! {

/// The colour of the orb that sits in a socket. `NONE` is the empty socket.
#[derive(Default, PartialEq, Eq, Hash, Clone, Copy, Debug, Structural)]
pub enum SocketColor {
    #[default]
    NONE,
    BLUE,
    RED,
    GREEN,
    ORANGE,
    PINK,
}

/// A named entry of the display palette.
#[derive(PartialEq, Eq, Hash, Clone, Copy, Debug, Structural)]
pub enum Swatch {
    Gray900,
    Gray950,
    Blue400,
    Blue600,
    Red400,
    Red600,
    Green400,
    Green600,
    Orange400,
    Orange600,
    Pink400,
    Pink600,
    Cyan400,
}

/// One second, in the unit of every time and duration of this library.
pub const MICROS_PER_SECOND: i64 = 1_000_000;

/// The longest cooldown that any colour has.
pub const MAX_TRIGGER_DURATION_MICROS: i64 = 14_000_000;

/// The upper-case name of a colour.
pub open spec fn color_name(color: SocketColor) -> Seq<char> {
    match color {
        SocketColor::NONE => "NONE"@,
        SocketColor::BLUE => "BLUE"@,
        SocketColor::RED => "RED"@,
        SocketColor::GREEN => "GREEN"@,
        SocketColor::ORANGE => "ORANGE"@,
        SocketColor::PINK => "PINK"@,
    }
}

/// The palette entry of an orb of the given colour.
pub open spec fn display_swatch(color: SocketColor) -> Swatch {
    match color {
        SocketColor::NONE => Swatch::Gray950,
        SocketColor::BLUE => Swatch::Blue600,
        SocketColor::RED => Swatch::Red600,
        SocketColor::GREEN => Swatch::Green600,
        SocketColor::ORANGE => Swatch::Orange600,
        SocketColor::PINK => Swatch::Pink600,
    }
}

/// The palette entry of the highlight of an orb of the given colour.
pub open spec fn highlight_swatch(color: SocketColor) -> Swatch {
    match color {
        SocketColor::NONE => Swatch::Gray900,
        SocketColor::BLUE => Swatch::Blue400,
        SocketColor::RED => Swatch::Red400,
        SocketColor::GREEN => Swatch::Green400,
        SocketColor::ORANGE => Swatch::Orange400,
        SocketColor::PINK => Swatch::Pink400,
    }
}

/// The cooldown of a colour in microseconds: how long a socket of that
/// colour rests after it has fired.
pub open spec fn trigger_duration_micros(color: SocketColor) -> int {
    match color {
        SocketColor::NONE => 0,
        SocketColor::BLUE => 400_000,
        SocketColor::RED => 3_000_000,
        SocketColor::GREEN => 7_000_000,
        SocketColor::ORANGE => 300_000,
        SocketColor::PINK => 14_000_000,
    }
}

/// The number key that selects a colour. The empty colour has none.
pub open spec fn hotkey_ordinal(color: SocketColor) -> int
    recommends
        color != SocketColor::NONE,
{
    match color {
        SocketColor::NONE => 0,
        SocketColor::BLUE => 1,
        SocketColor::RED => 2,
        SocketColor::GREEN => 3,
        SocketColor::ORANGE => 4,
        SocketColor::PINK => 5,
    }
}

impl SocketColor {
    pub fn as_str(&self) -> (name: &'static str)
        ensures
            name@ == color_name(*self),
    {
        match self {
            SocketColor::RED => "RED",
            SocketColor::NONE => "NONE",
            SocketColor::BLUE => "BLUE",
            SocketColor::GREEN => "GREEN",
            SocketColor::ORANGE => "ORANGE",
            SocketColor::PINK => "PINK",
        }
    }
}

pub fn map_socket_color(socket_color: SocketColor) -> (swatch: Swatch)
    ensures
        swatch == display_swatch(socket_color),
{
    match socket_color {
        SocketColor::BLUE => Swatch::Blue600,
        SocketColor::NONE => Swatch::Gray950,
        SocketColor::RED => Swatch::Red600,
        SocketColor::GREEN => Swatch::Green600,
        SocketColor::ORANGE => Swatch::Orange600,
        SocketColor::PINK => Swatch::Pink600,
    }
}

pub fn map_socket_color_trigger_duration(socket_color: SocketColor) -> (micros: i64)
    ensures
        micros == trigger_duration_micros(socket_color),
        0 <= micros <= MAX_TRIGGER_DURATION_MICROS,
        socket_color != SocketColor::NONE ==> micros > 0,
{
    match socket_color {
        SocketColor::BLUE => 400_000,
        SocketColor::NONE => 0,
        SocketColor::RED => 3_000_000,
        SocketColor::GREEN => 7_000_000,
        SocketColor::ORANGE => 300_000,
        SocketColor::PINK => 14_000_000,
    }
}

pub fn map_socket_highlight_color(socket_color: SocketColor) -> (swatch: Swatch)
    ensures
        swatch == highlight_swatch(socket_color),
{
    match socket_color {
        SocketColor::BLUE => Swatch::Blue400,
        SocketColor::NONE => Swatch::Gray900,
        SocketColor::RED => Swatch::Red400,
        SocketColor::GREEN => Swatch::Green400,
        SocketColor::ORANGE => Swatch::Orange400,
        SocketColor::PINK => Swatch::Pink400,
    }
}

/// The number key of a colour. The empty colour has no key, so it is not
/// accepted.
pub fn map_socket_color_hotkey(socket_color: SocketColor) -> (key: u32)
    requires
        socket_color != SocketColor::NONE,
    ensures
        key == hotkey_ordinal(socket_color),
        1 <= key <= 5,
{
    match socket_color {
        SocketColor::NONE => 0,
        SocketColor::BLUE => 1,
        SocketColor::RED => 2,
        SocketColor::GREEN => 3,
        SocketColor::ORANGE => 4,
        SocketColor::PINK => 5,
    }
}

} // verus!
