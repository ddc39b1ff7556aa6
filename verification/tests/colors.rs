use ring_cycles::color::{
    map_socket_color, map_socket_color_hotkey, map_socket_color_trigger_duration,
    map_socket_highlight_color, SocketColor, Swatch,
};

#[test]
fn trigger_durations_of_all_colors() {
    assert_eq!(map_socket_color_trigger_duration(SocketColor::NONE), 0);
    assert_eq!(map_socket_color_trigger_duration(SocketColor::BLUE), 400_000);
    assert_eq!(map_socket_color_trigger_duration(SocketColor::RED), 3_000_000);
    assert_eq!(map_socket_color_trigger_duration(SocketColor::GREEN), 7_000_000);
    assert_eq!(map_socket_color_trigger_duration(SocketColor::ORANGE), 300_000);
    assert_eq!(map_socket_color_trigger_duration(SocketColor::PINK), 14_000_000);
}

#[test]
fn hotkeys_of_the_colors_that_have_one() {
    assert_eq!(map_socket_color_hotkey(SocketColor::BLUE), 1);
    assert_eq!(map_socket_color_hotkey(SocketColor::RED), 2);
    assert_eq!(map_socket_color_hotkey(SocketColor::GREEN), 3);
    assert_eq!(map_socket_color_hotkey(SocketColor::ORANGE), 4);
    assert_eq!(map_socket_color_hotkey(SocketColor::PINK), 5);
}

#[test]
fn names_of_all_colors() {
    assert_eq!(SocketColor::NONE.as_str(), "NONE");
    assert_eq!(SocketColor::BLUE.as_str(), "BLUE");
    assert_eq!(SocketColor::RED.as_str(), "RED");
    assert_eq!(SocketColor::GREEN.as_str(), "GREEN");
    assert_eq!(SocketColor::ORANGE.as_str(), "ORANGE");
    assert_eq!(SocketColor::PINK.as_str(), "PINK");
}

#[test]
fn palette_of_all_colors() {
    assert_eq!(map_socket_color(SocketColor::NONE), Swatch::Gray950);
    assert_eq!(map_socket_color(SocketColor::BLUE), Swatch::Blue600);
    assert_eq!(map_socket_color(SocketColor::RED), Swatch::Red600);
    assert_eq!(map_socket_color(SocketColor::GREEN), Swatch::Green600);
    assert_eq!(map_socket_color(SocketColor::ORANGE), Swatch::Orange600);
    assert_eq!(map_socket_color(SocketColor::PINK), Swatch::Pink600);
    assert_eq!(map_socket_highlight_color(SocketColor::NONE), Swatch::Gray900);
    assert_eq!(map_socket_highlight_color(SocketColor::BLUE), Swatch::Blue400);
    assert_eq!(map_socket_highlight_color(SocketColor::RED), Swatch::Red400);
    assert_eq!(map_socket_highlight_color(SocketColor::GREEN), Swatch::Green400);
    assert_eq!(map_socket_highlight_color(SocketColor::ORANGE), Swatch::Orange400);
    assert_eq!(map_socket_highlight_color(SocketColor::PINK), Swatch::Pink400);
}

#[test]
fn the_default_color_is_the_empty_one() {
    assert_eq!(SocketColor::default(), SocketColor::NONE);
}
