use shinra::input::{Key, Keymap};
use shinra::runner::{
    is_game_library, key_of, map_key, next_flow, next_game, render_size, viewer_render_size, Flow,
    TermKey,
};

#[test]
fn terminal_keys_are_bound() {
    assert_eq!(key_of(TermKey::Char('a')), Some(Key::A));
    assert_eq!(key_of(TermKey::Char('q')), Some(Key::Q));
    assert_eq!(key_of(TermKey::Char('n')), Some(Key::N));
    assert_eq!(key_of(TermKey::Char('x')), None);
    assert_eq!(key_of(TermKey::Char('A')), None);
    assert_eq!(key_of(TermKey::Left), Some(Key::Left));
    assert_eq!(key_of(TermKey::Esc), Some(Key::Esc));
    assert_eq!(key_of(TermKey::Other), None);
}

#[test]
fn a_terminal_key_is_a_tap() {
    let mut km = Keymap::new();
    map_key(&mut km, TermKey::Char('d'));
    map_key(&mut km, TermKey::Char('z'));
    assert_eq!(next_flow(&mut km), Flow::Play(shinra::input::InputAxes {
        move_x: 1,
        move_z: 0,
        rot_yaw: 0,
        rot_pitch: 0,
        scale_delta: 0,
    }));
    match next_flow(&mut km) {
        Flow::Play(f) => assert_eq!(f.move_x, 0),
        other => panic!("unexpected {other:?}"),
    }
}

#[test]
fn quit_wins_then_next_game() {
    let mut km = Keymap::new();
    map_key(&mut km, TermKey::Char('n'));
    map_key(&mut km, TermKey::Char('q'));
    assert_eq!(next_flow(&mut km), Flow::Quit);
    assert_eq!(next_flow(&mut km), Flow::NextGame);
    assert!(matches!(next_flow(&mut km), Flow::Play(_)));
}

#[test]
fn games_cycle() {
    assert_eq!(next_game(0, 3), 1);
    assert_eq!(next_game(2, 3), 0);
    assert_eq!(next_game(0, 1), 0);
}

#[test]
fn render_sizes() {
    assert_eq!(render_size(80, 24), (160, 96));
    assert_eq!(render_size(200, 60), (320, 180));
    assert_eq!(render_size(0, 0), (0, 0));
    assert_eq!(viewer_render_size(10, 5), (40, 80));
    assert_eq!(viewer_render_size(100, 30), (200, 120));
    assert_eq!(viewer_render_size(u16::MAX, u16::MAX), (320, 180));
}

#[test]
fn game_libraries() {
    assert!(is_game_library("libgame1.so"));
    assert!(is_game_library("libgame.so"));
    assert!(!is_game_library("libgame1.so.1"));
    assert!(!is_game_library("libengine.so"));
    assert!(!is_game_library("libgame1.dylib"));
    assert!(!is_game_library("game1.so"));
}
