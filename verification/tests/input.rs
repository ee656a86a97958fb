use shinra::input::{Key, Keymap};

#[test]
fn axis_resolves_to_zero_when_neither_held() {
    let mut km = Keymap::new();
    let f = km.frame();
    assert_eq!(f.move_x as f32, 0.0);
    assert_eq!(f.move_z as f32, 0.0);
}

#[test]
fn d_held_gives_positive_move_x() {
    let mut km = Keymap::new();
    km.on_press(Key::D);
    assert_eq!(km.frame().move_x as f32, 1.0);
}

#[test]
fn a_and_d_held_cancel() {
    let mut km = Keymap::new();
    km.on_press(Key::A);
    km.on_press(Key::D);
    assert_eq!(km.frame().move_x as f32, 0.0);
}

#[test]
fn n_is_one_shot() {
    let mut km = Keymap::new();
    km.on_press(Key::N);
    assert!(km.take_swipe_next());
    assert!(!km.take_swipe_next());
}

#[test]
fn n_does_not_appear_in_held() {
    let mut km = Keymap::new();
    km.on_press(Key::N);
    let f = km.frame();
    assert_eq!(f.move_x as f32, 0.0);
    assert_eq!(f.move_z as f32, 0.0);
}

#[test]
fn tap_contributes_to_next_frame() {
    let mut km = Keymap::new();
    km.tap(Key::D);
    assert_eq!(km.frame().move_x as f32, 1.0);
}

#[test]
fn tap_clears_after_one_frame() {
    let mut km = Keymap::new();
    km.tap(Key::D);
    let _ = km.frame();
    assert_eq!(km.frame().move_x as f32, 0.0);
}

#[test]
fn tap_n_is_consumed_by_take_swipe_next() {
    let mut km = Keymap::new();
    km.tap(Key::N);
    assert!(km.take_swipe_next());
    assert!(!km.take_swipe_next());
}

#[test]
fn tap_does_not_persist_in_held() {
    let mut km = Keymap::new();
    km.tap(Key::W);
    let _ = km.frame();
    km.on_release(Key::W);
    assert_eq!(km.frame().move_z as f32, 0.0);
}

#[test]
fn held_key_lasts_until_released() {
    let mut km = Keymap::new();
    km.on_press(Key::S);
    assert_eq!(km.frame().move_z, 1);
    assert_eq!(km.frame().move_z, 1);
    km.on_release(Key::S);
    assert_eq!(km.frame().move_z, 0);
}

#[test]
fn every_axis_has_its_keys() {
    let mut km = Keymap::new();
    km.on_press(Key::A);
    km.on_press(Key::W);
    km.on_press(Key::Left);
    km.on_press(Key::Up);
    km.on_press(Key::K);
    let f = km.frame();
    assert_eq!((f.move_x, f.move_z, f.rot_yaw, f.rot_pitch, f.scale_delta), (-1, -1, -1, -1, -1));
    let mut km = Keymap::new();
    km.tap(Key::D);
    km.tap(Key::S);
    km.tap(Key::Right);
    km.tap(Key::Down);
    km.tap(Key::J);
    let f = km.frame();
    assert_eq!((f.move_x, f.move_z, f.rot_yaw, f.rot_pitch, f.scale_delta), (1, 1, 1, 1, 1));
}

#[test]
fn quit_is_one_shot_and_leaves_axes_alone() {
    let mut km = Keymap::new();
    km.on_press(Key::Esc);
    assert!(km.take_quit());
    assert!(!km.take_quit());
    km.tap(Key::Q);
    assert!(km.take_quit());
    let f = km.frame();
    assert_eq!((f.move_x, f.move_z, f.rot_yaw, f.rot_pitch, f.scale_delta), (0, 0, 0, 0, 0));
}

#[test]
fn default_keymap_is_empty() {
    let mut km = Keymap::default();
    assert!(!km.take_swipe_next());
    assert!(!km.take_quit());
    assert_eq!(km.frame().move_x, 0);
}

#[test]
fn up_arrow_pitches_negative_and_down_positive() {
    let mut km = Keymap::new();
    km.on_press(Key::Up);
    assert_eq!(km.frame().rot_pitch as f32, -1.0);
    km.on_release(Key::Up);
    km.on_press(Key::Down);
    assert_eq!(km.frame().rot_pitch as f32, 1.0);
    km.on_press(Key::Up);
    assert_eq!(km.frame().rot_pitch, 0);
}
