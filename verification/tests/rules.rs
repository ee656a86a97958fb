use shinra::rules::{
    theme_change, theme_name,
    collide_flag, control_phase, falls, height_class, look_step, release_slot, scrolls, wants_jump,
    Look, Phase, ALIGNED, IN_PLAY, KEY_ENTER, KEY_G, KEY_M, KEY_SPACE, KEY_UP, KEY_W, PARKED,
};

#[test]
fn key_bits() {
    assert_eq!(KEY_M, 1 << 12);
    assert_eq!(KEY_G, 1 << 6);
    assert_eq!(KEY_SPACE, 1 << 26);
    assert_eq!(KEY_UP, 1 << 30);
    assert_eq!(KEY_W, 1 << 22);
    assert_eq!(KEY_ENTER, 1 << 27);
}

#[test]
fn m_and_g_cycle_the_look() {
    let mut look = Look { asset: 0, graph: 0, bodies: 0 };
    look_step(&mut look, KEY_M, false);
    assert_eq!(look, Look { asset: 1, graph: 0, bodies: 3 });
    look_step(&mut look, KEY_M | KEY_G, true);
    assert_eq!(look, Look { asset: 2, graph: 1, bodies: 4 });
    look_step(&mut look, KEY_M | KEY_G, true);
    assert_eq!(look, Look { asset: 0, graph: 0, bodies: 4 });
    look_step(&mut look, 0, false);
    assert_eq!(look, Look { asset: 0, graph: 0, bodies: 3 });
}

#[test]
fn the_run_resets_plays_and_ends() {
    assert_eq!(control_phase(0, 1, 0), Phase::Reset);
    assert_eq!(control_phase(5, 1, KEY_ENTER), Phase::Play);
    assert_eq!(control_phase(5, 0, 0), Phase::Over);
    assert_eq!(control_phase(5, 0, KEY_ENTER | KEY_SPACE), Phase::Reset);
}

#[test]
fn jumping_needs_a_key_and_the_ground() {
    assert!(wants_jump(KEY_SPACE, 1));
    assert!(wants_jump(KEY_UP, 1));
    assert!(wants_jump(KEY_W | KEY_M, 1));
    assert!(!wants_jump(KEY_SPACE, 0));
    assert!(!wants_jump(KEY_ENTER, 1));
}

#[test]
fn the_first_parked_cactus_comes_back() {
    assert_eq!(release_slot(&[0, 1, 1, 0, 0, 1, 1, 0]), Some(3));
    assert_eq!(release_slot(&[0, 0, 1, 1, 1, 1, 1, 0]), Some(1));
    assert_eq!(release_slot(&[1, 1, 1, 1, 1, 1, 1, 1]), None);
    assert_eq!(release_slot(&[0, 1, 1, 1, 1, 1, 2, 0]), Some(6));
}

#[test]
fn cactus_heights() {
    let classes: Vec<u32> = (1..=6).map(height_class).collect();
    assert_eq!(classes, vec![2, 4, 1, 3, 0, 2]);
}

#[test]
fn the_hit_flag() {
    assert_eq!(collide_flag(PARKED, true), PARKED);
    assert_eq!(collide_flag(IN_PLAY, true), ALIGNED);
    assert_eq!(collide_flag(ALIGNED, false), IN_PLAY);
    assert_eq!(collide_flag(ALIGNED, true), ALIGNED);
    assert!(falls(0) && falls(1) && !falls(2));
    assert!(scrolls(1) && !scrolls(0) && !scrolls(2));
}

#[test]
fn attract_mode_changes_theme_at_period_boundaries() {
    assert_eq!(theme_change(0, 0, 1), Some(0));
    assert_eq!(theme_change(0, 0, 2), None);
    assert_eq!(theme_change(1, 0, 240), Some(1));
    assert_eq!(theme_change(3, 2, 700), Some(0));
    assert_eq!(theme_change(4, 4, 900), None);
    assert_eq!(theme_change(5, 2, 900), None);
    assert_eq!(theme_name(0), "bunny");
    assert_eq!(theme_name(1), "teapot");
    assert_eq!(theme_name(2), "quad");
}
