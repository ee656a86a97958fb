use shinra::dialogue::{
    cast_change, describe, glyph_cell, glyph_count, is_lit, next_act, restart, reveal_up_to,
    roster_change, text_of, type_step, Line, RosterChange, TypeStep, FALLBACK_LEN, MAX_GLYPHS,
};
use shinra::script::parse;

#[test]
fn describe_fills_speaker_and_byte_length() {
    let s = parse("say a \"hi\"\nsay bé \"héllo\"\n".as_bytes());
    let mut line = Line::start();
    describe(&mut line, &s);
    assert_eq!((line.speaker, line.len), (0, 2));
    line.index = 1;
    describe(&mut line, &s);
    assert_eq!((line.speaker, line.len), (1, 6));
    line.index = 2;
    describe(&mut line, &s);
    assert_eq!((line.speaker, line.len), (0, 2));
}

#[test]
fn describe_clips_long_lines_and_falls_back_on_an_empty_act() {
    let long = format!("say a \"{}\"\n", "x".repeat(300));
    let s = parse(long.as_bytes());
    let mut line = Line::start();
    describe(&mut line, &s);
    assert_eq!(line.len as usize, MAX_GLYPHS);
    let empty = parse(b"");
    let mut line = Line::start();
    line.speaker = 5;
    describe(&mut line, &empty);
    assert_eq!((line.speaker, line.len), (0, FALLBACK_LEN));
    assert_eq!(text_of(&empty, 0), "(no story loaded)");
    assert_eq!(text_of(&empty, 0).len() as u32, FALLBACK_LEN);
}

#[test]
fn text_of_wraps() {
    let s = parse(b"say a \"one\"\nsay a \"two\"\n");
    assert_eq!(text_of(&s, 0), "one");
    assert_eq!(text_of(&s, 5), "two");
}

#[test]
fn glyphs_wrap_by_cell_count() {
    assert_eq!(glyph_cell(0), (0, 0));
    assert_eq!(glyph_cell(42), (42, 0));
    assert_eq!(glyph_cell(43), (0, 1));
    assert_eq!(glyph_cell(100), (14, 2));
}

#[test]
fn glyph_count_is_the_smallest_bound() {
    let line = Line { index: 0, revealed: 5, speaker: 0, done: 0, len: 10 };
    assert_eq!(glyph_count(&line, 20), 5);
    assert_eq!(glyph_count(&line, 3), 3);
    let line = Line { index: 0, revealed: 500, speaker: 0, done: 1, len: 400 };
    assert_eq!(glyph_count(&line, 1000), MAX_GLYPHS);
}

#[test]
fn rosters_are_reconciled() {
    assert_eq!(
        roster_change(5, 3),
        RosterChange { despawn_from: 3, despawn_to: 5, spawn_from: 3, spawn_to: 3 }
    );
    assert_eq!(
        roster_change(2, 4),
        RosterChange { despawn_from: 2, despawn_to: 2, spawn_from: 2, spawn_to: 4 }
    );
    assert_eq!(
        roster_change(4, 4),
        RosterChange { despawn_from: 4, despawn_to: 4, spawn_from: 4, spawn_to: 4 }
    );
    assert_eq!(
        cast_change(3, 40),
        RosterChange { despawn_from: 3, despawn_to: 3, spawn_from: 3, spawn_to: 16 }
    );
    assert_eq!(
        cast_change(20, 2),
        RosterChange { despawn_from: 2, despawn_to: 16, spawn_from: 2, spawn_to: 2 }
    );
}

#[test]
fn the_speaker_is_lit() {
    assert!(is_lit(2, 2));
    assert!(!is_lit(1, 2));
}

#[test]
fn typewriter_handshake() {
    let mut line = Line::start();
    assert_eq!(type_step(&mut line, true), TypeStep::Waiting);
    assert_eq!(line, Line::start());
    line.len = 4;
    assert_eq!(type_step(&mut line, true), TypeStep::Reveal);
    reveal_up_to(&mut line, 2);
    assert_eq!((line.revealed, line.done), (2, 0));
    reveal_up_to(&mut line, 9);
    assert_eq!((line.revealed, line.done), (4, 1));
    assert_eq!(type_step(&mut line, false), TypeStep::Reveal);
    assert_eq!(type_step(&mut line, true), TypeStep::NextLine);
    assert_eq!(line, Line { index: 1, revealed: 0, speaker: 0, done: 0, len: 0 });
    assert_eq!(type_step(&mut line, true), TypeStep::Waiting);
}

#[test]
fn acts_cycle_and_restart_at_the_top() {
    assert_eq!(next_act(0, 2), 1);
    assert_eq!(next_act(1, 2), 0);
    assert_eq!(next_act(u32::MAX, 7), ((u32::MAX as u64 + 1) % 7) as u32);
    let mut line = Line { index: 7, revealed: 3, speaker: 2, done: 1, len: 9 };
    restart(&mut line);
    assert_eq!(line, Line { index: 0, revealed: 0, speaker: 2, done: 0, len: 0 });
}
