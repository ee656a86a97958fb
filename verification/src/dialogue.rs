//! The rules of the dialogue game around a parsed act: which line is showing,
//! how much of it the typewriter has revealed, who is lit, and how many
//! glyph and actor entities should exist.
//!
//! # The `len == 0` handshake
//!
//! Only the typewriter sees the advance key, so only it moves `index`; only
//! the control layer reads the act, so only it can say how long a line is.
//! They meet in the data: when the typewriter advances it sets `len = 0` as a
//! request, and the control layer answers by describing the line. While
//! `len == 0` the typewriter does nothing.
use crate::script::{line_at, Script, SayModel};
use vstd::prelude::*;
use vstd::utf8::encode_utf8;

verus! {

/// A line longer than this many bytes is clipped.
pub const MAX_GLYPHS: usize = 256;

/// The most actors that are ever placed on stage.
pub const MAX_ACTORS: u32 = 16;

/// Glyph cells per row of the dialogue box: the box's inner width divided by
/// the advance per character, rounded down.
pub const GLYPH_COLUMNS: usize = 43;

/// Where the reader is, and how far the typewriter has got.
#[derive(Clone, Copy, PartialEq, Eq, Debug, Structural)]
pub struct Line {
    /// Which line of the act is showing.
    pub index: u32,
    /// How many characters of it have been typed out so far.
    pub revealed: u32,
    /// Which actor slot is speaking.
    pub speaker: u32,
    /// 1 once `revealed` has reached `len`: the reader may advance.
    pub done: u32,
    /// Bytes in this line; 0 asks the control layer to describe it.
    pub len: u32,
}

impl Line {
    /// The cursor a game starts with: line zero, not yet described.
    pub fn start() -> (r: Line)
        ensures
            r == (Line { index: 0, revealed: 0, speaker: 0, done: 0, len: 0 }),
    {
        Line { index: 0, revealed: 0, speaker: 0, done: 0, len: 0 }
    }
}

/// Bytes in the fallback text.
pub const FALLBACK_LEN: u32 = 17;

/// What is shown when the act is missing or says nothing.
pub open spec fn fallback_text() -> Seq<char> {
    seq!['(', 'n', 'o', ' ', 's', 't', 'o', 'r', 'y', ' ', 'l', 'o', 'a', 'd', 'e', 'd', ')']
}

/// The text of line `index` of an act, or the fallback.
pub open spec fn text_at(says: Seq<SayModel>, index: u32) -> Seq<char> {
    match line_at(says, index) {
        Some(s) => s.text,
        None => fallback_text(),
    }
}

/// `line` with its speaker and length filled in from the act.
pub open spec fn described(line: Line, says: Seq<SayModel>) -> Line {
    match line_at(says, line.index) {
        Some(s) => Line {
            speaker: s.speaker,
            len: (if (encode_utf8(s.text).len() as usize) < MAX_GLYPHS {
                encode_utf8(s.text).len() as usize
            } else {
                MAX_GLYPHS
            }) as u32,
            ..line
        },
        None => Line { speaker: 0, len: FALLBACK_LEN, ..line },
    }
}

/// What the current line says: answer the typewriter's request by filling in
/// `speaker` and `len` from the act. Only those two fields change.
pub fn describe(line: &mut Line, script: &Script)
    ensures
        *final(line) == described(*old(line), script@.says),
{
    match script.line(line.index) {
        Some(say) => {
            line.speaker = say.speaker;
            let n = say.text.as_str().len();
            line.len = if n < MAX_GLYPHS {
                n as u32
            } else {
                MAX_GLYPHS as u32
            };
        },
        None => {
            let fallback = "(no story loaded)";
            proof {
                reveal_strlit("(no story loaded)");
                assert(fallback@ =~= fallback_text());
            }
            proof {
                lemma_fallback_len();
            }
            line.speaker = 0;
            line.len = fallback.len() as u32;
        },
    }
}

/// The text of the current line. Everything that lays out glyphs asks this,
/// so there is one place that decides what "the current line" means.
pub fn text_of(script: &Script, index: u32) -> (r: &str)
    ensures
        r@ == text_at(script@.says, index),
{
    match script.line(index) {
        Some(say) => say.text.as_str(),
        None => {
            let fallback = "(no story loaded)";
            proof {
                reveal_strlit("(no story loaded)");
                assert(fallback@ =~= fallback_text());
            }
            fallback
        },
    }
}

/// The glyph cell of character `k`: column and row in the dialogue box,
/// wrapping by cell count rather than by word.
pub fn glyph_cell(k: usize) -> (r: (usize, usize))
    ensures
        r.0 == k % GLYPH_COLUMNS,
        r.1 == k / GLYPH_COLUMNS,
        r.0 < GLYPH_COLUMNS,
        r.1 * GLYPH_COLUMNS + r.0 == k,
{
    (k % GLYPH_COLUMNS, k / GLYPH_COLUMNS)
}

/// How many glyphs should exist: the revealed prefix, clamped to the line
/// described, the text in hand and the glyph cap.
pub fn glyph_count(line: &Line, text_len: usize) -> (r: usize)
    ensures
        r <= line.revealed,
        r <= line.len,
        r <= text_len,
        r <= MAX_GLYPHS,
        r == line.revealed || r == line.len || r == text_len || r == MAX_GLYPHS,
{
    let shown = if line.revealed < line.len {
        line.revealed as usize
    } else {
        line.len as usize
    };
    let a = if shown < text_len {
        shown
    } else {
        text_len
    };
    if a < MAX_GLYPHS {
        a
    } else {
        MAX_GLYPHS
    }
}

/// What reconciling a roster does: despawn the entities at positions
/// `despawn_from..despawn_to`, then spawn new ones to fill `spawn_from..spawn_to`.
#[derive(Clone, Copy, PartialEq, Eq, Debug, Structural)]
pub struct RosterChange {
    pub despawn_from: usize,
    pub despawn_to: usize,
    pub spawn_from: usize,
    pub spawn_to: usize,
}

/// The size a roster has after `c` is applied to one of size `have`.
pub open spec fn roster_after(have: nat, c: RosterChange) -> nat {
    ((have - (c.despawn_to - c.despawn_from)) + (c.spawn_to - c.spawn_from)) as nat
}

/// The change that brings a roster of `have` entities to `want`.
pub open spec fn roster_plan(have: usize, want: usize) -> RosterChange {
    if have > want {
        RosterChange { despawn_from: want, despawn_to: have, spawn_from: want, spawn_to: want }
    } else {
        RosterChange { despawn_from: have, despawn_to: have, spawn_from: have, spawn_to: want }
    }
}

/// Reconcile, never blindly spawn: compare the `have` entities that exist
/// against the `want` that should. Surplus entities at the end are despawned,
/// missing ones are spawned after the survivors.
pub fn roster_change(have: usize, want: usize) -> (r: RosterChange)
    ensures
        r == roster_plan(have, want),
{
    if have > want {
        RosterChange { despawn_from: want, despawn_to: have, spawn_from: want, spawn_to: want }
    } else {
        RosterChange { despawn_from: have, despawn_to: have, spawn_from: have, spawn_to: want }
    }
}

/// The change to the cast: as many actors as the act names, up to the cap,
/// against the `have` found on stage (of which at most the cap are seen).
pub fn cast_change(have: u32, want: u32) -> (r: RosterChange)
    ensures
        r == roster_plan(
            (if have < MAX_ACTORS {
                have
            } else {
                MAX_ACTORS
            }) as usize,
            (if want < MAX_ACTORS {
                want
            } else {
                MAX_ACTORS
            }) as usize,
        ),
{
    let h = if have < MAX_ACTORS {
        have
    } else {
        MAX_ACTORS
    };
    let w = if want < MAX_ACTORS {
        want
    } else {
        MAX_ACTORS
    };
    roster_change(h as usize, w as usize)
}

/// Whether the actor in `slot` is the one speaking, and so drawn lit.
pub fn is_lit(slot: u32, speaker: u32) -> (r: bool)
    ensures
        r == (slot == speaker),
{
    slot == speaker
}

/// What a typewriter step decided.
#[derive(Clone, Copy, PartialEq, Eq, Debug, Structural)]
pub enum TypeStep {
    /// The line has not been described yet; nothing happens.
    Waiting,
    /// The line was complete and the reader asked to move on: the cursor is
    /// on the next line, which awaits its description.
    NextLine,
    /// Keep revealing the current line.
    Reveal,
}

/// The cursor after moving on to the next line: nothing revealed, not done,
/// and `len == 0` as the request for a description.
pub open spec fn moved_on(line: Line) -> Line {
    Line { index: (line.index + 1) as u32, revealed: 0, done: 0, len: 0, ..line }
}

/// The typewriter's decision for one frame, and the cursor after it.
pub open spec fn step_of(line: Line, advance: bool) -> (TypeStep, Line) {
    if line.len == 0 {
        (TypeStep::Waiting, line)
    } else if advance && line.done != 0 {
        (TypeStep::NextLine, moved_on(line))
    } else {
        (TypeStep::Reveal, line)
    }
}

/// The typewriter's decision for one frame. One press does one thing:
/// mid-reveal it finishes the reveal (`Reveal`), and only once the line
/// stands complete does a press move on (`NextLine`).
pub fn type_step(line: &mut Line, advance: bool) -> (r: TypeStep)
    requires
        old(line).index < u32::MAX,
    ensures
        (r, *final(line)) == step_of(*old(line), advance),
{
    if line.len == 0 {
        return TypeStep::Waiting;
    }
    if advance && line.done != 0 {
        line.index = line.index + 1;
        line.revealed = 0;
        line.done = 0;
        line.len = 0;
        return TypeStep::NextLine;
    }
    TypeStep::Reveal
}

/// The cursor after `typed` characters' worth of time has passed on it.
pub open spec fn revealed_to(line: Line, typed: u32) -> Line {
    let r = if typed < line.len { typed } else { line.len };
    Line { revealed: r, done: if r >= line.len { 1 } else { 0 }, ..line }
}

/// Reveal up to `typed` characters of the current line, never past its end,
/// and mark it done once all of it stands.
pub fn reveal_up_to(line: &mut Line, typed: u32)
    ensures
        *final(line) == revealed_to(*old(line), typed),
{
    line.revealed = if typed < line.len {
        typed
    } else {
        line.len
    };
    line.done = if line.revealed >= line.len {
        1
    } else {
        0
    };
}

/// The act after `act` in a cycle of `count` acts.
pub fn next_act(act: u32, count: u32) -> (r: u32)
    requires
        count > 0,
    ensures
        r == (act as int + 1) % (count as int),
        r < count,
{
    ((act as u64 + 1) % (count as u64)) as u32
}

/// The cursor after the act is swapped: the new act starts at its first line,
/// undescribed, so nothing points into a script that no longer has it.
pub fn restart(line: &mut Line)
    ensures
        *final(line) == (Line { index: 0, revealed: 0, done: 0, len: 0, ..*old(line) }),
{
    line.index = 0;
    line.revealed = 0;
    line.done = 0;
    line.len = 0;
}

/// The `len == 0` handshake: while a line is undescribed the typewriter
/// does nothing, and advancing a complete line moves the cursor to the next
/// line with nothing revealed and `len == 0`, so the step after it waits for
/// that line's description.
pub proof fn law_handshake(line: Line, advance: bool, next: bool)
    requires
        line.index < u32::MAX,
    ensures
        line.len == 0 ==> step_of(line, advance) == (TypeStep::Waiting, line),
        line.len != 0 && line.done != 0 && advance ==> {
            &&& step_of(line, advance).0 == TypeStep::NextLine
            &&& step_of(line, advance).1.index == line.index + 1
            &&& step_of(line, advance).1.revealed == 0
            &&& step_of(line, advance).1.len == 0
            &&& step_of(step_of(line, advance).1, next).0 == TypeStep::Waiting
        },
{
}

/// A single press can never skip a line unread: while the line is not done,
/// a press leaves the cursor on it, and revealing keeps it there.
pub proof fn law_no_line_skipped_unread(line: Line, typed: u32)
    requires
        line.done == 0,
    ensures
        step_of(line, true).1 == line,
        step_of(line, true).0 != TypeStep::NextLine,
        revealed_to(step_of(line, true).1, typed).index == line.index,
{
}

/// Revealing as many characters as the line holds completes it, and the
/// reveal never runs past the line's end.
pub proof fn law_reveal_completes(line: Line, typed: u32)
    ensures
        revealed_to(line, typed).revealed <= line.len,
        typed >= line.len ==> revealed_to(line, typed).done == 1
            && revealed_to(line, typed).revealed == line.len,
        typed < line.len ==> revealed_to(line, typed).done == 0,
{
}

/// Describing answers the request: a line with text gets a length of at
/// least one, and describing touches nothing but `speaker` and `len`.
pub proof fn law_describe_answers(line: Line, says: Seq<SayModel>)
    requires
        encode_utf8(text_at(says, line.index)).len() <= usize::MAX,
    ensures
        described(line, says).index == line.index,
        described(line, says).revealed == line.revealed,
        described(line, says).done == line.done,
        described(line, says).len <= MAX_GLYPHS,
        text_at(says, line.index).len() > 0 ==> described(line, says).len > 0,
{
    broadcast use vstd::utf8::encode_utf8_valid_utf8;

    let t = text_at(says, line.index);
    if t.len() > 0 {
        lemma_encode_nonempty(t);
    }
}

proof fn lemma_fallback_len()
    ensures
        encode_utf8(fallback_text()).len() == FALLBACK_LEN,
{
    let t = fallback_text();
    assert(vstd::utf8::is_ascii_chars(t));
    vstd::utf8::is_ascii_chars_encode_utf8(t);
}

proof fn lemma_encode_nonempty(t: Seq<char>)
    requires
        t.len() > 0,
    ensures
        encode_utf8(t).len() > 0,
{
    reveal_with_fuel(encode_utf8, 2);
    assert(t =~= seq![t[0]] + t.drop_first());
}

/// Reconciling brings the roster to the size that should exist, and is
/// idempotent: once a roster matches, a second reconcile changes nothing.
pub proof fn law_reconcile_is_idempotent(have: usize, want: usize)
    ensures
        roster_plan(have, want).despawn_from <= roster_plan(have, want).despawn_to <= have,
        roster_plan(have, want).spawn_from <= roster_plan(have, want).spawn_to,
        roster_after(have as nat, roster_plan(have, want)) == want,
        roster_plan(want, want).despawn_from == roster_plan(want, want).despawn_to,
        roster_plan(want, want).spawn_from == roster_plan(want, want).spawn_to,
{
}

} // verus!
