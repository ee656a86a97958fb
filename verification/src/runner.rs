//! The terminal runner's decisions: which key a terminal key event is, what
//! the frame loop does next, which game comes after the current one, how big
//! the off-screen render is for a terminal of a given size, and which files
//! are game libraries.
use crate::input::{after_frame, after_key, after_take_quit, after_take_swipe, axes_of, InputAxes, Key, Keymap};
use vstd::prelude::*;
use vstd::string::StringSliceAdditionalSpecFns;

verus! {

broadcast use vstd::string::group_string_axioms;

/// A key as a terminal reports it, reduced to what the runner reads.
#[derive(Clone, Copy, PartialEq, Eq, Debug, Structural)]
pub enum TermKey {
    Char(char),
    Left,
    Right,
    Up,
    Down,
    Esc,
    /// Any other key.
    Other,
}

/// The key a terminal key stands for, if the runner binds it.
pub open spec fn bound_key(k: TermKey) -> Option<Key> {
    match k {
        TermKey::Char(c) => if c == 'a' {
            Some(Key::A)
        } else if c == 'd' {
            Some(Key::D)
        } else if c == 'w' {
            Some(Key::W)
        } else if c == 's' {
            Some(Key::S)
        } else if c == 'j' {
            Some(Key::J)
        } else if c == 'k' {
            Some(Key::K)
        } else if c == 'n' {
            Some(Key::N)
        } else if c == 'q' {
            Some(Key::Q)
        } else {
            None
        },
        TermKey::Left => Some(Key::Left),
        TermKey::Right => Some(Key::Right),
        TermKey::Up => Some(Key::Up),
        TermKey::Down => Some(Key::Down),
        TermKey::Esc => Some(Key::Esc),
        TermKey::Other => None,
    }
}

/// The key a terminal key stands for.
pub fn key_of(k: TermKey) -> (r: Option<Key>)
    ensures
        r == bound_key(k),
{
    match k {
        TermKey::Char(c) => if c == 'a' {
            Some(Key::A)
        } else if c == 'd' {
            Some(Key::D)
        } else if c == 'w' {
            Some(Key::W)
        } else if c == 's' {
            Some(Key::S)
        } else if c == 'j' {
            Some(Key::J)
        } else if c == 'k' {
            Some(Key::K)
        } else if c == 'n' {
            Some(Key::N)
        } else if c == 'q' {
            Some(Key::Q)
        } else {
            None
        },
        TermKey::Left => Some(Key::Left),
        TermKey::Right => Some(Key::Right),
        TermKey::Up => Some(Key::Up),
        TermKey::Down => Some(Key::Down),
        TermKey::Esc => Some(Key::Esc),
        TermKey::Other => None,
    }
}

/// Feed a terminal key to the keymap. Raw mode delivers presses only, so a
/// bound key is tapped: it counts for the next frame and then clears.
pub fn map_key(km: &mut Keymap, k: TermKey)
    ensures
        final(km)@ == match bound_key(k) {
            Some(key) => after_key(old(km)@, key, true),
            None => old(km)@,
        },
{
    match key_of(k) {
        Some(key) => km.tap(key),
        None => {},
    }
}

/// What the frame loop does after reading the keys.
#[derive(Clone, Copy, PartialEq, Eq, Debug, Structural)]
pub enum Flow {
    /// Leave the runner.
    Quit,
    /// Unload this game and load the next.
    NextGame,
    /// Tick the game with this frame of input.
    Play(InputAxes),
}

/// Decide the frame: a quit request wins, then a next-game request, and only
/// otherwise is a frame of input taken (which spends the taps).
pub fn next_flow(km: &mut Keymap) -> (r: Flow)
    ensures
        old(km)@.quit_pending ==> r == Flow::Quit && final(km)@ == after_take_quit(old(km)@),
        !old(km)@.quit_pending && old(km)@.swipe_pending ==> r == Flow::NextGame && final(km)@
            == after_take_swipe(after_take_quit(old(km)@)),
        !old(km)@.quit_pending && !old(km)@.swipe_pending ==> r == Flow::Play(axes_of(old(km)@))
            && final(km)@ == after_frame(after_take_swipe(after_take_quit(old(km)@))),
{
    if km.take_quit() {
        return Flow::Quit;
    }
    if km.take_swipe_next() {
        return Flow::NextGame;
    }
    Flow::Play(km.frame())
}

/// The game after game `idx` of `count`, wrapping to the first.
pub fn next_game(idx: usize, count: usize) -> (r: usize)
    requires
        idx < count,
    ensures
        r == (idx + 1) % (count as int),
        r < count,
{
    if idx + 1 == count {
        assert((idx + 1) % (count as int) == 0) by (nonlinear_arith)
            requires
                idx + 1 == count,
                count > 0,
        ;
        0
    } else {
        assert((idx + 1) % (count as int) == idx + 1) by (nonlinear_arith)
            requires
                idx + 1 < count,
        ;
        idx + 1
    }
}

/// Switching games goes round the list: after `k` switches from game `idx`
/// the runner is on game `(idx + k) % count`, so every game comes up in
/// turn and `count` switches bring the first one back.
pub proof fn law_games_cycle(idx: int, count: int, k: int)
    requires
        0 <= idx < count,
        0 <= k,
    ensures
        ((idx + k) % count + 1) % count == (idx + k + 1) % count,
        (idx + count) % count == idx,
{
    vstd::arithmetic::div_mod::lemma_add_mod_noop(idx + k, 1, count);
    if count > 1 {
        vstd::arithmetic::div_mod::lemma_small_mod(1, count as nat);
    } else {
        assert(((idx + k) % count + 1) % count == (idx + k + 1) % count) by (nonlinear_arith)
            requires
                count == 1,
        ;
    }
    vstd::arithmetic::div_mod::lemma_mod_add_multiples_vanish(idx, count);
    vstd::arithmetic::div_mod::lemma_small_mod(idx as nat, count as nat);
}

/// The render size for a terminal of `cols` x `rows` cells: two pixels
/// across and four down per cell, at most 320 x 180.
pub open spec fn render_dims(cols: int, rows: int) -> (u32, u32) {
    (
        (if cols * 2 < 320 { cols * 2 } else { 320 }) as u32,
        (if rows * 4 < 180 { rows * 4 } else { 180 }) as u32,
    )
}

/// The runner's render size for its terminal.
pub fn render_size(cols: u16, rows: u16) -> (r: (u32, u32))
    ensures
        r == render_dims(cols as int, rows as int),
{
    let w = cols as u32 * 2;
    let h = rows as u32 * 4;
    (if w < 320 { w } else { 320 }, if h < 180 { h } else { 180 })
}

/// The viewer's render size: the terminal counts as at least 20 x 20 cells.
pub fn viewer_render_size(cols: u16, rows: u16) -> (r: (u32, u32))
    ensures
        r == render_dims(
            if cols < 20 { 20 } else { cols as int },
            if rows < 20 { 20 } else { rows as int },
        ),
{
    let c: u16 = if cols < 20 { 20 } else { cols };
    let r: u16 = if rows < 20 { 20 } else { rows };
    render_size(c, r)
}

/// The UTF-8 bytes of `libgame`.
pub open spec fn game_prefix() -> Seq<u8> {
    seq![108u8, 105u8, 98u8, 103u8, 97u8, 109u8, 101u8]
}

/// The UTF-8 bytes of `.so`.
pub open spec fn so_suffix() -> Seq<u8> {
    seq![46u8, 115u8, 111u8]
}

/// A game library's file name starts with `libgame` and has the extension
/// `so`.
pub open spec fn is_game_file(name: Seq<u8>) -> bool {
    &&& name.len() >= 7
    &&& name.take(7) == game_prefix()
    &&& name.skip(name.len() - 3) == so_suffix()
}

/// Whether a file name is that of a game library.
pub fn is_game_library(name: &str) -> (r: bool)
    ensures
        r == is_game_file(name.spec_bytes()),
{
    let b = name.as_bytes();
    let n = b.len();
    if n < 7 {
        return false;
    }
    let pre = b[0] == 108u8 && b[1] == 105u8 && b[2] == 98u8 && b[3] == 103u8 && b[4] == 97u8
        && b[5] == 109u8 && b[6] == 101u8;
    let suf = b[n - 3] == 46u8 && b[n - 2] == 115u8 && b[n - 1] == 111u8;
    assert(pre == (b@.take(7) =~= game_prefix()));
    assert(suf == (b@.skip(n - 3) =~= so_suffix()));
    pre && suf
}

} // verus!
