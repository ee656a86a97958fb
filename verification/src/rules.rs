//! The integer rules of the bundled games' control layers: how the first
//! game's keys cycle its look, which theme its attract mode shows, and how
//! the second game decides between a
//! restart, a finished run and play, when the runner jumps, which parked
//! cactus comes back out, and how a cactus's hit flag is kept.
use vstd::prelude::*;

verus! {

/// Bit 12 of the pressed-keys mask: `m`.
pub const KEY_M: u32 = 0x1000;

/// Bit 6 of the pressed-keys mask: `g`.
pub const KEY_G: u32 = 0x40;

/// Bit 26: space.
pub const KEY_SPACE: u32 = 0x400_0000;

/// Bit 30: the up arrow.
pub const KEY_UP: u32 = 0x4000_0000;

/// Bit 22: `w`.
pub const KEY_W: u32 = 0x40_0000;

/// Bit 27: enter.
pub const KEY_ENTER: u32 = 0x800_0000;

/// How many models the first game can draw.
pub const MODELS: u32 = 3;

/// How many looks (render graphs) the first game has.
pub const LOOKS: u32 = 2;

/// The first game's look: which model, which render graph, how many bodies.
#[derive(Clone, Copy, PartialEq, Eq, Debug, Structural)]
pub struct Look {
    pub asset: u32,
    pub graph: u32,
    pub bodies: u32,
}

/// The look after one frame: `m` moves to the next model, `g` to the other
/// render graph, and a fourth body joins once the first second is over.
pub open spec fn next_look(look: Look, pressed: u32, past_first_second: bool) -> Look {
    Look {
        asset: if pressed & KEY_M != 0 {
            ((look.asset + 1) % (MODELS as int)) as u32
        } else {
            look.asset
        },
        graph: if pressed & KEY_G != 0 {
            ((look.graph + 1) % (LOOKS as int)) as u32
        } else {
            look.graph
        },
        bodies: if past_first_second {
            4
        } else {
            3
        },
    }
}

/// One frame of the first game's look.
pub fn look_step(look: &mut Look, pressed: u32, past_first_second: bool)
    requires
        old(look).asset < u32::MAX,
        old(look).graph < u32::MAX,
    ensures
        *final(look) == next_look(*old(look), pressed, past_first_second),
{
    if pressed & KEY_M != 0 {
        look.asset = (look.asset + 1) % MODELS;
    }
    if pressed & KEY_G != 0 {
        look.graph = (look.graph + 1) % LOOKS;
    }
    look.bodies = if past_first_second {
        4
    } else {
        3
    };
}

/// `m` cycles through the models: three presses bring a model back, and a
/// model in range stays in range.
pub proof fn law_models_cycle(look: Look, past: bool)
    requires
        look.asset < MODELS,
    ensures
        next_look(look, KEY_M, past).asset < MODELS,
        next_look(next_look(next_look(look, KEY_M, past), KEY_M, past), KEY_M, past).asset
            == look.asset,
        next_look(look, 0, past).asset == look.asset,
{
    assert(KEY_M & KEY_M != 0) by (bit_vector);
    assert(0u32 & KEY_M == 0) by (bit_vector);
    assert(0u32 & KEY_G == 0) by (bit_vector);
}

/// What the second game does on a frame.
#[derive(Clone, Copy, PartialEq, Eq, Debug, Structural)]
pub enum Phase {
    /// Put the runner, the cacti and the ground back, and start a run.
    Reset,
    /// The run is over; wait for enter.
    Over,
    /// Play the frame.
    Play,
}

/// The first frame starts a run, and so does enter once a run is over.
pub open spec fn phase_of(frame: u32, alive: u32, pressed: u32) -> Phase {
    if frame == 0 || (alive == 0 && pressed & KEY_ENTER != 0) {
        Phase::Reset
    } else if alive == 0 {
        Phase::Over
    } else {
        Phase::Play
    }
}

/// The second game's decision for a frame.
pub fn control_phase(frame: u32, alive: u32, pressed: u32) -> (r: Phase)
    ensures
        r == phase_of(frame, alive, pressed),
{
    if frame == 0 || (alive == 0 && pressed & KEY_ENTER != 0) {
        Phase::Reset
    } else if alive == 0 {
        Phase::Over
    } else {
        Phase::Play
    }
}

/// The runner jumps on space, up or `w`, and only from the ground.
pub fn wants_jump(pressed: u32, on_ground: u32) -> (r: bool)
    ensures
        r == (pressed & (KEY_SPACE | KEY_UP | KEY_W) != 0 && on_ground == 1),
{
    pressed & (KEY_SPACE | KEY_UP | KEY_W) != 0 && on_ground == 1
}

/// The rows of the cacti: 1 to 6 (row 0 is the runner, row 7 the ground).
pub const FIRST_HAZARD: usize = 1;

pub const LAST_HAZARD: usize = 6;

/// The cactus to hand back out: the first of rows 1..=6 that is not live,
/// or none when all six are.
pub fn release_slot(live: &[u32]) -> (r: Option<usize>)
    requires
        live@.len() > LAST_HAZARD,
    ensures
        r matches Some(i) ==> FIRST_HAZARD <= i <= LAST_HAZARD && live@[i as int] != 1 && forall|
            k: int,
        | FIRST_HAZARD <= k < i ==> live@[k] == 1,
        r is None ==> forall|k: int| FIRST_HAZARD <= k <= LAST_HAZARD ==> live@[k] == 1,
{
    let mut i: usize = FIRST_HAZARD;
    while i <= LAST_HAZARD
        invariant
            FIRST_HAZARD <= i <= LAST_HAZARD + 1,
            live@.len() > LAST_HAZARD,
            forall|k: int| FIRST_HAZARD <= k < i ==> live@[k] == 1,
        decreases LAST_HAZARD + 1 - i,
    {
        if live[i] != 1 {
            return Some(i);
        }
        i = i + 1;
    }
    None
}

/// The height class of the cactus in row `i`: its height is
/// `0.55 + 0.12 * class` world units.
pub fn height_class(i: u32) -> (r: u32)
    requires
        i <= LAST_HAZARD,
    ensures
        r == (i * 37) % 5,
        r < 5,
{
    (i * 37) % 5
}

/// A cactus waiting off screen.
pub const PARKED: u32 = 0;

/// A cactus in play, clear of the runner's column.
pub const IN_PLAY: u32 = 1;

/// A cactus in play, standing in the runner's column.
pub const ALIGNED: u32 = 2;

/// The hit flag of a cactus given whether it stands in the runner's column:
/// a parked cactus stays parked, one in play is aligned or not.
pub open spec fn flag_of(active: u32, in_column: bool) -> u32 {
    if active == PARKED {
        PARKED
    } else if in_column {
        ALIGNED
    } else {
        IN_PLAY
    }
}

/// The hit flag of a cactus, recomputed every frame.
pub fn collide_flag(active: u32, in_column: bool) -> (r: u32)
    ensures
        r == flag_of(active, in_column),
{
    if active == PARKED {
        return PARKED;
    }
    if in_column {
        ALIGNED
    } else {
        IN_PLAY
    }
}

/// The flag clears itself and cannot go stale: it depends on this frame's
/// column test alone, so a cactus that has scrolled clear is back to "in
/// play", a parked one is never flagged, and recomputing it with the same
/// test changes nothing.
pub proof fn law_flag_is_recomputed(active: u32, in_column: bool)
    ensures
        flag_of(PARKED, in_column) == PARKED,
        active != PARKED ==> flag_of(active, false) == IN_PLAY,
        flag_of(flag_of(active, in_column), in_column) == flag_of(active, in_column),
{
}

/// Rows whose body says "scenery" (2) do not fall.
pub fn falls(on_ground: u32) -> (r: bool)
    ensures
        r == (on_ground != 2),
{
    on_ground != 2
}

/// Only a live cactus scrolls.
pub fn scrolls(live: u32) -> (r: bool)
    ensures
        r == (live == 1),
{
    live == 1
}

/// How many themes attract mode cycles through: bunny, teapot, quad.
pub const THEMES: u64 = 3;

/// The theme attract mode shows during dwell period `period` (the clock
/// divided by the dwell time, rounded down).
pub open spec fn theme_of(period: u64) -> u64 {
    period % THEMES
}

/// Attract mode repoints the asset slot when the theme changes between the
/// previous frame's period and this one's, and on the first frame.
pub fn theme_change(period: u64, previous_period: u64, frame_index: u64) -> (r: Option<u64>)
    ensures
        r == (if theme_of(period) != theme_of(previous_period) || frame_index == 1 {
            Some(theme_of(period))
        } else {
            None
        }),
{
    let slot = period % THEMES;
    let prev = previous_period % THEMES;
    if slot != prev || frame_index == 1 {
        Some(slot)
    } else {
        None
    }
}

/// The asset name of theme `t`.
pub fn theme_name(t: u64) -> (r: &'static str)
    requires
        t < THEMES,
    ensures
        t == 0 ==> r@ == seq!['b', 'u', 'n', 'n', 'y'],
        t == 1 ==> r@ == seq!['t', 'e', 'a', 'p', 'o', 't'],
        t == 2 ==> r@ == seq!['q', 'u', 'a', 'd'],
{
    proof {
        reveal_strlit("bunny");
        reveal_strlit("teapot");
        reveal_strlit("quad");
    }
    if t == 0 {
        "bunny"
    } else if t == 1 {
        "teapot"
    } else {
        "quad"
    }
}

} // verus!
