//! Keyboard state: which keys are held, which were tapped for one frame, and
//! the two one-shot requests (next game, quit).
use std::collections::HashSet;
use vstd::prelude::*;
use vstd::std_specs::hash::group_hash_axioms;

verus! {

broadcast use group_hash_axioms;

#[derive(Clone, Copy, PartialEq, Eq, Hash, Debug, Structural)]
pub enum Key {
    A,
    D,
    W,
    S,
    Left,
    Right,
    Up,
    Down,
    J,
    K,
    N,
    Esc,
    Q,
}

/// The number a key is stored under.
pub open spec fn key_code(k: Key) -> u8 {
    match k {
        Key::A => 0,
        Key::D => 1,
        Key::W => 2,
        Key::S => 3,
        Key::Left => 4,
        Key::Right => 5,
        Key::Up => 6,
        Key::Down => 7,
        Key::J => 8,
        Key::K => 9,
        Key::N => 10,
        Key::Esc => 11,
        Key::Q => 12,
    }
}

fn code_of(k: Key) -> (c: u8)
    ensures
        c == key_code(k),
{
    match k {
        Key::A => 0,
        Key::D => 1,
        Key::W => 2,
        Key::S => 3,
        Key::Left => 4,
        Key::Right => 5,
        Key::Up => 6,
        Key::Down => 7,
        Key::J => 8,
        Key::K => 9,
        Key::N => 10,
        Key::Esc => 11,
        Key::Q => 12,
    }
}

/// Keys that are requests rather than axes: `N` asks for the next game,
/// `Esc` and `Q` ask to quit. They never enter the held or tapped sets.
pub open spec fn is_request(k: Key) -> bool {
    k == Key::N || k == Key::Esc || k == Key::Q
}

/// The axes of one frame of input. Each is -1, 0 or +1: positive key minus
/// negative key.
#[derive(Clone, Copy, PartialEq, Eq, Debug, Structural)]
pub struct InputAxes {
    /// `a` / `d`
    pub move_x: i32,
    /// `w` / `s`
    pub move_z: i32,
    /// left / right arrow
    pub rot_yaw: i32,
    /// up / down arrow: up gives -1, down +1
    pub rot_pitch: i32,
    /// `k` / `j`
    pub scale_delta: i32,
}

/// The keyboard state. Keys are stored by their `key_code`; the held and
/// tapped sets only ever hold axis keys (the type invariant `well_formed`).
pub struct Keymap {
    /// Pressed and not yet released: meaningful in window mode.
    held: HashSet<u8>,
    /// One-shot impulses: terminal mode never sends key-up.
    tapped: HashSet<u8>,
    swipe_pending: bool,
    quit_pending: bool,
}

/// The keyboard state as a value.
pub struct KeymapModel {
    pub held: Set<u8>,
    pub tapped: Set<u8>,
    pub swipe_pending: bool,
    pub quit_pending: bool,
}

impl View for Keymap {
    type V = KeymapModel;

    closed spec fn view(&self) -> KeymapModel {
        KeymapModel {
            held: self.held@,
            tapped: self.tapped@,
            swipe_pending: self.swipe_pending,
            quit_pending: self.quit_pending,
        }
    }
}

/// Whether `k` counts as down this frame: held, or tapped since the last frame.
pub open spec fn active(m: KeymapModel, k: Key) -> bool {
    m.held.contains(key_code(k)) || m.tapped.contains(key_code(k))
}

/// One axis: +1 for `pos`, -1 for `neg`, 0 for both or neither.
pub open spec fn axis(m: KeymapModel, neg: Key, pos: Key) -> i32 {
    ((if active(m, pos) { 1int } else { 0int }) - (if active(m, neg) { 1int } else { 0int })) as i32
}

/// The frame a keyboard state resolves to.
pub open spec fn axes_of(m: KeymapModel) -> InputAxes {
    InputAxes {
        move_x: axis(m, Key::A, Key::D),
        move_z: axis(m, Key::W, Key::S),
        rot_yaw: axis(m, Key::Left, Key::Right),
        rot_pitch: axis(m, Key::Up, Key::Down),
        scale_delta: axis(m, Key::K, Key::J),
    }
}

/// What a press (or a tap, with `into_tapped`) does to the state.
pub open spec fn after_key(m: KeymapModel, k: Key, into_tapped: bool) -> KeymapModel {
    if k == Key::N {
        KeymapModel { swipe_pending: true, ..m }
    } else if k == Key::Esc || k == Key::Q {
        KeymapModel { quit_pending: true, ..m }
    } else if into_tapped {
        KeymapModel { tapped: m.tapped.insert(key_code(k)), ..m }
    } else {
        KeymapModel { held: m.held.insert(key_code(k)), ..m }
    }
}

/// The state after a release: the key is no longer held.
pub open spec fn after_release(m: KeymapModel, k: Key) -> KeymapModel {
    KeymapModel { held: m.held.remove(key_code(k)), ..m }
}

/// The state after a frame has been read: the taps are spent.
pub open spec fn after_frame(m: KeymapModel) -> KeymapModel {
    KeymapModel { tapped: Set::<u8>::empty(), ..m }
}

/// The state after the next-game request has been taken.
pub open spec fn after_take_swipe(m: KeymapModel) -> KeymapModel {
    KeymapModel { swipe_pending: false, ..m }
}

/// The state after the quit request has been taken.
pub open spec fn after_take_quit(m: KeymapModel) -> KeymapModel {
    KeymapModel { quit_pending: false, ..m }
}

/// The sets hold only codes of axis keys.
pub open spec fn codes_ok(m: KeymapModel) -> bool {
    &&& m.held.finite()
    &&& m.tapped.finite()
    &&& forall|c: u8| #[trigger] m.held.contains(c) ==> c < 10
    &&& forall|c: u8| #[trigger] m.tapped.contains(c) ==> c < 10
}

impl Keymap {
    /// The sets are finite and hold only axis-key codes.
    #[verifier::type_invariant]
    closed spec fn well_formed(self) -> bool {
        codes_ok(self@)
    }

    pub fn new() -> (r: Self)
        ensures
            r@.held == Set::<u8>::empty(),
            r@.tapped == Set::<u8>::empty(),
            !r@.swipe_pending,
            !r@.quit_pending,
    {
        Keymap {
            held: HashSet::new(),
            tapped: HashSet::new(),
            swipe_pending: false,
            quit_pending: false,
        }
    }

    /// A key went down. `N` and `Esc`/`Q` raise their requests; any other key
    /// is held until released.
    pub fn on_press(&mut self, k: Key)
        ensures
            final(self)@ == after_key(old(self)@, k, false),
    {
        proof {
            use_type_invariant(&*self);
        }
        let c = code_of(k);
        match k {
            Key::N => self.swipe_pending = true,
            Key::Esc | Key::Q => self.quit_pending = true,
            _ => {
                let mut held = HashSet::new();
                std::mem::swap(&mut held, &mut self.held);
                held.insert(c);
                self.held = held;
            },
        }
    }

    /// A key went up; it is no longer held.
    pub fn on_release(&mut self, k: Key)
        ensures
            final(self)@ == after_release(old(self)@, k),
    {
        proof {
            use_type_invariant(&*self);
        }
        let c = code_of(k);
        let mut held = HashSet::new();
        std::mem::swap(&mut held, &mut self.held);
        held.remove(&c);
        self.held = held;
    }

    /// One-shot impulse: contributes to exactly the next `frame()` call, then
    /// clears. For environments without key-up events (terminal raw mode).
    pub fn tap(&mut self, k: Key)
        ensures
            final(self)@ == after_key(old(self)@, k, true),
    {
        proof {
            use_type_invariant(&*self);
        }
        let c = code_of(k);
        match k {
            Key::N => self.swipe_pending = true,
            Key::Esc | Key::Q => self.quit_pending = true,
            _ => {
                let mut tapped = HashSet::new();
                std::mem::swap(&mut tapped, &mut self.tapped);
                tapped.insert(c);
                self.tapped = tapped;
            },
        }
    }

    fn is_active(&self, k: Key) -> (b: bool)
        ensures
            b == active(self@, k),
    {
        proof {
            use_type_invariant(&*self);
        }
        let c = code_of(k);
        self.held.contains(&c) || self.tapped.contains(&c)
    }

    fn axis_of(&self, neg: Key, pos: Key) -> (r: i32)
        ensures
            r == axis(self@, neg, pos),
    {
        let p: i32 = if self.is_active(pos) {
            1
        } else {
            0
        };
        let n: i32 = if self.is_active(neg) {
            1
        } else {
            0
        };
        p - n
    }

    /// Resolve the active keys (held and tapped) into one frame of axes, and
    /// drain the tapped keys.
    pub fn frame(&mut self) -> (r: InputAxes)
        ensures
            r == axes_of(old(self)@),
            final(self)@ == after_frame(old(self)@),
    {
        proof {
            use_type_invariant(&*self);
        }
        let f = InputAxes {
            move_x: self.axis_of(Key::A, Key::D),
            move_z: self.axis_of(Key::W, Key::S),
            rot_yaw: self.axis_of(Key::Left, Key::Right),
            rot_pitch: self.axis_of(Key::Up, Key::Down),
            scale_delta: self.axis_of(Key::K, Key::J),
        };
        self.tapped = HashSet::new();
        f
    }

    /// True once when `N` has been pressed since the last call.
    pub fn take_swipe_next(&mut self) -> (r: bool)
        ensures
            r == old(self)@.swipe_pending,
            final(self)@ == after_take_swipe(old(self)@),
    {
        proof {
            use_type_invariant(&*self);
        }
        let r = self.swipe_pending;
        self.swipe_pending = false;
        r
    }

    /// True once when `Esc` or `Q` has been pressed since the last call.
    pub fn take_quit(&mut self) -> (r: bool)
        ensures
            r == old(self)@.quit_pending,
            final(self)@ == after_take_quit(old(self)@),
    {
        proof {
            use_type_invariant(&*self);
        }
        let r = self.quit_pending;
        self.quit_pending = false;
        r
    }
}

impl Default for Keymap {
    fn default() -> (r: Self)
        ensures
            r@.held == Set::<u8>::empty(),
            r@.tapped == Set::<u8>::empty(),
            !r@.swipe_pending,
            !r@.quit_pending,
    {
        Self::new()
    }
}

/// `N` is one-shot: pressed or tapped, the next-game request is taken exactly
/// once, and a second take finds nothing.
pub proof fn law_next_game_is_one_shot(m: KeymapModel, via_tap: bool)
    ensures
        after_key(m, Key::N, via_tap).swipe_pending,
        !after_take_swipe(after_key(m, Key::N, via_tap)).swipe_pending,
{
}

/// `Esc` and `Q` are one-shot in the same way: the quit request is taken once.
pub proof fn law_quit_is_one_shot(m: KeymapModel, k: Key, via_tap: bool)
    requires
        k == Key::Esc || k == Key::Q,
    ensures
        after_key(m, k, via_tap).quit_pending,
        !after_take_quit(after_key(m, k, via_tap)).quit_pending,
{
}

/// A request key never becomes an axis: pressing or tapping `N`, `Esc` or `Q`
/// leaves the held and tapped keys, and so every axis, as they were.
pub proof fn law_requests_do_not_move_axes(m: KeymapModel, k: Key, via_tap: bool)
    requires
        is_request(k),
    ensures
        after_key(m, k, via_tap).held == m.held,
        after_key(m, k, via_tap).tapped == m.tapped,
        axes_of(after_key(m, k, via_tap)) == axes_of(m),
{
}

/// A tap counts for exactly the next frame: the key is active in the frame
/// that follows it, and, unless it is also held, not in the one after.
pub proof fn law_tap_lasts_one_frame(m: KeymapModel, k: Key)
    requires
        !is_request(k),
        !m.held.contains(key_code(k)),
    ensures
        active(after_key(m, k, true), k),
        !active(after_frame(after_key(m, k, true)), k),
        !after_frame(after_key(m, k, true)).held.contains(key_code(k)),
{
}

/// A held key stays active across frames until it is released.
pub proof fn law_hold_lasts_until_release(m: KeymapModel, k: Key)
    requires
        !is_request(k),
    ensures
        active(after_key(m, k, false), k),
        active(after_frame(after_key(m, k, false)), k),
        !active(after_release(after_frame(after_key(m, k, false)), k), k),
{
}

/// Every axis is -1, 0 or +1; it is zero when neither or both of its keys are
/// active, and follows the one key that is.
pub proof fn law_axis_values(m: KeymapModel, neg: Key, pos: Key)
    ensures
        -1 <= axis(m, neg, pos) <= 1,
        active(m, pos) == active(m, neg) ==> axis(m, neg, pos) == 0,
        active(m, pos) && !active(m, neg) ==> axis(m, neg, pos) == 1,
        !active(m, pos) && active(m, neg) ==> axis(m, neg, pos) == -1,
{
}

} // verus!
