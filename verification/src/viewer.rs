//! The model viewer's key bindings: arrows turn the camera, `w`/`s`/`a`/`d`
//! move the teapot, `j`/`k` grow and shrink the bunny, and Esc (in the
//! terminal also `q`) quits. The viewer applies an action's step itself.
use crate::runner::TermKey;
use vstd::prelude::*;

verus! {

/// What a key press asks of the viewer.
#[derive(Clone, Copy, PartialEq, Eq, Debug, Structural)]
pub enum ViewerAction {
    Quit,
    /// Turn the camera left (yaw decreases).
    YawLeft,
    /// Turn the camera right (yaw increases).
    YawRight,
    /// Tilt the camera up, up to its limit.
    PitchUp,
    /// Tilt the camera down, down to its limit.
    PitchDown,
    /// Move the teapot away (towards -z).
    TeapotAway,
    /// Move the teapot nearer (towards +z).
    TeapotNear,
    /// Move the teapot left (towards -x).
    TeapotLeft,
    /// Move the teapot right (towards +x).
    TeapotRight,
    /// Scale the bunny up, up to its limit.
    BunnyGrow,
    /// Scale the bunny down, down to its limit.
    BunnyShrink,
}

/// The action bound to a key; `q_quits` says whether `q` quits as well as
/// Esc (it does in the terminal, not in a window).
pub open spec fn action_of(k: TermKey, q_quits: bool) -> Option<ViewerAction> {
    match k {
        TermKey::Esc => Some(ViewerAction::Quit),
        TermKey::Left => Some(ViewerAction::YawLeft),
        TermKey::Right => Some(ViewerAction::YawRight),
        TermKey::Up => Some(ViewerAction::PitchUp),
        TermKey::Down => Some(ViewerAction::PitchDown),
        TermKey::Char(c) => if c == 'q' && q_quits {
            Some(ViewerAction::Quit)
        } else if c == 'w' {
            Some(ViewerAction::TeapotAway)
        } else if c == 's' {
            Some(ViewerAction::TeapotNear)
        } else if c == 'a' {
            Some(ViewerAction::TeapotLeft)
        } else if c == 'd' {
            Some(ViewerAction::TeapotRight)
        } else if c == 'j' {
            Some(ViewerAction::BunnyGrow)
        } else if c == 'k' {
            Some(ViewerAction::BunnyShrink)
        } else {
            None
        },
        TermKey::Other => None,
    }
}

/// The viewer's action for a key press.
pub fn viewer_action(k: TermKey, q_quits: bool) -> (r: Option<ViewerAction>)
    ensures
        r == action_of(k, q_quits),
{
    match k {
        TermKey::Esc => Some(ViewerAction::Quit),
        TermKey::Left => Some(ViewerAction::YawLeft),
        TermKey::Right => Some(ViewerAction::YawRight),
        TermKey::Up => Some(ViewerAction::PitchUp),
        TermKey::Down => Some(ViewerAction::PitchDown),
        TermKey::Char(c) => if c == 'q' && q_quits {
            Some(ViewerAction::Quit)
        } else if c == 'w' {
            Some(ViewerAction::TeapotAway)
        } else if c == 's' {
            Some(ViewerAction::TeapotNear)
        } else if c == 'a' {
            Some(ViewerAction::TeapotLeft)
        } else if c == 'd' {
            Some(ViewerAction::TeapotRight)
        } else if c == 'j' {
            Some(ViewerAction::BunnyGrow)
        } else if c == 'k' {
            Some(ViewerAction::BunnyShrink)
        } else {
            None
        },
        TermKey::Other => None,
    }
}

} // verus!
