//! Marker components the demo viewer puts on scene entities: which model an
//! entity is, and whether the player steers it.
use vstd::prelude::*;

verus! {

/// The entity is the bunny.
#[derive(Clone, Copy, PartialEq, Eq, Debug, Default, Structural)]
pub struct BunnyTag;

/// The entity is the teapot.
#[derive(Clone, Copy, PartialEq, Eq, Debug, Default, Structural)]
pub struct TeapotTag;

/// The player's keys move the entity.
#[derive(Clone, Copy, PartialEq, Eq, Debug, Default, Structural)]
pub struct PlayerControlled;

} // verus!
