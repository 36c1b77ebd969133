use vstd::prelude::*;

use crate::PlayerId;

verus! {

/// Marks a target indicator entity.
#[derive(Debug, Clone, Copy)]
pub struct Target;

/// Marks a unit entity.
#[derive(Debug, Clone, Copy)]
pub struct Unit;

/// Marks an entity controlled by this participant.
#[derive(Debug, Clone, Copy)]
pub struct PlayerControlled;

/// Marks an entity controlled by the given fellow participant.
#[derive(Debug, Clone, Copy, PartialEq, Eq, Structural)]
pub struct OtherPlayerControlled(pub PlayerId);

/// Marks the camera entity of the given fellow participant.
#[derive(Debug, Clone, Copy, PartialEq, Eq, Structural)]
pub struct OtherPlayerCamera(pub PlayerId);

/// Marks a hostile entity.
#[derive(Debug, Clone, Copy)]
pub struct Enemy;

/// Marks a neutral entity.
#[derive(Debug, Clone, Copy)]
pub struct Neutral;

/// Marks a friendly entity.
#[derive(Debug, Clone, Copy)]
pub struct Friendly;

} // verus!
