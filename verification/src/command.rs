//! Requests that the systems queue during a frame.

use crate::vector::Vec3;
use vstd::prelude::*;

verus! {

/// A change to the set of entities, carried out when the frame ends.
#[derive(Clone, Copy, Debug, PartialEq, Eq, Structural)]
pub enum Command {
    /// Make a target. `speed` is in thousandths of a unit per second,
    /// `lifetime` in nanoseconds.
    SpawnTarget { position: Vec3, speed: u32, health: i32, lifetime: u64 },
    /// Make a bullet that flies along `direction`.
    SpawnBullet { position: Vec3, direction: Vec3, speed: u32, lifetime: u64 },
    /// Remove the entity with this identifier, if it is still there.
    Despawn { id: u64 },
}

impl Command {
    /// Whether what the command would make fits the world: a place inside
    /// the simulated cube and, for a bullet, a direction of unit length.
    pub open spec fn valid(self) -> bool {
        match self {
            Command::SpawnTarget { position, .. } => position.in_bounds(),
            Command::SpawnBullet { position, direction, .. } => position.in_bounds()
                && direction.is_unit(),
            Command::Despawn { .. } => true,
        }
    }
}

/// Whether every command of a queue is valid.
pub open spec fn all_valid(commands: Seq<Command>) -> bool {
    forall|i: int| 0 <= i < commands.len() ==> (#[trigger] commands[i]).valid()
}

} // verus!
