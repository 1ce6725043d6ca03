use vstd::prelude::*;

verus! {

/// Identifies one thing on the map (a city, a road, the player's position).
///
/// It holds the 64 bits that the game engine packs an entity into, so two
/// ids are equal exactly when they name the same entity.
#[derive(Clone, Copy, Debug, PartialEq, Eq, Structural, Hash)]
pub struct EntityId(pub u64);

} // verus!
