use vstd::prelude::*;

use crate::entity::EntityId;

verus! {

/// A road between two cities. A road has no direction: it joins `city_a`
/// and `city_b` both ways.
#[derive(Clone, Copy, Debug, PartialEq, Eq, Structural, Hash)]
pub struct Road {
    pub city_a: EntityId,
    pub city_b: EntityId,
}

impl Road {
    /// The road joins `a` and `b`, in either order.
    pub open spec fn joins(self, a: EntityId, b: EntityId) -> bool {
        (self.city_a == a && self.city_b == b) || (self.city_a == b && self.city_b == a)
    }

    /// A road from `city_a` to `city_b`.
    pub fn new(city_a: EntityId, city_b: EntityId) -> (road: Road)
        ensures
            road.city_a == city_a,
            road.city_b == city_b,
    {
        Road { city_a, city_b }
    }

    /// Whether this road joins the two cities, whichever way round they are given.
    pub fn connects(self, city_a: EntityId, city_b: EntityId) -> (joined: bool)
        ensures
            joined == self.joins(city_a, city_b),
            joined == ((self.city_a == city_a && self.city_b == city_b) || (self.city_a == city_b
                && self.city_b == city_a)),
    {
        (self.city_a == city_a && self.city_b == city_b) || (self.city_a == city_b
            && self.city_b == city_a)
    }
}

/// A road connects two cities in both directions: asking with the cities
/// swapped gives the same answer.
pub proof fn lemma_connects_symmetric(road: Road, a: EntityId, b: EntityId)
    ensures
        road.joins(a, b) == road.joins(b, a),
{
}

/// A road built from `a` to `b` connects `a` to `b` and `b` to `a`, and no
/// other pair of cities.
pub proof fn lemma_new_road_connects_its_ends(a: EntityId, b: EntityId, x: EntityId, y: EntityId)
    ensures
        (Road { city_a: a, city_b: b }).joins(a, b),
        (Road { city_a: a, city_b: b }).joins(b, a),
        (Road { city_a: a, city_b: b }).joins(x, y) ==> (x == a && y == b) || (x == b && y == a),
{
}

} // verus!
