use vstd::prelude::*;

use crate::commodity::Extractor;
use crate::entity::EntityId;

verus! {

/// A city on the map: its name, how many people live there and the
/// extractors that were built in it, oldest first.
#[derive(Clone, Debug, PartialEq, Eq, Hash)]
pub struct City {
    pub name: String,
    pub population: u32,
    pub extractors: Vec<Extractor>,
}

/// The player, standing on one entity of the map.
#[derive(Clone, Copy, Debug, PartialEq, Eq, Structural, Hash)]
pub struct Player {
    pub position: EntityId,
}

impl City {
    /// A new city with the given name, one inhabitant and nothing built yet.
    pub fn new(name: &str) -> (city: City)
        ensures
            city.name@ == name@,
            city.population == 1,
            city.extractors@ == Seq::<Extractor>::empty(),
    {
        City { name: String::from_str(name), population: 1, extractors: Vec::new() }
    }

    /// Builds one more extractor in the city, after those already there.
    pub fn add_extractor(&mut self, extractor: Extractor)
        ensures
            final(self).name == old(self).name,
            final(self).population == old(self).population,
            final(self).extractors@ == old(self).extractors@.push(extractor),
    {
        self.extractors.push(extractor);
    }
}

} // verus!
