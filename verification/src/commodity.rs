use vstd::prelude::*;

verus! {

/// A good that a city can produce.
#[derive(Clone, Copy, Debug, PartialEq, Eq, Structural, Hash)]
pub enum Commodity {
    Grain,
}

impl Commodity {
    /// The display name of a commodity.
    pub open spec fn label(self) -> Seq<char> {
        match self {
            Commodity::Grain => "Grain"@,
        }
    }

    /// Returns the display name of the commodity.
    pub fn name(self) -> (name: &'static str)
        ensures
            name@ == self.label(),
            self == Commodity::Grain ==> name@ == "Grain"@,
    {
        match self {
            Commodity::Grain => "Grain",
        }
    }
}

/// A building that produces `output` units of one commodity.
#[derive(Clone, Copy, Debug, PartialEq, Eq, Hash)]
pub struct Extractor {
    pub name: &'static str,
    pub commodity: Commodity,
    pub output: u32,
}

impl Extractor {
    /// Builds an extractor from its three parts, unchanged.
    pub fn new(name: &'static str, commodity: Commodity, output: u32) -> (extractor: Extractor)
        ensures
            extractor.name == name,
            extractor.commodity == commodity,
            extractor.output == output,
    {
        Extractor { name, commodity, output }
    }

    /// A farm: an extractor named "Farm" that produces grain.
    pub fn farm(output: u32) -> (farm: Extractor)
        ensures
            farm.name@ == "Farm"@,
            farm.commodity == Commodity::Grain,
            farm.output == output,
    {
        Self::new("Farm", Commodity::Grain, output)
    }
}

} // verus!
