use vstd::prelude::*;

use crate::city::City;
use crate::commodity::{Commodity, Extractor};

verus! {

/// Zwolle as the map starts it: a new city with two grain farms of output 5.
pub fn zwolle_city() -> (city: City)
    ensures
        city.name@ == "Zwolle"@,
        city.population == 1,
        city.extractors@.len() == 2,
        forall|i: int|
            0 <= i < 2 ==> {
                &&& (#[trigger] city.extractors@[i]).name@ == "Farm"@
                &&& city.extractors@[i].commodity == Commodity::Grain
                &&& city.extractors@[i].output == 5
            },
{
    let mut city = City::new("Zwolle");
    city.add_extractor(Extractor::farm(5));
    city.add_extractor(Extractor::farm(5));
    city
}

} // verus!
