use city_trade::{Commodity, Extractor};

#[test]
fn farm_extracts_grain_with_output() {
    assert_eq!(
        Extractor::farm(5),
        Extractor {
            name: "Farm",
            commodity: Commodity::Grain,
            output: 5,
        }
    );
}

#[test]
fn grain_is_named_grain() {
    assert_eq!(Commodity::Grain.name(), "Grain");
}

#[test]
fn new_extractor_keeps_its_parts() {
    let mine = Extractor::new("Mine", Commodity::Grain, 0);
    assert_eq!(mine.name, "Mine");
    assert_eq!(mine.commodity, Commodity::Grain);
    assert_eq!(mine.output, 0);
    assert_eq!(Extractor::farm(u32::MAX).output, u32::MAX);
}
