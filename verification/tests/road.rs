use bevy::prelude::World;
use city_trade::{EntityId, Road};

#[test]
fn road_connects_cities_in_both_directions() {
    let mut world = World::new();
    let amsterdam = EntityId(world.spawn_empty().id().to_bits());
    let rotterdam = EntityId(world.spawn_empty().id().to_bits());

    let road = Road::new(amsterdam, rotterdam);

    assert!(road.connects(amsterdam, rotterdam));
    assert!(road.connects(rotterdam, amsterdam));
}

#[test]
fn road_does_not_connect_other_pairs() {
    let a = EntityId(1);
    let b = EntityId(2);
    let c = EntityId(3);
    let road = Road::new(a, b);
    assert_eq!(road.city_a, a);
    assert_eq!(road.city_b, b);
    assert!(!road.connects(a, c));
    assert!(!road.connects(c, b));
    assert!(!road.connects(a, a));
    assert!(!road.connects(b, b));
}

#[test]
fn road_from_a_city_to_itself_connects_only_that_city() {
    let a = EntityId(7);
    let road = Road::new(a, a);
    assert!(road.connects(a, a));
    assert!(!road.connects(a, EntityId(8)));
}
