use city_trade::city_ui::{
    cursor_over_visible_ui_node, nearest_city, road_list_text, select_city_on_click,
    ui_node_is_visible, update_city_details, CityCandidate, CityDetails, CityEntry, ClickInput,
    UiNode, Visibility,
};
use city_trade::{City, EntityId, Road};

const WINDOW_SIZE: (f32, f32) = (1280.0, 720.0);
const UI_PHYSICAL_CURSOR_POSITION: (f32, f32) = (920.0, 120.0);
const UI_NODE_SIZE: (f32, f32) = (280.0, 180.0);
const CITY_SIZE: f32 = 34.0;
const AMSTERDAM_POSITION: (f32, f32) = (-260.0, 80.0);

/// The key by which `f32::total_cmp` orders a float.
fn distance_key(distance: f32) -> i32 {
    let mut bits = distance.to_bits() as i32;
    bits ^= (((bits >> 31) as u32) >> 1) as i32;
    bits
}

/// Where a cursor (in logical pixels) lands in a 2D world whose camera sits
/// at the origin and fills the window.
fn world_position(cursor: (f32, f32), scale_factor: f32) -> (f32, f32) {
    let width = WINDOW_SIZE.0 / scale_factor;
    let height = WINDOW_SIZE.1 / scale_factor;
    (cursor.0 - width / 2.0, height / 2.0 - cursor.1)
}

fn candidate(entity: EntityId, city: (f32, f32), world: (f32, f32)) -> CityCandidate {
    let distance = ((city.0 - world.0).powi(2) + (city.1 - world.1).powi(2)).sqrt();
    CityCandidate {
        entity,
        in_range: distance <= CITY_SIZE / 2.0,
        distance_key: distance_key(distance),
    }
}

fn ui_node_at(center: (f32, f32), cursor: (f32, f32), visibility: Visibility, inherited: bool) -> UiNode {
    let contains_cursor = (cursor.0 - center.0).abs() <= UI_NODE_SIZE.0 / 2.0
        && (cursor.1 - center.1).abs() <= UI_NODE_SIZE.1 / 2.0;
    UiNode {
        visibility: Some(visibility),
        inherited_visibility: Some(inherited),
        contains_cursor,
    }
}

/// A left click at `cursor` (logical pixels) with one UI node under the
/// physical cursor, and Amsterdam on the map.
fn click_with_ui_node(
    cursor: (f32, f32),
    scale_factor: f32,
    amsterdam: EntityId,
    visibility: Visibility,
    inherited: bool,
) -> ClickInput {
    let physical = (cursor.0 * scale_factor, cursor.1 * scale_factor);
    let world = world_position(cursor, scale_factor);
    ClickInput {
        left_just_pressed: true,
        has_cursor: true,
        has_physical_cursor: true,
        ui_nodes: vec![ui_node_at(UI_PHYSICAL_CURSOR_POSITION, physical, visibility, inherited)],
        has_world_position: true,
        candidates: vec![candidate(amsterdam, AMSTERDAM_POSITION, world)],
    }
}

#[test]
fn click_on_visible_ui_node_keeps_selected_city() {
    let selected = EntityId(11);
    let click = click_with_ui_node(UI_PHYSICAL_CURSOR_POSITION, 1.0, selected, Visibility::Visible, true);

    assert_eq!(select_city_on_click(Some(selected), &click), Some(selected));
}

#[test]
fn click_on_hidden_ui_node_can_still_deselect_selected_city() {
    let selected = EntityId(11);
    let click = click_with_ui_node(UI_PHYSICAL_CURSOR_POSITION, 1.0, selected, Visibility::Hidden, false);

    assert_eq!(select_city_on_click(Some(selected), &click), None);
}

#[test]
fn click_on_visible_ui_node_uses_physical_cursor_position() {
    let selected = EntityId(11);
    let logical = (UI_PHYSICAL_CURSOR_POSITION.0 / 2.0, UI_PHYSICAL_CURSOR_POSITION.1 / 2.0);
    let click = click_with_ui_node(logical, 2.0, selected, Visibility::Visible, true);

    assert_eq!(select_city_on_click(Some(selected), &click), Some(selected));
}

#[test]
fn click_on_a_city_selects_it() {
    let amsterdam = EntityId(11);
    let cursor = (640.0 + AMSTERDAM_POSITION.0 + 3.0, 360.0 - AMSTERDAM_POSITION.1);
    let mut click = click_with_ui_node(cursor, 1.0, amsterdam, Visibility::Visible, true);
    assert_eq!(click.ui_nodes[0].contains_cursor, false);
    assert_eq!(select_city_on_click(None, &click), Some(amsterdam));
    click.left_just_pressed = false;
    assert_eq!(select_city_on_click(None, &click), None);
    click.left_just_pressed = true;
    click.has_cursor = false;
    assert_eq!(select_city_on_click(Some(EntityId(3)), &click), Some(EntityId(3)));
    click.has_cursor = true;
    click.has_physical_cursor = false;
    assert_eq!(select_city_on_click(Some(EntityId(3)), &click), Some(EntityId(3)));
    click.has_physical_cursor = true;
    click.has_world_position = false;
    assert_eq!(select_city_on_click(Some(EntityId(3)), &click), Some(EntityId(3)));
}

#[test]
fn nearest_city_in_range_wins_and_first_wins_a_tie() {
    let c = |id: u64, in_range: bool, key: i32| CityCandidate {
        entity: EntityId(id),
        in_range,
        distance_key: key,
    };
    assert_eq!(nearest_city(&vec![]), None);
    assert_eq!(nearest_city(&vec![c(1, false, 0)]), None);
    assert_eq!(
        nearest_city(&vec![c(1, true, 9), c(2, false, 1), c(3, true, 4), c(4, true, 4)]),
        Some(EntityId(3))
    );
    assert_eq!(nearest_city(&vec![c(1, true, -5), c(2, true, 4)]), Some(EntityId(1)));
    let near = candidate(EntityId(5), (0.0, 0.0), (1.0, 0.0));
    let nearer = candidate(EntityId(6), (0.5, 0.0), (1.0, 0.0));
    assert_eq!(nearest_city(&vec![near, nearer]), Some(EntityId(6)));
}

#[test]
fn ui_node_visibility_follows_its_settings() {
    assert!(!ui_node_is_visible(Some(Visibility::Hidden), Some(true)));
    assert!(ui_node_is_visible(Some(Visibility::Visible), Some(false)));
    assert!(ui_node_is_visible(Some(Visibility::Inherited), Some(true)));
    assert!(!ui_node_is_visible(Some(Visibility::Inherited), Some(false)));
    assert!(ui_node_is_visible(Some(Visibility::Inherited), None));
    assert!(!ui_node_is_visible(None, Some(false)));
    assert!(ui_node_is_visible(None, None));
}

#[test]
fn only_shown_nodes_under_the_cursor_block_it() {
    let node = |visibility: Visibility, contains_cursor: bool| UiNode {
        visibility: Some(visibility),
        inherited_visibility: Some(true),
        contains_cursor,
    };
    assert!(!cursor_over_visible_ui_node(&vec![]));
    assert!(!cursor_over_visible_ui_node(&vec![
        node(Visibility::Hidden, true),
        node(Visibility::Visible, false)
    ]));
    assert!(cursor_over_visible_ui_node(&vec![
        node(Visibility::Hidden, true),
        node(Visibility::Inherited, true)
    ]));
}

fn entry(id: u64, name: &str) -> CityEntry {
    CityEntry {
        entity: EntityId(id),
        city: City::new(name),
    }
}

#[test]
fn road_list_names_each_connected_city_in_road_order() {
    let cities = vec![entry(1, "Amsterdam"), entry(2, "Rotterdam"), entry(3, "Zwolle")];
    let roads = vec![
        Road::new(EntityId(1), EntityId(2)),
        Road::new(EntityId(3), EntityId(1)),
        Road::new(EntityId(2), EntityId(3)),
        Road::new(EntityId(1), EntityId(99)),
    ];
    assert_eq!(
        road_list_text(EntityId(1), &roads, &cities),
        "Roads\n- Rotterdam\n- Zwolle"
    );
    assert_eq!(
        road_list_text(EntityId(3), &roads, &cities),
        "Roads\n- Amsterdam\n- Rotterdam"
    );
}

#[test]
fn city_without_roads_says_so() {
    let cities = vec![entry(1, "Amsterdam"), entry(2, "Rotterdam")];
    let roads = vec![Road::new(EntityId(2), EntityId(5))];
    assert_eq!(road_list_text(EntityId(1), &roads, &cities), "Roads\nNo roads yet");
    assert_eq!(road_list_text(EntityId(1), &vec![], &cities), "Roads\nNo roads yet");
    let to_nowhere = vec![Road::new(EntityId(1), EntityId(7))];
    assert_eq!(road_list_text(EntityId(1), &to_nowhere, &cities), "Roads\nNo roads yet");
}

#[test]
fn city_panel_shows_the_selected_city_or_hides() {
    let cities = vec![entry(1, "Amsterdam"), entry(2, "Rotterdam")];
    let roads = vec![Road::new(EntityId(2), EntityId(1))];
    assert_eq!(update_city_details(None, &cities, &roads), CityDetails::Hidden);
    assert_eq!(
        update_city_details(Some(EntityId(4)), &cities, &roads),
        CityDetails::Hidden
    );
    assert_eq!(
        update_city_details(Some(EntityId(1)), &cities, &roads),
        CityDetails::Shown {
            name: "Amsterdam".to_string(),
            roads_text: "Roads\n- Rotterdam".to_string(),
        }
    );
}
