use vstd::prelude::*;

use crate::city::City;
use crate::entity::EntityId;
use crate::road::Road;

verus! {

/// Whether a UI node is drawn: always, never, or as its parent is.
#[derive(Clone, Copy, Debug, PartialEq, Eq, Hash)]
pub enum Visibility {
    Inherited,
    Hidden,
    Visible,
}

/// A UI node as a click sees it: its own visibility setting (if it has one),
/// the visibility it inherited from its parents (if computed), and whether it
/// covers the point under the cursor.
#[derive(Clone, Copy, Debug, PartialEq, Eq, Hash)]
pub struct UiNode {
    pub visibility: Option<Visibility>,
    pub inherited_visibility: Option<bool>,
    pub contains_cursor: bool,
}

/// A node is shown when it is set visible, hidden when it is set hidden, and
/// otherwise (set to inherit, or with no setting) follows the visibility it
/// inherited, counting as shown when none was computed.
pub open spec fn node_shown(visibility: Option<Visibility>, inherited: Option<bool>) -> bool {
    match visibility {
        Some(Visibility::Hidden) => false,
        Some(Visibility::Visible) => true,
        _ => match inherited {
            Some(shown) => shown,
            None => true,
        },
    }
}

/// The node is shown and lies under the cursor, so it takes the click.
pub open spec fn blocks_cursor(node: UiNode) -> bool {
    node_shown(node.visibility, node.inherited_visibility) && node.contains_cursor
}

/// Some shown node lies under the cursor.
pub open spec fn cursor_over_ui(nodes: Seq<UiNode>) -> bool {
    exists|i: int| 0 <= i < nodes.len() && #[trigger] blocks_cursor(nodes[i])
}

/// Whether a UI node with these settings is drawn.
pub fn ui_node_is_visible(visibility: Option<Visibility>, inherited_visibility: Option<bool>) -> (visible: bool)
    ensures
        visible == node_shown(visibility, inherited_visibility),
        visible == (visibility == Some(Visibility::Visible) || (visibility != Some(Visibility::Hidden)
            && inherited_visibility != Some(false))),
{
    match visibility {
        Some(Visibility::Hidden) => false,
        Some(Visibility::Visible) => true,
        Some(Visibility::Inherited) | None => match inherited_visibility {
            Some(shown) => shown,
            None => true,
        },
    }
}

/// Whether the cursor is over a UI node that is drawn.
pub fn cursor_over_visible_ui_node(ui_nodes: &Vec<UiNode>) -> (over: bool)
    ensures
        over == cursor_over_ui(ui_nodes@),
        over == exists|i: int|
            0 <= i < ui_nodes@.len() && (#[trigger] ui_nodes@[i]).contains_cursor && (
            ui_nodes@[i].visibility == Some(Visibility::Visible) || (ui_nodes@[i].visibility
                != Some(Visibility::Hidden) && ui_nodes@[i].inherited_visibility != Some(false))),
{
    proof {
        lemma_cursor_over_ui_iff_shown_node_under_cursor(ui_nodes@);
    }
    let mut i: usize = 0;
    while i < ui_nodes.len()
        invariant
            i <= ui_nodes.len(),
            forall|j: int| 0 <= j < i ==> !#[trigger] blocks_cursor(ui_nodes@[j]),
        decreases ui_nodes.len() - i,
    {
        let node = ui_nodes[i];
        if ui_node_is_visible(node.visibility, node.inherited_visibility) && node.contains_cursor {
            assert(blocks_cursor(ui_nodes@[i as int]));
            return true;
        }
        i += 1;
    }
    false
}


/// A city that a click might select. `in_range` says whether the click
/// landed within the city's marker; `distance_key` orders cities by their
/// distance to the click (a smaller key is nearer; the key is the distance's
/// total-order key, so equal keys mean equal distances).
#[derive(Clone, Copy, Debug, PartialEq, Eq, Hash)]
pub struct CityCandidate {
    pub entity: EntityId,
    pub in_range: bool,
    pub distance_key: i32,
}

/// Candidate `i` is in range, no candidate in range is nearer, and every
/// candidate in range before it is strictly farther: it is the first of the
/// nearest.
pub open spec fn is_first_nearest(c: Seq<CityCandidate>, i: int) -> bool {
    &&& 0 <= i < c.len()
    &&& c[i].in_range
    &&& forall|j: int|
        0 <= j < c.len() && (#[trigger] c[j]).in_range ==> c[i].distance_key <= c[j].distance_key
    &&& forall|j: int| 0 <= j < i && (#[trigger] c[j]).in_range ==> c[i].distance_key < c[j].distance_key
}

/// The entity of the first nearest candidate in range, or `None` when no
/// candidate is in range.
pub open spec fn nearest_in_range(c: Seq<CityCandidate>) -> Option<EntityId> {
    if exists|i: int| is_first_nearest(c, i) {
        Some(c[choose|i: int| is_first_nearest(c, i)].entity)
    } else {
        None
    }
}

/// At most one candidate is the first of the nearest.
pub proof fn lemma_first_nearest_unique(c: Seq<CityCandidate>, i: int, k: int)
    requires
        is_first_nearest(c, i),
        is_first_nearest(c, k),
    ensures
        i == k,
{
    if i < k {
        assert(c[i].in_range);
    } else if k < i {
        assert(c[k].in_range);
    }
}

/// The first nearest candidate among the first `n`.
spec fn is_first_nearest_among(c: Seq<CityCandidate>, n: int, i: int) -> bool {
    &&& 0 <= i < n <= c.len()
    &&& c[i].in_range
    &&& forall|j: int| 0 <= j < n && (#[trigger] c[j]).in_range ==> c[i].distance_key <= c[j].distance_key
    &&& forall|j: int| 0 <= j < i && (#[trigger] c[j]).in_range ==> c[i].distance_key < c[j].distance_key
}

/// The city a click picks among the candidates: the nearest one in range,
/// the first of them on a tie; `None` when none is in range.
pub fn nearest_city(candidates: &Vec<CityCandidate>) -> (nearest: Option<EntityId>)
    ensures
        nearest == nearest_in_range(candidates@),
        nearest is None <==> forall|j: int|
            0 <= j < candidates@.len() ==> !(#[trigger] candidates@[j]).in_range,
        nearest matches Some(e) ==> exists|i: int|
            {
                &&& 0 <= i < candidates@.len()
                &&& (#[trigger] candidates@[i]).in_range
                &&& candidates@[i].entity == e
                &&& forall|j: int|
                    0 <= j < candidates@.len() && (#[trigger] candidates@[j]).in_range
                        ==> candidates@[i].distance_key <= candidates@[j].distance_key
                &&& forall|j: int|
                    0 <= j < i && (#[trigger] candidates@[j]).in_range
                        ==> candidates@[i].distance_key < candidates@[j].distance_key
            },
{
    proof {
        lemma_nearest_is_a_minimum_in_range(candidates@);
    }
    let mut best: Option<usize> = None;
    let mut i: usize = 0;
    while i < candidates.len()
        invariant
            i <= candidates.len(),
            match best {
                None => forall|j: int| 0 <= j < i ==> !(#[trigger] candidates@[j]).in_range,
                Some(b) => is_first_nearest_among(candidates@, i as int, b as int),
            },
        decreases candidates.len() - i,
    {
        let c = candidates[i];
        if c.in_range {
            match best {
                None => {
                    best = Some(i);
                },
                Some(b) => {
                    if c.distance_key < candidates[b].distance_key {
                        best = Some(i);
                    }
                },
            }
        }
        i += 1;
    }
    match best {
        None => {
            assert(!exists|k: int| is_first_nearest(candidates@, k));
            None
        },
        Some(b) => {
            let ghost c = candidates@;
            assert(is_first_nearest(c, b as int));
            proof {
                let k = choose|k: int| is_first_nearest(c, k);
                lemma_first_nearest_unique(c, k, b as int);
            }
            Some(candidates[b].entity)
        },
    }
}

/// What the game knows when the left mouse button may have been clicked:
/// whether it was just pressed, whether the window has a cursor position
/// (logical and physical), the UI nodes as seen from the physical cursor,
/// whether the cursor maps to a point of the world, and the cities as seen
/// from that point.
#[derive(Debug, PartialEq, Eq)]
pub struct ClickInput {
    pub left_just_pressed: bool,
    pub has_cursor: bool,
    pub has_physical_cursor: bool,
    pub ui_nodes: Vec<UiNode>,
    pub has_world_position: bool,
    pub candidates: Vec<CityCandidate>,
}

/// The click reaches the map: the button was just pressed, the cursor is in
/// the window and maps to the world, and no shown UI node is under it.
pub open spec fn click_reaches_map(click: ClickInput) -> bool {
    &&& click.left_just_pressed
    &&& click.has_cursor
    &&& click.has_physical_cursor
    &&& !cursor_over_ui(click.ui_nodes@)
    &&& click.has_world_position
}

/// The selected city after a click: unchanged unless the click reaches the
/// map, and then the nearest city in range, or none.
pub open spec fn selection_after_click(selected: Option<EntityId>, click: ClickInput) -> Option<EntityId> {
    if click_reaches_map(click) {
        nearest_in_range(click.candidates@)
    } else {
        selected
    }
}

/// Decides which city is selected after a possible click.
pub fn select_city_on_click(selected: Option<EntityId>, click: &ClickInput) -> (next: Option<EntityId>)
    ensures
        next == selection_after_click(selected, *click),
        (!click.left_just_pressed || !click.has_cursor || !click.has_physical_cursor
            || !click.has_world_position || exists|i: int|
            0 <= i < click.ui_nodes@.len() && (#[trigger] click.ui_nodes@[i]).contains_cursor && (
            click.ui_nodes@[i].visibility == Some(Visibility::Visible) || (
            click.ui_nodes@[i].visibility != Some(Visibility::Hidden)
                && click.ui_nodes@[i].inherited_visibility != Some(false)))) ==> next == selected,
        (click.left_just_pressed && click.has_cursor && click.has_physical_cursor
            && click.has_world_position && forall|i: int|
            0 <= i < click.ui_nodes@.len() ==> !((#[trigger] click.ui_nodes@[i]).contains_cursor && (
            click.ui_nodes@[i].visibility == Some(Visibility::Visible) || (
            click.ui_nodes@[i].visibility != Some(Visibility::Hidden)
                && click.ui_nodes@[i].inherited_visibility != Some(false))))) ==> {
            &&& (next is None <==> forall|j: int|
                0 <= j < click.candidates@.len() ==> !(#[trigger] click.candidates@[j]).in_range)
            &&& (next matches Some(e) ==> exists|i: int|
                {
                    &&& 0 <= i < click.candidates@.len()
                    &&& (#[trigger] click.candidates@[i]).in_range
                    &&& click.candidates@[i].entity == e
                    &&& forall|j: int|
                        0 <= j < click.candidates@.len() && (#[trigger] click.candidates@[j]).in_range
                            ==> click.candidates@[i].distance_key <= click.candidates@[j].distance_key
                    &&& forall|j: int|
                        0 <= j < i && (#[trigger] click.candidates@[j]).in_range
                            ==> click.candidates@[i].distance_key < click.candidates@[j].distance_key
                })
        },
{
    proof {
        lemma_click_decision(selected, *click);
    }
    if !click.left_just_pressed {
        return selected;
    }
    if !click.has_cursor {
        return selected;
    }
    if !click.has_physical_cursor {
        return selected;
    }
    if cursor_over_visible_ui_node(&click.ui_nodes) {
        return selected;
    }
    if !click.has_world_position {
        return selected;
    }
    nearest_city(&click.candidates)
}

/// A city together with the entity that carries it on the map.
#[derive(Debug, PartialEq, Eq)]
pub struct CityEntry {
    pub entity: EntityId,
    pub city: City,
}

/// Entry `i` is the first one carried by `entity`.
pub open spec fn is_first_entry(cities: Seq<CityEntry>, entity: EntityId, i: int) -> bool {
    &&& 0 <= i < cities.len()
    &&& cities[i].entity == entity
    &&& forall|j: int| 0 <= j < i ==> (#[trigger] cities[j]).entity != entity
}

/// The city carried by `entity`, if some entry has it.
pub open spec fn city_of(cities: Seq<CityEntry>, entity: EntityId) -> Option<City> {
    if exists|i: int| is_first_entry(cities, entity, i) {
        Some(cities[choose|i: int| is_first_entry(cities, entity, i)].city)
    } else {
        None
    }
}

/// At most one entry is the first carried by an entity.
pub proof fn lemma_first_entry_unique(cities: Seq<CityEntry>, entity: EntityId, i: int, k: int)
    requires
        is_first_entry(cities, entity, i),
        is_first_entry(cities, entity, k),
    ensures
        i == k,
{
    if k < i {
        assert(cities[k].entity == entity);
    } else if i < k {
        assert(cities[i].entity == entity);
    }
}

/// Finds the entry of the city carried by `entity`.
fn find_city(cities: &Vec<CityEntry>, entity: EntityId) -> (found: Option<usize>)
    ensures
        match found {
            Some(k) => is_first_entry(cities@, entity, k as int) && city_of(cities@, entity) == Some(
                cities@[k as int].city,
            ),
            None => city_of(cities@, entity) is None,
        },
{
    let mut i: usize = 0;
    while i < cities.len()
        invariant
            i <= cities.len(),
            forall|j: int| 0 <= j < i ==> (#[trigger] cities@[j]).entity != entity,
        decreases cities.len() - i,
    {
        if cities[i].entity == entity {
            proof {
                let c = cities@;
                assert(is_first_entry(c, entity, i as int));
                let k = choose|k: int| is_first_entry(c, entity, k);
                lemma_first_entry_unique(c, entity, k, i as int);
            }
            return Some(i);
        }
        i += 1;
    }
    assert(!exists|k: int| is_first_entry(cities@, entity, k));
    None
}

/// The city at the other end of a road from `selected`, if the road
/// touches it (a road that starts at `selected` leads to its second city).
pub open spec fn other_end(road: Road, selected: EntityId) -> Option<EntityId> {
    if road.city_a == selected {
        Some(road.city_b)
    } else if road.city_b == selected {
        Some(road.city_a)
    } else {
        None
    }
}

/// The names of the cities that roads lead to from `selected`, one per road
/// in the order of the roads, leaving out roads whose other end is not a city.
pub open spec fn connected_city_names(
    selected: EntityId,
    roads: Seq<Road>,
    cities: Seq<CityEntry>,
) -> Seq<Seq<char>>
    decreases roads.len(),
{
    if roads.len() == 0 {
        Seq::empty()
    } else {
        let earlier = connected_city_names(selected, roads.drop_last(), cities);
        match other_end(roads.last(), selected) {
            Some(other) => match city_of(cities, other) {
                Some(city) => earlier.push(city.name@),
                None => earlier,
            },
            None => earlier,
        }
    }
}

/// One line "- name" per name, each after a line break.
pub open spec fn road_lines(names: Seq<Seq<char>>) -> Seq<char>
    decreases names.len(),
{
    if names.len() == 0 {
        Seq::empty()
    } else {
        road_lines(names.drop_last()) + "\n- "@ + names.last()
    }
}

/// The roads section of the city panel: a heading, then one line per
/// connected city, or a note that there are no roads yet.
pub open spec fn road_list(names: Seq<Seq<char>>) -> Seq<char> {
    if names.len() == 0 {
        "Roads"@ + "\nNo roads yet"@
    } else {
        "Roads"@ + road_lines(names)
    }
}

/// The text that lists the cities reached by road from the selected city.
pub fn road_list_text(selected_city: EntityId, roads: &Vec<Road>, cities: &Vec<CityEntry>) -> (text: String)
    ensures
        text@ == road_list(connected_city_names(selected_city, roads@, cities@)),
        connected_city_names(selected_city, roads@, cities@).len() == roads@.filter(
            road_to_city(selected_city, cities@),
        ).len(),
{
    proof {
        lemma_road_list_counts_connected_cities(selected_city, roads@, cities@);
    }
    let mut text = String::from_str("Roads");
    let mut has_roads = false;
    let mut i: usize = 0;
    while i < roads.len()
        invariant
            i <= roads.len(),
            text@ == "Roads"@ + road_lines(
                connected_city_names(selected_city, roads@.take(i as int), cities@),
            ),
            has_roads == (connected_city_names(selected_city, roads@.take(i as int), cities@).len()
                > 0),
        decreases roads.len() - i,
    {
        let road = roads[i];
        let ghost earlier = connected_city_names(selected_city, roads@.take(i as int), cities@);
        proof {
            assert(roads@.take(i + 1).drop_last() =~= roads@.take(i as int));
            assert(roads@.take(i + 1).last() == road);
        }
        let other = if road.city_a == selected_city {
            Some(road.city_b)
        } else if road.city_b == selected_city {
            Some(road.city_a)
        } else {
            None
        };
        match other {
            Some(o) => match find_city(cities, o) {
                Some(k) => {
                    let ghost before = text@;
                    has_roads = true;
                    text.append("\n- ");
                    text.append(cities[k].city.name.as_str());
                    proof {
                        let name = cities@[k as int].city.name@;
                        let now = earlier.push(name);
                        assert(now.drop_last() =~= earlier);
                        assert(text@ =~= "Roads"@ + road_lines(now));
                    }
                },
                None => {},
            },
            None => {},
        }
        i += 1;
    }
    proof {
        assert(roads@.take(roads.len() as int) =~= roads@);
    }
    if !has_roads {
        text.append("\nNo roads yet");
    }
    text
}

/// What the city panel shows.
#[derive(Debug, PartialEq, Eq)]
pub enum CityDetails {
    /// The panel is hidden; its texts are left as they were.
    Hidden,
    /// The panel is shown with the city's name and its roads.
    Shown { name: String, roads_text: String },
}

/// The panel's name and roads text for the selection, or `None` when the
/// panel is hidden: nothing is selected, or the selection is not a city.
pub open spec fn shown_details(
    selected: Option<EntityId>,
    cities: Seq<CityEntry>,
    roads: Seq<Road>,
) -> Option<(Seq<char>, Seq<char>)> {
    match selected {
        None => None,
        Some(entity) => match city_of(cities, entity) {
            None => None,
            Some(city) => Some(
                (city.name@, road_list(connected_city_names(entity, roads, cities))),
            ),
        },
    }
}

/// Decides what the city panel shows for the selected city.
pub fn update_city_details(
    selected_city: Option<EntityId>,
    cities: &Vec<CityEntry>,
    roads: &Vec<Road>,
) -> (details: CityDetails)
    ensures
        match details {
            CityDetails::Hidden => shown_details(selected_city, cities@, roads@) is None,
            CityDetails::Shown { name, roads_text } => shown_details(
                selected_city,
                cities@,
                roads@,
            ) == Some((name@, roads_text@)),
        },
        selected_city is None ==> details is Hidden,
        selected_city matches Some(selected) ==> {
            &&& (forall|j: int| 0 <= j < cities@.len() ==> (#[trigger] cities@[j]).entity != selected)
                ==> details is Hidden
            &&& forall|k: int|
                0 <= k < cities@.len() && cities@[k].entity == selected && (forall|j: int|
                    0 <= j < k ==> (#[trigger] cities@[j]).entity != selected) ==> (
                details matches CityDetails::Shown { name, roads_text } && name@
                    == cities@[k].city.name@ && roads_text@ == road_list(
                    connected_city_names(selected, roads@, cities@),
                ))
        },
{
    proof {
        if let Some(sel) = selected_city {
            lemma_panel_shows_the_selected_city(sel, cities@, roads@, 0);
            assert forall|k: int|
                0 <= k < cities@.len() && cities@[k].entity == sel && (forall|j: int|
                    0 <= j < k ==> (#[trigger] cities@[j]).entity != sel) implies shown_details(
                Some(sel),
                cities@,
                roads@,
            ) == Some((cities@[k].city.name@, road_list(connected_city_names(sel, roads@, cities@)))) by {
                lemma_panel_shows_the_selected_city(sel, cities@, roads@, k);
            }
        }
    }
    let selected = match selected_city {
        Some(entity) => entity,
        None => {
            return CityDetails::Hidden;
        },
    };
    let k = match find_city(cities, selected) {
        Some(k) => k,
        None => {
            return CityDetails::Hidden;
        },
    };
    let name = cities[k].city.name.clone();
    let roads_text = road_list_text(selected, roads, cities);
    CityDetails::Shown { name, roads_text }
}

/// A click that lands on a shown UI node never changes the selected city.
pub proof fn lemma_click_on_visible_ui_keeps_selection(selected: Option<EntityId>, click: ClickInput)
    requires
        cursor_over_ui(click.ui_nodes@),
    ensures
        selection_after_click(selected, click) == selected,
{
}

/// Without a fresh press of the left button the selection stays as it was.
pub proof fn lemma_unpressed_button_keeps_selection(selected: Option<EntityId>, click: ClickInput)
    requires
        !click.left_just_pressed,
    ensures
        selection_after_click(selected, click) == selected,
{
}

/// Hidden UI nodes never take a click, wherever they are.
pub proof fn lemma_hidden_nodes_never_block(nodes: Seq<UiNode>)
    requires
        forall|i: int| 0 <= i < nodes.len() ==> (#[trigger] nodes[i]).visibility == Some(
            Visibility::Hidden,
        ),
    ensures
        !cursor_over_ui(nodes),
{
    assert forall|i: int| 0 <= i < nodes.len() implies !#[trigger] blocks_cursor(nodes[i]) by {
        assert(nodes[i].visibility == Some(Visibility::Hidden));
    }
}

/// Among the first `n` candidates, if one is in range, a first nearest exists.
proof fn lemma_first_nearest_among_exists(c: Seq<CityCandidate>, n: int)
    requires
        0 <= n <= c.len(),
        exists|j: int| 0 <= j < n && (#[trigger] c[j]).in_range,
    ensures
        exists|i: int| #[trigger] is_first_nearest_among(c, n, i),
    decreases n,
{
    if exists|j: int| 0 <= j < n - 1 && (#[trigger] c[j]).in_range {
        lemma_first_nearest_among_exists(c, n - 1);
        let i = choose|i: int| #[trigger] is_first_nearest_among(c, n - 1, i);
        if c[n - 1].in_range && c[n - 1].distance_key < c[i].distance_key {
            assert(is_first_nearest_among(c, n, n - 1));
        } else {
            assert(is_first_nearest_among(c, n, i));
        }
    } else {
        assert(is_first_nearest_among(c, n, n - 1));
    }
}

/// A click that reaches the map selects the nearest city within range (the
/// first of them on a tie), and deselects when no city is within range.
pub proof fn lemma_click_on_map_selects_nearest(selected: Option<EntityId>, click: ClickInput)
    requires
        click_reaches_map(click),
    ensures
        selection_after_click(selected, click) is None <==> forall|j: int|
            0 <= j < click.candidates@.len() ==> !(#[trigger] click.candidates@[j]).in_range,
        selection_after_click(selected, click) matches Some(e) ==> exists|i: int|
            is_first_nearest(click.candidates@, i) && click.candidates@[i].entity == e,
{
    let c = click.candidates@;
    if exists|j: int| 0 <= j < c.len() && (#[trigger] c[j]).in_range {
        lemma_first_nearest_among_exists(c, c.len() as int);
        let i = choose|i: int| #[trigger] is_first_nearest_among(c, c.len() as int, i);
        assert(is_first_nearest(c, i));
    }
}

/// The names listed for a city that no road touches are none at all.
proof fn lemma_untouched_city_has_no_names(selected: EntityId, roads: Seq<Road>, cities: Seq<CityEntry>)
    requires
        forall|i: int| 0 <= i < roads.len() ==> other_end(#[trigger] roads[i], selected) is None,
    ensures
        connected_city_names(selected, roads, cities).len() == 0,
    decreases roads.len(),
{
    if roads.len() > 0 {
        let rest = roads.drop_last();
        assert forall|i: int| 0 <= i < rest.len() implies other_end(#[trigger] rest[i], selected) is None by {
            assert(rest[i] == roads[i]);
        }
        lemma_untouched_city_has_no_names(selected, rest, cities);
        assert(other_end(roads[roads.len() - 1], selected) is None);
    }
}

/// A city that no road touches shows the roads heading and "No roads yet".
pub proof fn lemma_city_without_roads(selected: EntityId, roads: Seq<Road>, cities: Seq<CityEntry>)
    requires
        forall|i: int| 0 <= i < roads.len() ==> !(#[trigger] roads[i]).joins(selected, roads[i].city_a)
            && !roads[i].joins(selected, roads[i].city_b),
    ensures
        road_list(connected_city_names(selected, roads, cities)) == "Roads"@ + "\nNo roads yet"@,
{
    assert forall|i: int| 0 <= i < roads.len() implies other_end(#[trigger] roads[i], selected) is None by {
        assert(!roads[i].joins(selected, roads[i].city_a));
        assert(!roads[i].joins(selected, roads[i].city_b));
    }
    lemma_untouched_city_has_no_names(selected, roads, cities);
}

/// The panel lists a city for a road only when that road connects it to the
/// selected city.
pub proof fn lemma_listed_end_is_connected(road: Road, selected: EntityId)
    ensures
        other_end(road, selected) matches Some(other) ==> road.joins(selected, other),
        other_end(road, selected) is None <==> !road.joins(selected, road.city_a) && !road.joins(
            selected,
            road.city_b,
        ),
{
}

/// A UI node is shown exactly when it is set visible, or it is not set hidden
/// and its parents are not known to be hidden.
pub proof fn lemma_node_shown_by_settings(visibility: Option<Visibility>, inherited: Option<bool>)
    ensures
        node_shown(visibility, inherited) == (visibility == Some(Visibility::Visible) || (visibility
            != Some(Visibility::Hidden) && inherited != Some(false))),
{
}

/// The cursor is over the UI exactly when some node, anywhere in the list,
/// contains the cursor and is shown (set visible, or not set hidden with
/// parents not known to be hidden).
pub proof fn lemma_cursor_over_ui_iff_shown_node_under_cursor(nodes: Seq<UiNode>)
    ensures
        cursor_over_ui(nodes) <==> exists|i: int|
            0 <= i < nodes.len() && (#[trigger] nodes[i]).contains_cursor && (nodes[i].visibility
                == Some(Visibility::Visible) || (nodes[i].visibility != Some(Visibility::Hidden)
                && nodes[i].inherited_visibility != Some(false))),
{
    if cursor_over_ui(nodes) {
        let i = choose|i: int| 0 <= i < nodes.len() && #[trigger] blocks_cursor(nodes[i]);
        lemma_node_shown_by_settings(nodes[i].visibility, nodes[i].inherited_visibility);
        assert(nodes[i].contains_cursor);
    }
    if exists|i: int|
        0 <= i < nodes.len() && (#[trigger] nodes[i]).contains_cursor && (nodes[i].visibility
            == Some(Visibility::Visible) || (nodes[i].visibility != Some(Visibility::Hidden)
            && nodes[i].inherited_visibility != Some(false))) {
        let i = choose|i: int|
            0 <= i < nodes.len() && (#[trigger] nodes[i]).contains_cursor && (nodes[i].visibility
                == Some(Visibility::Visible) || (nodes[i].visibility != Some(Visibility::Hidden)
                && nodes[i].inherited_visibility != Some(false)));
        lemma_node_shown_by_settings(nodes[i].visibility, nodes[i].inherited_visibility);
        assert(blocks_cursor(nodes[i]));
    }
}

/// The city a click picks is in range, no candidate in range anywhere in the
/// list is nearer, and every candidate in range before it is farther; there
/// is none exactly when no candidate is in range.
pub proof fn lemma_nearest_is_a_minimum_in_range(c: Seq<CityCandidate>)
    ensures
        nearest_in_range(c) is None <==> forall|j: int| 0 <= j < c.len() ==> !(#[trigger] c[j]).in_range,
        nearest_in_range(c) matches Some(e) ==> exists|i: int|
            {
                &&& 0 <= i < c.len()
                &&& (#[trigger] c[i]).in_range
                &&& c[i].entity == e
                &&& forall|j: int|
                    0 <= j < c.len() && (#[trigger] c[j]).in_range ==> c[i].distance_key
                        <= c[j].distance_key
                &&& forall|j: int|
                    0 <= j < i && (#[trigger] c[j]).in_range ==> c[i].distance_key < c[j].distance_key
            },
{
    if exists|j: int| 0 <= j < c.len() && (#[trigger] c[j]).in_range {
        lemma_first_nearest_among_exists(c, c.len() as int);
        let i = choose|i: int| #[trigger] is_first_nearest_among(c, c.len() as int, i);
        assert(is_first_nearest(c, i));
        let k = choose|k: int| is_first_nearest(c, k);
        lemma_first_nearest_unique(c, k, i);
        assert(c[i].in_range);
    } else {
        assert(!exists|k: int| is_first_nearest(c, k));
    }
}

/// What a click does, in terms of its inputs: a click that is not a fresh
/// left press, has no cursor or world point, or lands on a shown UI node
/// keeps the selection; any other click selects the nearest city in range
/// (the first on a tie), or deselects when no city is in range.
pub proof fn lemma_click_decision(selected: Option<EntityId>, click: ClickInput)
    ensures
        (!click.left_just_pressed || !click.has_cursor || !click.has_physical_cursor
            || !click.has_world_position || exists|i: int|
            0 <= i < click.ui_nodes@.len() && (#[trigger] click.ui_nodes@[i]).contains_cursor && (
            click.ui_nodes@[i].visibility == Some(Visibility::Visible) || (
            click.ui_nodes@[i].visibility != Some(Visibility::Hidden)
                && click.ui_nodes@[i].inherited_visibility != Some(false)))) ==> selection_after_click(
            selected,
            click,
        ) == selected,
        (click.left_just_pressed && click.has_cursor && click.has_physical_cursor
            && click.has_world_position && forall|i: int|
            0 <= i < click.ui_nodes@.len() ==> !((#[trigger] click.ui_nodes@[i]).contains_cursor && (
            click.ui_nodes@[i].visibility == Some(Visibility::Visible) || (
            click.ui_nodes@[i].visibility != Some(Visibility::Hidden)
                && click.ui_nodes@[i].inherited_visibility != Some(false))))) ==> {
            &&& (selection_after_click(selected, click) is None <==> forall|j: int|
                0 <= j < click.candidates@.len() ==> !(#[trigger] click.candidates@[j]).in_range)
            &&& (selection_after_click(selected, click) matches Some(e) ==> exists|i: int|
                {
                    &&& 0 <= i < click.candidates@.len()
                    &&& (#[trigger] click.candidates@[i]).in_range
                    &&& click.candidates@[i].entity == e
                    &&& forall|j: int|
                        0 <= j < click.candidates@.len() && (#[trigger] click.candidates@[j]).in_range
                            ==> click.candidates@[i].distance_key <= click.candidates@[j].distance_key
                    &&& forall|j: int|
                        0 <= j < i && (#[trigger] click.candidates@[j]).in_range
                            ==> click.candidates@[i].distance_key < click.candidates@[j].distance_key
                })
        },
{
    lemma_cursor_over_ui_iff_shown_node_under_cursor(click.ui_nodes@);
    lemma_nearest_is_a_minimum_in_range(click.candidates@);
}

/// Among the first `n` entries, if one carries `entity`, a first one does.
proof fn lemma_first_entry_exists(cities: Seq<CityEntry>, entity: EntityId, n: int)
    requires
        0 <= n <= cities.len(),
        exists|k: int| 0 <= k < n && (#[trigger] cities[k]).entity == entity,
    ensures
        exists|i: int| #[trigger] is_first_entry(cities, entity, i),
    decreases n,
{
    if exists|k: int| 0 <= k < n - 1 && (#[trigger] cities[k]).entity == entity {
        lemma_first_entry_exists(cities, entity, n - 1);
    } else {
        assert(is_first_entry(cities, entity, n - 1));
    }
}

/// The city of an entity is the one in the first entry that carries it.
pub proof fn lemma_city_of_first_entry(cities: Seq<CityEntry>, entity: EntityId, k: int)
    requires
        0 <= k < cities.len(),
        cities[k].entity == entity,
        forall|j: int| 0 <= j < k ==> (#[trigger] cities[j]).entity != entity,
    ensures
        city_of(cities, entity) == Some(cities[k].city),
{
    assert(is_first_entry(cities, entity, k));
    let i = choose|i: int| is_first_entry(cities, entity, i);
    lemma_first_entry_unique(cities, entity, i, k);
}

/// An entity has a city exactly when some entry carries it.
pub proof fn lemma_city_of_some_iff_carried(cities: Seq<CityEntry>, entity: EntityId)
    ensures
        city_of(cities, entity) is Some <==> exists|k: int|
            0 <= k < cities.len() && (#[trigger] cities[k]).entity == entity,
{
    if exists|k: int| 0 <= k < cities.len() && (#[trigger] cities[k]).entity == entity {
        lemma_first_entry_exists(cities, entity, cities.len() as int);
    } else {
        assert(!exists|i: int| is_first_entry(cities, entity, i));
    }
}

/// When the panel is shown for a selected entity, it names the city in the
/// first entry that carries that entity, and lists that city's roads; it is
/// hidden when nothing is selected or no entry carries the selection.
pub proof fn lemma_panel_shows_the_selected_city(
    selected: EntityId,
    cities: Seq<CityEntry>,
    roads: Seq<Road>,
    k: int,
)
    ensures
        shown_details(None, cities, roads) is None,
        (forall|j: int| 0 <= j < cities.len() ==> (#[trigger] cities[j]).entity != selected)
            ==> shown_details(Some(selected), cities, roads) is None,
        (0 <= k < cities.len() && cities[k].entity == selected && forall|j: int|
            0 <= j < k ==> (#[trigger] cities[j]).entity != selected) ==> shown_details(
            Some(selected),
            cities,
            roads,
        ) == Some((cities[k].city.name@, road_list(connected_city_names(selected, roads, cities)))),
{
    lemma_city_of_some_iff_carried(cities, selected);
    if 0 <= k < cities.len() && cities[k].entity == selected && forall|j: int|
        0 <= j < k ==> (#[trigger] cities[j]).entity != selected {
        lemma_city_of_first_entry(cities, selected, k);
    }
}

/// A road touches the selected city and leads to an entity that some entry
/// carries as a city.
pub open spec fn road_to_city(selected: EntityId, cities: Seq<CityEntry>) -> spec_fn(Road) -> bool {
    |r: Road|
        (r.city_a == selected && exists|k: int|
            0 <= k < cities.len() && (#[trigger] cities[k]).entity == r.city_b) || (r.city_a
            != selected && r.city_b == selected && exists|k: int|
            0 <= k < cities.len() && (#[trigger] cities[k]).entity == r.city_a)
}

/// The roads text lists one city per road that touches the selected city and
/// leads to a city, however many there are.
pub proof fn lemma_road_list_counts_connected_cities(
    selected: EntityId,
    roads: Seq<Road>,
    cities: Seq<CityEntry>,
)
    ensures
        connected_city_names(selected, roads, cities).len() == roads.filter(
            road_to_city(selected, cities),
        ).len(),
    decreases roads.len(),
{
    if roads.len() > 0 {
        let rest = roads.drop_last();
        let last = roads.last();
        lemma_road_list_counts_connected_cities(selected, rest, cities);
        assert(rest.push(last) =~= roads);
        rest.lemma_filter_push(last, road_to_city(selected, cities));
        lemma_city_of_some_iff_carried(cities, last.city_a);
        lemma_city_of_some_iff_carried(cities, last.city_b);
    }
}

/// One more road from the selected city to a city adds one line "- name" to
/// the roads text, naming the city in the first entry that carries the
/// road's other end.
pub proof fn lemma_road_to_city_adds_its_line(
    selected: EntityId,
    roads: Seq<Road>,
    cities: Seq<CityEntry>,
    road: Road,
    k: int,
)
    requires
        0 <= k < cities.len(),
        (road.city_a == selected && cities[k].entity == road.city_b && forall|j: int|
            0 <= j < k ==> (#[trigger] cities[j]).entity != road.city_b) || (road.city_a != selected
            && road.city_b == selected && cities[k].entity == road.city_a && forall|j: int|
            0 <= j < k ==> (#[trigger] cities[j]).entity != road.city_a),
    ensures
        road_list(connected_city_names(selected, roads.push(road), cities)) == (if connected_city_names(
            selected,
            roads,
            cities,
        ).len() == 0 {
            "Roads"@
        } else {
            road_list(connected_city_names(selected, roads, cities))
        }) + "\n- "@ + cities[k].city.name@,
{
    let longer = roads.push(road);
    assert(longer.drop_last() =~= roads);
    let other = if road.city_a == selected {
        road.city_b
    } else {
        road.city_a
    };
    lemma_city_of_first_entry(cities, other, k);
    let names = connected_city_names(selected, roads, cities);
    let now = names.push(cities[k].city.name@);
    assert(connected_city_names(selected, longer, cities) == now);
    assert(now.drop_last() =~= names);
    if names.len() == 0 {
        assert(road_lines(names) =~= Seq::<char>::empty());
    }
    assert(road_list(now) =~= (if names.len() == 0 {
        "Roads"@
    } else {
        road_list(names)
    }) + "\n- "@ + cities[k].city.name@);
}

/// A road that does not touch the selected city, or leads to no city, leaves
/// the roads text as it was.
pub proof fn lemma_other_road_leaves_text(
    selected: EntityId,
    roads: Seq<Road>,
    cities: Seq<CityEntry>,
    road: Road,
)
    requires
        !road_to_city(selected, cities)(road),
    ensures
        road_list(connected_city_names(selected, roads.push(road), cities)) == road_list(
            connected_city_names(selected, roads, cities),
        ),
{
    let longer = roads.push(road);
    assert(longer.drop_last() =~= roads);
    lemma_city_of_some_iff_carried(cities, road.city_a);
    lemma_city_of_some_iff_carried(cities, road.city_b);
    assert(connected_city_names(selected, longer, cities) == connected_city_names(
        selected,
        roads,
        cities,
    ));
}

} // verus!
