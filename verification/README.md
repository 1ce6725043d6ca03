# city_trade

The rules of a small map game of cities, roads and commodities, verified
with Verus.

- `src/` is the library: cities and their extractors, commodities, roads,
  and the rules behind the city panel (which city a click selects, whether a
  UI node takes the click, what the panel shows and how it lists a city's
  roads). Entities of the game engine appear there as `EntityId`s, and
  distances as integer ordering keys.
- `app/` is the game itself on the Bevy engine: it spawns the map, gathers
  clicks and UI nodes, computes the float geometry, calls the library's rules
  and applies what they decide.
- `tests/` runs the library on concrete values.
