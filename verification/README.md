# Goal Digger

The rules of a World Cup trading analyst, written and proved in Verus: finding
teams by name or alias, reading the live feed's fixtures and lineups, weighing
missing players, reading Polymarket's prices, and putting the tools' reports
together.

- `src/` is the verified library. Numbers with a fraction are carried as values of
  a type parameter and never computed with.
- `app/` is the plugin around it: tools, files, the network, and everything that
  is computed in floating point. The simulation of matches is installed from
  outside through `app/engine.rs`; the bundled strengths and key players are read
  from `data/teams.json` and `data/players.json`.
- `tests/` runs the library.

What the library takes on trust: `str::to_lowercase`, `str::to_uppercase` and
`String::push` (in `src/text.rs`), and `serde_json::from_str` for lists of strings
(in `src/array_text.rs`).
