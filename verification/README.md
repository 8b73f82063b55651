# glogger

The verified core of a companion app for the game Project: Gorgon: it reads
the game's chat and Player logs, keeps statistics (arena matches and bets,
roulette spins, Combat Wisdom cooldowns, kill and loot drop rates), imports
and exports drop-rate files, and manages crafting projects.

- `src/` is the library, written in Verus: every function carries a
  contract, and the properties that span functions are proved as lemmas.
  Calls into outside crates (`chrono`, `csv`, `serde_json`, `base64`) and
  into parts of `std` that Verus does not specify go through small trusted
  wrappers whose contracts name what those calls return.
- `app/` is ordinary Rust around it: SQLite access through `rusqlite`, file
  I/O, JSON (de)serialization of whole records, and the floating-point parts
  of the statistics.
- `tests/` runs the library on concrete inputs.
