# Minecraft utility control center

A web control center for Minecraft bots: pearl stasis pulls, waypoints and
walking, a Credits casino and bank, signed-book ledgers, a book writer, the
Bank Butler, server record collections, FAQs and login greetings answered in
chat.

## Layout

- `src/` is the verified library (Verus). It holds the rules of the center:
  the casino games and the bank, users and access checks, the record stores,
  the parsers of in-game chat and what the bots answer, the ledger and book
  rules, the viewport cache, and the room search and column rules the bots
  walk by. `src/laws.rs` states and proves properties that span several
  functions.
- `tests/` runs the library on concrete values.
- `app/` is the program around it: the HTTP API (axum), the JSON data files
  (serde), and the Azalea bot runtime that moves the bots and reads the
  world.

## Data files

The center keeps its state in JSON files beside the executable:
`config.json`, `users.json`, `pearls.json`, `waypoints.json`, `bank.json`
(with `casino.json` read as a fallback), the chest and butler files,
`viewport_cache.json`, and one `public_<collection>.json` per record
collection.
