# mahjong_core

The rules engine, bot heuristics and training-data tools of a four-player Guobiao mahjong
server, written in Verus. Every function in `src/` carries a contract that Verus proves, but
for five small wrappers around `rand`, `chrono` and the standard library (the seeded shuffle,
the clock, `Path::file_stem`, `sort_unstable` and `String::push`), whose contracts are trusted,
together with `seeded_order`, the name given to the order in which the seeded shuffle leaves
the wall.

## Layout

- `src/` – the verified library.
  - `tiles`, `tile`, `context`, `action_space`: tile keys and kinds, counts, the action heads.
  - `shanten`: distance to a ready hand for the standard, seven-pairs, thirteen-orphans and
    knitted shapes; `decomposition`: the standard-form value as the best over every way of
    taking melds, partial sets and a pair from the hand.
  - `state`, `event`, `command`, `validation`, `planner`, `deal`, `match_progress`,
    `reducer`, `table`: room state, player commands, legality checks, the plans of a
    discard, a claim window, a flower and a new round, and match bookkeeping.
  - `botzone`, `round_text`, `scan`: parsers for match records in the Botzone log format and
    in the round-text format.
  - `replay_*`, `replay`, `ordering`, `export`: replaying a record into decision samples with
    their legal actions and labels, and the export rules.
  - `bot`, `policy`, `heuristics`, `features`, `search`, `reward`, `arena`, `evaluation`:
    what a bot sees, its hand-shape, danger and preference scores, the legal-action masks,
    arena bookkeeping and evaluation-table rules.
- `tests/` – tests of the library on concrete values.
- `app/` – the dataset export command: argument handling, files, JSON output.
