# screeps_colony

The decision logic of a colony-managing bot for the game Screeps, written in
Verus with contracts that Verus proves.

- `src/` is the verified library: the layout planner of a colony (center, sources,
  roads, connectivity, the structures of each step), the comparison of a plan with
  the room, the colony lifecycle and its steps, the bookkeeping that hands tasks
  and resources to creeps, the per-tick accounting of a creep's intents, and the
  decisions of each kind of creep.
- `tests/` runs the library on concrete values.
- `app/` is the thin layer around it that the game runs: it reads the game into
  plain values, calls the library, and performs what it decides (moves, claims,
  construction sites, memory, console commands). So far it drives the colony
  lifecycle (as periodic work, every ten ticks), the claimers, the keeping and
  recovery of every creep's role and home, the connection of a plan's roads, and
  the console commands; the decisions of the other creeps (workers and harvesters
  among them) and of the coordinators stand in `src/` without a driver in `app/`
  yet.

Calls into the game API (`screeps-game-api`) and the union-find crate that the
library makes stand behind small trusted wrappers whose contracts say what the
crates' sources show.
