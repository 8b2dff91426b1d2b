# creature_life_cycle

A simulation of aphids and ladybugs on a board of cells that hold food. Each
turn every creature that was alive when the turn began moves, fights, breeds
and eats, in that order; the dead leave; then food grows back. The library is
written in Verus: its functions carry `requires`/`ensures` contracts that the
verifier proves. What the odds answer and what the generator yields are not
proved; the contracts state the turn for whatever answers and numbers the
draws gave, which `Random` records as ghost state.

## Layout

- `src/model.rs`: the mathematical view of a board (`BoardView`) and the
  invariant every board keeps (`wf`).
- `src/board.rs`: the board itself and the turn (`Board::refresh`).
- `src/creature.rs`, `src/types.rs`: creatures and the plain values the board
  hands out.
- `src/random.rs`: the seeded ChaCha generator and the `Odds` trait through
  which a front end decides each chance.
- `src/config.rs`: building the board a config file describes.
- `src/text.rs`: the board picture, the turn line and the `[board]` section of
  a config file.
- `src/options.rs`: the command line (`--turns`, `--delay-ms`, `--seed`).
- `src/session.rs`, `src/chart.rs`, `src/badges.rs`: a run as an interactive
  front end holds it: edits with undo, single turns, the population history,
  the chart axis and the count badges.
- `src/laws.rs`: properties that span several functions.
- `app/`: the command-line program: it reads `simulation.toml` (TOML and
  floating-point probabilities), decides chances with those probabilities,
  prints the board and sleeps between turns.
- `tests/`: tests of the library, run against the real outside crates.
