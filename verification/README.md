# lau-reputation

Reputation system for the LAU game: tracks how players are perceived based on
their actions, not their words.

- `src/` is the verified library (Verus):
  - `action.rs`: which dimensions each kind of action moves, in which
    direction and by what share of the event's impact, with the laws of that
    table (no dimension moved twice, penalties only lower, praise and report
    mirror each other).
  - `dimension.rs`: the six reputation dimensions, their canonical order,
    names and weights in the overall score.
  - `selection.rs`: the strongest and weakest dimension of a score, given the
    order keys of its values.
  - `ranking.rs`: the stable descending ranking of players (top `n`) and the
    players above a threshold.
  - `table.rs`: per-player storage keyed by name, with read-after-write and
    per-player event counts.
  - `endorsement.rs`: the peer-endorsement log.
- `app/` holds the tracker and the score type, whose values are floating-point
  numbers: the float arithmetic and serialisation live there. The rules it
  applies come from the library, except two of its own: how a float becomes an
  order key (equal floats share one, NaN gets none) and that a NaN overall
  score is ranked as zero.
- `tests/` exercises the library.
