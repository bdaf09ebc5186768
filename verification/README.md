# ships

A two-player space duel. Each player steers a ship in one half of the screen
and fires lasers at the other; every hit costs one health, and a ship with no
health left ends the round.

- `src/` is the verified library of the game's rules:
  - `ship.rs`: colours, starting values, home positions, lanes, laser headings
    and key bindings;
  - `firing.rs`: when a ship may fire, how its laser recharges, and hit
    checking (health, reported hits, the winner);
  - `scoring.rs`: the reset at the start of a round and the score-board
    rewrites;
  - `flow.rs`: the main menu and play screens and what moves between them;
  - `laws.rs`: properties that span these functions, proved.
- `app/` is the Bevy application around it: window, rendering, input, audio,
  timers, and the floating-point geometry of movement and overlap.
- `tests/` runs the library on concrete values.
