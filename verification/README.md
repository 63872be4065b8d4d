# puyo

Game logic of a small puyo-puyo trainer, verified with Verus: boards with
gravity and chain resolution, chain scoring, piece placement and the legal
moves of a piece, the turn-based view used by search, seeded pieces, and the
integer core of the simulation evaluator.

Two games share the library:

* the configurable game (`board`, `config`, `placement`, `puyo_game`, ...):
  any number of columns and rows and one to four colours;
* the fixed-size game (`classic`): three columns of eight rows with three
  colours, with its own constants, chain step details and xorshift generator.

## Layout

* `src/` — the verified library.
  * `grid`, `groups`, `chain_model`: the mathematical model of a board, its
    groups, gravity and chain resolution, with the laws proved about them
    (the listing of groups is unique, gravity keeps every puyo, resolution
    ends on a settled board without clearing groups, ...).
  * `board`, `score`, `placement`, `game`, `eval`, `data`, `rand`,
    `hash_util`, `state`, `puyo_game`: executable code with contracts over
    that model.
  * `classic/`: the fixed-size game on top of the same model.
* `tests/` — tests of the library.
* `app/` — what holds floating-point numbers or touches files: the animated
  game state, tensor encodings, the float search of the evaluators, the
  Gumbel tree search and self-play over a network provider, the turn-based
  game trait, training data files and their generation, and the browser
  binding.
