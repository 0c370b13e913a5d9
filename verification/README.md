# tetris

The rules of a falling-block puzzle game, verified with Verus, and the bevy
game that uses them.

- `src/shape.rs`: the seven shapes, their colours, their 4x4 grids and the
  quarter turn of a grid.
- `src/board.rs`: the well (`GameState`): placing blocks, looking cells up,
  finding and clearing full rows, and scoring a clear.
- `src/piece.rs`: block positions, the blocks of a new piece, and how far each
  block moves when its piece is turned.
- `src/rules.rs`: a gravity step and the reaction to a key press.
- `src/rotation.rs`: turning the falling piece inside the well.
- `src/spawn.rs`: drawing the shape of the next piece at random.
- `src/ruleset.rs`: the size of the well and the speed (in milliseconds).
- `app/main.rs`: the bevy app: drawing, timers, keyboard, and the entities
  that stand for blocks. The game's rules (moves, gravity, rotation, line
  clearing, scoring, the next piece) are calls into the library; when a timer
  fires and which key was pressed are decided in the app.
