# chess_nn

A trainer of chess-playing neural networks: networks and hand-written
evaluators play round-robin tournaments, and the best are kept and mutated.

- `src/` is the verified library (Verus): the activation-function catalogue
  and its stable identifiers, the network model on the bit patterns of its
  `f32` parameters, the project's hash and its hexadecimal text, the network
  file format (written, read back and checked), the board encoding fed to the
  networks and the material balance, game results, the move limit of a game,
  the round-robin order and the recording of a whole tournament's results,
  the selection between tournaments, and the reading of the configuration
  answers.
- `app/` is the program around it: console prompts, the `chess` move
  generator, floating-point evaluation and evolution of networks (`nalgebra`),
  ratings, parallel games (`rayon`) and saving files.
- `tests/` exercises the library.
