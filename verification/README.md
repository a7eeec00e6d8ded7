# doubutsu_nnue

An engine for animal shogi (doubutsu shogi: a 3x4 board, lions, giraffes, elephants and
chicks) with an NNUE evaluation, written in Verus. The library in `src/` is verified:

- `bitboard`, `board`: squares as bits of a `u16`, positions, the game result.
- `move_gen`: attack sets, move encoding, move generation (proved equal to the rules).
- `make_move`: making a move, with the network features it removes and adds and the new hash.
- `zobrist`: Zobrist keys, the features of a position, the lock-free transposition table.
- `nnue`: weights, loading them from bytes, the accumulator and the evaluation.
- `search`: principal variation search with quiescence, killer moves and the shared table.
- `game`: the game record, repetition and move-limit draws, text output.
- `engine`: the line protocol and the move choice read from text.
- `augment`: mirroring and turning features for training data.
- `position`, `features`, `hash_update`, `accumulator_update`: validity of positions and the
  laws that tie the incremental updates (features, hash, accumulator) to the positions.

`app/` holds the program around it: console modes, the parallel search driver, training data
files and the WebAssembly class.
