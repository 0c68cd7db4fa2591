# Cadabra

A UCI chess engine built on bitboards, written in Verus: the board, the move
encoding, move generation, Zobrist hashing, FEN reading and writing, the
evaluation, the transposition table, the alpha-beta search and the UCI command
reader carry contracts that Verus proves.

Layout:

- `src/` the verified library, one module per part of the engine
  (`position`, `movegen`, `make_move`, `fen`, `zobrist`, `evaluation`, `tt`,
  `search`, `uci`, `interface`, ...). `fen_law` holds the round trip of FEN text;
  `legality` proves that the moves `generate_moves` lists leave the king of the
  side that moves unattacked, and that every legal move is one it lists;
  `perft` states its counts as `perft_count`, and quiescence search its scores as
  `q_score`.
- `tests/` tests that run the library on concrete positions (perft counts,
  FEN round trips, hash consistency, UCI commands).
- `app/` the program around the library: the input thread, the UCI loop that
  carries out what `interface::interpret` decides, the search threads, the
  board display and the benchmark.

Commands, besides those of UCI: `d`, `fen`, `x`, `move <m>`, `eval`, `zobrist`,
`perft <depth>`, `bench [save]`, `legal`, `threefold`, `insufficient`,
`cleartt`, `fillrate`. Options: `Hash` (a power of two, in MB), `Threads`,
`Clear Hash`.
