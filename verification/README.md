# gomoku

A game and rule engine for gomoku narabe and its variants (Freestyle,
Standard, Renju, Caro, Omok, Pente, and the Pro, Long Pro, Swap, Swap2 and
Yamaguchi opening protocols), written in Verus. Every public operation carries
a contract over a mathematical model of the board (`BoardModel`) and of the
game (`GameModel`), and Verus proves the code against it.

Layout of `src/`:

- `stone.rs`, `point.rs`: players, cells, coordinates and their notation.
- `board.rs`: the board, its model, access, placement and text rendering.
- `rules/`: rule sets and presets (`mod.rs`), win detection (`win.rs`),
  Pente captures (`capture.rs`), Renju forbidden moves (`renju.rs`), and the
  opening catalog and protocol actions (`opening.rs`).
- `game.rs`: turn order, legality, history, undo and the opening protocols.
- `serialize.rs`: the FEN-like board text and the replayable move list.
- `text.rs`: characters, trimming, splitting and decimal numerals.
- `error.rs`: error types and their messages.

Laws proved in the library include: undoing a legal move restores the game
exactly (`game::lemma_undo_after_play`); parsing a board's FEN text gives the
board back (`serialize::lemma_fen_round_trip`); replaying a game's move list
rebuilds the game (`serialize::lemma_move_list_round_trip`); the legal-move
list holds exactly the legal points (`game::lemma_legal_moves_exact`); and a
stone that makes exactly five is never forbidden (`rules::renju::lemma_five_allowed`);
turns alternate and each opening placement is of the side to move
(`game::lemma_turn_parity`, `game::lemma_placement_color`); without captures
the board holds exactly the recorded moves (`game::lemma_board_matches_history`);
and an opening is identified under all eight board symmetries
(`rules::opening::lemma_identify_symmetric`).
