# backend

A chess engine whose logic is verified with Verus: reading and writing positions in
FEN, move generation with check and pin restrictions, playing moves, Zobrist hashing,
static evaluation (material, piece-square tables, pawn structure, space), an alpha-beta
game tree search with repetition counting, and an opening book read from algebraic
notation.

Layout:

- `src/` — the verified library. Each public function states its result over spec
  functions of the same module; the laws that relate several functions are public proof
  functions, each under the conditions its doc comment gives:
  - `board_setup::laws`
    - `lemma_fen_round_trip` — writing a position whose pieces record their own squares
      and reading it back gives its pieces, side to move, castling rights, en passant
      target and clocks; the mating material and king squares are recounted from the
      pieces while reading.
    - `lemma_fen_round_trip_sound` — for a sound position with both kings on the board
      the recounted values are the recorded ones, so reading gives the position itself.
    - `lemma_written_fen_reads_back` — a text the writer produces reads as a position
      whose FEN is that same text.
    - `lemma_square_name_round_trip`, `lemma_register_keeps_places`.
  - `move_generator::rules` and `move_generator::attacks` — the move generator against
    the rules of chess:
    - `lemma_generated_moves_follow_rules`, `lemma_generated_moves_exactly` — the
      generated moves are exactly those that follow the rules by which the pieces move
      (`follows_rules`) and pass the generator's restrictions for checks, pins and
      attacked squares; `lemma_generated_moves_distinct` — none is given twice.
    - `lemma_generated_moves_legal` — without an en passant target they are exactly the
      legal moves (`is_legal`: the move follows the rules and leaves the king unattacked;
      castling out of, through and into check is excluded).
    - `lemma_generated_moves_legal_with_target` — with or without an en passant target,
      every legal move is generated, and every generated move is legal except two kinds
      that leave the king attacked: an en passant capture whose taken pawn stood on a
      diagonal through the king (`ep_diagonal_exposure`), and a move of a pawn on the
      king's rank that the generator's en passant pin marks, replacing its pin along the
      rank (`ep_rank_exposure`).
    - `lemma_king_steps_legal`, `lemma_castles_legal` — in any position the king's moves
      are exactly its legal ones; `lemma_generated_moves_safe`,
      `lemma_king_taken_only_when_attacked`.
  - `move_generator::play` — positions reached from the start of a game by legal moves
    (`reached`):
    - `lemma_reached_sound` — each is sound, keeps both kings on the squares their sides
      record, and leaves the king of the side that has just moved unattacked
      (`attacks::lemma_legal_move_keeps_kings` is the step).
    - `lemma_reached_fen_round_trip` — each reads back from the FEN text written for it.
    - `lemma_reached_generated_moves_play` — there, every generated move plays without
      error, takes no king and leaves a sound position.
  - `move_generator::laws`
    - `lemma_generated_moves_play` — in a sound position with room left on the clocks
      every generated move can be played without error and, unless it takes a king,
      leaves a sound position (material counts and king squares kept up to date).
    - `lemma_generated_move_fits`, `lemma_initial_position_sound`.
  - `chess_bot::zobrist`
    - `lemma_incremental_hash` — updating a hash with a move that agrees with the
      position gives the hash of the position after it.
    - `lemma_hash_depends_on_kinds` — the hash reads only the kinds and sides of the
      pieces, the castling rights, the side to move and the en passant target.
  - `chess_bot::laws`
    - `lemma_generated_move_hash` — the same for every generated move played without
      error in a position set up consistently for its moves (`consistent_setup`), except a
      pawn's double step, for which the update keys the en passant target on another
      square than the position records.
    - `lemma_incremental_evaluation`, `lemma_generated_move_evaluation` — the change of
      values computed for a move is the change of the material and table totals, with the
      exceptions the doc comments list (a black pawn's promotion, black's long castling,
      promotions whose piece has another table value than the pawn's).
  - `chess_bot::piece_tables::lemma_piece_value_mirror` and
    `chess_bot::space_eval::lemma_space_mirror` — the position seen from the other side
    has the negated piece values and space score; `lemma_space_centre_kings` — with
    both kings on the centre files the space score is five times the difference of
    central space.
  - `chess_bot::search` — the search tries the generated moves in the order of their
    keys (`lemma_sorted_by_key`), and its contract keeps every entry of the repetition
    table and leaves the table unchanged where there is no legal move;
    `lemma_search_best` — where it returns a move, that move is a generated one, and
    every generated move was searched, with some limit, to a value no better for the side
    to move than the one returned.
  - `opening_book::move_parser::lemma_parsed_move_named` — a move read from algebraic
    notation is a generated move the text names (kind of piece and of move, file or rank
    it comes from, target, promotion), and one is read exactly when some generated move
    is named.
  - `opening_book::lemma_added_keeps_keys_distinct` — the book never holds a position
    twice.
- `tests/` — tests of the library, among them perft counts of the move generator.
- `app/` — the program around the library: the self-play loop, benchmarks, reading the
  settings and the opening book from files, and building the book from the lichess
  opening explorer.
