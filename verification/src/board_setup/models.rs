use vstd::prelude::*;

use crate::move_generator::models::{ChessPiece, Color, PieceType, Square};
use crate::move_register::models::{ChessMove, MoveError, MoveType};
use crate::move_register::Step;

verus! {

/// A piece as FEN writes it: kind and side in one letter.
#[derive(Debug, Clone, Copy, PartialEq, Eq, Structural)]
pub enum FenPieceType {
    WhitePawn,
    WhiteKnight,
    WhiteBishop,
    WhiteRook,
    WhiteQueen,
    WhiteKing,
    BlackPawn,
    BlackKnight,
    BlackBishop,
    BlackRook,
    BlackQueen,
    BlackKing,
}

/// The castling moves that are still allowed.
#[derive(Debug, Clone, Copy, PartialEq, Eq, Structural)]
pub struct AvailableCastles {
    pub white_short: bool,
    pub white_long: bool,
    pub black_short: bool,
    pub black_long: bool,
}

impl AvailableCastles {
    /// No castling allowed.
    pub fn all_false() -> (res: Self)
        ensures
            !res.white_short && !res.white_long && !res.black_short && !res.black_long,
    {
        Self { white_short: false, white_long: false, black_short: false, black_long: false }
    }
}

/// A position written in Forsyth-Edwards Notation.
#[derive(Debug, Clone)]
pub struct FenNotation(pub String);

/// Why a position could not be read.
#[derive(Debug, Clone, Copy, PartialEq, Eq, Structural)]
pub enum BoardError {
    ConversionFailure,
}

/// A position: the pieces by rank and file, and the state of the game.
#[derive(Debug, Clone, Copy)]
pub struct Board {
    pub board: [[Option<ChessPiece>; 8]; 8],
    pub turn: Color,
    pub castling: AvailableCastles,
    pub en_passant_square: Option<Square>,
    pub half_move_timer_50: u8,
    pub full_move_number: u16,
    pub mating_material: (u8, u8),
    pub king_positions: (Square, Square),
}

/// The mathematical model of a position; `pieces` holds the 64 squares rank by rank.
#[verifier::ext_equal]
pub struct BoardModel {
    pub pieces: Seq<Option<ChessPiece>>,
    pub turn: Color,
    pub castling: AvailableCastles,
    pub en_passant_square: Option<Square>,
    pub half_move_timer_50: u8,
    pub full_move_number: u16,
    pub mating_material: (u8, u8),
    pub king_positions: (Square, Square),
}

impl View for Board {
    type V = BoardModel;

    open spec fn view(&self) -> BoardModel {
        BoardModel {
            pieces: Seq::new(64, |i: int| self.board@[i / 8]@[i % 8]),
            turn: self.turn,
            castling: self.castling,
            en_passant_square: self.en_passant_square,
            half_move_timer_50: self.half_move_timer_50,
            full_move_number: self.full_move_number,
            mating_material: self.mating_material,
            king_positions: self.king_positions,
        }
    }
}

impl BoardModel {
    /// The piece on a square; nothing off the board.
    pub open spec fn piece(self, sq: Square) -> Option<ChessPiece> {
        if sq.in_bounds() {
            self.pieces[sq.index()]
        } else {
            None
        }
    }

    /// The position with one square changed.
    pub open spec fn set(self, sq: Square, p: Option<ChessPiece>) -> BoardModel {
        BoardModel { pieces: self.pieces.update(sq.index(), p), ..self }
    }

    pub open spec fn with_ep(self, sq: Option<Square>) -> BoardModel {
        BoardModel { en_passant_square: sq, ..self }
    }

    pub open spec fn with_king(self, sq: Square, color: Color) -> BoardModel {
        match color {
            Color::White => BoardModel { king_positions: (sq, self.king_positions.1), ..self },
            Color::Black => BoardModel { king_positions: (self.king_positions.0, sq), ..self },
        }
    }

    /// The position with the mating material of a side changed, unless a counter would
    /// leave the range of `u8`.
    pub open spec fn with_material_change(self, color: Color, points: int) -> Option<BoardModel> {
        let (w, b) = self.mating_material;
        match color {
            Color::White => if 0 <= w + points <= u8::MAX {
                Some(BoardModel { mating_material: ((w + points) as u8, b), ..self })
            } else {
                None
            },
            Color::Black => if 0 <= b + points <= u8::MAX {
                Some(BoardModel { mating_material: (w, (b + points) as u8), ..self })
            } else {
                None
            },
        }
    }

    /// The castling rights after a move from or to a square.
    pub open spec fn castling_after(self, m: ChessMove) -> AvailableCastles {
        let c = self.castling;
        AvailableCastles {
            white_long: c.white_long && !(m.from == Square(0, 0) || m.to == Square(0, 0)
                || m.from == Square(4, 0)),
            white_short: c.white_short && !(m.from == Square(7, 0) || m.to == Square(7, 0)
                || m.from == Square(4, 0)),
            black_long: c.black_long && !(m.from == Square(0, 7) || m.to == Square(0, 7)
                || m.from == Square(4, 7)),
            black_short: c.black_short && !(m.from == Square(7, 7) || m.to == Square(7, 7)
                || m.from == Square(4, 7)),
        }
    }

    /// Taking the piece off a square: the new position and the piece, or why it failed.
    pub open spec fn take(self, sq: Square) -> (BoardModel, Result<ChessPiece, MoveError>) {
        if !sq.in_bounds() {
            (self, Err(MoveError::OutOfBounds))
        } else {
            match self.piece(sq) {
                Some(p) => (self.set(sq, None), Ok(p)),
                None => (self, Err(MoveError::PieceNotFound)),
            }
        }
    }

    /// Putting a piece on a square, or why it failed.
    pub open spec fn place(self, p: ChessPiece, sq: Square) -> (BoardModel, Result<(), MoveError>) {
        if !sq.in_bounds() {
            (self, Err(MoveError::OutOfBounds))
        } else {
            (self.set(sq, Some(ChessPiece { position: sq, ..p })), Ok(()))
        }
    }
}

/// Whether a move resets the count towards the fifty-move rule.
pub open spec fn resets_half_move_timer(m: ChessMove) -> bool {
    match m.move_type {
        MoveType::Capture(_) | MoveType::EnPassantMove | MoveType::PromotionMove(_)
        | MoveType::PromotionCapture(_) => true,
        _ => false,
    }
}

impl BoardModel {
    /// Playing a move: the new position and whether the pieces could be moved, or `None`
    /// where a counter would overflow.
    pub open spec fn spec_register_move(self, m: ChessMove) -> Step<()> {
        if self.half_move_timer_50 == u8::MAX {
            None
        } else {
            let b1 = BoardModel {
                half_move_timer_50: if resets_half_move_timer(m) {
                    0
                } else {
                    (self.half_move_timer_50 + 1) as u8
                },
                ..self
            };
            let b2 = BoardModel { en_passant_square: None, castling: b1.castling_after(m), ..b1 };
            match m.spec_register(b2) {
                None => None,
                Some((b3, r)) => match r {
                    Err(e) => Some((b3, Err(e))),
                    Ok(_) => {
                        let b4 = BoardModel { turn: b3.turn.spec_opp(), ..b3 };
                        if b4.turn == Color::White {
                            if b4.full_move_number == u16::MAX {
                                None
                            } else {
                                Some(
                                    (
                                        BoardModel {
                                            full_move_number: (b4.full_move_number + 1) as u16,
                                            ..b4
                                        },
                                        Ok(()),
                                    ),
                                )
                            }
                        } else {
                            Some((b4, Ok(())))
                        }
                    },
                },
            }
        }
    }
}

impl Board {
    /// Whether `register_move` can play the move without a counter or a coordinate leaving
    /// the range of its integer type.
    pub open spec fn can_register(&self, m: ChessMove) -> bool {
        self@.spec_register_move(m) is Some
    }

    /// Plays a move: moves the pieces, updates the clocks, the castling rights, the en
    /// passant square and the turn. On an error the board keeps what was done before it.
    pub fn register_move(&mut self, m: ChessMove) -> (res: Result<(), MoveError>)
        requires
            old(self).can_register(m),
        ensures
            Some((final(self)@, res)) == old(self)@.spec_register_move(m),
    {
        self.increment_half_move_timer();
        match m.move_type {
            MoveType::Capture(_)
            | MoveType::EnPassantMove
            | MoveType::PromotionMove(_)
            | MoveType::PromotionCapture(_) => self.reset_half_move_timer(),
            _ => (),
        };
        self.set_ep_target_square(None);
        self.set_castling(m);
        match m.register_move(self) {
            Ok(_) => {},
            Err(e) => return Err(e),
        }
        self.advance_turn();
        if matches!(self.turn, Color::White) {
            self.increment_full_move_timer();
        }
        Ok(())
    }

    proof fn lemma_view_index(&self, sq: Square)
        requires
            sq.in_bounds(),
        ensures
            self@.pieces[sq.index()] == self.board@[sq.1 as int]@[sq.0 as int],
    {
    }

    /// The piece on a square, if the square is on the board and holds one.
    pub fn get_square(&self, sq: Square) -> (res: Option<ChessPiece>)
        ensures
            res == self@.piece(sq),
    {
        let Square(file_number, rank_number) = sq;
        if file_number < 0 || file_number > 7 || rank_number < 0 || rank_number > 7 {
            return None;
        }
        proof {
            self.lemma_view_index(sq);
        }
        self.board[rank_number as usize][file_number as usize]
    }

    /// Changes one square of the board.
    pub(crate) fn set_square(&mut self, sq: Square, p: Option<ChessPiece>)
        requires
            sq.in_bounds(),
        ensures
            final(self)@ == old(self)@.set(sq, p),
    {
        let r = sq.1 as usize;
        let f = sq.0 as usize;
        let mut row = self.board[r];
        row[f] = p;
        self.board[r] = row;
        assert(self@.pieces =~= old(self)@.pieces.update(sq.index(), p)) by {
            assert forall|i: int| 0 <= i < 64 implies #[trigger] self@.pieces[i]
                == old(self)@.pieces.update(sq.index(), p)[i] by {
                if i / 8 == r && i % 8 == f {
                    assert(i == sq.index());
                } else {
                    assert(i != sq.index());
                }
            }
        }
    }

    /// Sets the en passant target square.
    pub fn set_ep_target_square(&mut self, sq: Option<Square>)
        ensures
            final(self)@ == old(self)@.with_ep(sq),
    {
        self.en_passant_square = sq
    }

    /// Records where the king of a side stands.
    pub fn set_king_position(&mut self, sq: Square, color: Color)
        ensures
            final(self)@ == old(self)@.with_king(sq, color),
    {
        match color {
            Color::White => self.king_positions.0 = sq,
            Color::Black => self.king_positions.1 = sq,
        }
    }

    /// Adds points (or removes them, for a negative count) to the mating material of a side.
    pub fn change_mating_material(&mut self, color: Color, points: i8)
        requires
            points != i8::MIN,
            old(self)@.with_material_change(color, points as int) is Some,
        ensures
            final(self)@ == old(self)@.with_material_change(color, points as int)->0,
    {
        if points < 0 {
            let p = (0 - points) as u8;
            match color {
                Color::White => self.mating_material.0 = self.mating_material.0 - p,
                Color::Black => self.mating_material.1 = self.mating_material.1 - p,
            }
        } else {
            let p = points as u8;
            match color {
                Color::White => self.mating_material.0 = self.mating_material.0 + p,
                Color::Black => self.mating_material.1 = self.mating_material.1 + p,
            }
        }
    }

    /// Takes the piece off a square.
    pub fn take_piece(&mut self, sq: Square) -> (res: Result<ChessPiece, MoveError>)
        ensures
            (final(self)@, res) == old(self)@.take(sq),
    {
        if !sq.is_in_bounds() {
            return Err(MoveError::OutOfBounds);
        }
        match self.get_square(sq) {
            Some(p) => {
                self.set_square(sq, None);
                Ok(p)
            },
            None => Err(MoveError::PieceNotFound),
        }
    }

    /// Puts a piece on a square, recording the square in the piece.
    pub fn place_piece(&mut self, p: ChessPiece, sq: Square) -> (res: Result<(), MoveError>)
        ensures
            (final(self)@, res) == old(self)@.place(p, sq),
    {
        if !sq.is_in_bounds() {
            return Err(MoveError::OutOfBounds);
        }
        let mut p = p;
        p.set_position(sq);
        self.set_square(sq, Some(p));
        Ok(())
    }

    /// Withdraws the castling rights that a move from or to a square ends.
    pub fn set_castling(&mut self, m: ChessMove)
        ensures
            final(self)@ == (BoardModel { castling: old(self)@.castling_after(m), ..old(self)@ }),
    {
        if m.from == Square(0, 0) || m.to == Square(0, 0) || m.from == Square(4, 0) {
            self.castling.white_long = false;
        }
        if m.from == Square(7, 0) || m.to == Square(7, 0) || m.from == Square(4, 0) {
            self.castling.white_short = false;
        }
        if m.from == Square(0, 7) || m.to == Square(0, 7) || m.from == Square(4, 7) {
            self.castling.black_long = false;
        }
        if m.from == Square(7, 7) || m.to == Square(7, 7) || m.from == Square(4, 7) {
            self.castling.black_short = false;
        }
    }

    /// Counts one more half move towards the fifty-move rule.
    pub fn increment_half_move_timer(&mut self)
        requires
            old(self).half_move_timer_50 < u8::MAX,
        ensures
            final(self)@ == (BoardModel {
                half_move_timer_50: (old(self).half_move_timer_50 + 1) as u8,
                ..old(self)@
            }),
    {
        self.half_move_timer_50 = self.half_move_timer_50 + 1;
    }

    /// Restarts the count towards the fifty-move rule.
    pub fn reset_half_move_timer(&mut self)
        ensures
            final(self)@ == (BoardModel { half_move_timer_50: 0, ..old(self)@ }),
    {
        self.half_move_timer_50 = 0;
    }

    /// Counts one more full move.
    pub fn increment_full_move_timer(&mut self)
        requires
            old(self).full_move_number < u16::MAX,
        ensures
            final(self)@ == (BoardModel {
                full_move_number: (old(self).full_move_number + 1) as u16,
                ..old(self)@
            }),
    {
        self.full_move_number = self.full_move_number + 1;
    }

    /// Gives the move to the other side.
    pub fn advance_turn(&mut self)
        ensures
            final(self)@ == (BoardModel { turn: old(self).turn.spec_opp(), ..old(self)@ }),
    {
        self.turn = self.turn.opp();
    }
}

} // verus!
