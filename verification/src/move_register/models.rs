use vstd::prelude::*;

use crate::board_setup::models::{Board, BoardModel};
use crate::move_generator::models::{PieceType, Square};

use super::{
    capture_register_move, castle_move_register_move, en_passant_register_move, move_register_move,
    promotion_capture_register_move, promotion_register_move, spec_capture_register_move,
    spec_castle_move_register_move, spec_en_passant_register_move, spec_move_register_move,
    spec_promotion_capture_register_move, spec_promotion_register_move, Step,
};

verus! {

/// Why registering a move on a board failed.
#[derive(Debug, PartialEq, Eq, Structural, Clone, Copy)]
pub enum MoveError {
    OutOfBounds,
    PieceNotFound,
}

/// The four castling moves.
#[derive(Debug, PartialEq, Eq, Structural, Hash, Clone, Copy)]
pub enum CastleType {
    WhiteShort,
    WhiteLong,
    BlackShort,
    BlackLong,
}

/// The pieces a pawn may promote to.
#[derive(Debug, Clone, Copy, PartialEq, Eq, Structural)]
pub enum PromotedPieceType {
    Queen,
    Knight,
    Bishop,
    Rook,
}

/// What kind of move a `ChessMove` is, with the piece it concerns.
#[derive(Debug, PartialEq, Eq, Structural, Clone, Copy)]
pub enum MoveType {
    Move(PieceType),
    Capture(PieceType),
    EnPassantMove,
    CastleMove(CastleType),
    PromotionMove(PromotedPieceType),
    PromotionCapture(PromotedPieceType),
}

/// The kind of a move without its payload.
#[derive(PartialEq, Eq, Structural, Clone, Copy, Debug)]
pub enum RawMoveType {
    Move,
    Capture,
    EnPassantMove,
    CastleMove,
    PromotionMove,
    PromotionCapture,
}

/// A move: its kind, the square it starts on and the square it ends on.
#[derive(Debug, Clone, Copy, PartialEq, Eq, Structural)]
pub struct ChessMove {
    pub move_type: MoveType,
    pub from: Square,
    pub to: Square,
}

impl ChessMove {
    /// What applying the move to a position does, following its kind.
    pub open spec fn spec_register(self, b: BoardModel) -> Step<()> {
        match self.move_type {
            MoveType::Move(_) => spec_move_register_move(self.from, self.to, b),
            MoveType::Capture(_) => spec_capture_register_move(self.from, self.to, b),
            MoveType::CastleMove(c) => spec_castle_move_register_move(c, b),
            MoveType::EnPassantMove => spec_en_passant_register_move(self.from, self.to, b),
            MoveType::PromotionMove(p) => spec_promotion_register_move(self.from, self.to, p, b),
            MoveType::PromotionCapture(p) => spec_promotion_capture_register_move(
                self.from,
                self.to,
                p,
                b,
            ),
        }
    }

    /// Moves the pieces of the board as the move says, without the bookkeeping of turns
    /// and clocks that `Board::register_move` adds.
    pub fn register_move(self, board: &mut Board) -> (res: Result<(), MoveError>)
        requires
            self.spec_register(old(board)@) is Some,
        ensures
            Some((final(board)@, res)) == self.spec_register(old(board)@),
    {
        match self.move_type {
            MoveType::Move(_) => move_register_move(self.from, self.to, board),
            MoveType::Capture(_) => capture_register_move(self.from, self.to, board),
            MoveType::CastleMove(castle_type) => castle_move_register_move(castle_type, board),
            MoveType::EnPassantMove => en_passant_register_move(self.from, self.to, board),
            MoveType::PromotionMove(to_piece) => promotion_register_move(
                self.from,
                self.to,
                to_piece,
                board,
            ),
            MoveType::PromotionCapture(to_piece) => promotion_capture_register_move(
                self.from,
                self.to,
                to_piece,
                board,
            ),
        }
    }
}

} // verus!
