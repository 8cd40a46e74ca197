use vstd::prelude::*;

use crate::board_setup::models::{Board, BoardModel};
use crate::move_generator::models::{spec_mating_points, ChessPiece, Color, PieceType, Square};
use crate::move_register::models::{CastleType, ChessMove, MoveType, PromotedPieceType};
use crate::move_register::{castle_squares, ep_captured_square, spec_promote_piece};

verus! {

/// What moving the pieces of a move gives: `None` where a coordinate or counter would
/// overflow, else whether the move could be made.
pub open spec fn pieces_outcome(b: BoardModel, m: ChessMove) -> Option<bool> {
    match m.spec_register(b) {
        None => None,
        Some((_, r)) => Some(r is Ok),
    }
}

/// The mating material of a side.
pub open spec fn material_of(b: BoardModel, color: Color) -> int {
    match color {
        Color::White => b.mating_material.0 as int,
        Color::Black => b.mating_material.1 as int,
    }
}

fn material_of_exec(board: &Board, color: Color) -> (res: u8)
    ensures
        res == material_of(board@, color),
{
    match color {
        Color::White => board.mating_material.0,
        Color::Black => board.mating_material.1,
    }
}

fn points(t: PieceType) -> (res: u8)
    ensures
        res == spec_mating_points(t),
{
    match t {
        PieceType::Pawn => 3,
        PieceType::Knight => 1,
        PieceType::Bishop => 2,
        PieceType::Rook => 3,
        PieceType::Queen => 3,
        PieceType::King => 0,
    }
}

fn outcome_castle(board: &Board, m: ChessMove) -> (res: Option<bool>)
    requires
        m.move_type is CastleMove,
    ensures
        res == pieces_outcome(board@, m),
{
    let (kf, rf) = match m.move_type {
        MoveType::CastleMove(CastleType::WhiteShort) => (Square(4, 0), Square(7, 0)),
        MoveType::CastleMove(CastleType::WhiteLong) => (Square(4, 0), Square(0, 0)),
        MoveType::CastleMove(CastleType::BlackShort) => (Square(4, 7), Square(7, 7)),
        _ => (Square(4, 7), Square(0, 7)),
    };
    Some(board.get_square(kf).is_some() && board.get_square(rf).is_some())
}

fn outcome_quiet(board: &Board, m: ChessMove, p: ChessPiece) -> (res: Option<bool>)
    requires
        m.move_type is Move,
        m.from.in_bounds(),
        board@.piece(m.from) == Some(p),
    ensures
        res == pieces_outcome(board@, m),
{
    let from = m.from;
    let to = m.to;
    if matches!(p.piece_type, PieceType::Pawn) {
        let df = to.0 as i16 - from.0 as i16;
        let dr = to.1 as i16 - from.1 as i16;
        if !(-128 <= df && df <= 127 && -127 <= dr && dr <= 127) {
            return None;
        }
    }
    Some(to.is_in_bounds())
}

fn outcome_capture(board: &Board, m: ChessMove, p: ChessPiece) -> (res: Option<bool>)
    requires
        m.move_type is Capture,
        m.from.in_bounds(),
        board@.piece(m.from) == Some(p),
    ensures
        res == pieces_outcome(board@, m),
{
    let from = m.from;
    let to = m.to;
    if !to.is_in_bounds() || (to.0 == from.0 && to.1 == from.1) {
        return Some(false);
    }
    let cap = match board.get_square(to) {
        Some(c) => c,
        None => return Some(false),
    };
    if material_of_exec(board, cap.color) < points(cap.piece_type) {
        return None;
    }
    Some(true)
}

fn outcome_en_passant(board: &Board, m: ChessMove, p: ChessPiece) -> (res: Option<bool>)
    requires
        m.move_type is EnPassantMove,
        m.from.in_bounds(),
        board@.piece(m.from) == Some(p),
    ensures
        res == pieces_outcome(board@, m),
{
    let from = m.from;
    let to = m.to;
    let y = match p.color {
        Color::White => to.1 as i16 - 1,
        Color::Black => to.1 as i16 + 1,
    };
    if !(-128 <= y && y <= 127) {
        return None;
    }
    let cs = Square(to.0, y as i8);
    assert(cs == ep_captured_square(to, p.color));
    if !cs.is_in_bounds() || (cs.0 == from.0 && cs.1 == from.1) {
        return Some(false);
    }
    let cap = match board.get_square(cs) {
        Some(c) => c,
        None => return Some(false),
    };
    if material_of_exec(board, cap.color) < 3 {
        return None;
    }
    Some(to.is_in_bounds())
}

fn outcome_promotion(board: &Board, m: ChessMove, p: ChessPiece) -> (res: Option<bool>)
    requires
        m.move_type is PromotionMove,
        m.from.in_bounds(),
        board@.piece(m.from) == Some(p),
    ensures
        res == pieces_outcome(board@, m),
{
    let ppt = match m.move_type {
        MoveType::PromotionMove(ppt) => ppt,
        _ => PromotedPieceType::Queen,
    };
    let gain = points(PieceType::from_promoted(ppt));
    if (material_of_exec(board, p.color) as i16) + (gain as i16) - 3 < 0 {
        return None;
    }
    Some(m.to.is_in_bounds())
}

fn outcome_promotion_capture(board: &Board, m: ChessMove, p: ChessPiece) -> (res: Option<bool>)
    requires
        m.move_type is PromotionCapture,
        m.from.in_bounds(),
        board@.piece(m.from) == Some(p),
    ensures
        res == pieces_outcome(board@, m),
{
    let from = m.from;
    let to = m.to;
    let ppt = match m.move_type {
        MoveType::PromotionCapture(ppt) => ppt,
        _ => PromotedPieceType::Queen,
    };
    if !to.is_in_bounds() || (to.0 == from.0 && to.1 == from.1) {
        return Some(false);
    }
    let cap = match board.get_square(to) {
        Some(c) => c,
        None => return Some(false),
    };
    let cap_pts = points(cap.piece_type);
    if material_of_exec(board, cap.color) < cap_pts {
        return None;
    }
    let gain = points(PieceType::from_promoted(ppt));
    let own: i16 = if (matches!(cap.color, Color::White) && matches!(p.color, Color::White)) || (
    matches!(cap.color, Color::Black) && matches!(p.color, Color::Black)) {
        material_of_exec(board, p.color) as i16 - cap_pts as i16
    } else {
        material_of_exec(board, p.color) as i16
    };
    if own + (gain as i16) - 3 < 0 {
        return None;
    }
    Some(true)
}

/// Decides `pieces_outcome` at run time.
pub fn pieces_outcome_exec(board: &Board, m: ChessMove) -> (res: Option<bool>)
    ensures
        res == pieces_outcome(board@, m),
{
    if matches!(m.move_type, MoveType::CastleMove(_)) {
        return outcome_castle(board, m);
    }
    if !m.from.is_in_bounds() {
        return Some(false);
    }
    let p = match board.get_square(m.from) {
        Some(p) => p,
        None => return Some(false),
    };
    match m.move_type {
        MoveType::Move(_) => outcome_quiet(board, m, p),
        MoveType::Capture(_) => outcome_capture(board, m, p),
        MoveType::EnPassantMove => outcome_en_passant(board, m, p),
        MoveType::CastleMove(_) => outcome_castle(board, m),
        MoveType::PromotionMove(_) => outcome_promotion(board, m, p),
        MoveType::PromotionCapture(_) => outcome_promotion_capture(board, m, p),
    }
}

impl Board {
    /// Decides `can_register` at run time: whether `register_move` can be called.
    pub fn can_register_exec(&self, m: ChessMove) -> (res: bool)
        ensures
            res == self.can_register(m),
    {
        if self.half_move_timer_50 == 255 {
            return false;
        }
        let mut prepared = *self;
        prepared.half_move_timer_50 = if matches!(m.move_type, MoveType::Capture(_))
            || matches!(m.move_type, MoveType::EnPassantMove) || matches!(
            m.move_type,
            MoveType::PromotionMove(_),
        ) || matches!(m.move_type, MoveType::PromotionCapture(_)) {
            0
        } else {
            self.half_move_timer_50 + 1
        };
        prepared.en_passant_square = None;
        prepared.set_castling(m);
        let outcome = pieces_outcome_exec(&prepared, m);
        proof {
            lemma_register_keeps_clock(prepared@, m);
        }
        match outcome {
            None => false,
            Some(false) => true,
            Some(true) => !(matches!(self.turn, Color::Black) && self.full_move_number == 65535),
        }
    }
}

/// Moving the pieces of a move leaves the side to move and the move number as they were.
proof fn lemma_register_keeps_clock(b: BoardModel, m: ChessMove)
    ensures
        m.spec_register(b) matches Some((b3, _)) ==> b3.turn == b.turn && b3.full_move_number
            == b.full_move_number,
{
    match m.move_type {
        MoveType::Move(_) => {},
        MoveType::Capture(_) => {},
        MoveType::EnPassantMove => {},
        MoveType::CastleMove(_) => {},
        MoveType::PromotionMove(_) => {},
        MoveType::PromotionCapture(_) => {},
    }
}

} // verus!
