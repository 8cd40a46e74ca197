use vstd::prelude::*;

use crate::board_setup::models::{Board, BoardModel};
use crate::move_generator::models::{
    fits_i8, spec_mating_points, ChessPiece, Color, Offset, PieceType, Square,
};

use self::models::{CastleType, MoveError, PromotedPieceType};

pub mod checks;
pub mod models;
pub mod notation;

verus! {

/// The outcome of a step that may fail: the new position and the result, or `None` where
/// a counter or a coordinate would leave the range of its integer type.
pub type Step<T> = Option<(BoardModel, Result<T, MoveError>)>;

/// The square of the en passant target behind a pawn that made a double step to `to`.
pub open spec fn ep_target_behind(to: Square, color: Color) -> Square {
    match color {
        Color::White => Square(to.0, (to.1 - 1) as i8),
        Color::Black => Square(to.0, (to.1 + 1) as i8),
    }
}

pub open spec fn spec_move_register_move(from: Square, to: Square, b: BoardModel) -> Step<()> {
    let (b1, r) = b.take(from);
    match r {
        Err(e) => Some((b1, Err(e))),
        Ok(p) => {
            let b2 = if p.piece_type == PieceType::King { b1.with_king(to, p.color) } else { b1 };
            if p.piece_type == PieceType::Pawn {
                let df = to.0 - from.0;
                let dr = to.1 - from.1;
                if !(fits_i8(df) && fits_i8(dr) && dr != i8::MIN) {
                    None
                } else {
                    let b3 = if dr == 2 || dr == -2 {
                        b2.with_ep(Some(ep_target_behind(to, p.color)))
                    } else {
                        b2
                    };
                    let b4 = BoardModel { half_move_timer_50: 0, ..b3 };
                    Some(b4.place(p, to))
                }
            } else {
                Some(b2.place(p, to))
            }
        },
    }
}

pub open spec fn spec_capture_register_move(from: Square, to: Square, b: BoardModel) -> Step<()> {
    let (b1, r) = b.take(from);
    match r {
        Err(e) => Some((b1, Err(e))),
        Ok(p) => {
            let (b2, r2) = b1.take(to);
            match r2 {
                Err(e) => Some((b2, Err(e))),
                Ok(cap) => {
                    let b3 = if p.piece_type == PieceType::King {
                        b2.with_king(to, p.color)
                    } else {
                        b2
                    };
                    match b3.with_material_change(
                        cap.color,
                        -(spec_mating_points(cap.piece_type) as int),
                    ) {
                        None => None,
                        Some(b4) => Some(b4.place(p, to)),
                    }
                },
            }
        },
    }
}

/// The square of the pawn that an en passant capture to `to` by `color` removes.
pub open spec fn ep_captured_square(to: Square, color: Color) -> Square {
    match color {
        Color::White => Square(to.0, (to.1 - 1) as i8),
        Color::Black => Square(to.0, (to.1 + 1) as i8),
    }
}

pub open spec fn spec_en_passant_register_move(from: Square, to: Square, b: BoardModel) -> Step<()> {
    let (b1, r) = b.take(from);
    match r {
        Err(e) => Some((b1, Err(e))),
        Ok(p) => {
            let dr: int = match p.color {
                Color::White => -1,
                Color::Black => 1,
            };
            if !fits_i8(to.1 + dr) {
                None
            } else {
                let (b2, r2) = b1.take(ep_captured_square(to, p.color));
                match r2 {
                    Err(e) => Some((b2, Err(e))),
                    Ok(cap) => match b2.with_material_change(cap.color, -3) {
                        None => None,
                        Some(b3) => Some(b3.place(p, to)),
                    },
                }
            }
        },
    }
}

pub open spec fn spec_promote_piece(piece_type: PromotedPieceType, position: Square, color: Color) -> ChessPiece {
    ChessPiece { piece_type: PieceType::spec_from_promoted(piece_type), color, position }
}

pub open spec fn spec_promotion_register_move(
    from: Square,
    to: Square,
    to_piece: PromotedPieceType,
    b: BoardModel,
) -> Step<()> {
    let (b1, r) = b.take(from);
    match r {
        Err(e) => Some((b1, Err(e))),
        Ok(p) => {
            let new_p = spec_promote_piece(to_piece, to, p.color);
            match b1.with_material_change(new_p.color, spec_mating_points(new_p.piece_type) - 3) {
                None => None,
                Some(b2) => Some(b2.place(new_p, to)),
            }
        },
    }
}

pub open spec fn spec_promotion_capture_register_move(
    from: Square,
    to: Square,
    to_piece: PromotedPieceType,
    b: BoardModel,
) -> Step<()> {
    let (b1, r) = b.take(from);
    match r {
        Err(e) => Some((b1, Err(e))),
        Ok(p) => {
            let (b2, r2) = b1.take(to);
            match r2 {
                Err(e) => Some((b2, Err(e))),
                Ok(cap) => {
                    let new_p = spec_promote_piece(to_piece, to, p.color);
                    match b2.with_material_change(
                        cap.color,
                        -(spec_mating_points(cap.piece_type) as int),
                    ) {
                        None => None,
                        Some(b3) => match b3.with_material_change(
                            new_p.color,
                            spec_mating_points(new_p.piece_type) - 3,
                        ) {
                            None => None,
                            Some(b4) => Some(b4.place(new_p, to)),
                        },
                    }
                },
            }
        },
    }
}

/// The side whose castling a castling move is.
pub open spec fn castle_color(ct: CastleType) -> Color {
    match ct {
        CastleType::WhiteShort | CastleType::WhiteLong => Color::White,
        CastleType::BlackShort | CastleType::BlackLong => Color::Black,
    }
}

/// The squares a castling move concerns: king from, rook from, king to, rook to.
pub open spec fn castle_squares(castle_type: CastleType) -> (Square, Square, Square, Square) {
    match castle_type {
        CastleType::WhiteShort => (Square(4, 0), Square(7, 0), Square(6, 0), Square(5, 0)),
        CastleType::WhiteLong => (Square(4, 0), Square(0, 0), Square(2, 0), Square(3, 0)),
        CastleType::BlackShort => (Square(4, 7), Square(7, 7), Square(6, 7), Square(5, 7)),
        CastleType::BlackLong => (Square(4, 7), Square(0, 7), Square(2, 7), Square(3, 7)),
    }
}

pub open spec fn spec_castle_move_register_move(castle_type: CastleType, b: BoardModel) -> Step<()> {
    let (king_pos, rook_pos, target_king_pos, target_rook_pos) = castle_squares(castle_type);
    let (b1, r) = b.take(king_pos);
    match r {
        Err(e) => Some((b1, Err(e))),
        Ok(k) => {
            let b2 = b1.with_king(target_king_pos, k.color);
            let (b3, r2) = b2.take(rook_pos);
            match r2 {
                Err(e) => Some((b3, Err(e))),
                Ok(rook) => {
                    let (b4, r3) = b3.place(k, target_king_pos);
                    match r3 {
                        Err(e) => Some((b4, Err(e))),
                        Ok(_) => Some(b4.place(rook, target_rook_pos)),
                    }
                },
            }
        },
    }
}

fn move_register_move(from: Square, to: Square, board: &mut Board) -> (res: Result<(), MoveError>)
    requires
        spec_move_register_move(from, to, old(board)@) is Some,
    ensures
        Some((final(board)@, res)) == spec_move_register_move(from, to, old(board)@),
{
    let p = match board.take_piece(from) {
        Ok(p) => p,
        Err(e) => return Err(e),
    };
    if matches!(p.piece_type, PieceType::King) {
        board.set_king_position(to, p.color)
    }
    if matches!(p.piece_type, PieceType::Pawn) {
        let d = to.offset_from(from);
        if d.1 == 2 || d.1 == -2 {
            let target_sq = match p.color {
                Color::White => to.add(Offset(0, -1)),
                Color::Black => to.add(Offset(0, 1)),
            };
            board.set_ep_target_square(Some(target_sq));
        }
        board.reset_half_move_timer();
    }
    board.place_piece(p, to)
}

fn capture_register_move(from: Square, to: Square, board: &mut Board) -> (res: Result<(), MoveError>)
    requires
        spec_capture_register_move(from, to, old(board)@) is Some,
    ensures
        Some((final(board)@, res)) == spec_capture_register_move(from, to, old(board)@),
{
    let p = match board.take_piece(from) {
        Ok(p) => p,
        Err(e) => return Err(e),
    };
    let cap_p = match board.take_piece(to) {
        Ok(p) => p,
        Err(e) => return Err(e),
    };
    if matches!(p.piece_type, PieceType::King) {
        board.set_king_position(to, p.color)
    }
    board.change_mating_material(cap_p.color, -(cap_p.mating_material_points() as i8));
    board.place_piece(p, to)
}

fn en_passant_register_move(from: Square, to: Square, board: &mut Board) -> (res: Result<(), MoveError>)
    requires
        spec_en_passant_register_move(from, to, old(board)@) is Some,
    ensures
        Some((final(board)@, res)) == spec_en_passant_register_move(from, to, old(board)@),
{
    let p = match board.take_piece(from) {
        Ok(p) => p,
        Err(e) => return Err(e),
    };
    let offset = match p.color {
        Color::White => Offset(0, -1),
        Color::Black => Offset(0, 1),
    };
    let cap_p = match board.take_piece(to.add(offset)) {
        Ok(p) => p,
        Err(e) => return Err(e),
    };
    board.change_mating_material(cap_p.color, -3);
    board.place_piece(p, to)
}

fn promotion_register_move(
    from: Square,
    to: Square,
    to_piece: PromotedPieceType,
    board: &mut Board,
) -> (res: Result<(), MoveError>)
    requires
        spec_promotion_register_move(from, to, to_piece, old(board)@) is Some,
    ensures
        Some((final(board)@, res)) == spec_promotion_register_move(from, to, to_piece, old(board)@),
{
    let p = match board.take_piece(from) {
        Ok(p) => p,
        Err(e) => return Err(e),
    };
    let new_p = promote_piece(to_piece, to, p.color);
    board.change_mating_material(new_p.color, new_p.mating_material_points() as i8 - 3);
    board.place_piece(new_p, to)
}

fn promotion_capture_register_move(
    from: Square,
    to: Square,
    to_piece: PromotedPieceType,
    board: &mut Board,
) -> (res: Result<(), MoveError>)
    requires
        spec_promotion_capture_register_move(from, to, to_piece, old(board)@) is Some,
    ensures
        Some((final(board)@, res)) == spec_promotion_capture_register_move(
            from,
            to,
            to_piece,
            old(board)@,
        ),
{
    let p = match board.take_piece(from) {
        Ok(p) => p,
        Err(e) => return Err(e),
    };
    let cap_p = match board.take_piece(to) {
        Ok(p) => p,
        Err(e) => return Err(e),
    };
    let new_p = promote_piece(to_piece, to, p.color);
    board.change_mating_material(cap_p.color, -(cap_p.mating_material_points() as i8));
    board.change_mating_material(new_p.color, new_p.mating_material_points() as i8 - 3);
    board.place_piece(new_p, to)
}

fn castle_move_register_move(castle_type: CastleType, board: &mut Board) -> (res: Result<(), MoveError>)
    requires
        spec_castle_move_register_move(castle_type, old(board)@) is Some,
    ensures
        Some((final(board)@, res)) == spec_castle_move_register_move(castle_type, old(board)@),
{
    let (king_pos, rook_pos, target_king_pos, target_rook_pos) = match castle_type {
        CastleType::WhiteShort => (Square(4, 0), Square(7, 0), Square(6, 0), Square(5, 0)),
        CastleType::WhiteLong => (Square(4, 0), Square(0, 0), Square(2, 0), Square(3, 0)),
        CastleType::BlackShort => (Square(4, 7), Square(7, 7), Square(6, 7), Square(5, 7)),
        CastleType::BlackLong => (Square(4, 7), Square(0, 7), Square(2, 7), Square(3, 7)),
    };
    let k = match board.take_piece(king_pos) {
        Ok(p) => p,
        Err(e) => return Err(e),
    };
    board.set_king_position(target_king_pos, k.color);
    let r = match board.take_piece(rook_pos) {
        Ok(p) => p,
        Err(e) => return Err(e),
    };
    match board.place_piece(k, target_king_pos) {
        Ok(_) => {},
        Err(e) => return Err(e),
    }
    board.place_piece(r, target_rook_pos)
}

/// The piece a pawn becomes when it promotes.
fn promote_piece(piece_type: PromotedPieceType, position: Square, color: Color) -> (res: ChessPiece)
    ensures
        res == spec_promote_piece(piece_type, position, color),
{
    match piece_type {
        PromotedPieceType::Queen => ChessPiece { piece_type: PieceType::Queen, color, position },
        PromotedPieceType::Knight => ChessPiece { piece_type: PieceType::Knight, color, position },
        PromotedPieceType::Bishop => ChessPiece { piece_type: PieceType::Bishop, color, position },
        PromotedPieceType::Rook => ChessPiece { piece_type: PieceType::Rook, color, position },
    }
}

} // verus!
