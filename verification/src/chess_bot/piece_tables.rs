use vstd::prelude::*;

use crate::board_setup::models::{Board, BoardModel};
use crate::chess_bot::evaluation::Evaluation;
use crate::move_generator::models::{ChessPiece, Color, Offset, PieceType, Square};
use crate::move_register::models::{CastleType, ChessMove, MoveType, PromotedPieceType};
use crate::move_register::ep_captured_square;

verus! {

/// The piece-square table of the king in the middle game, from the side's own back rank (row 7) to the far rank (row 0).
pub const KING_TABLE: [[i16; 8]; 8] = [
    [-30, -40, -40, -50, -50, -40, -40, -30],
    [-30, -40, -40, -50, -50, -40, -40, -30],
    [-30, -40, -40, -50, -50, -40, -40, -30],
    [-30, -40, -40, -50, -50, -40, -40, -30],
    [-20, -30, -30, -40, -40, -30, -30, -20],
    [-10, -20, -20, -20, -20, -20, -20, -10],
    [20, 20, 0, -25, -25, -25, 20, 20],
    [20, 30, 10, -25, 0, -25, 30, 20],
];

/// The piece-square table of the king in the endgame.
pub const KING_ENDGAME_TABLE: [[i16; 8]; 8] = [
    [-30, -20, -10, 0, 0, -10, -20, -30],
    [-20, -10, 0, 10, 10, 0, -10, -20],
    [-10, 0, 10, 20, 20, 10, 0, -10],
    [0, 10, 20, 30, 30, 20, 10, 0],
    [0, 10, 20, 30, 30, 20, 10, 0],
    [-10, 0, 10, 20, 20, 10, 0, -10],
    [-20, -10, 0, 10, 10, 0, -10, -20],
    [-30, -20, -10, 0, 0, -10, -20, -30],
];

/// The piece-square table of the queen.
pub const QUEEN_TABLE: [[i16; 8]; 8] = [
    [-20, -10, -10, -5, -5, -10, -10, -20],
    [-10, 0, 0, 0, 0, 0, 0, -10],
    [-10, 0, 5, 5, 5, 5, 0, -10],
    [-5, 0, 5, 5, 5, 5, 0, -5],
    [0, 0, 5, 5, 5, 5, 0, -5],
    [-10, 5, 5, 5, 5, 5, 0, -10],
    [-10, 0, 5, 0, 0, 0, 0, -10],
    [-20, -10, -10, -5, -5, -10, -10, -20],
];

/// The piece-square table of the rook.
pub const ROOK_TABLE: [[i16; 8]; 8] = [
    [0, 0, 0, 0, 0, 0, 0, 0],
    [5, 10, 10, 10, 10, 10, 10, 5],
    [-5, 0, 0, 0, 0, 0, 0, -5],
    [-5, 0, 0, 0, 0, 0, 0, -5],
    [-5, 0, 0, 0, 0, 0, 0, -5],
    [-5, 0, 0, 0, 0, 0, 0, -5],
    [-5, 0, 0, 0, 0, 0, 0, -5],
    [0, 0, 0, 5, 5, 0, 0, 0],
];

/// The piece-square table of the bishop.
pub const BISHOP_TABLE: [[i16; 8]; 8] = [
    [-20, -10, -10, -10, -10, -10, -10, -20],
    [-10, 0, 0, 0, 0, 0, 0, -10],
    [-10, 0, 5, 10, 10, 5, 0, -10],
    [-10, 5, 5, 10, 10, 5, 5, -10],
    [-10, 0, 10, 10, 10, 10, 0, -10],
    [-10, 10, 10, 10, 10, 10, 10, -10],
    [-10, 5, 0, 0, 0, 0, 5, -10],
    [-30, -20, -20, -20, -20, -20, -20, -30],
];

/// The piece-square table of the knight.
pub const KNIGHT_TABLE: [[i16; 8]; 8] = [
    [-50, -40, -30, -30, -30, -30, -40, -50],
    [-40, -20, 0, 0, 0, 0, -20, -40],
    [-30, 0, 10, 15, 15, 10, 0, -30],
    [-30, 5, 15, 20, 20, 15, 5, -30],
    [-30, 0, 15, 20, 20, 15, 0, -30],
    [-30, 5, 10, 5, 5, 15, 5, -30],
    [-40, -20, 0, 5, 5, 0, -20, -40],
    [-60, -40, -40, -40, -40, -40, -40, -60],
];

/// The piece-square table of the pawn.
pub const PAWN_TABLE: [[i16; 8]; 8] = [
    [0, 0, 0, 0, 0, 0, 0, 0],
    [100, 100, 100, 100, 100, 100, 100, 100],
    [40, 40, 50, 60, 60, 50, 40, 40],
    [15, 15, 20, 25, 25, 20, 15, 15],
    [0, 0, 0, 20, 20, 0, 0, 0],
    [5, -5, -10, 0, 0, -10, -5, 5],
    [5, 10, 10, -20, -20, 10, 10, 5],
    [0, 0, 0, 0, 0, 0, 0, 0],
];

/// The table entry for a kind of piece, in the endgame or not.
pub open spec fn table_entry(t: PieceType, is_endgame: bool, rank: int, file: int) -> i16 {
    match t {
        PieceType::Pawn => PAWN_TABLE@[rank]@[file],
        PieceType::Knight => KNIGHT_TABLE@[rank]@[file],
        PieceType::Bishop => BISHOP_TABLE@[rank]@[file],
        PieceType::Rook => ROOK_TABLE@[rank]@[file],
        PieceType::Queen => QUEEN_TABLE@[rank]@[file],
        PieceType::King => if is_endgame {
            KING_ENDGAME_TABLE@[rank]@[file]
        } else {
            KING_TABLE@[rank]@[file]
        },
    }
}

proof fn lemma_tables_bounded()
    ensures
        forall|t: PieceType, e: bool, r: int, f: int|
            0 <= r < 8 && 0 <= f < 8 ==> -60 <= #[trigger] table_entry(t, e, r, f) <= 100,
{
    assert(forall|r: int, f: int| 0 <= r < 8 && 0 <= f < 8 ==> -60 <= #[trigger] PAWN_TABLE@[r]@[f] <= 100);
}

/// The material value of a kind of piece.
pub open spec fn spec_material_value(t: PieceType) -> i16 {
    match t {
        PieceType::Pawn => 100,
        PieceType::Knight => 300,
        PieceType::Bishop => 300,
        PieceType::Rook => 500,
        PieceType::Queen => 900,
        PieceType::King => 25000,
    }
}

/// The material value of a kind of piece.
pub fn material_value(piece_type: PieceType) -> (res: i16)
    ensures
        res == spec_material_value(piece_type),
{
    match piece_type {
        PieceType::Pawn => 100,
        PieceType::Knight => 300,
        PieceType::Bishop => 300,
        PieceType::Rook => 500,
        PieceType::Queen => 900,
        PieceType::King => 25000,
    }
}

/// The row of the tables for a rank: counted from the side's own back rank.
pub open spec fn table_row(color: Color, rank: int) -> int {
    match color {
        Color::White => 7 - rank,
        Color::Black => rank,
    }
}

/// The table value of a piece on its square.
pub open spec fn spec_positional_value(piece: ChessPiece, is_endgame: bool) -> i16 {
    table_entry(
        piece.piece_type,
        is_endgame,
        table_row(piece.color, piece.position.1 as int),
        piece.position.0 as int,
    )
}

/// The table value of a piece on its square.
pub fn positional_value(piece: ChessPiece, is_endgame: bool) -> (res: i16)
    requires
        piece.position.in_bounds(),
    ensures
        res == spec_positional_value(piece, is_endgame),
        -60 <= res <= 100,
{
    proof {
        lemma_tables_bounded();
    }
    let rank = match piece.color {
        Color::White => (7 - piece.position.1) as usize,
        Color::Black => piece.position.1 as usize,
    };
    let file = piece.position.0 as usize;
    match piece.piece_type {
        PieceType::Pawn => PAWN_TABLE[rank][file],
        PieceType::Knight => KNIGHT_TABLE[rank][file],
        PieceType::Bishop => BISHOP_TABLE[rank][file],
        PieceType::Rook => ROOK_TABLE[rank][file],
        PieceType::Queen => QUEEN_TABLE[rank][file],
        PieceType::King => if is_endgame {
            KING_ENDGAME_TABLE[rank][file]
        } else {
            KING_TABLE[rank][file]
        },
    }
}

/// The material and table values of a piece, negated for a black piece.
pub open spec fn spec_piece_value(piece: ChessPiece, is_endgame: bool) -> (i16, i16) {
    let material = spec_material_value(piece.piece_type);
    let pst = spec_positional_value(piece, is_endgame);
    match piece.color {
        Color::White => (material, pst),
        Color::Black => ((-material) as i16, (-pst) as i16),
    }
}

/// The values of a piece on the board are bounded by those of the king and the tables.
pub proof fn lemma_piece_value_bounded(piece: ChessPiece, is_endgame: bool)
    requires
        piece.position.in_bounds(),
    ensures
        -25000 <= spec_piece_value(piece, is_endgame).0 <= 25000,
        -100 <= spec_piece_value(piece, is_endgame).1 <= 100,
{
    lemma_tables_bounded();
}

/// A piece of the other side on the square mirrored across the middle of the board.
pub open spec fn mirrored_piece(p: ChessPiece) -> ChessPiece {
    ChessPiece {
        color: p.color.spec_opp(),
        position: Square(p.position.0, (7 - p.position.1) as i8),
        ..p
    }
}

/// Colour mirror: the piece of the other side on the mirrored square has the negated values.
pub proof fn lemma_piece_value_mirror(p: ChessPiece, e: bool)
    requires
        p.position.in_bounds(),
    ensures
        spec_piece_value(mirrored_piece(p), e).0 == -spec_piece_value(p, e).0,
        spec_piece_value(mirrored_piece(p), e).1 == -spec_piece_value(p, e).1,
{
    lemma_tables_bounded();
    let q = mirrored_piece(p);
    assert(table_row(q.color, q.position.1 as int) == table_row(p.color, p.position.1 as int));
}

/// The material and table values of a piece, from white's point of view.
pub fn piece_value(piece: ChessPiece, is_endgame: bool) -> (res: (i16, i16))
    requires
        piece.position.in_bounds(),
    ensures
        res == spec_piece_value(piece, is_endgame),
        -25000 <= res.0 <= 25000,
        -100 <= res.1 <= 100,
{
    let material = material_value(piece.piece_type);
    let pst = positional_value(piece, is_endgame);
    match piece.color {
        Color::White => (material, pst),
        Color::Black => (-material, -pst),
    }
}

/// The change of the values of a piece that moves from the start to the end square of a
/// move.
pub open spec fn spec_piece_value_chg(piece: ChessPiece, m: ChessMove, is_endgame: bool) -> (
    int,
    int,
) {
    let (new_material, new_pst) = spec_piece_value(ChessPiece { position: m.to, ..piece }, is_endgame);
    let (old_material, old_pst) = spec_piece_value(
        ChessPiece { position: m.from, ..piece },
        is_endgame,
    );
    (new_material - old_material, new_pst - old_pst)
}

fn piece_value_chg(piece: ChessPiece, played_move: ChessMove, is_endgame: bool) -> (res: (i16, i16))
    requires
        played_move.from.in_bounds(),
        played_move.to.in_bounds(),
    ensures
        res.0 == spec_piece_value_chg(piece, played_move, is_endgame).0,
        res.1 == spec_piece_value_chg(piece, played_move, is_endgame).1,
        res.0 == 0,
        -200 <= res.1 <= 200,
{
    let (new_material, new_pst) = piece_value(
        ChessPiece { piece_type: piece.piece_type, color: piece.color, position: played_move.to },
        is_endgame,
    );
    let (old_material, old_pst) = piece_value(
        ChessPiece { piece_type: piece.piece_type, color: piece.color, position: played_move.from },
        is_endgame,
    );
    (new_material - old_material, new_pst - old_pst)
}

/// The table change of the rook in a castling move.
pub open spec fn spec_castle_value_chg_for_rook(castle_type: CastleType) -> int {
    match castle_type {
        CastleType::WhiteShort => ROOK_TABLE@[7]@[5] - ROOK_TABLE@[7]@[7],
        CastleType::WhiteLong => ROOK_TABLE@[7]@[3] - ROOK_TABLE@[7]@[0],
        CastleType::BlackShort => ROOK_TABLE@[0]@[5] - ROOK_TABLE@[0]@[7],
        CastleType::BlackLong => ROOK_TABLE@[0]@[3] - ROOK_TABLE@[0]@[0],
    }
}

fn castle_value_chg_for_rook(castle_type: CastleType) -> (res: i16)
    ensures
        res == spec_castle_value_chg_for_rook(castle_type),
        -20 <= res <= 20,
{
    proof {
        lemma_tables_bounded();
        assert(table_entry(PieceType::Rook, false, 7, 5) == ROOK_TABLE@[7]@[5]);
        assert(table_entry(PieceType::Rook, false, 7, 7) == ROOK_TABLE@[7]@[7]);
        assert(table_entry(PieceType::Rook, false, 7, 3) == ROOK_TABLE@[7]@[3]);
        assert(table_entry(PieceType::Rook, false, 7, 0) == ROOK_TABLE@[7]@[0]);
        assert(table_entry(PieceType::Rook, false, 0, 5) == ROOK_TABLE@[0]@[5]);
        assert(table_entry(PieceType::Rook, false, 0, 7) == ROOK_TABLE@[0]@[7]);
        assert(table_entry(PieceType::Rook, false, 0, 3) == ROOK_TABLE@[0]@[3]);
        assert(table_entry(PieceType::Rook, false, 0, 0) == ROOK_TABLE@[0]@[0]);
    }
    match castle_type {
        CastleType::WhiteShort => ROOK_TABLE[7][5] - ROOK_TABLE[7][7],
        CastleType::WhiteLong => ROOK_TABLE[7][3] - ROOK_TABLE[7][0],
        CastleType::BlackShort => ROOK_TABLE[0][5] - ROOK_TABLE[0][7],
        CastleType::BlackLong => ROOK_TABLE[0][3] - ROOK_TABLE[0][0],
    }
}

/// The material gained by promoting a pawn.
pub open spec fn spec_promoted_material_value_chg(p: PromotedPieceType) -> int {
    spec_material_value(PieceType::spec_from_promoted(p)) - spec_material_value(PieceType::Pawn)
}

fn promoted_material_value_chg(promoted_piece_type: PromotedPieceType) -> (res: i16)
    ensures
        res == spec_promoted_material_value_chg(promoted_piece_type),
        0 <= res <= 800,
{
    material_value(PieceType::from_promoted(promoted_piece_type)) - material_value(PieceType::Pawn)
}

/// The change of material and table values that a move makes, or `None` where it cannot
/// be computed: no piece on the start square or on the square of a captured piece, no en
/// passant target, or a square off the board.
pub open spec fn spec_evaluate_chg(b: BoardModel, m: ChessMove, is_endgame: bool) -> Option<
    Evaluation,
> {
    match b.piece(m.from) {
        None => None,
        Some(from) => if !m.to.in_bounds() {
            None
        } else {
            let (material, pst) = spec_piece_value_chg(from, m, is_endgame);
            let r: Option<(int, int)> = match m.move_type {
                MoveType::Move(_) => Some((material, pst)),
                MoveType::Capture(_) => match b.piece(m.to) {
                    None => None,
                    Some(to) => if !to.position.in_bounds() {
                        None
                    } else {
                        let (mc, pc) = spec_piece_value(to, is_endgame);
                        Some((material - mc, pst - pc))
                    },
                },
                MoveType::EnPassantMove => match b.en_passant_square {
                    None => None,
                    Some(ep) => {
                        let dy: int = if b.turn == Color::White {
                            -1
                        } else {
                            1
                        };
                        if !(i8::MIN <= ep.1 + dy <= i8::MAX) {
                            None
                        } else {
                            match b.piece(Square(ep.0, (ep.1 + dy) as i8)) {
                                None => None,
                                Some(cp) => if !cp.position.in_bounds() {
                                    None
                                } else {
                                    let (mc, pc) = spec_piece_value(cp, is_endgame);
                                    Some((material - mc, pst - pc))
                                },
                            }
                        }
                    },
                },
                MoveType::CastleMove(ct) => Some(
                    (material, pst + spec_castle_value_chg_for_rook(ct)),
                ),
                MoveType::PromotionMove(ppt) => Some(
                    (material + spec_promoted_material_value_chg(ppt), pst),
                ),
                MoveType::PromotionCapture(ppt) => match b.piece(m.to) {
                    None => None,
                    Some(to) => if !to.position.in_bounds() {
                        None
                    } else {
                        let (mc, pc) = spec_piece_value(to, is_endgame);
                        Some((material + spec_promoted_material_value_chg(ppt) - mc, pst - pc))
                    },
                },
            };
            match r {
                None => None,
                Some((mm, pp)) => Some(
                    Evaluation {
                        material: mm as i16,
                        pst: pp as i16,
                        pawn_structure: 0,
                        space: 0,
                        king_dist: 0,
                    },
                ),
            }
        },
    }
}

/// Whether a square holds a piece that records a position on the board.
fn placed_piece_at(board: &Board, sq: Square) -> (res: bool)
    ensures
        res == (board@.piece(sq) matches Some(p) && p.position.in_bounds()),
{
    match board.get_square(sq) {
        Some(p) => p.position.is_in_bounds(),
        None => false,
    }
}

/// Decides at run time whether the change of values of a move can be computed.
pub fn evaluate_chg_ok(board: &Board, m: ChessMove, is_endgame: bool) -> (res: bool)
    ensures
        res == spec_evaluate_chg(board@, m, is_endgame) is Some,
{
    if board.get_square(m.from).is_none() || !m.to.is_in_bounds() {
        return false;
    }
    match m.move_type {
        MoveType::Capture(_) => placed_piece_at(board, m.to),
        MoveType::PromotionCapture(_) => placed_piece_at(board, m.to),
        MoveType::EnPassantMove => match board.en_passant_square {
            None => false,
            Some(ep) => {
                let y: i16 = if matches!(board.turn, Color::White) {
                    ep.1 as i16 - 1
                } else {
                    ep.1 as i16 + 1
                };
                if !(-128 <= y && y <= 127) {
                    false
                } else {
                    placed_piece_at(board, Square(ep.0, y as i8))
                }
            },
        },
        _ => true,
    }
}

/// The change of material and table values that a move makes.
pub fn evaluate_chg(board: &Board, mov: ChessMove, is_endgame: bool) -> (res: Evaluation)
    requires
        spec_evaluate_chg(board@, mov, is_endgame) is Some,
    ensures
        Some(res) == spec_evaluate_chg(board@, mov, is_endgame),
        -26000 <= res.material <= 26000,
        -400 <= res.pst <= 400,
        res.pawn_structure == 0 && res.space == 0 && res.king_dist == 0,
{
    let from = match board.get_square(mov.from) {
        Some(p) => p,
        None => {
            assert(false);
            return Evaluation::new();
        },
    };
    let (mut material, mut pst) = piece_value_chg(from, mov, is_endgame);
    match mov.move_type {
        MoveType::Move(_) => {},
        MoveType::Capture(_) => {
            let to = match board.get_square(mov.to) {
                Some(p) => p,
                None => {
                    assert(false);
                    return Evaluation::new();
                },
            };
            let (material_chg, pst_chg) = piece_value(to, is_endgame);
            material = material - material_chg;
            pst = pst - pst_chg;
        },
        MoveType::EnPassantMove => {
            let ep = match board.en_passant_square {
                Some(sq) => sq,
                None => {
                    assert(false);
                    return Evaluation::new();
                },
            };
            let pawn_sq = match board.turn {
                Color::White => ep.add(Offset(0, -1)),
                Color::Black => ep.add(Offset(0, 1)),
            };
            let captured_piece = match board.get_square(pawn_sq) {
                Some(p) => p,
                None => {
                    assert(false);
                    return Evaluation::new();
                },
            };
            let (material_chg, pst_chg) = piece_value(captured_piece, is_endgame);
            material = material - material_chg;
            pst = pst - pst_chg;
        },
        MoveType::CastleMove(castle_type) => pst = pst + castle_value_chg_for_rook(castle_type),
        MoveType::PromotionMove(ppt) => material = material + promoted_material_value_chg(ppt),
        MoveType::PromotionCapture(ppt) => {
            let to = match board.get_square(mov.to) {
                Some(p) => p,
                None => {
                    assert(false);
                    return Evaluation::new();
                },
            };
            let (material_chg, pst_chg) = piece_value(to, is_endgame);
            material = material + promoted_material_value_chg(ppt);
            material = material - material_chg;
            pst = pst - pst_chg;
        },
    }
    Evaluation { material, pst, pawn_structure: 0, space: 0, king_dist: 0 }
}

} // verus!
