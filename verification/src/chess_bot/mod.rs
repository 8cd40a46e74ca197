pub mod evaluation;
pub mod laws;
pub mod pawn_structure;
pub mod piece_tables;
pub mod search;
pub mod space_eval;
pub mod zobrist;

use vstd::prelude::*;

use self::evaluation::Evaluation;
use self::pawn_structure::{evaluate_pawn_weaknesses, spec_pawn_weaknesses};
use self::piece_tables::{evaluate_chg, piece_value, spec_evaluate_chg, spec_piece_value};
use self::space_eval::{spec_space, spec_space_evaluate, Space};
use crate::board_setup::models::{Board, BoardModel};
use crate::move_generator::models::{
    move_gen_ok, positions_in_bounds, spec_all_moves, ChessPiece, Color, Moves, Offset,
    PieceType, Square,
};
use crate::move_generator::restrictions::{
    get_checked, king_sq_ok, king_square, spec_checks_amount,
};
use crate::move_register::models::{ChessMove, MoveType};

pub use self::search::{choose_move, get_ordered_moves, search_game_tree, MovePayload};

verus! {

/// Most valuable victim, least valuable attacker: the order in which captures are tried,
/// by victim (rows) and attacker (columns), each from king to pawn; smaller goes first.
pub const MVV_LVA_TABLE: [[i16; 6]; 6] = [
    [0, 0, 0, 0, 0, 0],
    [12, 15, 12, 11, 11, 10],
    [13, 20, 15, 13, 13, 12],
    [14, 26, 25, 15, 14, 13],
    [14, 32, 31, 30, 15, 13],
    [39, 38, 37, 36, 35, 15],
];

/// Whether a move forces a reply: anything but a quiet move or castling.
pub open spec fn spec_is_forcing(m: ChessMove) -> bool {
    !(m.move_type is Move || m.move_type is CastleMove)
}

/// Whether a move forces a reply: anything but a quiet move or castling.
pub fn is_forcing(test_move: ChessMove) -> (res: bool)
    ensures
        res == spec_is_forcing(test_move),
{
    match test_move.move_type {
        MoveType::Move(_) | MoveType::CastleMove(_) => false,
        _ => true,
    }
}

/// Whether the side to move is in check.
pub fn is_in_check(board: &Board) -> (res: bool)
    requires
        king_sq_ok(king_square(board@, board.turn)),
    ensures
        res == (spec_checks_amount(board@, board.turn) != 0),
{
    get_checked(board, board.turn).checks_amount != 0
}

/// Whether a square holds a queen.
pub open spec fn queen_at(b: BoardModel, i: int) -> bool {
    b.pieces[i] matches Some(p) && p.piece_type == PieceType::Queen
}

/// Whether a position counts as an endgame: both sides have little mating material, or
/// there is no queen on the board.
pub open spec fn spec_is_endgame(b: BoardModel) -> bool {
    (b.mating_material.0 <= 12 && b.mating_material.1 <= 12) || !(exists|i: int|
        0 <= i < 64 && #[trigger] queen_at(b, i))
}

/// Whether a position counts as an endgame.
pub fn is_endgame(board: &Board) -> (res: bool)
    ensures
        res == spec_is_endgame(board@),
{
    if board.mating_material.0 <= 12 && board.mating_material.1 <= 12 {
        return true;
    }
    let mut n: usize = 0;
    while n < 64
        invariant
            n <= 64,
            !(board.mating_material.0 <= 12 && board.mating_material.1 <= 12),
            forall|i: int| 0 <= i < n ==> !#[trigger] queen_at(board@, i),
        decreases 64 - n,
    {
        let sq = Square((n % 8) as i8, (n / 8) as i8);
        assert(sq.in_bounds() && sq.index() == n);
        if let Some(p) = board.get_square(sq) {
            if matches!(p.piece_type, PieceType::Queen) {
                assert(queen_at(board@, n as int));
                return false;
            }
        }
        n = n + 1;
    }
    true
}

/// Whether a square holds a pawn of a side.
pub open spec fn pawn_there(b: BoardModel, sq: Square, color: Color) -> bool {
    b.piece(sq) matches Some(p) && p.piece_type == PieceType::Pawn && p.color == color
}

/// Whether a square is attacked by a pawn of the side not to move.
pub open spec fn spec_is_attacked_by_pawn(b: BoardModel, sq: Square) -> bool {
    match b.turn {
        Color::White => pawn_there(b, Square((sq.0 - 1) as i8, (sq.1 + 1) as i8), Color::Black)
            || pawn_there(b, Square((sq.0 + 1) as i8, (sq.1 + 1) as i8), Color::Black),
        Color::Black => pawn_there(b, Square((sq.0 - 1) as i8, (sq.1 - 1) as i8), Color::White)
            || pawn_there(b, Square((sq.0 + 1) as i8, (sq.1 - 1) as i8), Color::White),
    }
}

/// Whether a square is attacked by a pawn of the side not to move.
pub fn is_attacked_by_pawn(board: &Board, sq: Square) -> (res: bool)
    requires
        -127 <= sq.0 <= 126,
        -127 <= sq.1 <= 126,
    ensures
        res == spec_is_attacked_by_pawn(board@, sq),
{
    let (dy, enemy) = match board.turn {
        Color::White => (1i8, Color::Black),
        Color::Black => (-1i8, Color::White),
    };
    let left = board.get_square(sq.add(Offset(-1, dy)));
    let right = board.get_square(sq.add(Offset(1, dy)));
    let l = match left {
        Some(p) => matches!(p.piece_type, PieceType::Pawn) && p.color == enemy,
        None => false,
    };
    let r = match right {
        Some(p) => matches!(p.piece_type, PieceType::Pawn) && p.color == enemy,
        None => false,
    };
    l || r
}

/// The change of the king distance score after a move, from the kings' positions: twice
/// the file and rank distance of the kings, counted against the side to move.
pub open spec fn spec_king_dist_chg(b: BoardModel) -> int {
    let dx = b.king_positions.0.0 - b.king_positions.1.0;
    let dy = b.king_positions.0.1 - b.king_positions.1.1;
    let d = (if dx < 0 { -dx } else { dx }) + (if dy < 0 { -dy } else { dy });
    match b.turn {
        Color::White => -d * 2,
        Color::Black => d * 2,
    }
}

/// Whether both kings stand on the board.
pub open spec fn kings_on_board(b: BoardModel) -> bool {
    b.king_positions.0.in_bounds() && b.king_positions.1.in_bounds()
}

/// Adds the king distance change of a position to an evaluation.
pub fn add_king_dist(eval: &mut Evaluation, board: &Board)
    requires
        kings_on_board(board@),
        i16::MIN <= old(eval).king_dist + spec_king_dist_chg(board@) <= i16::MAX,
    ensures
        *final(eval) == (Evaluation {
            king_dist: (old(eval).king_dist + spec_king_dist_chg(board@)) as i16,
            ..*old(eval)
        }),
{
    let dx = board.king_positions.0.0 - board.king_positions.1.0;
    let dy = board.king_positions.0.1 - board.king_positions.1.1;
    let adx = if dx < 0 { -dx } else { dx };
    let ady = if dy < 0 { -dy } else { dy };
    let d = adx + ady;
    let chg: i16 = match board.turn {
        Color::White => (-d * 2) as i16,
        Color::Black => (d * 2) as i16,
    };
    eval.king_dist = eval.king_dist + chg;
}

/// The material and table score of the pieces on the first `n` squares, or `None` where
/// the running material sum leaves the range of `i16`.
pub open spec fn material_partial(b: BoardModel, e: bool, n: int) -> Option<(int, int)>
    decreases n,
{
    if n <= 0 {
        Some((0, 0))
    } else {
        match material_partial(b, e, n - 1) {
            None => None,
            Some((m, p)) => match b.pieces[n - 1] {
                None => Some((m, p)),
                Some(piece) => {
                    let (dm, dp) = spec_piece_value(piece, e);
                    if i16::MIN <= m + dm <= i16::MAX {
                        Some((m + dm, p + dp))
                    } else {
                        None
                    }
                },
            },
        }
    }
}

proof fn lemma_pst_partial_bound(b: BoardModel, e: bool, n: int)
    requires
        0 <= n <= 64,
        positions_in_bounds(b),
    ensures
        material_partial(b, e, n) matches Some((m, p)) ==> -100 * n <= p <= 100 * n && i16::MIN <= m
            <= i16::MAX,
    decreases n,
{
    if n > 0 {
        lemma_pst_partial_bound(b, e, n - 1);
        if let Some(piece) = b.pieces[n - 1] {
            crate::chess_bot::piece_tables::lemma_piece_value_bounded(piece, e);
        }
    }
}

/// The static evaluation of a position, from white's point of view: material and table
/// values of all pieces, the pawn structure, and, outside the endgame, the space. `None`
/// where it cannot be computed: a piece records a position off the board, the running
/// material sum leaves `i16`, or a king stands off the board outside the endgame.
pub open spec fn spec_evaluate_position(b: BoardModel) -> Option<Evaluation> {
    let e = spec_is_endgame(b);
    if !positions_in_bounds(b) || (!e && !(0 <= b.king_positions.0.0 <= 7 && 0
        <= b.king_positions.1.0 <= 7)) {
        None
    } else {
        match material_partial(b, e, 64) {
            None => None,
            Some((m, p)) => Some(
                Evaluation {
                    material: m as i16,
                    pst: p as i16,
                    pawn_structure: spec_pawn_weaknesses(b) as i16,
                    space: if e {
                        0
                    } else {
                        spec_space_evaluate(spec_space(b), b) as i16
                    },
                    king_dist: 0,
                },
            ),
        }
    }
}

/// The static evaluation of a position; `None` where it cannot be computed (see
/// `spec_evaluate_position`).
pub fn evaluate_position(board: &Board) -> (res: Option<Evaluation>)
    ensures
        res == spec_evaluate_position(board@),
{
    let is_endgame = is_endgame(board);
    let mut res = Evaluation::new();
    let mut n: usize = 0;
    while n < 64
        invariant
            n <= 64,
            is_endgame == spec_is_endgame(board@),
            forall|i: int| 0 <= i < n ==> match #[trigger] board@.pieces[i] {
                Some(p) => p.position.in_bounds(),
                None => true,
            },
            material_partial(board@, is_endgame, n as int) == Some(
                (res.material as int, res.pst as int),
            ),
            -100 * n <= res.pst <= 100 * n,
            res.pawn_structure == 0 && res.space == 0 && res.king_dist == 0,
        decreases 64 - n,
    {
        let sq = Square((n % 8) as i8, (n / 8) as i8);
        assert(sq.in_bounds() && sq.index() == n);
        if let Some(p) = board.get_square(sq) {
            if !p.position.is_in_bounds() {
                return None;
            }
            let (material, pst) = piece_value(p, is_endgame);
            let sum = res.material as i32 + material as i32;
            if sum < -32768 || sum > 32767 {
                proof {
                    lemma_material_partial_none(board@, is_endgame, n as int + 1, 64);
                }
                return None;
            }
            res.material = sum as i16;
            res.pst = res.pst + pst;
        }
        n = n + 1;
    }
    let pawn_weakness_score = evaluate_pawn_weaknesses(board);
    let space_eval = if !is_endgame {
        if !(0 <= board.king_positions.0.0 && board.king_positions.0.0 <= 7 && 0
            <= board.king_positions.1.0 && board.king_positions.1.0 <= 7) {
            return None;
        }
        let space = Space::get_from_board(board);
        space.evaluate(board)
    } else {
        0
    };
    res.pawn_structure = pawn_weakness_score;
    res.space = space_eval;
    Some(res)
}

proof fn lemma_material_partial_none(b: BoardModel, e: bool, n: int, m: int)
    requires
        0 <= n <= m,
        material_partial(b, e, n) is None,
    ensures
        material_partial(b, e, m) is None,
    decreases m - n,
{
    if n < m {
        lemma_material_partial_none(b, e, n + 1, m);
    }
}

} // verus!
