use vstd::prelude::*;

use crate::board_setup::models::{Board, BoardModel};
use crate::move_generator::models::{Color, PieceType, Square};

verus! {

/// The space each side controls on the queen side (files a to c), in the centre (d and e)
/// and on the king side (f to h): white's count first, black's second.
#[derive(Clone, Copy, Debug)]
pub struct Space {
    pub queenside: (i8, i8),
    pub central: (i8, i8),
    pub kingside: (i8, i8),
}

/// Whether a square holds a pawn of a side.
pub open spec fn pawn_of(b: BoardModel, file: int, rank: int, color: Color) -> bool {
    b.piece(Square(file as i8, rank as i8)) matches Some(p) && p.piece_type == PieceType::Pawn
        && p.color == color
}

/// The lowest rank below `end` holding a white pawn on a file.
pub open spec fn lowest_white_pawn(b: BoardModel, file: int, end: int) -> Option<int>
    decreases end,
{
    if end <= 0 {
        None
    } else {
        match lowest_white_pawn(b, file, end - 1) {
            Some(r) => Some(r),
            None => if pawn_of(b, file, end - 1, Color::White) {
                Some(end - 1)
            } else {
                None
            },
        }
    }
}

/// The highest rank below `end` holding a black pawn on a file.
pub open spec fn highest_black_pawn(b: BoardModel, file: int, end: int) -> Option<int>
    decreases end,
{
    if end <= 0 {
        None
    } else if pawn_of(b, file, end - 1, Color::Black) {
        Some(end - 1)
    } else {
        highest_black_pawn(b, file, end - 1)
    }
}

proof fn lemma_pawn_rank_bounds(b: BoardModel, file: int, end: int)
    ensures
        lowest_white_pawn(b, file, end) matches Some(r) ==> 0 <= r < end,
        highest_black_pawn(b, file, end) matches Some(r) ==> 0 <= r < end,
    decreases end,
{
    if end > 0 {
        lemma_pawn_rank_bounds(b, file, end - 1);
    }
}

/// The space of each side on a file: for white the rank of its most backward pawn there
/// (counted from 0), for black the same counted from the eighth rank; a side without a
/// pawn on the file gets seven minus the other side's count, or 8 if neither has one.
pub open spec fn spec_file_space(b: BoardModel, file: int) -> (int, int) {
    let w = lowest_white_pawn(b, file, 8);
    let bl = match highest_black_pawn(b, file, 8) {
        Some(r) => Some(7 - r),
        None => None,
    };
    let white_space = match w {
        Some(r) => r,
        None => 7 - match bl {
            Some(x) => x,
            None => -1,
        },
    };
    let black_space = match bl {
        Some(x) => x,
        None => 7 - match w {
            Some(r) => r,
            None => -1,
        },
    };
    (white_space, black_space)
}

fn get_space_from_file(board: &Board, file: i8) -> (res: (i8, i8))
    requires
        0 <= file < 8,
    ensures
        res.0 == spec_file_space(board@, file as int).0,
        res.1 == spec_file_space(board@, file as int).1,
        0 <= res.0 <= 8,
        0 <= res.1 <= 8,
{
    let mut white_res: Option<i8> = None;
    let mut black_res: Option<i8> = None;
    let mut rank: i8 = 0;
    while rank < 8
        invariant
            0 <= rank <= 8,
            0 <= file < 8,
            white_res == match lowest_white_pawn(board@, file as int, rank as int) {
                Some(r) => Some(r as i8),
                None => None::<i8>,
            },
            black_res == match highest_black_pawn(board@, file as int, rank as int) {
                Some(r) => Some((7 - r) as i8),
                None => None::<i8>,
            },
        decreases 8 - rank,
    {
        proof {
            lemma_pawn_rank_bounds(board@, file as int, rank as int);
        }
        match board.get_square(Square(file, rank)) {
            Some(piece) => {
                if matches!(piece.piece_type, PieceType::Pawn) {
                    if matches!(piece.color, Color::White) {
                        if white_res.is_none() {
                            white_res = Some(rank);
                        }
                    } else {
                        black_res = Some(7 - rank);
                    }
                }
            },
            None => {},
        }
        rank = rank + 1;
    }
    proof {
        lemma_pawn_rank_bounds(board@, file as int, 8);
    }
    let white_space = match white_res {
        Some(r) => r,
        None => 7 - match black_res {
            Some(x) => x,
            None => -1,
        },
    };
    let black_space = match black_res {
        Some(x) => x,
        None => 7 - match white_res {
            Some(r) => r,
            None => -1,
        },
    };
    (white_space, black_space)
}

/// The space of the position, summed over the three regions.
pub open spec fn spec_space(b: BoardModel) -> Space {
    let s = |f: int| spec_file_space(b, f);
    Space {
        queenside: ((s(0).0 + s(1).0 + s(2).0) as i8, (s(0).1 + s(1).1 + s(2).1) as i8),
        central: ((s(3).0 + s(4).0) as i8, (s(3).1 + s(4).1) as i8),
        kingside: ((s(5).0 + s(6).0 + s(7).0) as i8, (s(5).1 + s(6).1 + s(7).1) as i8),
    }
}

/// The weight of the king side for a side whose king is on a file: positive when the king
/// is on the queen side, negative when it is on the king side.
pub open spec fn kingside_weight(king_file: int) -> int {
    if 0 <= king_file <= 2 {
        5
    } else if 3 <= king_file <= 4 {
        0
    } else {
        -5
    }
}

/// The weight of the queen side for a side whose king is on a file.
pub open spec fn queenside_weight(king_file: int) -> int {
    -kingside_weight(king_file)
}

fn kingside_weight_exec(king_file: i8) -> (res: i16)
    requires
        0 <= king_file <= 7,
    ensures
        res == kingside_weight(king_file as int),
{
    if king_file <= 2 {
        5
    } else if king_file <= 4 {
        0
    } else {
        -5
    }
}

fn weighted(x: i8, w: i16) -> (res: i16)
    requires
        0 <= x <= 24,
        w == -5 || w == 0 || w == 5,
    ensures
        res == x * w,
        -120 <= res <= 120,
{
    if w == 5 {
        x as i16 * 5
    } else if w == 0 {
        0
    } else {
        x as i16 * -5
    }
}

/// The space score for white of the regions, weighted by where the kings stand.
pub open spec fn spec_space_evaluate(s: Space, b: BoardModel) -> int {
    let wk = b.king_positions.0.0 as int;
    let bk = b.king_positions.1.0 as int;
    let queenside_eval = s.queenside.0 * queenside_weight(wk) - s.queenside.1 * queenside_weight(
        bk,
    );
    let central_eval = (s.central.0 - s.central.1) * 5;
    let kingside_eval = s.kingside.0 * kingside_weight(wk) - s.kingside.1 * kingside_weight(bk);
    queenside_eval + central_eval + kingside_eval
}

/// Whether the space of each region lies within what a board allows.
pub open spec fn space_bounded(s: Space) -> bool {
    &&& 0 <= s.queenside.0 <= 24
    &&& 0 <= s.queenside.1 <= 24
    &&& 0 <= s.central.0 <= 16
    &&& 0 <= s.central.1 <= 16
    &&& 0 <= s.kingside.0 <= 24
    &&& 0 <= s.kingside.1 <= 24
}

/// Whether `mb` is `b` seen from the other side: each square of `mb` holds a piece exactly
/// when the square mirrored across the middle of the board holds one in `b`, of the same
/// kind and of the other colour, and each side's king stands where the other side's king
/// stood in `b`, mirrored.
pub open spec fn mirror_of(mb: BoardModel, b: BoardModel) -> bool {
    &&& forall|f: int, r: int|
        0 <= f < 8 && 0 <= r < 8 ==> match (#[trigger] mb.piece(Square(f as i8, r as i8)), b.piece(
            Square(f as i8, (7 - r) as i8),
        )) {
            (Some(q), Some(p)) => q.piece_type == p.piece_type && q.color == p.color.spec_opp(),
            (None, None) => true,
            _ => false,
        }
    &&& mb.king_positions.0 == Square(b.king_positions.1.0, (7 - b.king_positions.1.1) as i8)
    &&& mb.king_positions.1 == Square(b.king_positions.0.0, (7 - b.king_positions.0.1) as i8)
}

proof fn lemma_lowest_white_pawn(b: BoardModel, file: int, end: int)
    ensures
        match lowest_white_pawn(b, file, end) {
            Some(r) => 0 <= r < end && pawn_of(b, file, r, Color::White) && forall|q: int|
                0 <= q < r ==> !#[trigger] pawn_of(b, file, q, Color::White),
            None => forall|q: int| 0 <= q < end ==> !#[trigger] pawn_of(b, file, q, Color::White),
        },
    decreases end,
{
    if end > 0 {
        lemma_lowest_white_pawn(b, file, end - 1);
    }
}

proof fn lemma_highest_black_pawn(b: BoardModel, file: int, end: int)
    ensures
        match highest_black_pawn(b, file, end) {
            Some(r) => 0 <= r < end && pawn_of(b, file, r, Color::Black) && forall|q: int|
                r < q < end ==> !#[trigger] pawn_of(b, file, q, Color::Black),
            None => forall|q: int| 0 <= q < end ==> !#[trigger] pawn_of(b, file, q, Color::Black),
        },
    decreases end,
{
    if end > 0 {
        lemma_highest_black_pawn(b, file, end - 1);
    }
}

proof fn lemma_mirror_pawns(mb: BoardModel, b: BoardModel, file: int, rank: int)
    requires
        mirror_of(mb, b),
        0 <= file < 8,
        0 <= rank < 8,
    ensures
        pawn_of(mb, file, rank, Color::White) == pawn_of(b, file, 7 - rank, Color::Black),
        pawn_of(mb, file, rank, Color::Black) == pawn_of(b, file, 7 - rank, Color::White),
{
    let q = mb.piece(Square(file as i8, rank as i8));
    let p = b.piece(Square(file as i8, (7 - rank) as i8));
    assert(match (q, p) {
        (Some(q), Some(p)) => q.piece_type == p.piece_type && q.color == p.color.spec_opp(),
        (None, None) => true,
        _ => false,
    });
}

proof fn lemma_mirror_file_space(mb: BoardModel, b: BoardModel, file: int)
    requires
        mirror_of(mb, b),
        0 <= file < 8,
    ensures
        spec_file_space(mb, file).0 == spec_file_space(b, file).1,
        spec_file_space(mb, file).1 == spec_file_space(b, file).0,
{
    assert forall|r: int| 0 <= r < 8 implies (pawn_of(mb, file, r, Color::White) == pawn_of(
        b,
        file,
        7 - r,
        Color::Black,
    ) && pawn_of(mb, file, r, Color::Black) == pawn_of(b, file, 7 - r, Color::White)) by {
        lemma_mirror_pawns(mb, b, file, r);
    }
    lemma_lowest_white_pawn(mb, file, 8);
    lemma_lowest_white_pawn(b, file, 8);
    lemma_highest_black_pawn(mb, file, 8);
    lemma_highest_black_pawn(b, file, 8);
    let wm = lowest_white_pawn(mb, file, 8);
    let bm = highest_black_pawn(mb, file, 8);
    let wb = lowest_white_pawn(b, file, 8);
    let bb = highest_black_pawn(b, file, 8);
    match bb {
        Some(r) => {
            assert(pawn_of(mb, file, 7 - r, Color::White));
            match wm {
                Some(x) => {
                    if x < 7 - r {
                        assert(pawn_of(b, file, 7 - x, Color::Black));
                    }
                    assert(x == 7 - r);
                },
                None => {
                    assert(!pawn_of(mb, file, 7 - r, Color::White));
                },
            }
        },
        None => {
            match wm {
                Some(x) => {
                    assert(pawn_of(b, file, 7 - x, Color::Black));
                },
                None => {},
            }
        },
    }
    match wb {
        Some(r) => {
            assert(pawn_of(mb, file, 7 - r, Color::Black));
            match bm {
                Some(x) => {
                    if x > 7 - r {
                        assert(pawn_of(b, file, 7 - x, Color::White));
                    }
                    assert(x == 7 - r);
                },
                None => {
                    assert(!pawn_of(mb, file, 7 - r, Color::Black));
                },
            }
        },
        None => {
            match bm {
                Some(x) => {
                    assert(pawn_of(b, file, 7 - x, Color::White));
                },
                None => {},
            }
        },
    }
}

/// Colour mirror: the position seen from the other side has the space of each region with
/// the two sides exchanged, and the negated space score.
pub proof fn lemma_space_mirror(mb: BoardModel, b: BoardModel)
    requires
        mirror_of(mb, b),
    ensures
        spec_space(mb).queenside == (spec_space(b).queenside.1, spec_space(b).queenside.0),
        spec_space(mb).central == (spec_space(b).central.1, spec_space(b).central.0),
        spec_space(mb).kingside == (spec_space(b).kingside.1, spec_space(b).kingside.0),
        spec_space_evaluate(spec_space(mb), mb) == -spec_space_evaluate(spec_space(b), b),
{
    lemma_mirror_file_space(mb, b, 0);
    lemma_mirror_file_space(mb, b, 1);
    lemma_mirror_file_space(mb, b, 2);
    lemma_mirror_file_space(mb, b, 3);
    lemma_mirror_file_space(mb, b, 4);
    lemma_mirror_file_space(mb, b, 5);
    lemma_mirror_file_space(mb, b, 6);
    lemma_mirror_file_space(mb, b, 7);
}

/// With both kings on the centre files the wings weigh nothing: the space score is five
/// points for each square of central space white has more than black.
pub proof fn lemma_space_centre_kings(s: Space, b: BoardModel)
    requires
        3 <= b.king_positions.0.0 <= 4,
        3 <= b.king_positions.1.0 <= 4,
    ensures
        spec_space_evaluate(s, b) == 5 * (s.central.0 - s.central.1),
{
    let wk = b.king_positions.0.0 as int;
    let bk = b.king_positions.1.0 as int;
    assert(kingside_weight(wk) == 0 && queenside_weight(wk) == 0);
    assert(kingside_weight(bk) == 0 && queenside_weight(bk) == 0);
    assert(s.queenside.0 * queenside_weight(wk) == 0 && s.queenside.1 * queenside_weight(bk) == 0
        && s.kingside.0 * kingside_weight(wk) == 0 && s.kingside.1 * kingside_weight(bk) == 0) by (nonlinear_arith)
        requires
            queenside_weight(wk) == 0,
            queenside_weight(bk) == 0,
            kingside_weight(wk) == 0,
            kingside_weight(bk) == 0,
    ;
}

impl Space {
    /// The space of each side in each region of the board.
    pub fn get_from_board(board: &Board) -> (res: Self)
        ensures
            res == spec_space(board@),
            space_bounded(res),
    {
        let f0 = get_space_from_file(board, 0);
        let f1 = get_space_from_file(board, 1);
        let f2 = get_space_from_file(board, 2);
        let f3 = get_space_from_file(board, 3);
        let f4 = get_space_from_file(board, 4);
        let f5 = get_space_from_file(board, 5);
        let f6 = get_space_from_file(board, 6);
        let f7 = get_space_from_file(board, 7);
        Self {
            queenside: (f0.0 + f1.0 + f2.0, f0.1 + f1.1 + f2.1),
            central: (f3.0 + f4.0, f3.1 + f4.1),
            kingside: (f5.0 + f6.0 + f7.0, f5.1 + f6.1 + f7.1),
        }
    }

    /// The space score for white: central space counts five points, the space on each
    /// wing five points for or against depending on which wing each king stands on.
    pub fn evaluate(self, board: &Board) -> (res: i16)
        requires
            space_bounded(self),
            0 <= board.king_positions.0.0 <= 7,
            0 <= board.king_positions.1.0 <= 7,
        ensures
            res == spec_space_evaluate(self, board@),
    {
        let white_king_file = board.king_positions.0.0;
        let black_king_file = board.king_positions.1.0;
        let white_kingside_weight = kingside_weight_exec(white_king_file);
        let white_queenside_weight = -white_kingside_weight;
        let black_kingside_weight = kingside_weight_exec(black_king_file);
        let black_queenside_weight = -black_kingside_weight;
        let central_weight: i16 = 5;
        let queenside_eval = weighted(self.queenside.0, white_queenside_weight) - weighted(
            self.queenside.1,
            black_queenside_weight,
        );
        let central_eval = (self.central.0 as i16 - self.central.1 as i16) * central_weight;
        let kingside_eval = weighted(self.kingside.0, white_kingside_weight) - weighted(
            self.kingside.1,
            black_kingside_weight,
        );
        queenside_eval + central_eval + kingside_eval
    }
}

} // verus!
