use vstd::prelude::*;

use crate::board_setup::models::{Board, BoardModel};
use crate::move_generator::models::{ChessPiece, Color, PieceType, Square};

verus! {

/// The number of pawns of each side on each file (ranks 2 to 7 only).
pub struct PawnStructure {
    pub white: [u8; 8],
    pub black: [u8; 8],
}

/// Whether a square holds a pawn of a side.
pub open spec fn is_pawn_at(b: BoardModel, file: int, rank: int, color: Color) -> bool {
    b.piece(Square(file as i8, rank as i8)) matches Some(p) && p.piece_type == PieceType::Pawn
        && p.color == color
}

/// The number of pawns of a side on a file, on the ranks from the second up to (not
/// including) `rank_end`.
pub open spec fn pawns_on_file(b: BoardModel, file: int, color: Color, rank_end: int) -> int
    decreases rank_end,
{
    if rank_end <= 1 {
        0
    } else {
        pawns_on_file(b, file, color, rank_end - 1) + if is_pawn_at(b, file, rank_end - 1, color) {
            1int
        } else {
            0int
        }
    }
}

proof fn lemma_pawns_on_file_bound(b: BoardModel, file: int, color: Color, rank_end: int)
    ensures
        0 <= pawns_on_file(b, file, color, rank_end) <= if rank_end <= 1 {
            0
        } else {
            rank_end - 1
        },
    decreases rank_end,
{
    if rank_end > 1 {
        lemma_pawns_on_file_bound(b, file, color, rank_end - 1);
    }
}

/// The number of files among the first `n` on which a side has two pawns or more.
pub open spec fn doubled_files(counts: Seq<u8>, n: int) -> int
    decreases n,
{
    if n <= 0 {
        0
    } else {
        doubled_files(counts, n - 1) + if counts[n - 1] >= 2 {
            1int
        } else {
            0int
        }
    }
}

/// Whether the pawns on a file are isolated: the file has pawns and its neighbouring files
/// have none.
pub open spec fn isolated_file(counts: Seq<u8>, f: int) -> bool {
    &&& counts[f] != 0
    &&& (f == 0 || counts[f - 1] == 0)
    &&& (f == 7 || counts[f + 1] == 0)
}

/// The number of files among the first `n` whose pawns are isolated.
pub open spec fn isolated_files(counts: Seq<u8>, n: int) -> int
    decreases n,
{
    if n <= 0 {
        0
    } else {
        isolated_files(counts, n - 1) + if isolated_file(counts, n - 1) {
            1int
        } else {
            0int
        }
    }
}

proof fn lemma_file_counts_bound(counts: Seq<u8>, n: int)
    ensures
        0 <= doubled_files(counts, n) <= if n < 0 { 0 } else { n },
        0 <= isolated_files(counts, n) <= if n < 0 { 0 } else { n },
    decreases n,
{
    if n > 0 {
        lemma_file_counts_bound(counts, n - 1);
    }
}

impl PawnStructure {
    /// No pawns anywhere.
    pub fn new() -> (res: Self)
        ensures
            forall|f: int| 0 <= f < 8 ==> res.white@[f] == 0 && res.black@[f] == 0,
    {
        Self { white: [0; 8], black: [0; 8] }
    }

    /// The pawns of each side per file, counted on the second to seventh ranks.
    pub fn get_from_board(board: &Board) -> (res: Self)
        ensures
            forall|f: int|
                0 <= f < 8 ==> res.white@[f] == pawns_on_file(board@, f, Color::White, 7)
                    && res.black@[f] == pawns_on_file(board@, f, Color::Black, 7),
    {
        let mut res = PawnStructure::new();
        let mut rank: usize = 1;
        while rank <= 6
            invariant
                1 <= rank <= 7,
                forall|f: int|
                    0 <= f < 8 ==> res.white@[f] == pawns_on_file(board@, f, Color::White, rank as int)
                        && res.black@[f] == pawns_on_file(board@, f, Color::Black, rank as int),
            decreases 7 - rank,
        {
            let mut file: usize = 0;
            while file <= 7
                invariant
                    1 <= rank <= 6,
                    0 <= file <= 8,
                    forall|f: int|
                        0 <= f < 8 ==> res.white@[f] == pawns_on_file(
                            board@,
                            f,
                            Color::White,
                            if f < file { rank + 1 } else { rank as int },
                        ) && res.black@[f] == pawns_on_file(
                            board@,
                            f,
                            Color::Black,
                            if f < file { rank + 1 } else { rank as int },
                        ),
                decreases 8 - file,
            {
                proof {
                    lemma_pawns_on_file_bound(board@, file as int, Color::White, rank as int);
                    lemma_pawns_on_file_bound(board@, file as int, Color::Black, rank as int);
                }
                if let Some(piece) = board.get_square(Square(file as i8, rank as i8)) {
                    if matches!(piece.piece_type, PieceType::Pawn) && matches!(piece.color, Color::White) {
                        res.white[file] = res.white[file] + 1;
                    } else if matches!(piece.piece_type, PieceType::Pawn) && matches!(piece.color, Color::Black) {
                        res.black[file] = res.black[file] + 1;
                    }
                }
                file = file + 1;
            }
            rank = rank + 1;
        }
        res
    }

    /// The number of files with doubled pawns, for white and for black.
    pub fn count_doubled_pawns(&self) -> (res: (u8, u8))
        ensures
            res.0 == doubled_files(self.white@, 8),
            res.1 == doubled_files(self.black@, 8),
    {
        (count_doubled(self.white), count_doubled(self.black))
    }

    /// The number of files with isolated pawns, for white and for black.
    pub fn count_isolated_pawns(&self) -> (res: (u8, u8))
        ensures
            res.0 == isolated_files(self.white@, 8),
            res.1 == isolated_files(self.black@, 8),
    {
        (isolated_pawns_for_side(self.white), isolated_pawns_for_side(self.black))
    }
}

fn count_doubled(structure: [u8; 8]) -> (res: u8)
    ensures
        res == doubled_files(structure@, 8),
{
    let mut n: u8 = 0;
    let mut i: usize = 0;
    while i < 8
        invariant
            i <= 8,
            n == doubled_files(structure@, i as int),
        decreases 8 - i,
    {
        proof {
            lemma_file_counts_bound(structure@, i as int);
        }
        if structure[i] >= 2 {
            n = n + 1;
        }
        i = i + 1;
    }
    n
}

/// The number of files whose pawns are isolated.
fn isolated_pawns_for_side(structure: [u8; 8]) -> (res: u8)
    ensures
        res == isolated_files(structure@, 8),
{
    let mut n: u8 = 0;
    let mut i: usize = 0;
    while i < 8
        invariant
            i <= 8,
            n == isolated_files(structure@, i as int),
        decreases 8 - i,
    {
        proof {
            lemma_file_counts_bound(structure@, i as int);
        }
        let left_empty = i == 0 || structure[i - 1] == 0;
        let right_empty = i == 7 || structure[i + 1] == 0;
        if structure[i] != 0 && left_empty && right_empty {
            n = n + 1;
        }
        i = i + 1;
    }
    n
}

/// The pawn counts per file of a side in a position.
pub open spec fn file_counts(b: BoardModel, color: Color) -> Seq<u8> {
    Seq::new(8, |f: int| pawns_on_file(b, f, color, 7) as u8)
}

/// The numbers of files with doubled white pawns, doubled black pawns, isolated white
/// pawns and isolated black pawns.
pub fn get_pawn_weaknesses_from_board(board: &Board) -> (res: (u8, u8, u8, u8))
    ensures
        res.0 == doubled_files(file_counts(board@, Color::White), 8),
        res.1 == doubled_files(file_counts(board@, Color::Black), 8),
        res.2 == isolated_files(file_counts(board@, Color::White), 8),
        res.3 == isolated_files(file_counts(board@, Color::Black), 8),
{
    let structure = PawnStructure::get_from_board(board);
    assert(structure.white@ =~= file_counts(board@, Color::White));
    assert(structure.black@ =~= file_counts(board@, Color::Black));
    let doubled = structure.count_doubled_pawns();
    let isolated = structure.count_isolated_pawns();
    (doubled.0, doubled.1, isolated.0, isolated.1)
}

/// The pawn structure score: fifty points for each file with doubled or isolated pawns,
/// positive when black has more such files.
pub open spec fn spec_pawn_weaknesses(b: BoardModel) -> int {
    let w = file_counts(b, Color::White);
    let bl = file_counts(b, Color::Black);
    (doubled_files(bl, 8) - doubled_files(w, 8) + isolated_files(bl, 8) - isolated_files(w, 8))
        * 50
}

/// The pawn structure score of a position.
pub fn evaluate_pawn_weaknesses(board: &Board) -> (res: i16)
    ensures
        res == spec_pawn_weaknesses(board@),
        -800 <= res <= 800,
{
    let (dw, db, iw, ib) = get_pawn_weaknesses_from_board(board);
    proof {
        lemma_file_counts_bound(file_counts(board@, Color::White), 8);
        lemma_file_counts_bound(file_counts(board@, Color::Black), 8);
    }
    (db as i16 - dw as i16 + ib as i16 - iw as i16) * 50
}

/// Whether a side has a pawn on a file, on the second to the seventh rank.
pub open spec fn has_pawn_on_file(b: BoardModel, file: int, color: Color) -> bool {
    exists|r: int| 1 <= r <= 6 && #[trigger] is_pawn_at(b, file, r, color)
}

/// Whether the pawns of a side on a file stand alone: the side has pawns on the file and
/// none on either neighbouring file of the board.
pub open spec fn lone_pawn_file(b: BoardModel, file: int, color: Color) -> bool {
    &&& has_pawn_on_file(b, file, color)
    &&& (file == 0 || !has_pawn_on_file(b, file - 1, color))
    &&& (file == 7 || !has_pawn_on_file(b, file + 1, color))
}

/// The number of files among the first `n` whose pawns of a side stand alone.
pub open spec fn lone_pawn_files(b: BoardModel, color: Color, n: int) -> int
    decreases n,
{
    if n <= 0 {
        0
    } else {
        lone_pawn_files(b, color, n - 1) + if lone_pawn_file(b, n - 1, color) {
            1int
        } else {
            0int
        }
    }
}

proof fn lemma_pawns_on_file_positive(b: BoardModel, file: int, color: Color, rank_end: int)
    requires
        rank_end <= 7,
    ensures
        pawns_on_file(b, file, color, rank_end) > 0 <==> exists|r: int|
            1 <= r < rank_end && #[trigger] is_pawn_at(b, file, r, color),
    decreases rank_end,
{
    if rank_end > 1 {
        lemma_pawns_on_file_positive(b, file, color, rank_end - 1);
        lemma_pawns_on_file_bound(b, file, color, rank_end - 1);
        if exists|r: int| 1 <= r < rank_end && #[trigger] is_pawn_at(b, file, r, color) {
            let r = choose|r: int| 1 <= r < rank_end && #[trigger] is_pawn_at(b, file, r, color);
            if r < rank_end - 1 {
                assert(exists|r2: int| 1 <= r2 < rank_end - 1 && #[trigger] is_pawn_at(b, file, r2, color));
            }
        }
    }
}

/// The count of a side's pawns on a file is nonzero exactly when the side has a pawn there.
proof fn lemma_file_count_nonzero(b: BoardModel, file: int, color: Color)
    requires
        0 <= file < 8,
    ensures
        (file_counts(b, color)[file] != 0) == has_pawn_on_file(b, file, color),
{
    lemma_pawns_on_file_bound(b, file, color, 7);
    lemma_pawns_on_file_positive(b, file, color, 7);
}

/// The pawns of a side on a file count as isolated exactly when they stand alone: the side
/// has a pawn on the file and none on a neighbouring file. In particular a file with a pawn
/// of the same side on either neighbouring file is never counted.
pub proof fn lemma_isolated_file_is_lone(b: BoardModel, file: int, color: Color)
    requires
        0 <= file < 8,
    ensures
        isolated_file(file_counts(b, color), file) == lone_pawn_file(b, file, color),
{
    lemma_file_count_nonzero(b, file, color);
    if file > 0 {
        lemma_file_count_nonzero(b, file - 1, color);
    }
    if file < 7 {
        lemma_file_count_nonzero(b, file + 1, color);
    }
}

/// The isolated pawns counted for a side in a position are the files whose pawns stand
/// alone.
pub proof fn lemma_isolated_count_is_lone_files(b: BoardModel, color: Color, n: int)
    requires
        0 <= n <= 8,
    ensures
        isolated_files(file_counts(b, color), n) == lone_pawn_files(b, color, n),
    decreases n,
{
    if n > 0 {
        lemma_isolated_count_is_lone_files(b, color, n - 1);
        lemma_isolated_file_is_lone(b, n - 1, color);
    }
}

/// Whether a side has two pawns or more on a file, on the second to the seventh rank.
pub open spec fn has_two_pawns_on_file(b: BoardModel, file: int, color: Color) -> bool {
    exists|r1: int, r2: int|
        1 <= r1 < r2 <= 6 && #[trigger] is_pawn_at(b, file, r1, color) && #[trigger] is_pawn_at(b, file, r2, color)
}

/// The number of files among the first `n` where a side has two pawns or more.
pub open spec fn stacked_pawn_files(b: BoardModel, color: Color, n: int) -> int
    decreases n,
{
    if n <= 0 {
        0
    } else {
        stacked_pawn_files(b, color, n - 1) + if has_two_pawns_on_file(b, n - 1, color) {
            1int
        } else {
            0int
        }
    }
}

proof fn lemma_pawns_on_file_two(b: BoardModel, file: int, color: Color, rank_end: int)
    requires
        rank_end <= 7,
    ensures
        pawns_on_file(b, file, color, rank_end) >= 2 <==> exists|r1: int, r2: int|
            1 <= r1 < r2 < rank_end && #[trigger] is_pawn_at(b, file, r1, color) && #[trigger] is_pawn_at(
                b,
                file,
                r2,
                color,
            ),
    decreases rank_end,
{
    if rank_end > 1 {
        let e = rank_end - 1;
        lemma_pawns_on_file_two(b, file, color, e);
        lemma_pawns_on_file_positive(b, file, color, e);
        if pawns_on_file(b, file, color, rank_end) >= 2 {
            if pawns_on_file(b, file, color, e) < 2 {
                let r1 = choose|r: int| 1 <= r < e && #[trigger] is_pawn_at(b, file, r, color);
                assert(is_pawn_at(b, file, e, color));
                assert(1 <= r1 < e < rank_end);
            } else {
                let (r1, r2) = choose|r1: int, r2: int|
                    1 <= r1 < r2 < e && #[trigger] is_pawn_at(b, file, r1, color) && #[trigger] is_pawn_at(
                        b,
                        file,
                        r2,
                        color,
                    );
                assert(1 <= r1 < r2 < rank_end);
            }
        }
        if exists|r1: int, r2: int|
            1 <= r1 < r2 < rank_end && #[trigger] is_pawn_at(b, file, r1, color) && #[trigger] is_pawn_at(
                b,
                file,
                r2,
                color,
            ) {
            let (r1, r2) = choose|r1: int, r2: int|
                1 <= r1 < r2 < rank_end && #[trigger] is_pawn_at(b, file, r1, color) && #[trigger] is_pawn_at(
                    b,
                    file,
                    r2,
                    color,
                );
            if r2 < e {
                assert(1 <= r1 < r2 < e);
            } else {
                assert(exists|r: int| 1 <= r < e && #[trigger] is_pawn_at(b, file, r, color));
            }
        }
    }
}

/// The files counted as doubled for a side are those where it has two pawns or more.
pub proof fn lemma_doubled_count_is_stacked_files(b: BoardModel, color: Color, n: int)
    requires
        0 <= n <= 8,
    ensures
        doubled_files(file_counts(b, color), n) == stacked_pawn_files(b, color, n),
    decreases n,
{
    if n > 0 {
        lemma_doubled_count_is_stacked_files(b, color, n - 1);
        lemma_pawns_on_file_bound(b, n - 1, color, 7);
        lemma_pawns_on_file_two(b, n - 1, color, 7);
    }
}

} // verus!
