use vstd::prelude::*;

use crate::board_setup::models::{Board, BoardModel};
use crate::move_register::models::{ChessMove, MoveType};
use crate::move_register::ep_captured_square;

use super::models::{
    Attacked, CheckSquares, ChessPiece, Color, MoveDir, Offset, PieceType, PinDir, PinMap,
    PinSquares, Square, SquareSet,
};

verus! {

/// The number of steps a sliding piece can make at most.
pub const MAX_MOVES_IN_A_SERIES: usize = 7;

/// The eight directions of a queen, in the order in which they are searched.
pub open spec fn queen_dir(i: int) -> MoveDir {
    if i == 0 {
        MoveDir::Up
    } else if i == 1 {
        MoveDir::Down
    } else if i == 2 {
        MoveDir::Left
    } else if i == 3 {
        MoveDir::Right
    } else if i == 4 {
        MoveDir::UpLeft
    } else if i == 5 {
        MoveDir::DownLeft
    } else if i == 6 {
        MoveDir::UpRight
    } else {
        MoveDir::DownRight
    }
}

pub fn queen_dir_at(i: usize) -> (res: MoveDir)
    requires
        i < 8,
    ensures
        res == queen_dir(i as int),
{
    if i == 0 {
        MoveDir::Up
    } else if i == 1 {
        MoveDir::Down
    } else if i == 2 {
        MoveDir::Left
    } else if i == 3 {
        MoveDir::Right
    } else if i == 4 {
        MoveDir::UpLeft
    } else if i == 5 {
        MoveDir::DownLeft
    } else if i == 6 {
        MoveDir::UpRight
    } else {
        MoveDir::DownRight
    }
}

/// The eight jumps of a knight, in the order in which they are searched.
pub open spec fn knight_offset(i: int) -> Offset {
    if i == 0 {
        Offset(2, 1)
    } else if i == 1 {
        Offset(1, 2)
    } else if i == 2 {
        Offset(-1i8, 2)
    } else if i == 3 {
        Offset(-2i8, 1)
    } else if i == 4 {
        Offset(-2i8, -1i8)
    } else if i == 5 {
        Offset(-1i8, -2i8)
    } else if i == 6 {
        Offset(1, -2i8)
    } else {
        Offset(2, -1i8)
    }
}

pub fn knight_offset_at(i: usize) -> (res: Offset)
    requires
        i < 8,
    ensures
        res == knight_offset(i as int),
{
    if i == 0 {
        Offset(2, 1)
    } else if i == 1 {
        Offset(1, 2)
    } else if i == 2 {
        Offset(-1, 2)
    } else if i == 3 {
        Offset(-2, 1)
    } else if i == 4 {
        Offset(-2, -1)
    } else if i == 5 {
        Offset(-1, -2)
    } else if i == 6 {
        Offset(1, -2)
    } else {
        Offset(2, -1)
    }
}

/// The squares next to a king, and those its castling passes, whose safety the king's
/// moves depend on.
pub open spec fn potentially_attacked(i: int) -> Offset {
    if i == 0 {
        Offset(0, 1)
    } else if i == 1 {
        Offset(0, -1i8)
    } else if i == 2 {
        Offset(-1i8, 0)
    } else if i == 3 {
        Offset(1, 0)
    } else if i == 4 {
        Offset(-1i8, 1)
    } else if i == 5 {
        Offset(-1i8, -1i8)
    } else if i == 6 {
        Offset(1, 1)
    } else if i == 7 {
        Offset(1, -1i8)
    } else if i == 8 {
        Offset(1, 0)
    } else if i == 9 {
        Offset(2, 0)
    } else if i == 10 {
        Offset(-1i8, 0)
    } else if i == 11 {
        Offset(-2i8, 0)
    } else {
        Offset(-3i8, 0)
    }
}

fn potentially_attacked_at(i: usize) -> (res: Offset)
    requires
        i < 13,
    ensures
        res == potentially_attacked(i as int),
{
    if i == 0 {
        Offset(0, 1)
    } else if i == 1 {
        Offset(0, -1)
    } else if i == 2 {
        Offset(-1, 0)
    } else if i == 3 {
        Offset(1, 0)
    } else if i == 4 {
        Offset(-1, 1)
    } else if i == 5 {
        Offset(-1, -1)
    } else if i == 6 {
        Offset(1, 1)
    } else if i == 7 {
        Offset(1, -1)
    } else if i == 8 {
        Offset(1, 0)
    } else if i == 9 {
        Offset(2, 0)
    } else if i == 10 {
        Offset(-1, 0)
    } else if i == 11 {
        Offset(-2, 0)
    } else {
        Offset(-3, 0)
    }
}

pub open spec fn iabs(x: int) -> int {
    if x < 0 {
        -x
    } else {
        x
    }
}

/// Whether a piece of kind `piece`, standing at `offset` from a square, attacks that square
/// when the square belongs to `color` (which fixes the direction of pawns).
pub open spec fn spec_attack_condition(offset: Offset, color: Color, piece: PieceType) -> bool {
    let (x, y) = (offset.0 as int, offset.1 as int);
    match piece {
        PieceType::Pawn => match color {
            Color::White => (x == -1 && y == 1) || (x == 1 && y == 1),
            Color::Black => (x == -1 && y == -1) || (x == 1 && y == -1),
        },
        PieceType::Knight => (iabs(x) == 2 && iabs(y) == 1) || (iabs(x) == 1 && iabs(y) == 2),
        PieceType::Bishop => iabs(x) == iabs(y),
        PieceType::Rook => x == 0 || y == 0,
        PieceType::Queen => x == 0 || y == 0 || iabs(x) == iabs(y),
        PieceType::King => iabs(x) <= 1 && iabs(y) <= 1,
    }
}

fn abs_i8(x: i8) -> (res: i8)
    requires
        x != i8::MIN,
    ensures
        res == iabs(x as int),
{
    if x < 0 {
        -x
    } else {
        x
    }
}

/// Whether a piece of kind `piece`, standing at `offset` from a square, attacks that square.
pub fn attack_condition(offset: Offset, color: Color, piece: PieceType) -> (res: bool)
    requires
        offset.0 != i8::MIN,
        offset.1 != i8::MIN,
    ensures
        res == spec_attack_condition(offset, color, piece),
{
    match piece {
        PieceType::Pawn => match color {
            Color::White => offset == Offset(-1, 1) || offset == Offset(1, 1),
            Color::Black => offset == Offset(-1, -1) || offset == Offset(1, -1),
        },
        PieceType::Knight => {
            let (x, y) = (abs_i8(offset.0), abs_i8(offset.1));
            (x == 2 && y == 1) || (x == 1 && y == 2)
        },
        PieceType::Bishop => abs_i8(offset.0) == abs_i8(offset.1),
        PieceType::Rook => offset.0 == 0 || offset.1 == 0,
        PieceType::Queen => offset.0 == 0 || offset.1 == 0 || abs_i8(offset.0) == abs_i8(offset.1),
        PieceType::King => abs_i8(offset.0) <= 1 && abs_i8(offset.1) <= 1,
    }
}

/// The square `j` steps away from `sq` in direction `d`.
pub open spec fn ray_sq(sq: Square, d: Offset, j: nat) -> Square
    decreases j,
{
    if j == 0 {
        sq
    } else {
        ray_sq(sq, d, (j - 1) as nat).spec_add(d)
    }
}

/// The offset from `from` to `to`.
pub open spec fn offset_between(from: Square, to: Square) -> Offset {
    Offset((to.0 - from.0) as i8, (to.1 - from.1) as i8)
}

/// Whether every coordinate of a square, moved by up to `k` in each direction, stays in
/// the range of `i8`.
pub open spec fn near_board(sq: Square, lo: int, hi: int) -> bool {
    lo <= sq.0 <= hi && lo <= sq.1 <= hi
}

/// Whether a ray from `sq` in direction `d`, from step `j` on, meets an attacker of the
/// side `color` before anything else; the king of `color` does not block it.
pub open spec fn spec_ray_attacked(b: BoardModel, sq: Square, color: Color, d: Offset, j: nat) -> bool
    decreases 8 - j,
{
    if j > 7 || j == 0 {
        false
    } else {
        let t = ray_sq(sq, d, j);
        if !t.in_bounds() {
            false
        } else {
            match b.piece(t) {
                None => spec_ray_attacked(b, sq, color, d, j + 1),
                Some(p) => if p.piece_type == PieceType::King && p.color == color {
                    spec_ray_attacked(b, sq, color, d, j + 1)
                } else {
                    spec_attack_condition(offset_between(sq, t), color, p.piece_type) && p.color
                        != color
                },
            }
        }
    }
}

/// Whether an enemy knight (or anything the attack condition accepts) stands at the `k`th
/// knight jump from `sq`.
pub open spec fn spec_knight_attacks(b: BoardModel, sq: Square, color: Color, k: int) -> bool {
    let t = sq.spec_add(knight_offset(k));
    t.in_bounds() && match b.piece(t) {
        Some(p) => spec_attack_condition(knight_offset(k), color, p.piece_type) && p.color != color,
        None => false,
    }
}

/// Whether one of the first `n` queen directions from `sq` is attacked.
pub open spec fn rays_attacked(b: BoardModel, sq: Square, color: Color, n: int) -> bool
    decreases n,
{
    if n <= 0 {
        false
    } else {
        rays_attacked(b, sq, color, n - 1) || spec_ray_attacked(
            b,
            sq,
            color,
            queen_dir(n - 1).offset(),
            1,
        )
    }
}

/// Whether one of the first `n` knight jumps from `sq` holds an attacker.
pub open spec fn knights_attack(b: BoardModel, sq: Square, color: Color, n: int) -> bool
    decreases n,
{
    if n <= 0 {
        false
    } else {
        knights_attack(b, sq, color, n - 1) || spec_knight_attacks(b, sq, color, n - 1)
    }
}

/// Whether the side other than `color` attacks `sq`, looking through the king of `color`.
pub open spec fn spec_is_attacked(b: BoardModel, sq: Square, color: Color) -> bool {
    rays_attacked(b, sq, color, 8) || knights_attack(b, sq, color, 8)
}

proof fn lemma_ray_step(sq: Square, d: Offset, j: nat)
    ensures
        ray_sq(sq, d, j + 1) == ray_sq(sq, d, j).spec_add(d),
{
}

/// Whether the ray from `sq` in direction `dir` meets an attacker of `color`.
fn ray_attacked(board: &Board, sq: Square, color: Color, dir: MoveDir) -> (res: bool)
    requires
        near_board(sq, -127, 126),
    ensures
        res == spec_ray_attacked(board@, sq, color, dir.offset(), 1),
{
    let d = Offset::from_dir(dir);
    let mut off = d;
    let mut i: u8 = 1;
    assert(ray_sq(sq, d, 0) == sq);
    assert(ray_sq(sq, d, 1) == sq.spec_add(d));
    while i <= 7
        invariant
            1 <= i <= 8,
            near_board(sq, -127, 126),
            d == dir.offset(),
            spec_ray_attacked(board@, sq, color, d, 1) == spec_ray_attacked(board@, sq, color, d, i as nat),
            sq.0 + off.0 == ray_sq(sq, d, i as nat).0,
            sq.1 + off.1 == ray_sq(sq, d, i as nat).1,
            -(i as int) <= off.0 <= i as int,
            -(i as int) <= off.1 <= i as int,
            i == 1 || ray_sq(sq, d, (i - 1) as nat).in_bounds(),
            i == 1 ==> off == d,
        decreases 8 - i,
    {
        proof {
            lemma_ray_step(sq, d, (i - 1) as nat);
        }
        let target = match sq.c_add(off) {
            Some(t) => t,
            None => {
                return false;
            },
        };
        assert(target == ray_sq(sq, d, i as nat));
        let next = Offset(off.0 + d.0, off.1 + d.1);
        match board.get_square(target) {
            None => {},
            Some(p) => {
                if matches!(p.piece_type, PieceType::King) && p.color == color {
                } else {
                    assert(offset_between(sq, target) == off);
                    return attack_condition(off, color, p.piece_type) && p.color != color;
                }
            },
        }
        proof {
            lemma_ray_step(sq, d, i as nat);
        }
        off = next;
        i = i + 1;
    }
    false
}

/// Whether the side other than `color` attacks `sq`; the king of `color` does not block.
pub fn is_attacked(board: &Board, sq: Square, color: Color) -> (res: bool)
    requires
        near_board(sq, -126, 125),
    ensures
        res == spec_is_attacked(board@, sq, color),
{
    let mut k: usize = 0;
    while k < 8
        invariant
            0 <= k <= 8,
            near_board(sq, -126, 125),
            !rays_attacked(board@, sq, color, k as int),
        decreases 8 - k,
    {
        if ray_attacked(board, sq, color, queen_dir_at(k)) {
            assert(rays_attacked(board@, sq, color, (k + 1) as int));
            assert(rays_attacked(board@, sq, color, 8)) by {
                lemma_rays_attacked_mono(board@, sq, color, (k + 1) as int, 8);
            }
            return true;
        }
        k = k + 1;
    }
    let mut k: usize = 0;
    while k < 8
        invariant
            0 <= k <= 8,
            near_board(sq, -126, 125),
            !rays_attacked(board@, sq, color, 8),
            !knights_attack(board@, sq, color, k as int),
        decreases 8 - k,
    {
        let offset = knight_offset_at(k);
        match sq.c_add(offset) {
            None => {},
            Some(target) => match board.get_square(target) {
                None => {},
                Some(p) => {
                    if attack_condition(offset, color, p.piece_type) && p.color != color {
                        assert(knights_attack(board@, sq, color, (k + 1) as int));
                        assert(knights_attack(board@, sq, color, 8)) by {
                            lemma_knights_attack_mono(board@, sq, color, (k + 1) as int, 8);
                        }
                        return true;
                    }
                },
            },
        }
        k = k + 1;
    }
    false
}

proof fn lemma_rays_attacked_mono(b: BoardModel, sq: Square, color: Color, m: int, n: int)
    requires
        m <= n,
        rays_attacked(b, sq, color, m),
    ensures
        rays_attacked(b, sq, color, n),
    decreases n - m,
{
    if m < n {
        lemma_rays_attacked_mono(b, sq, color, m, n - 1);
    }
}

proof fn lemma_knights_attack_mono(b: BoardModel, sq: Square, color: Color, m: int, n: int)
    requires
        m <= n,
        knights_attack(b, sq, color, m),
    ensures
        knights_attack(b, sq, color, n),
    decreases n - m,
{
    if m < n {
        lemma_knights_attack_mono(b, sq, color, m, n - 1);
    }
}

/// The square the king of a side is recorded on.
pub open spec fn king_square(b: BoardModel, color: Color) -> Square {
    match color {
        Color::White => b.king_positions.0,
        Color::Black => b.king_positions.1,
    }
}

/// Whether a king square lies near enough to the board for the searches around it.
pub open spec fn king_sq_ok(sq: Square) -> bool {
    -125 <= sq.0 <= 125 && -126 <= sq.1 <= 125
}

fn king_square_of(board: &Board, color: Color) -> (res: Square)
    ensures
        res == king_square(board@, color),
{
    match color {
        Color::White => board.king_positions.0,
        Color::Black => board.king_positions.1,
    }
}

/// Whether `s` is one of the first `n` potentially attacked squares around the king of
/// `color` that the other side attacks.
pub open spec fn attacked_has(b: BoardModel, color: Color, n: int, s: Square) -> bool
    decreases n,
{
    if n <= 0 {
        false
    } else {
        attacked_has(b, color, n - 1, s) || {
            let t = king_square(b, color).spec_add(potentially_attacked(n - 1));
            t.in_bounds() && t == s && spec_is_attacked(b, t, color)
        }
    }
}

/// The squares around the king of `color`, and those its castling passes, that the other
/// side attacks.
pub fn get_attacked(board: &Board, color: Color) -> (res: Attacked)
    requires
        king_sq_ok(king_square(board@, color)),
    ensures
        forall|s: Square| res.0.has(s) == attacked_has(board@, color, 13, s),
{
    let sq = king_square_of(board, color);
    let mut res = SquareSet::new();
    let mut k: usize = 0;
    while k < 13
        invariant
            0 <= k <= 13,
            sq == king_square(board@, color),
            king_sq_ok(sq),
            forall|s: Square| res.has(s) == attacked_has(board@, color, k as int, s),
        decreases 13 - k,
    {
        let offset = potentially_attacked_at(k);
        match sq.c_add(offset) {
            None => {},
            Some(target_sq) => {
                if is_attacked(board, target_sq, color) {
                    res.insert(target_sq);
                }
            },
        }
        k = k + 1;
    }
    Attacked(res)
}

/// The step at which a ray from `sq` in direction `d`, from step `j` on, meets a piece of
/// the other side that gives check along it; `None` when the first piece met does not.
pub open spec fn spec_ray_checker(b: BoardModel, sq: Square, color: Color, d: Offset, j: nat) -> Option<nat>
    decreases 8 - j,
{
    if j > 7 || j == 0 {
        None
    } else {
        let t = ray_sq(sq, d, j);
        if !t.in_bounds() {
            None
        } else {
            match b.piece(t) {
                None => spec_ray_checker(b, sq, color, d, j + 1),
                Some(p) => if spec_attack_condition(offset_between(sq, t), color, p.piece_type)
                    && p.color != color {
                    Some(j)
                } else {
                    None
                },
            }
        }
    }
}

/// Whether `s` is one of the first `j` squares of the ray from `sq` in direction `d`.
pub open spec fn on_ray(sq: Square, d: Offset, s: Square, j: nat) -> bool
    decreases j,
{
    if j == 0 {
        false
    } else {
        on_ray(sq, d, s, (j - 1) as nat) || s == ray_sq(sq, d, j)
    }
}

pub open spec fn dir_checker(b: BoardModel, color: Color, k: int) -> Option<nat> {
    spec_ray_checker(b, king_square(b, color), color, queen_dir(k).offset(), 1)
}

/// Whether `s` lies on one of the first `n` checking rays to the king of `color`.
pub open spec fn ray_check_has(b: BoardModel, color: Color, n: int, s: Square) -> bool
    decreases n,
{
    if n <= 0 {
        false
    } else {
        ray_check_has(b, color, n - 1, s) || match dir_checker(b, color, n - 1) {
            Some(j) => on_ray(king_square(b, color), queen_dir(n - 1).offset(), s, j),
            None => false,
        }
    }
}

/// The number of the first `n` queen directions from the king of `color` that give check.
pub open spec fn ray_check_count(b: BoardModel, color: Color, n: int) -> nat
    decreases n,
{
    if n <= 0 {
        0
    } else {
        ray_check_count(b, color, n - 1) + if dir_checker(b, color, n - 1) is Some {
            1nat
        } else {
            0nat
        }
    }
}

/// Whether `s` holds one of the knights among the first `n` jumps that check the king.
pub open spec fn knight_check_has(b: BoardModel, color: Color, n: int, s: Square) -> bool
    decreases n,
{
    if n <= 0 {
        false
    } else {
        knight_check_has(b, color, n - 1, s) || (spec_knight_attacks(
            b,
            king_square(b, color),
            color,
            n - 1,
        ) && s == king_square(b, color).spec_add(knight_offset(n - 1)))
    }
}

pub open spec fn knight_check_count(b: BoardModel, color: Color, n: int) -> nat
    decreases n,
{
    if n <= 0 {
        0
    } else {
        knight_check_count(b, color, n - 1) + if spec_knight_attacks(
            b,
            king_square(b, color),
            color,
            n - 1,
        ) {
            1nat
        } else {
            0nat
        }
    }
}

/// How many pieces give check to the king of `color`.
pub open spec fn spec_checks_amount(b: BoardModel, color: Color) -> nat {
    ray_check_count(b, color, 8) + knight_check_count(b, color, 8)
}

/// The squares on which a check to the king of `color` can be stopped: the checking pieces
/// and the squares between them and the king.
pub open spec fn spec_check_square(b: BoardModel, color: Color, s: Square) -> bool {
    ray_check_has(b, color, 8, s) || knight_check_has(b, color, 8, s)
}

proof fn lemma_ray_check_count_bound(b: BoardModel, color: Color, n: int)
    requires
        0 <= n,
    ensures
        ray_check_count(b, color, n) <= n,
    decreases n,
{
    if n > 0 {
        lemma_ray_check_count_bound(b, color, n - 1);
    }
}

proof fn lemma_knight_check_count_bound(b: BoardModel, color: Color, n: int)
    requires
        0 <= n,
    ensures
        knight_check_count(b, color, n) <= n,
    decreases n,
{
    if n > 0 {
        lemma_knight_check_count_bound(b, color, n - 1);
    }
}

/// Follows a ray from `sq`: whether it ends at a checking piece, and the squares it passed
/// up to and with that piece.
fn ray_check(board: &Board, sq: Square, color: Color, dir: MoveDir) -> (res: (bool, SquareSet))
    requires
        near_board(sq, -127, 126),
    ensures
        res.0 == spec_ray_checker(board@, sq, color, dir.offset(), 1) is Some,
        res.0 ==> forall|s: Square| res.1.has(s) == on_ray(
            sq,
            dir.offset(),
            s,
            spec_ray_checker(board@, sq, color, dir.offset(), 1)->0,
        ),
{
    let d = Offset::from_dir(dir);
    let mut off = d;
    let mut squares = SquareSet::new();
    let mut i: u8 = 1;
    assert(ray_sq(sq, d, 0) == sq);
    assert(ray_sq(sq, d, 1) == sq.spec_add(d));
    while i <= 7
        invariant
            1 <= i <= 8,
            near_board(sq, -127, 126),
            d == dir.offset(),
            spec_ray_checker(board@, sq, color, d, 1) == spec_ray_checker(board@, sq, color, d, i as nat),
            forall|s: Square| squares.has(s) == on_ray(sq, d, s, (i - 1) as nat),
            sq.0 + off.0 == ray_sq(sq, d, i as nat).0,
            sq.1 + off.1 == ray_sq(sq, d, i as nat).1,
            -(i as int) <= off.0 <= i as int,
            -(i as int) <= off.1 <= i as int,
            i == 1 || ray_sq(sq, d, (i - 1) as nat).in_bounds(),
            i == 1 ==> off == d,
        decreases 8 - i,
    {
        proof {
            lemma_ray_step(sq, d, (i - 1) as nat);
        }
        let target = match sq.c_add(off) {
            Some(t) => t,
            None => {
                return (false, squares);
            },
        };
        assert(target == ray_sq(sq, d, i as nat));
        squares.insert(target);
        let next = Offset(off.0 + d.0, off.1 + d.1);
        match board.get_square(target) {
            None => {},
            Some(p) => {
                assert(offset_between(sq, target) == off);
                if attack_condition(off, color, p.piece_type) && p.color != color {
                    return (true, squares);
                } else {
                    return (false, squares);
                }
            },
        }
        proof {
            lemma_ray_step(sq, d, i as nat);
        }
        off = next;
        i = i + 1;
    }
    (false, squares)
}

/// The checks given to the king of `color`: how many pieces give check, and the squares on
/// which a piece can stop them.
pub fn get_checked(board: &Board, color: Color) -> (res: CheckSquares)
    requires
        king_sq_ok(king_square(board@, color)),
    ensures
        res.checks_amount == spec_checks_amount(board@, color),
        forall|s: Square| res.squares.has(s) == spec_check_square(board@, color, s),
{
    let sq = king_square_of(board, color);
    let mut res = CheckSquares { squares: SquareSet::new(), checks_amount: 0 };
    let mut k: usize = 0;
    while k < 8
        invariant
            0 <= k <= 8,
            sq == king_square(board@, color),
            king_sq_ok(sq),
            res.checks_amount == ray_check_count(board@, color, k as int),
            forall|s: Square| res.squares.has(s) == ray_check_has(board@, color, k as int, s),
        decreases 8 - k,
    {
        proof {
            lemma_ray_check_count_bound(board@, color, k as int);
        }
        let dir = queen_dir_at(k);
        let (found, squares) = ray_check(board, sq, color, dir);
        let ghost old_res = res;
        if found {
            let mut merged = res.squares;
            merged.extend(&squares);
            res.squares = merged;
            assert(forall|s: Square| res.squares.has(s) == (old_res.squares.has(s) || squares.has(s)));
            res.checks_amount = res.checks_amount + 1;
        }
        assert forall|s: Square| res.squares.has(s) == ray_check_has(board@, color, k + 1, s) by {
            assert(ray_check_has(board@, color, k + 1, s) == (ray_check_has(board@, color, k as int, s)
                || match dir_checker(board@, color, k as int) {
                Some(j) => on_ray(sq, dir.offset(), s, j),
                None => false,
            }));
        }
        k = k + 1;
    }
    let mut k: usize = 0;
    while k < 8
        invariant
            0 <= k <= 8,
            sq == king_square(board@, color),
            king_sq_ok(sq),
            res.checks_amount == ray_check_count(board@, color, 8) + knight_check_count(
                board@,
                color,
                k as int,
            ),
            forall|s: Square| res.squares.has(s) == (ray_check_has(board@, color, 8, s)
                || knight_check_has(board@, color, k as int, s)),
        decreases 8 - k,
    {
        proof {
            lemma_ray_check_count_bound(board@, color, 8);
            lemma_knight_check_count_bound(board@, color, k as int);
        }
        let offset = knight_offset_at(k);
        match sq.c_add(offset) {
            None => {},
            Some(target_sq) => match board.get_square(target_sq) {
                None => {},
                Some(p) => {
                    if attack_condition(offset, color, p.piece_type) && p.color != color {
                        res.squares.insert(target_sq);
                        res.checks_amount = res.checks_amount + 1;
                    }
                },
            },
        }
        k = k + 1;
    }
    res
}

/// The piece a ray from `sq` in direction `d`, from step `j` on, pins to the king of
/// `color`: the first piece met must belong to `color` and the next one must be an enemy
/// that attacks along the ray. `pin` is the candidate met so far.
pub open spec fn spec_ray_pin(
    b: BoardModel,
    sq: Square,
    color: Color,
    d: Offset,
    j: nat,
    pin: Option<Square>,
) -> Option<Square>
    decreases 8 - j,
{
    if j > 7 || j == 0 {
        None
    } else {
        let t = ray_sq(sq, d, j);
        if !t.in_bounds() {
            None
        } else {
            match b.piece(t) {
                None => spec_ray_pin(b, sq, color, d, j + 1, pin),
                Some(p) => if p.color == color && pin is None {
                    spec_ray_pin(b, sq, color, d, j + 1, Some(t))
                } else if spec_attack_condition(offset_between(sq, t), color, p.piece_type)
                    && p.color != color {
                    pin
                } else {
                    None
                },
            }
        }
    }
}

/// The pins along the first `n` queen directions from the king of `color`, as one entry
/// per square of the board.
pub open spec fn spec_ray_pins(b: BoardModel, color: Color, n: int) -> Seq<Option<PinDir>>
    decreases n,
{
    if n <= 0 {
        Seq::new(64, |i: int| None)
    } else {
        let m = spec_ray_pins(b, color, n - 1);
        match spec_ray_pin(b, king_square(b, color), color, queen_dir(n - 1).offset(), 1, None) {
            Some(s) => m.update(s.index(), Some(PinDir::spec_from_dir(queen_dir(n - 1)))),
            None => m,
        }
    }
}

/// Like `spec_ray_pin` for the horizontal pin that forbids an en passant capture: the
/// captured pawn on `skip` does not block, and the candidate must be a pawn.
pub open spec fn spec_ep_ray_pin(
    b: BoardModel,
    sq: Square,
    color: Color,
    d: Offset,
    skip: Square,
    j: nat,
    pin: Option<Square>,
) -> Option<Square>
    decreases 8 - j,
{
    if j > 7 || j == 0 {
        None
    } else {
        let t = ray_sq(sq, d, j);
        if !t.in_bounds() {
            None
        } else if t == skip {
            spec_ep_ray_pin(b, sq, color, d, skip, j + 1, pin)
        } else {
            match b.piece(t) {
                None => spec_ep_ray_pin(b, sq, color, d, skip, j + 1, pin),
                Some(p) => if p.color == color && p.piece_type == PieceType::Pawn && pin is None {
                    spec_ep_ray_pin(b, sq, color, d, skip, j + 1, Some(t))
                } else if spec_attack_condition(offset_between(sq, t), color, p.piece_type)
                    && p.color != color {
                    pin
                } else {
                    None
                },
            }
        }
    }
}

/// Whether a square holds a pawn of `color`.
pub open spec fn is_pawn_of(b: BoardModel, sq: Square, color: Color) -> bool {
    match b.piece(sq) {
        Some(p) => p.piece_type == PieceType::Pawn && p.color == color,
        None => false,
    }
}

/// Whether the en passant square of a position lies near enough to the board for the
/// searches around it.
pub open spec fn ep_sq_ok(b: BoardModel) -> bool {
    match b.en_passant_square {
        Some(e) => near_board(e, -126, 125),
        None => true,
    }
}

/// The pins of the pieces of `color` to their king, one entry per square of the board.
pub open spec fn spec_pins(b: BoardModel, color: Color) -> Seq<Option<PinDir>> {
    let m = spec_ray_pins(b, color, 8);
    match b.en_passant_square {
        None => m,
        Some(ep) => {
            let pawn_sq = ep_captured_square(ep, color);
            let count = (if is_pawn_of(b, pawn_sq.spec_add(Offset(-1i8, 0)), color) { 1int } else { 0int })
                + (if is_pawn_of(b, pawn_sq.spec_add(Offset(1, 0)), color) { 1int } else { 0int });
            if count != 1 {
                m
            } else {
                let sq = king_square(b, color);
                let m1 = match spec_ep_ray_pin(b, sq, color, Offset(-1i8, 0), pawn_sq, 1, None) {
                    Some(s) => m.update(s.index(), Some(PinDir::EnPassantBlock)),
                    None => m,
                };
                match spec_ep_ray_pin(b, sq, color, Offset(1, 0), pawn_sq, 1, None) {
                    Some(s) => m1.update(s.index(), Some(PinDir::EnPassantBlock)),
                    None => m1,
                }
            }
        },
    }
}

/// Follows a ray from `sq` and returns the square of the piece it pins, if any.
fn ray_pin(board: &Board, sq: Square, color: Color, dir: MoveDir) -> (res: Option<Square>)
    requires
        near_board(sq, -127, 126),
    ensures
        res == spec_ray_pin(board@, sq, color, dir.offset(), 1, None),
        res matches Some(s) ==> s.in_bounds(),
{
    let d = Offset::from_dir(dir);
    let mut off = d;
    let mut pin_sq: Option<Square> = None;
    let mut i: u8 = 1;
    assert(ray_sq(sq, d, 0) == sq);
    assert(ray_sq(sq, d, 1) == sq.spec_add(d));
    while i <= 7
        invariant
            1 <= i <= 8,
            near_board(sq, -127, 126),
            d == dir.offset(),
            spec_ray_pin(board@, sq, color, d, 1, None) == spec_ray_pin(board@, sq, color, d, i as nat, pin_sq),
            pin_sq matches Some(s) ==> s.in_bounds(),
            sq.0 + off.0 == ray_sq(sq, d, i as nat).0,
            sq.1 + off.1 == ray_sq(sq, d, i as nat).1,
            -(i as int) <= off.0 <= i as int,
            -(i as int) <= off.1 <= i as int,
            i == 1 || ray_sq(sq, d, (i - 1) as nat).in_bounds(),
            i == 1 ==> off == d,
        decreases 8 - i,
    {
        proof {
            lemma_ray_step(sq, d, (i - 1) as nat);
        }
        let target = match sq.c_add(off) {
            Some(t) => t,
            None => {
                return None;
            },
        };
        assert(target == ray_sq(sq, d, i as nat));
        let next = Offset(off.0 + d.0, off.1 + d.1);
        match board.get_square(target) {
            None => {},
            Some(p) => {
                assert(offset_between(sq, target) == off);
                if p.color == color && pin_sq.is_none() {
                    pin_sq = Some(target);
                } else if attack_condition(off, color, p.piece_type) && p.color != color {
                    return pin_sq;
                } else {
                    return None;
                }
            },
        }
        proof {
            lemma_ray_step(sq, d, i as nat);
        }
        off = next;
        i = i + 1;
    }
    None
}

/// Follows a horizontal ray from `sq`, passing over the pawn on `skip`, and returns the
/// pawn of `color` that may not capture en passant because of it, if any.
fn ep_ray_pin(board: &Board, sq: Square, color: Color, dir: MoveDir, skip: Square) -> (res: Option<Square>)
    requires
        near_board(sq, -127, 126),
    ensures
        res == spec_ep_ray_pin(board@, sq, color, dir.offset(), skip, 1, None),
        res matches Some(s) ==> s.in_bounds(),
{
    let d = Offset::from_dir(dir);
    let mut off = d;
    let mut pin_sq: Option<Square> = None;
    let mut i: u8 = 1;
    assert(ray_sq(sq, d, 0) == sq);
    assert(ray_sq(sq, d, 1) == sq.spec_add(d));
    while i <= 7
        invariant
            1 <= i <= 8,
            near_board(sq, -127, 126),
            d == dir.offset(),
            spec_ep_ray_pin(board@, sq, color, d, skip, 1, None) == spec_ep_ray_pin(
                board@,
                sq,
                color,
                d,
                skip,
                i as nat,
                pin_sq,
            ),
            pin_sq matches Some(s) ==> s.in_bounds(),
            sq.0 + off.0 == ray_sq(sq, d, i as nat).0,
            sq.1 + off.1 == ray_sq(sq, d, i as nat).1,
            -(i as int) <= off.0 <= i as int,
            -(i as int) <= off.1 <= i as int,
            i == 1 || ray_sq(sq, d, (i - 1) as nat).in_bounds(),
            i == 1 ==> off == d,
        decreases 8 - i,
    {
        proof {
            lemma_ray_step(sq, d, (i - 1) as nat);
        }
        let target = match sq.c_add(off) {
            Some(t) => t,
            None => {
                return None;
            },
        };
        assert(target == ray_sq(sq, d, i as nat));
        let next = Offset(off.0 + d.0, off.1 + d.1);
        if target != skip {
            match board.get_square(target) {
                None => {},
                Some(p) => {
                    assert(offset_between(sq, target) == off);
                    if p.color == color && matches!(p.piece_type, PieceType::Pawn)
                        && pin_sq.is_none() {
                        pin_sq = Some(target);
                    } else if attack_condition(off, color, p.piece_type) && p.color != color {
                        return pin_sq;
                    } else {
                        return None;
                    }
                },
            }
        }
        proof {
            lemma_ray_step(sq, d, i as nat);
        }
        off = next;
        i = i + 1;
    }
    None
}

fn is_pawn_of_exec(board: &Board, sq: Square, color: Color) -> (res: bool)
    ensures
        res == is_pawn_of(board@, sq, color),
{
    match board.get_square(sq) {
        Some(p) => matches!(p.piece_type, PieceType::Pawn) && p.color == color,
        None => false,
    }
}

/// The pieces of `color` pinned to their king, with the line of each pin; a pawn that may
/// not capture en passant because the capture would open a rank to its king is marked
/// `EnPassantBlock`.
pub fn get_pins(board: &Board, color: Color) -> (res: PinSquares)
    requires
        king_sq_ok(king_square(board@, color)),
        ep_sq_ok(board@),
    ensures
        (res.0).0@ == spec_pins(board@, color),
{
    let sq = king_square_of(board, color);
    let mut res = PinMap::new();
    assert(res.0@ =~= Seq::new(64, |i: int| None::<PinDir>)) by {
        assert forall|i: int| 0 <= i < 64 implies res.0@[i] == None::<PinDir> by {
            let s = Square((i % 8) as i8, (i / 8) as i8);
            assert(s.in_bounds() && s.index() == i);
            assert(res.spec_get(s) is None);
        }
    }
    let mut k: usize = 0;
    while k < 8
        invariant
            0 <= k <= 8,
            sq == king_square(board@, color),
            king_sq_ok(sq),
            res.0@ == spec_ray_pins(board@, color, k as int),
        decreases 8 - k,
    {
        let dir = queen_dir_at(k);
        match ray_pin(board, sq, color, dir) {
            Some(s) => {
                let ghost before = res.0@;
                let i = (s.1 * 8 + s.0) as usize;
                res.0[i] = Some(PinDir::from_dir(dir));
                assert(res.0@ =~= before.update(s.index(), Some(PinDir::spec_from_dir(dir))));
            },
            None => {},
        }
        k = k + 1;
    }
    if let Some(en_passant_sq) = board.en_passant_square {
        let pawn_sq = match color {
            Color::White => Square(en_passant_sq.0, en_passant_sq.1 - 1),
            Color::Black => Square(en_passant_sq.0, en_passant_sq.1 + 1),
        };
        assert(pawn_sq == ep_captured_square(en_passant_sq, color));
        let mut your_pawn_count: u8 = 0;
        if is_pawn_of_exec(board, pawn_sq.add(Offset(-1, 0)), color) {
            your_pawn_count = your_pawn_count + 1;
        }
        if is_pawn_of_exec(board, pawn_sq.add(Offset(1, 0)), color) {
            your_pawn_count = your_pawn_count + 1;
        }
        if your_pawn_count != 1 {
            return PinSquares(res);
        }
        match ep_ray_pin(board, sq, color, MoveDir::Left, pawn_sq) {
            Some(s) => {
                let ghost before = res.0@;
                let i = (s.1 * 8 + s.0) as usize;
                res.0[i] = Some(PinDir::EnPassantBlock);
                assert(res.0@ =~= before.update(s.index(), Some(PinDir::EnPassantBlock)));
            },
            None => {},
        }
        match ep_ray_pin(board, sq, color, MoveDir::Right, pawn_sq) {
            Some(s) => {
                let ghost before = res.0@;
                let i = (s.1 * 8 + s.0) as usize;
                res.0[i] = Some(PinDir::EnPassantBlock);
                assert(res.0@ =~= before.update(s.index(), Some(PinDir::EnPassantBlock)));
            },
            None => {},
        }
    }
    PinSquares(res)
}

/// Whether a move by `offset` keeps a pinned piece on the line of its pin.
pub open spec fn spec_pin_condition(offset: Offset, pin_dir: PinDir) -> bool {
    match pin_dir {
        PinDir::Vertical => offset.0 == 0,
        PinDir::Horizontal => offset.1 == 0,
        PinDir::LeftDiagonal => offset.0 == -offset.1,
        PinDir::RightDiagonal => offset.0 == offset.1,
        PinDir::EnPassantBlock => true,
    }
}

fn pin_condition(offset: Offset, pin_dir: PinDir) -> (res: bool)
    ensures
        res == spec_pin_condition(offset, pin_dir),
{
    match pin_dir {
        PinDir::Vertical => offset.0 == 0,
        PinDir::Horizontal => offset.1 == 0,
        PinDir::LeftDiagonal => offset.0 as i16 == -(offset.1 as i16),
        PinDir::RightDiagonal => offset.0 == offset.1,
        PinDir::EnPassantBlock => true,
    }
}

/// Whether a move passes the check restriction: with one check it must end on a square that
/// stops it (an en passant capture may also take the checking pawn).
pub open spec fn passes_check(m: ChessMove, checked: CheckSquares) -> bool {
    checked.squares.has(m.to) || (m.move_type == MoveType::EnPassantMove && checked.squares.has(
        Square(m.to.0, m.from.1),
    ))
}

/// The moves left when the side is in check: all of them without check, those that stop a
/// single check, none with a double check.
pub open spec fn spec_filter_with_checked(moves: Seq<ChessMove>, checked: CheckSquares) -> Seq<ChessMove> {
    if checked.checks_amount == 0 {
        moves
    } else if checked.checks_amount == 1 {
        moves.filter(|m: ChessMove| passes_check(m, checked))
    } else {
        Seq::empty()
    }
}

pub fn filter_with_checked(moves: Vec<ChessMove>, checked: &CheckSquares) -> (res: Vec<ChessMove>)
    requires
        checked.checks_amount <= 2,
    ensures
        res@ == spec_filter_with_checked(moves@, *checked),
{
    if checked.checks_amount == 0 {
        moves
    } else if checked.checks_amount == 1 {
        let ghost pred = |m: ChessMove| passes_check(m, *checked);
        let mut res: Vec<ChessMove> = Vec::new();
        let mut i: usize = 0;
        while i < moves.len()
            invariant
                0 <= i <= moves@.len(),
                res@ == moves@.take(i as int).filter(pred),
                pred == (|m: ChessMove| passes_check(m, *checked)),
            decreases moves@.len() - i,
        {
            let m = moves[i];
            proof {
                assert(moves@.take(i + 1) == moves@.take(i as int).push(m));
                moves@.take(i as int).lemma_filter_push(m, pred);
            }
            let keep = checked.squares.contains(&m.to) || (matches!(m.move_type, MoveType::EnPassantMove)
                && checked.squares.contains(&Square(m.to.0, m.from.1)));
            if keep {
                res.push(m);
            }
            i = i + 1;
        }
        assert(moves@.take(moves@.len() as int) == moves@);
        res
    } else {
        Vec::new()
    }
}

/// Whether a move respects the pin of the piece it moves.
pub open spec fn passes_pins(m: ChessMove, pins: PinSquares) -> bool {
    match pins.0.spec_get(m.from) {
        Some(dir) => spec_pin_condition(offset_between(m.from, m.to), dir),
        None => true,
    }
}

/// Whether every move of a pinned piece has an offset that fits in `i8`.
pub open spec fn pin_offsets_fit(moves: Seq<ChessMove>, pins: PinSquares) -> bool {
    forall|i: int| 0 <= i < moves.len() && (#[trigger] pins.0.spec_get(moves[i].from)) is Some
        ==> crate::move_generator::models::fits_i8(moves[i].to.0 - moves[i].from.0)
            && crate::move_generator::models::fits_i8(moves[i].to.1 - moves[i].from.1)
}

/// The moves that respect the pins.
pub fn filter_with_pins(moves: Vec<ChessMove>, pins: &PinSquares) -> (res: Vec<ChessMove>)
    requires
        pin_offsets_fit(moves@, *pins),
    ensures
        res@ == moves@.filter(|m: ChessMove| passes_pins(m, *pins)),
{
    let ghost pred = |m: ChessMove| passes_pins(m, *pins);
    let mut res: Vec<ChessMove> = Vec::new();
    let mut i: usize = 0;
    while i < moves.len()
        invariant
            0 <= i <= moves@.len(),
            pin_offsets_fit(moves@, *pins),
            res@ == moves@.take(i as int).filter(pred),
            pred == (|m: ChessMove| passes_pins(m, *pins)),
        decreases moves@.len() - i,
    {
        let m = moves[i];
        proof {
            assert(moves@.take(i + 1) == moves@.take(i as int).push(m));
            moves@.take(i as int).lemma_filter_push(m, pred);
        }
        let keep = match pins.0.get(&m.from) {
            Some(dir) => {
                assert(pins.0.spec_get(moves@[i as int].from) is Some);
                pin_condition(m.to.offset_from(m.from), dir)
            },
            None => true,
        };
        if keep {
            res.push(m);
        }
        i = i + 1;
    }
    assert(moves@.take(moves@.len() as int) == moves@);
    res
}

} // verus!
