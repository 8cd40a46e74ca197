use vstd::prelude::*;

use crate::board_setup::laws::well_placed;
use crate::board_setup::models::BoardModel;
use crate::move_generator::laws::{castle_right, castle_ready, castles_ready, king_of, kings_recorded};
use crate::move_generator::models::{moves_upto, spec_all_moves, ChessPiece, Color, Offset, PieceType, PinDir, Square};
use crate::move_generator::restrictions::{attacked_has, iabs, knight_offset, queen_dir, spec_checks_amount};
use crate::move_generator::{
    capture_slot, check_pred, filter_checked, king_offset, king_steps, knight_raw, nones, opt_seq,
    pawn_moves_from, pawn_params, pawn_raw, pin_at, pin_pred, scaled, series_from, slider_raw, somes,
    spec_castles, spec_en_passant, spec_get_move, spec_king_moves, spec_pawn_captures,
    spec_pawn_get_moves, spec_pawn_moves, spec_piece_moves, spec_series,
};
use crate::move_register::models::{CastleType, ChessMove, MoveType};
use crate::move_register::{castle_color, castle_squares, ep_captured_square};

verus! {

// ---------------------------------------------------------------------------------------
// How the pieces move
// ---------------------------------------------------------------------------------------

/// The sign of an integer.
pub open spec fn sign(x: int) -> int {
    if x > 0 {
        1
    } else if x < 0 {
        -1
    } else {
        0
    }
}

/// The coordinate `j` steps from `a` in the direction `s` (1, -1 or 0).
pub open spec fn walk(a: int, s: int, j: int) -> int {
    if s > 0 {
        a + j
    } else if s < 0 {
        a - j
    } else {
        a
    }
}

/// The square `j` steps from `from` in the direction `(sx, sy)`.
pub open spec fn ray_point(from: Square, sx: int, sy: int, j: int) -> Square {
    Square(walk(from.0 as int, sx, j) as i8, walk(from.1 as int, sy, j) as i8)
}

/// The number of king steps between two squares on a line.
pub open spec fn span(from: Square, to: Square) -> int {
    let dx = iabs(to.0 - from.0);
    let dy = iabs(to.1 - from.1);
    if dx >= dy {
        dx
    } else {
        dy
    }
}

/// Whether every square strictly between two squares on a line is empty.
pub open spec fn path_clear(b: BoardModel, from: Square, to: Square) -> bool {
    let sx = sign(to.0 - from.0);
    let sy = sign(to.1 - from.1);
    forall|j: int| 0 < j < span(from, to) ==> #[trigger] b.piece(ray_point(from, sx, sy, j)) is None
}

/// Whether a piece of a kind other than a pawn can reach `to` from `from` on an empty
/// board: a knight's jump, a king's step, a rook's line, a bishop's diagonal or either for
/// a queen.
pub open spec fn reaches(t: PieceType, from: Square, to: Square) -> bool {
    let dx = iabs(to.0 - from.0);
    let dy = iabs(to.1 - from.1);
    match t {
        PieceType::Knight => (dx == 1 && dy == 2) || (dx == 2 && dy == 1),
        PieceType::King => dx <= 1 && dy <= 1 && dx + dy > 0,
        PieceType::Rook => (dx == 0 || dy == 0) && dx + dy > 0,
        PieceType::Bishop => dx == dy && dx > 0,
        PieceType::Queen => (dx == 0 || dy == 0 || dx == dy) && dx + dy > 0,
        PieceType::Pawn => false,
    }
}

/// The rank direction in which the pawns of a side move.
pub open spec fn forward(color: Color) -> int {
    match color {
        Color::White => 1,
        Color::Black => -1,
    }
}

/// The rank from which the pawns of a side may step two squares.
pub open spec fn pawn_home_rank(color: Color) -> int {
    match color {
        Color::White => 1,
        Color::Black => 6,
    }
}

/// The rank on which the pawns of a side promote.
pub open spec fn last_rank(color: Color) -> int {
    match color {
        Color::White => 7,
        Color::Black => 0,
    }
}

/// Whether a square holds a piece of the side other than `color`.
pub open spec fn enemy_on(b: BoardModel, sq: Square, color: Color) -> bool {
    b.piece(sq) matches Some(q) && q.color != color
}

/// Whether the squares between the king and the rook of a castling are empty.
pub open spec fn castle_path_free(b: BoardModel, ct: CastleType) -> bool {
    let (kf, _, _, _) = castle_squares(ct);
    match ct {
        CastleType::WhiteShort | CastleType::BlackShort => {
            &&& b.piece(Square((kf.0 + 1) as i8, kf.1)) is None
            &&& b.piece(Square((kf.0 + 2) as i8, kf.1)) is None
        },
        CastleType::WhiteLong | CastleType::BlackLong => {
            &&& b.piece(Square((kf.0 - 1) as i8, kf.1)) is None
            &&& b.piece(Square((kf.0 - 2) as i8, kf.1)) is None
            &&& b.piece(Square((kf.0 - 3) as i8, kf.1)) is None
        },
    }
}

/// Whether a move of `color` follows the rules by which the pieces move: it starts on a
/// piece of `color` and ends on the board; a piece other than a pawn moves to an empty
/// square or takes a piece of the other side along its own lines, with every square in
/// between empty; a pawn steps forward onto an empty square (two squares from its home rank
/// over an empty one), takes diagonally forward, takes en passant onto the target square,
/// and becomes another piece on the last rank, and only there; the king castles with a
/// right it holds, from its home square, over empty squares to the rook.
pub open spec fn follows_rules(b: BoardModel, m: ChessMove, color: Color) -> bool {
    let dx = m.to.0 - m.from.0;
    let dy = m.to.1 - m.from.1;
    let fwd = forward(color);
    &&& m.from.in_bounds()
    &&& m.to.in_bounds()
    &&& b.piece(m.from) matches Some(p) && p.color == color && match m.move_type {
        MoveType::Move(t) => {
            &&& t == p.piece_type
            &&& b.piece(m.to) is None
            &&& if t == PieceType::Pawn {
                &&& dx == 0
                &&& m.to.1 != last_rank(color)
                &&& (dy == fwd || (dy == 2 * fwd && m.from.1 == pawn_home_rank(color) && b.piece(
                    Square(m.from.0, (m.from.1 + fwd) as i8),
                ) is None))
            } else {
                reaches(t, m.from, m.to) && (t != PieceType::Knight ==> path_clear(b, m.from, m.to))
            }
        },
        MoveType::Capture(t) => {
            &&& t == p.piece_type
            &&& enemy_on(b, m.to, color)
            &&& if t == PieceType::Pawn {
                iabs(dx) == 1 && dy == fwd && m.to.1 != last_rank(color)
            } else {
                reaches(t, m.from, m.to) && (t != PieceType::Knight ==> path_clear(b, m.from, m.to))
            }
        },
        MoveType::EnPassantMove => {
            &&& p.piece_type == PieceType::Pawn
            &&& b.en_passant_square == Some(m.to)
            &&& iabs(dx) == 1
            &&& dy == fwd
            &&& enemy_on(b, ep_captured_square(m.to, color), color)
        },
        MoveType::CastleMove(ct) => {
            let (kf, _, kt, _) = castle_squares(ct);
            &&& p.piece_type == PieceType::King
            &&& castle_color(ct) == color
            &&& castle_right(b.castling, ct)
            &&& m.from == kf
            &&& m.to == kt
            &&& castle_path_free(b, ct)
        },
        MoveType::PromotionMove(_) => {
            &&& p.piece_type == PieceType::Pawn
            &&& b.piece(m.to) is None
            &&& dx == 0
            &&& dy == fwd
            &&& m.to.1 == last_rank(color)
        },
        MoveType::PromotionCapture(_) => {
            &&& p.piece_type == PieceType::Pawn
            &&& enemy_on(b, m.to, color)
            &&& iabs(dx) == 1
            &&& dy == fwd
            &&& m.to.1 == last_rank(color)
        },
    }
}

// ---------------------------------------------------------------------------------------
// Every generated move follows them
// ---------------------------------------------------------------------------------------

/// Whether every move of a sequence follows the rules.
pub open spec fn all_follow(b: BoardModel, s: Seq<ChessMove>, color: Color, sq: Square) -> bool {
    forall|i: int| 0 <= i < s.len() ==> follows_rules(b, #[trigger] s[i], color) && s[i].from == sq
}

/// Whether an optional move, if present, follows the rules.
pub open spec fn opt_follows(b: BoardModel, o: Option<ChessMove>, color: Color, sq: Square) -> bool {
    match o {
        Some(m) => follows_rules(b, m, color) && m.from == sq,
        None => true,
    }
}

proof fn lemma_somes_follow(b: BoardModel, s: Seq<Option<ChessMove>>, color: Color, sq: Square)
    requires
        forall|i: int| 0 <= i < s.len() ==> opt_follows(b, #[trigger] s[i], color, sq),
    ensures
        all_follow(b, somes(s), color, sq),
    decreases s.len(),
{
    if s.len() > 0 {
        assert forall|i: int| 0 <= i < s.drop_last().len() implies opt_follows(
            b,
            #[trigger] s.drop_last()[i],
            color,
        sq,
            ) by {
            assert(s.drop_last()[i] == s[i]);
        }
        lemma_somes_follow(b, s.drop_last(), color, sq);
        assert(opt_follows(b, s[s.len() - 1], color, sq));
    }
}

proof fn lemma_concat_follow(b: BoardModel, a: Seq<ChessMove>, c: Seq<ChessMove>, color: Color, sq: Square)
    requires
        all_follow(b, a, color, sq),
        all_follow(b, c, color, sq),
    ensures
        all_follow(b, a + c, color, sq),
{
    assert forall|i: int| 0 <= i < (a + c).len() implies follows_rules(b, #[trigger] (a + c)[i], color) by {
        if i < a.len() {
            assert((a + c)[i] == a[i]);
        } else {
            assert((a + c)[i] == c[i - a.len()]);
        }
    }
}

proof fn lemma_filter_follow(b: BoardModel, s: Seq<ChessMove>, f: spec_fn(ChessMove) -> bool, color: Color, sq: Square)
    requires
        all_follow(b, s, color, sq),
    ensures
        all_follow(b, s.filter(f), color, sq),
{
    assert forall|i: int| 0 <= i < s.filter(f).len() implies follows_rules(
        b,
        #[trigger] s.filter(f)[i],
        color,
    ) && s.filter(f)[i].from == sq by {
        let x = s.filter(f)[i];
        assert(s.filter(f).contains(x));
        s.lemma_filter_contains_rev(f, x);
    }
}

proof fn lemma_checked_follow(b: BoardModel, s: Seq<ChessMove>, color: Color, sq: Square)
    requires
        all_follow(b, s, color, sq),
    ensures
        all_follow(b, filter_checked(s, b, color), color, sq),
{
    lemma_filter_follow(b, s, check_pred(b, color), color, sq);
}

/// A step of a piece other than a pawn, seen by the rules: it starts on the piece, ends on
/// the square the offset leads to, and is a quiet move onto an empty square or a capture of
/// a piece of the other side.
proof fn lemma_get_move_lands(b: BoardModel, start: Square, off: Offset, piece: ChessPiece)
    requires
        b.piece(start) == Some(piece),
        start.in_bounds(),
        piece.piece_type != PieceType::Pawn,
        -7 <= off.0 <= 7,
        -7 <= off.1 <= 7,
    ensures
        spec_get_move(b, start, off, piece) matches Some(m) ==> {
            &&& m.from == start
            &&& m.to.in_bounds()
            &&& m.to.0 == start.0 + off.0
            &&& m.to.1 == start.1 + off.1
            &&& match m.move_type {
                MoveType::Move(t) => t == piece.piece_type && b.piece(m.to) is None,
                MoveType::Capture(t) => t == piece.piece_type && enemy_on(b, m.to, piece.color),
                _ => false,
            }
        },
{
}

proof fn lemma_knight_follow(b: BoardModel, p: ChessPiece, n: int)
    requires
        b.piece(p.position) == Some(p),
        p.position.in_bounds(),
        p.piece_type == PieceType::Knight,
        n <= 8,
    ensures
        all_follow(b, knight_raw(b, p, n), p.color, p.position),
    decreases n,
{
    if n > 0 {
        lemma_knight_follow(b, p, n - 1);
        let off = knight_offset(n - 1);
        lemma_get_move_lands(b, p.position, off, p);
        let o = spec_get_move(b, p.position, off, p);
        assert(opt_follows(b, o, p.color, p.position));
        let tail = opt_seq(o);
        assert(all_follow(b, tail, p.color, p.position));
        lemma_concat_follow(b, knight_raw(b, p, n - 1), tail, p.color, p.position);
    }
}

proof fn lemma_king_steps_follow(b: BoardModel, p: ChessPiece, n: int)
    requires
        b.piece(p.position) == Some(p),
        p.position.in_bounds(),
        p.piece_type == PieceType::King,
        n <= 8,
    ensures
        all_follow(b, king_steps(b, p, n), p.color, p.position),
    decreases n,
{
    if n > 0 {
        lemma_king_steps_follow(b, p, n - 1);
        let off = king_offset(n - 1);
        lemma_get_move_lands(b, p.position, off, p);
        let o = spec_get_move(b, p.position, off, p);
        if let Some(m) = o {
            assert(span(m.from, m.to) == 1);
            assert(follows_rules(b, m, p.color));
        }
        let tail = match o {
            Some(m) => if crate::move_generator::restrictions::attacked_has(b, p.color, 13, m.to) {
                Seq::<ChessMove>::empty()
            } else {
                seq![m]
            },
            None => Seq::<ChessMove>::empty(),
        };
        assert(all_follow(b, tail, p.color, p.position));
        lemma_concat_follow(b, king_steps(b, p, n - 1), tail, p.color, p.position);
    }
}

/// Whether an offset is one king step in some direction.
pub open spec fn unit(d: Offset) -> bool {
    -1 <= d.0 <= 1 && -1 <= d.1 <= 1 && !(d.0 == 0 && d.1 == 0)
}

/// Whether a sliding piece of a kind moves along a direction.
pub open spec fn slides_along(t: PieceType, d: Offset) -> bool {
    match t {
        PieceType::Rook => d.0 == 0 || d.1 == 0,
        PieceType::Bishop => d.0 != 0 && d.1 != 0,
        PieceType::Queen => true,
        _ => false,
    }
}

proof fn lemma_walk_scaled(x: i8, i: nat)
    requires
        -1 <= x <= 1,
        i <= 7,
    ensures
        (x * i) as i8 == walk(0, x as int, i as int),
{
    if x == 1 {
        assert(x * i == i) by (nonlinear_arith)
            requires
                x == 1,
        ;
    } else if x == -1 {
        assert(x * i == -i) by (nonlinear_arith)
            requires
                x == -1,
        ;
    } else {
        assert(x * i == 0) by (nonlinear_arith)
            requires
                x == 0,
        ;
    }
}

proof fn lemma_series_follow(
    b: BoardModel,
    start: Square,
    d: Offset,
    count: nat,
    piece: ChessPiece,
    i: nat,
    acc: Seq<Option<ChessMove>>,
)
    requires
        b.piece(start) == Some(piece),
        start.in_bounds(),
        unit(d),
        slides_along(piece.piece_type, d),
        1 <= i,
        acc.len() == 7,
        forall|k: int| 0 <= k < 7 ==> opt_follows(b, #[trigger] acc[k], piece.color, start),
        forall|j: int|
            0 < j < i ==> #[trigger] b.piece(ray_point(start, d.0 as int, d.1 as int, j)) is None,
    ensures
        series_from(b, start, d, count, piece, i, acc).len() == 7,
        forall|k: int|
            0 <= k < 7 ==> opt_follows(
                b,
                #[trigger] series_from(b, start, d, count, piece, i, acc)[k],
                piece.color,
            start,
            ),
    decreases 8 - i,
{
    if !(i == 0 || i > count || i > 7) {
        let off = scaled(d, i);
        lemma_walk_scaled(d.0, i);
        lemma_walk_scaled(d.1, i);
        lemma_get_move_lands(b, start, off, piece);
        let m = spec_get_move(b, start, off, piece);
        if let Some(mv) = m {
            let sx = sign(mv.to.0 - mv.from.0);
            let sy = sign(mv.to.1 - mv.from.1);
            assert(sx == d.0 && sy == d.1);
            assert(span(mv.from, mv.to) == i);
            assert forall|j: int| 0 < j < span(mv.from, mv.to) implies #[trigger] b.piece(
                ray_point(mv.from, sx, sy, j),
            ) is None by {
                assert(ray_point(mv.from, sx, sy, j) == ray_point(start, d.0 as int, d.1 as int, j));
            }
            assert(path_clear(b, mv.from, mv.to));
            assert(reaches(piece.piece_type, mv.from, mv.to));
            assert(follows_rules(b, mv, piece.color));
        }
        let acc2 = acc.update(i - 1, m);
        assert forall|k: int| 0 <= k < 7 implies opt_follows(b, #[trigger] acc2[k], piece.color, start) by {
            if k == i - 1 {
            }
        }
        let end = match m {
            Some(x) => !(x.move_type is Move),
            None => true,
        };
        if !end {
            let mv = m->0;
            assert(mv.to == ray_point(start, d.0 as int, d.1 as int, i as int));
            assert forall|j: int| 0 < j < i + 1 implies #[trigger] b.piece(
                ray_point(start, d.0 as int, d.1 as int, j),
            ) is None by {
                if j == i {
                }
            }
            lemma_series_follow(b, start, d, count, piece, i + 1, acc2);
        }
    }
}

/// Whether a range of queen directions is the one a sliding piece of a kind searches.
pub open spec fn slider_range(t: PieceType, first: int, n: int) -> bool {
    match t {
        PieceType::Rook => first == 0 && 0 <= n <= 4,
        PieceType::Bishop => first == 4 && 0 <= n <= 4,
        PieceType::Queen => first == 0 && 0 <= n <= 8,
        _ => false,
    }
}

proof fn lemma_slider_follow(b: BoardModel, p: ChessPiece, first: int, n: int)
    requires
        b.piece(p.position) == Some(p),
        p.position.in_bounds(),
        slider_range(p.piece_type, first, n),
    ensures
        all_follow(b, slider_raw(b, p, first, n), p.color, p.position),
    decreases n,
{
    if n > 0 {
        lemma_slider_follow(b, p, first, n - 1);
        let d = queen_dir(first + n - 1).offset();
        assert(unit(d) && slides_along(p.piece_type, d));
        lemma_series_follow(b, p.position, d, 7, p, 1, nones(7));
        let sr = spec_series(b, p.position, d, 7, p);
        lemma_somes_follow(b, sr, p.color, p.position);
        lemma_concat_follow(b, slider_raw(b, p, first, n - 1), somes(sr), p.color, p.position);
    }
}

proof fn lemma_castles_follow(b: BoardModel, p: ChessPiece, attacked: spec_fn(Square) -> bool)
    requires
        b.piece(p.position) == Some(p),
        p.position.in_bounds(),
        p.piece_type == PieceType::King,
        castles_ready(b),
        kings_recorded(b),
    ensures
        all_follow(b, somes(spec_castles(b, p.position, b.castling, attacked, p.color)), p.color, p.position),
{
    let s = spec_castles(b, p.position, b.castling, attacked, p.color);
    let pos = p.position;
    let i = pos.index();
    assert(i % 8 == pos.0 && i / 8 == pos.1);
    assert(b.pieces[i] == Some(p));
    assert(pos == king_of(b, p.color));
    assert(castle_right(b.castling, CastleType::WhiteShort) == b.castling.white_short);
    assert(castle_right(b.castling, CastleType::WhiteLong) == b.castling.white_long);
    assert(castle_right(b.castling, CastleType::BlackShort) == b.castling.black_short);
    assert(castle_right(b.castling, CastleType::BlackLong) == b.castling.black_long);
    if p.color == Color::White && (b.castling.white_short || b.castling.white_long) {
        if b.castling.white_short {
            assert(castle_ready(b, CastleType::WhiteShort));
        } else {
            assert(castle_ready(b, CastleType::WhiteLong));
        }
        assert(b.pieces[4] matches Some(k) && k.piece_type == PieceType::King && k.color == Color::White);
        assert(Square((4int % 8) as i8, (4int / 8) as i8) == Square(4, 0));
        assert(pos == Square(4, 0));
    }
    if p.color == Color::Black && (b.castling.black_short || b.castling.black_long) {
        if b.castling.black_short {
            assert(castle_ready(b, CastleType::BlackShort));
        } else {
            assert(castle_ready(b, CastleType::BlackLong));
        }
        assert(b.pieces[60] matches Some(k) && k.piece_type == PieceType::King && k.color == Color::Black);
        assert(Square((60int % 8) as i8, (60int / 8) as i8) == Square(4, 7));
        assert(pos == Square(4, 7));
    }
    assert forall|j: int| 0 <= j < s.len() implies opt_follows(b, #[trigger] s[j], p.color, p.position) by {
    }
    lemma_somes_follow(b, s, p.color, p.position);
}

proof fn lemma_king_follow(b: BoardModel, p: ChessPiece)
    requires
        b.piece(p.position) == Some(p),
        p.position.in_bounds(),
        p.piece_type == PieceType::King,
        castles_ready(b),
        kings_recorded(b),
    ensures
        all_follow(b, spec_king_moves(b, p), p.color, p.position),
{
    lemma_king_steps_follow(b, p, 8);
    let attacked = |s: Square| crate::move_generator::restrictions::attacked_has(b, p.color, 13, s);
    lemma_castles_follow(b, p, attacked);
    let tail = if crate::move_generator::restrictions::spec_checks_amount(b, p.color) == 0 {
        somes(spec_castles(b, p.position, b.castling, attacked, p.color))
    } else {
        Seq::<ChessMove>::empty()
    };
    lemma_concat_follow(b, king_steps(b, p, 8), tail, p.color, p.position);
}

proof fn lemma_pawn_moves_follow(
    b: BoardModel,
    start: Square,
    color: Color,
    count: nat,
    i: nat,
    res: Seq<Option<ChessMove>>,
)
    requires
        b.piece(start) matches Some(q) && q.color == color && q.piece_type == PieceType::Pawn,
        start.in_bounds(),
        count == (if start.1 == pawn_params(color).1 { 2nat } else { 1nat }),
        1 <= i,
        i == 2 ==> b.piece(Square(start.0, (start.1 + forward(color)) as i8)) is None,
        res.len() == 5,
        forall|k: int| 0 <= k < 5 ==> opt_follows(b, #[trigger] res[k], color, start),
    ensures
        pawn_moves_from(b, start, color, count, i, res).len() == 5,
        forall|k: int|
            0 <= k < 5 ==> opt_follows(b, #[trigger] pawn_moves_from(b, start, color, count, i, res)[k], color, start),
    decreases 3 - i,
{
    if !(i == 0 || i > count || i > 2) {
        let (t, _, promotion_rank) = pawn_params(color);
        lemma_walk_scaled(t.0, i);
        lemma_walk_scaled(t.1, i);
        match start.spec_c_add(scaled(t, i)) {
            None => {},
            Some(sq) => if b.piece(sq) is Some {
            } else if sq.1 == promotion_rank {
                assert(i == 1);
                let r2 = res.update(i - 1, crate::move_generator::promo(MoveType::PromotionMove(crate::move_register::models::PromotedPieceType::Queen), start, sq))
                    .update(i as int, crate::move_generator::promo(MoveType::PromotionMove(crate::move_register::models::PromotedPieceType::Bishop), start, sq))
                    .update(i + 1int, crate::move_generator::promo(MoveType::PromotionMove(crate::move_register::models::PromotedPieceType::Knight), start, sq))
                    .update(i + 2int, crate::move_generator::promo(MoveType::PromotionMove(crate::move_register::models::PromotedPieceType::Rook), start, sq));
                assert forall|k: int| 0 <= k < 5 implies opt_follows(b, #[trigger] r2[k], color, start) by {
                }
            } else {
                let r2 = res.update(
                    i - 1,
                    crate::move_generator::promo(MoveType::Move(PieceType::Pawn), start, sq),
                );
                assert forall|k: int| 0 <= k < 5 implies opt_follows(b, #[trigger] r2[k], color, start) by {
                    if k == i - 1 {
                    }
                }
                if i == 1 {
                    assert(sq == Square(start.0, (start.1 + forward(color)) as i8));
                }
                lemma_pawn_moves_follow(b, start, color, count, i + 1, r2);
            },
        }
    }
}

proof fn lemma_capture_slot_follow(
    b: BoardModel,
    start: Square,
    color: Color,
    i: int,
    res: Seq<Option<ChessMove>>,
)
    requires
        b.piece(start) matches Some(q) && q.color == color && q.piece_type == PieceType::Pawn,
        start.in_bounds(),
        0 <= i <= 1,
        res.len() == 8,
        forall|k: int| 0 <= k < 8 ==> opt_follows(b, #[trigger] res[k], color, start),
    ensures
        capture_slot(b, start, color, i, res).len() == 8,
        forall|k: int| 0 <= k < 8 ==> opt_follows(b, #[trigger] capture_slot(b, start, color, i, res)[k], color, start),
{
}

proof fn lemma_pawn_follow(b: BoardModel, p: ChessPiece)
    requires
        b.piece(p.position) == Some(p),
        p.position.in_bounds(),
        p.piece_type == PieceType::Pawn,
        b.en_passant_square matches Some(t) ==> t.in_bounds(),
    ensures
        all_follow(b, spec_pawn_get_moves(b, p), p.color, p.position),
{
    let start = p.position;
    let color = p.color;
    let (_, double_move_rank, _) = pawn_params(color);
    let count: nat = if start.1 == double_move_rank { 2 } else { 1 };
    lemma_pawn_moves_follow(b, start, color, count, 1, nones(5));
    lemma_somes_follow(b, spec_pawn_moves(b, start, color), color, start);
    lemma_capture_slot_follow(b, start, color, 0, nones(8));
    lemma_capture_slot_follow(b, start, color, 1, capture_slot(b, start, color, 0, nones(8)));
    lemma_somes_follow(b, spec_pawn_captures(b, start, color), color, start);
    let a = somes(spec_pawn_moves(b, start, color));
    let c = somes(spec_pawn_captures(b, start, color));
    lemma_concat_follow(b, a, c, color, start);
    if let Some(ep) = spec_en_passant(b, start, color) {
        assert(follows_rules(b, ep, color));
    }
    let e = match spec_en_passant(b, start, color) {
        Some(ep) => if crate::move_generator::pin_at(b, color, ep.from) == Some(
            crate::move_generator::models::PinDir::EnPassantBlock,
        ) {
            Seq::<ChessMove>::empty()
        } else {
            seq![ep]
        },
        None => Seq::<ChessMove>::empty(),
    };
    assert(all_follow(b, e, color, start));
    lemma_concat_follow(b, a + c, e, color, start);
    assert(pawn_raw(b, p) == a + c + e);
    lemma_checked_follow(b, pawn_raw(b, p), color, start);
    lemma_filter_follow(b, filter_checked(pawn_raw(b, p), b, color), pin_pred(b, color), color, start);
}

proof fn lemma_piece_follow(b: BoardModel, p: ChessPiece)
    requires
        b.piece(p.position) == Some(p),
        p.position.in_bounds(),
        castles_ready(b),
        kings_recorded(b),
        b.en_passant_square matches Some(t) ==> t.in_bounds(),
    ensures
        all_follow(b, spec_piece_moves(b, p), p.color, p.position),
{
    let pin = pin_pred(b, p.color);
    match p.piece_type {
        PieceType::Pawn => lemma_pawn_follow(b, p),
        PieceType::Knight => {
            lemma_knight_follow(b, p, 8);
            lemma_filter_follow(b, knight_raw(b, p, 8), pin, p.color, p.position);
            lemma_checked_follow(b, knight_raw(b, p, 8).filter(pin), p.color, p.position);
        },
        PieceType::Bishop => {
            lemma_slider_follow(b, p, 4, 4);
            lemma_filter_follow(b, slider_raw(b, p, 4, 4), pin, p.color, p.position);
            lemma_checked_follow(b, slider_raw(b, p, 4, 4).filter(pin), p.color, p.position);
        },
        PieceType::Rook => {
            lemma_slider_follow(b, p, 0, 4);
            lemma_filter_follow(b, slider_raw(b, p, 0, 4), pin, p.color, p.position);
            lemma_checked_follow(b, slider_raw(b, p, 0, 4).filter(pin), p.color, p.position);
        },
        PieceType::Queen => {
            lemma_slider_follow(b, p, 0, 8);
            lemma_filter_follow(b, slider_raw(b, p, 0, 8), pin, p.color, p.position);
            lemma_checked_follow(b, slider_raw(b, p, 0, 8).filter(pin), p.color, p.position);
        },
        PieceType::King => lemma_king_follow(b, p),
    }
}

/// Whether every move of a sequence follows the rules and passes the restrictions.
pub open spec fn all_rules(b: BoardModel, s: Seq<ChessMove>, color: Color) -> bool {
    forall|i: int|
        0 <= i < s.len() ==> follows_rules(b, #[trigger] s[i], color) && passes_restrictions(b, s[i], color)
}

proof fn lemma_upto_follow(b: BoardModel, color: Color, n: int)
    requires
        well_placed(b),
        castles_ready(b),
        kings_recorded(b),
        b.en_passant_square matches Some(t) ==> t.in_bounds(),
        n <= 64,
    ensures
        all_rules(b, moves_upto(b, color, n), color),
    decreases n,
{
    if n > 0 {
        lemma_upto_follow(b, color, n - 1);
        let tail = match b.pieces[n - 1] {
            Some(p) => if p.color == color {
                spec_piece_moves(b, p)
            } else {
                Seq::<ChessMove>::empty()
            },
            None => Seq::<ChessMove>::empty(),
        };
        if let Some(p) = b.pieces[n - 1] {
            if p.color == color {
                let i = n - 1;
                assert(b.pieces[i] matches Some(q) ==> q.position == Square((i % 8) as i8, (i / 8) as i8));
                assert(p.position.index() == i);
                lemma_piece_follow(b, p);
                lemma_piece_pass(b, p);
            }
        }
        assert(all_rules(b, tail, color));
        let a = moves_upto(b, color, n - 1);
        assert forall|i: int| 0 <= i < (a + tail).len() implies follows_rules(b, #[trigger] (a + tail)[i], color)
            && passes_restrictions(b, (a + tail)[i], color) by {
            if i < a.len() {
                assert((a + tail)[i] == a[i]);
            } else {
                assert((a + tail)[i] == tail[i - a.len()]);
            }
        }
    }
}

/// Every move the generator gives a side follows the rules by which the pieces move (see
/// `follows_rules`), in a position where every piece records its square, every castling
/// right has its king and rook in place, every king stands on the square its side records
/// and an en passant target lies on the board.
pub proof fn lemma_generated_moves_follow_rules(b: BoardModel, color: Color, m: ChessMove)
    requires
        well_placed(b),
        castles_ready(b),
        kings_recorded(b),
        b.en_passant_square matches Some(t) ==> t.in_bounds(),
        spec_all_moves(b, color).contains(m),
    ensures
        follows_rules(b, m, color),
{
    lemma_upto_follow(b, color, 64);
}

// ---------------------------------------------------------------------------------------
// Every move that follows the rules and passes the restrictions is generated
// ---------------------------------------------------------------------------------------

/// Whether a move of `color` stays within the checks: there is none, or there is one and
/// the move stops it.
pub open spec fn check_ok(b: BoardModel, m: ChessMove, color: Color) -> bool {
    spec_checks_amount(b, color) == 0 || (spec_checks_amount(b, color) == 1 && check_pred(b, color)(m))
}

/// Whether a move of `color` passes what the generator asks beyond the rules by which the
/// pieces move: a king does not step onto a square the other side attacks, and castles
/// only out of check and over squares the other side does not attack; any other piece
/// stays within the checks and its pin, and a pawn does not take en passant where that
/// would open the rank to its king.
pub open spec fn passes_restrictions(b: BoardModel, m: ChessMove, color: Color) -> bool {
    let attacked = |s: Square| attacked_has(b, color, 13, s);
    match b.piece(m.from) {
        None => false,
        Some(p) => if p.piece_type == PieceType::King {
            match m.move_type {
                MoveType::CastleMove(ct) => {
                    let (kf, _, _, _) = castle_squares(ct);
                    &&& spec_checks_amount(b, color) == 0
                    &&& match ct {
                        CastleType::WhiteShort | CastleType::BlackShort => !attacked(
                            Square((kf.0 + 1) as i8, kf.1),
                        ) && !attacked(Square((kf.0 + 2) as i8, kf.1)),
                        CastleType::WhiteLong | CastleType::BlackLong => !attacked(
                            Square((kf.0 - 1) as i8, kf.1),
                        ) && !attacked(Square((kf.0 - 2) as i8, kf.1)),
                    }
                },
                _ => !attacked(m.to),
            }
        } else {
            &&& check_ok(b, m, color)
            &&& pin_pred(b, color)(m)
            &&& m.move_type == MoveType::EnPassantMove ==> pin_at(b, color, m.from) != Some(
                PinDir::EnPassantBlock,
            )
        },
    }
}

proof fn lemma_in_filter(s: Seq<ChessMove>, f: spec_fn(ChessMove) -> bool, x: ChessMove)
    requires
        s.contains(x),
        f(x),
    ensures
        s.filter(f).contains(x),
{
    let i = choose|i: int| 0 <= i < s.len() && s[i] == x;
    s.lemma_filter_contains(f, i);
}

proof fn lemma_in_checked(s: Seq<ChessMove>, b: BoardModel, color: Color, x: ChessMove)
    requires
        s.contains(x),
        check_ok(b, x, color),
    ensures
        filter_checked(s, b, color).contains(x),
{
    if spec_checks_amount(b, color) == 1 {
        lemma_in_filter(s, check_pred(b, color), x);
    }
}

proof fn lemma_in_concat(a: Seq<ChessMove>, c: Seq<ChessMove>, x: ChessMove)
    requires
        a.contains(x) || c.contains(x),
    ensures
        (a + c).contains(x),
{
    if a.contains(x) {
        let i = choose|i: int| 0 <= i < a.len() && a[i] == x;
        assert((a + c)[i] == x);
    } else {
        let i = choose|i: int| 0 <= i < c.len() && c[i] == x;
        assert((a + c)[a.len() + i] == x);
    }
}

proof fn lemma_in_somes(s: Seq<Option<ChessMove>>, k: int, x: ChessMove)
    requires
        0 <= k < s.len(),
        s[k] == Some(x),
    ensures
        somes(s).contains(x),
    decreases s.len(),
{
    if k == s.len() - 1 {
        let r = somes(s.drop_last());
        assert(somes(s) == r.push(x));
        assert(r.push(x)[r.len() as int] == x);
    } else {
        assert(s.drop_last()[k] == s[k]);
        lemma_in_somes(s.drop_last(), k, x);
        let r = somes(s.drop_last());
        let i = choose|i: int| 0 <= i < r.len() && r[i] == x;
        match s.last() {
            Some(y) => {
                assert(r.push(y)[i] == x);
            },
            None => {},
        }
    }
}

/// The index of the knight jump by an offset.
pub open spec fn knight_index(dx: int, dy: int) -> int {
    if dx == 2 && dy == 1 {
        0
    } else if dx == 1 && dy == 2 {
        1
    } else if dx == -1 && dy == 2 {
        2
    } else if dx == -2 && dy == 1 {
        3
    } else if dx == -2 && dy == -1 {
        4
    } else if dx == -1 && dy == -2 {
        5
    } else if dx == 1 && dy == -2 {
        6
    } else {
        7
    }
}

/// The index of the king step by an offset.
pub open spec fn king_index(dx: int, dy: int) -> int {
    if dx == 1 && dy == 0 {
        0
    } else if dx == 1 && dy == 1 {
        1
    } else if dx == 0 && dy == 1 {
        2
    } else if dx == -1 && dy == 1 {
        3
    } else if dx == -1 && dy == 0 {
        4
    } else if dx == -1 && dy == -1 {
        5
    } else if dx == 0 && dy == -1 {
        6
    } else {
        7
    }
}

/// A quiet move or a capture of a piece other than a pawn that follows the rules is the
/// move the generator forms from its square by the move's offset.
proof fn lemma_step_formed(b: BoardModel, m: ChessMove, p: ChessPiece, off: Offset)
    requires
        follows_rules(b, m, p.color),
        b.piece(m.from) == Some(p),
        p.position == m.from,
        p.piece_type != PieceType::Pawn,
        m.move_type is Move || m.move_type is Capture,
        off.0 == m.to.0 - m.from.0,
        off.1 == m.to.1 - m.from.1,
    ensures
        spec_get_move(b, p.position, off, p) == Some(m),
{
    assert(m.from.spec_add(off) == m.to);
}

proof fn lemma_knight_raw_has(b: BoardModel, p: ChessPiece, n: int, k: int, x: ChessMove)
    requires
        0 <= k < n,
        spec_get_move(b, p.position, knight_offset(k), p) == Some(x),
    ensures
        knight_raw(b, p, n).contains(x),
    decreases n,
{
    if k == n - 1 {
        lemma_in_concat(knight_raw(b, p, n - 1), opt_seq(Some(x)), x);
        assert(opt_seq(Some(x))[0] == x);
    } else {
        lemma_knight_raw_has(b, p, n - 1, k, x);
        lemma_in_concat(
            knight_raw(b, p, n - 1),
            opt_seq(spec_get_move(b, p.position, knight_offset(n - 1), p)),
            x,
        );
    }
}

proof fn lemma_king_steps_has(b: BoardModel, p: ChessPiece, n: int, k: int, x: ChessMove)
    requires
        0 <= k < n,
        spec_get_move(b, p.position, king_offset(k), p) == Some(x),
        !attacked_has(b, p.color, 13, x.to),
    ensures
        king_steps(b, p, n).contains(x),
    decreases n,
{
    let tail = match spec_get_move(b, p.position, king_offset(n - 1), p) {
        Some(m) => if attacked_has(b, p.color, 13, m.to) {
            Seq::<ChessMove>::empty()
        } else {
            seq![m]
        },
        None => Seq::<ChessMove>::empty(),
    };
    if k == n - 1 {
        assert(tail[0] == x);
        lemma_in_concat(king_steps(b, p, n - 1), tail, x);
    } else {
        lemma_king_steps_has(b, p, n - 1, k, x);
        lemma_in_concat(king_steps(b, p, n - 1), tail, x);
    }
}

proof fn lemma_knight_complete(b: BoardModel, m: ChessMove, p: ChessPiece)
    requires
        follows_rules(b, m, p.color),
        passes_restrictions(b, m, p.color),
        b.piece(m.from) == Some(p),
        p.position == m.from,
        p.piece_type == PieceType::Knight,
    ensures
        spec_piece_moves(b, p).contains(m),
{
    let dx = m.to.0 - m.from.0;
    let dy = m.to.1 - m.from.1;
    let k = knight_index(dx, dy);
    let off = knight_offset(k);
    assert(off.0 == dx && off.1 == dy);
    lemma_step_formed(b, m, p, off);
    lemma_knight_raw_has(b, p, 8, k, m);
    lemma_in_filter(knight_raw(b, p, 8), pin_pred(b, p.color), m);
    lemma_in_checked(knight_raw(b, p, 8).filter(pin_pred(b, p.color)), b, p.color, m);
}

proof fn lemma_king_complete(b: BoardModel, m: ChessMove, p: ChessPiece)
    requires
        follows_rules(b, m, p.color),
        passes_restrictions(b, m, p.color),
        b.piece(m.from) == Some(p),
        p.position == m.from,
        p.piece_type == PieceType::King,
    ensures
        spec_piece_moves(b, p).contains(m),
{
    let attacked = |s: Square| attacked_has(b, p.color, 13, s);
    let tail = if spec_checks_amount(b, p.color) == 0 {
        somes(spec_castles(b, p.position, b.castling, attacked, p.color))
    } else {
        Seq::<ChessMove>::empty()
    };
    if let MoveType::CastleMove(ct) = m.move_type {
        let cs = spec_castles(b, p.position, b.castling, attacked, p.color);
        match ct {
            CastleType::WhiteShort | CastleType::BlackShort => {
                assert(cs[0] == Some(m));
                lemma_in_somes(cs, 0, m);
            },
            CastleType::WhiteLong | CastleType::BlackLong => {
                assert(cs[1] == Some(m));
                lemma_in_somes(cs, 1, m);
            },
        }
        lemma_in_concat(king_steps(b, p, 8), tail, m);
    } else {
        let dx = m.to.0 - m.from.0;
        let dy = m.to.1 - m.from.1;
        let k = king_index(dx, dy);
        let off = king_offset(k);
        assert(off.0 == dx && off.1 == dy);
        lemma_step_formed(b, m, p, off);
        lemma_king_steps_has(b, p, 8, k, m);
        lemma_in_concat(king_steps(b, p, 8), tail, m);
    }
}

/// The index of a direction among the queen directions.
pub open spec fn dir_index(sx: int, sy: int) -> int {
    if sx == 0 && sy == 1 {
        0
    } else if sx == 0 && sy == -1 {
        1
    } else if sx == -1 && sy == 0 {
        2
    } else if sx == 1 && sy == 0 {
        3
    } else if sx == -1 && sy == 1 {
        4
    } else if sx == -1 && sy == -1 {
        5
    } else if sx == 1 && sy == 1 {
        6
    } else {
        7
    }
}

proof fn lemma_series_keeps(
    b: BoardModel,
    start: Square,
    d: Offset,
    count: nat,
    piece: ChessPiece,
    i: nat,
    acc: Seq<Option<ChessMove>>,
    j: int,
)
    requires
        acc.len() == 7,
        0 <= j,
        j + 1 < i,
    ensures
        series_from(b, start, d, count, piece, i, acc).len() == 7,
        series_from(b, start, d, count, piece, i, acc)[j] == acc[j],
    decreases 8 - i,
{
    if !(i == 0 || i > count || i > 7) {
        let m = spec_get_move(b, start, scaled(d, i), piece);
        let acc2 = acc.update(i - 1, m);
        lemma_series_keeps(b, start, d, count, piece, i + 1, acc2, j);
    }
}

proof fn lemma_series_len(
    b: BoardModel,
    start: Square,
    d: Offset,
    count: nat,
    piece: ChessPiece,
    i: nat,
    acc: Seq<Option<ChessMove>>,
)
    requires
        acc.len() == 7,
    ensures
        series_from(b, start, d, count, piece, i, acc).len() == 7,
    decreases 8 - i,
{
    if !(i == 0 || i > count || i > 7) {
        let m = spec_get_move(b, start, scaled(d, i), piece);
        lemma_series_len(b, start, d, count, piece, i + 1, acc.update(i - 1, m));
    }
}

proof fn lemma_series_reaches(
    b: BoardModel,
    start: Square,
    d: Offset,
    piece: ChessPiece,
    i: nat,
    k: nat,
    acc: Seq<Option<ChessMove>>,
)
    requires
        start.in_bounds(),
        unit(d),
        1 <= i <= k <= 7,
        acc.len() == 7,
        forall|j: int|
            i <= j < k ==> #[trigger] b.piece(ray_point(start, d.0 as int, d.1 as int, j)) is None
                && ray_point(start, d.0 as int, d.1 as int, j).in_bounds(),
    ensures
        series_from(b, start, d, 7, piece, i, acc)[k - 1] == spec_get_move(b, start, scaled(d, k), piece),
    decreases k - i,
{
    lemma_walk_scaled(d.0, i);
    lemma_walk_scaled(d.1, i);
    let m = spec_get_move(b, start, scaled(d, i), piece);
    let acc2 = acc.update(i - 1, m);
    if i == k {
        if !(m matches Some(x) && !(x.move_type is Move)) && m is Some {
            lemma_series_keeps(b, start, d, 7, piece, i + 1, acc2, k - 1);
        }
    } else {
        let r = ray_point(start, d.0 as int, d.1 as int, i as int);
        assert(b.piece(r) is None && r.in_bounds());
        assert(start.spec_add(scaled(d, i)) == r);
        assert(m == Some(ChessMove { move_type: MoveType::Move(piece.piece_type), from: start, to: r }));
        lemma_series_reaches(b, start, d, piece, i + 1, k, acc2);
    }
}

proof fn lemma_slider_raw_has(b: BoardModel, p: ChessPiece, first: int, n: int, q: int, x: ChessMove)
    requires
        first <= q < first + n,
        somes(spec_series(b, p.position, queen_dir(q).offset(), 7, p)).contains(x),
    ensures
        slider_raw(b, p, first, n).contains(x),
    decreases n,
{
    let tail = somes(spec_series(b, p.position, queen_dir(first + n - 1).offset(), 7, p));
    if q == first + n - 1 {
        lemma_in_concat(slider_raw(b, p, first, n - 1), tail, x);
    } else {
        lemma_slider_raw_has(b, p, first, n - 1, q, x);
        lemma_in_concat(slider_raw(b, p, first, n - 1), tail, x);
    }
}

proof fn lemma_slider_complete(b: BoardModel, m: ChessMove, p: ChessPiece)
    requires
        follows_rules(b, m, p.color),
        passes_restrictions(b, m, p.color),
        b.piece(m.from) == Some(p),
        p.position == m.from,
        p.piece_type == PieceType::Rook || p.piece_type == PieceType::Bishop || p.piece_type
            == PieceType::Queen,
    ensures
        spec_piece_moves(b, p).contains(m),
{
    let dx = m.to.0 - m.from.0;
    let dy = m.to.1 - m.from.1;
    let sx = sign(dx);
    let sy = sign(dy);
    let k = span(m.from, m.to);
    let q = dir_index(sx, sy);
    let d = queen_dir(q).offset();
    assert(d.0 == sx && d.1 == sy);
    assert(unit(d));
    assert(1 <= k <= 7);
    lemma_walk_scaled(d.0, k as nat);
    lemma_walk_scaled(d.1, k as nat);
    let off = scaled(d, k as nat);
    assert(off.0 == dx && off.1 == dy);
    lemma_step_formed(b, m, p, off);
    assert forall|j: int|
        1 <= j < k implies #[trigger] b.piece(ray_point(m.from, d.0 as int, d.1 as int, j)) is None
            && ray_point(m.from, d.0 as int, d.1 as int, j).in_bounds() by {
        assert(ray_point(m.from, d.0 as int, d.1 as int, j) == ray_point(m.from, sx, sy, j));
    }
    lemma_series_reaches(b, m.from, d, p, 1, k as nat, nones(7));
    let sr = spec_series(b, p.position, d, 7, p);
    lemma_series_len(b, m.from, d, 7, p, 1, nones(7));
    lemma_in_somes(sr, k - 1, m);
    let (first, n) = match p.piece_type {
        PieceType::Bishop => (4int, 4int),
        PieceType::Rook => (0int, 4int),
        _ => (0int, 8int),
    };
    lemma_slider_raw_has(b, p, first, n, q, m);
    lemma_in_filter(slider_raw(b, p, first, n), pin_pred(b, p.color), m);
    lemma_in_checked(slider_raw(b, p, first, n).filter(pin_pred(b, p.color)), b, p.color, m);
}

proof fn lemma_pawn_moves_keeps(
    b: BoardModel,
    start: Square,
    color: Color,
    count: nat,
    i: nat,
    res: Seq<Option<ChessMove>>,
    j: int,
)
    requires
        res.len() == 5,
        0 <= j,
        j + 1 < i,
    ensures
        pawn_moves_from(b, start, color, count, i, res).len() == 5,
        pawn_moves_from(b, start, color, count, i, res)[j] == res[j],
    decreases 3 - i,
{
    if !(i == 0 || i > count || i > 2) {
        let (t, _, promotion_rank) = pawn_params(color);
        match start.spec_c_add(scaled(t, i)) {
            None => {},
            Some(sq) => if b.piece(sq) is Some {
            } else if sq.1 == promotion_rank {
            } else {
                lemma_pawn_moves_keeps(
                    b,
                    start,
                    color,
                    count,
                    i + 1,
                    res.update(i - 1, crate::move_generator::promo(MoveType::Move(PieceType::Pawn), start, sq)),
                    j,
                );
            },
        }
    }
}

/// The slot of a promotion's new piece among the four promotions the generator forms.
pub open spec fn promo_slot(t: crate::move_register::models::PromotedPieceType) -> int {
    match t {
        crate::move_register::models::PromotedPieceType::Queen => 0,
        crate::move_register::models::PromotedPieceType::Bishop => 1,
        crate::move_register::models::PromotedPieceType::Knight => 2,
        crate::move_register::models::PromotedPieceType::Rook => 3,
    }
}

proof fn lemma_pawn_push_complete(b: BoardModel, m: ChessMove, p: ChessPiece)
    requires
        follows_rules(b, m, p.color),
        b.piece(m.from) == Some(p),
        p.position == m.from,
        p.piece_type == PieceType::Pawn,
        m.move_type is Move || m.move_type is PromotionMove,
    ensures
        somes(spec_pawn_moves(b, m.from, p.color)).contains(m),
{
    let color = p.color;
    let start = m.from;
    let (t, home, last) = pawn_params(color);
    let count: nat = if start.1 == home { 2 } else { 1 };
    lemma_walk_scaled(t.0, 1);
    lemma_walk_scaled(t.1, 1);
    lemma_walk_scaled(t.0, 2);
    lemma_walk_scaled(t.1, 2);
    let sq1 = start.spec_add(scaled(t, 1));
    assert(sq1 == Square(start.0, (start.1 + forward(color)) as i8));
    let full = pawn_moves_from(b, start, color, count, 1, nones(5));
    assert(full == spec_pawn_moves(b, start, color));
    if m.move_type is PromotionMove {
        let pt = m.move_type->PromotionMove_0;
        assert(sq1 == m.to);
        assert(full[promo_slot(pt)] == Some(m));
        lemma_in_somes(full, promo_slot(pt), m);
    } else if m.to.1 - m.from.1 == forward(color) {
        assert(sq1 == m.to);
        let r2 = nones(5).update(0, crate::move_generator::promo(MoveType::Move(PieceType::Pawn), start, sq1));
        assert(full == pawn_moves_from(b, start, color, count, 2, r2));
        lemma_pawn_moves_keeps(b, start, color, count, 2, r2, 0);
        lemma_in_somes(full, 0, m);
    } else {
        assert(count == 2);
        assert(sq1.1 != last);
        let r2 = nones(5).update(0, crate::move_generator::promo(MoveType::Move(PieceType::Pawn), start, sq1));
        assert(full == pawn_moves_from(b, start, color, count, 2, r2));
        let sq2 = start.spec_add(scaled(t, 2));
        assert(sq2 == m.to);
        let r3 = r2.update(1, crate::move_generator::promo(MoveType::Move(PieceType::Pawn), start, sq2));
        assert(pawn_moves_from(b, start, color, count, 2, r2) == pawn_moves_from(b, start, color, count, 3, r3));
        assert(full[1] == Some(m));
        lemma_in_somes(full, 1, m);
    }
}

proof fn lemma_pawn_capture_complete(b: BoardModel, m: ChessMove, p: ChessPiece)
    requires
        follows_rules(b, m, p.color),
        b.piece(m.from) == Some(p),
        p.position == m.from,
        p.piece_type == PieceType::Pawn,
        m.move_type is Capture || m.move_type is PromotionCapture,
    ensures
        somes(spec_pawn_captures(b, m.from, p.color)).contains(m),
{
    let color = p.color;
    let start = m.from;
    let i: int = if m.to.0 - m.from.0 == -1 { 0 } else { 1 };
    let off = crate::move_generator::pawn_capture_offset(color, i);
    assert(start.spec_add(off) == m.to);
    let first = capture_slot(b, start, color, 0, nones(8));
    let full = capture_slot(b, start, color, 1, first);
    let slot = 4 * i + if m.move_type is PromotionCapture {
        promo_slot(m.move_type->PromotionCapture_0)
    } else {
        0
    };
    assert(full[slot] == Some(m));
    lemma_in_somes(full, slot, m);
}

proof fn lemma_pawn_complete(b: BoardModel, m: ChessMove, p: ChessPiece)
    requires
        follows_rules(b, m, p.color),
        passes_restrictions(b, m, p.color),
        b.piece(m.from) == Some(p),
        p.position == m.from,
        p.piece_type == PieceType::Pawn,
    ensures
        spec_piece_moves(b, p).contains(m),
{
    let color = p.color;
    let start = m.from;
    let a = somes(spec_pawn_moves(b, start, color));
    let c = somes(spec_pawn_captures(b, start, color));
    let e = match spec_en_passant(b, start, color) {
        Some(ep) => if pin_at(b, color, ep.from) == Some(PinDir::EnPassantBlock) {
            Seq::<ChessMove>::empty()
        } else {
            seq![ep]
        },
        None => Seq::<ChessMove>::empty(),
    };
    assert(pawn_raw(b, p) == a + c + e);
    match m.move_type {
        MoveType::Move(_) | MoveType::PromotionMove(_) => {
            lemma_pawn_push_complete(b, m, p);
            lemma_in_concat(a, c, m);
            lemma_in_concat(a + c, e, m);
        },
        MoveType::Capture(_) | MoveType::PromotionCapture(_) => {
            lemma_pawn_capture_complete(b, m, p);
            lemma_in_concat(a, c, m);
            lemma_in_concat(a + c, e, m);
        },
        MoveType::EnPassantMove => {
            assert(spec_en_passant(b, start, color) == Some(m));
            assert(e[0] == m);
            lemma_in_concat(a + c, e, m);
        },
        MoveType::CastleMove(_) => {},
    }
    lemma_in_checked(pawn_raw(b, p), b, color, m);
    lemma_in_filter(filter_checked(pawn_raw(b, p), b, color), pin_pred(b, color), m);
}

// ---------------------------------------------------------------------------------------
// Every generated move passes the restrictions
// ---------------------------------------------------------------------------------------

/// Whether every move of a sequence has a property.
pub open spec fn all_sat(s: Seq<ChessMove>, f: spec_fn(ChessMove) -> bool) -> bool {
    forall|i: int| 0 <= i < s.len() ==> f(#[trigger] s[i])
}

proof fn lemma_somes_sat(s: Seq<Option<ChessMove>>, f: spec_fn(ChessMove) -> bool)
    requires
        forall|i: int| 0 <= i < s.len() ==> (#[trigger] s[i] matches Some(x) ==> f(x)),
    ensures
        all_sat(somes(s), f),
    decreases s.len(),
{
    if s.len() > 0 {
        assert forall|i: int| 0 <= i < s.drop_last().len() implies (#[trigger] s.drop_last()[i] matches Some(x)
            ==> f(x)) by {
            assert(s.drop_last()[i] == s[i]);
        }
        lemma_somes_sat(s.drop_last(), f);
        assert(s[s.len() - 1] matches Some(x) ==> f(x));
    }
}

proof fn lemma_concat_sat(a: Seq<ChessMove>, c: Seq<ChessMove>, f: spec_fn(ChessMove) -> bool)
    requires
        all_sat(a, f),
        all_sat(c, f),
    ensures
        all_sat(a + c, f),
{
    assert forall|i: int| 0 <= i < (a + c).len() implies f(#[trigger] (a + c)[i]) by {
        if i < a.len() {
            assert((a + c)[i] == a[i]);
        } else {
            assert((a + c)[i] == c[i - a.len()]);
        }
    }
}

proof fn lemma_in_of_filter(s: Seq<ChessMove>, f: spec_fn(ChessMove) -> bool, x: ChessMove)
    requires
        s.filter(f).contains(x),
    ensures
        s.contains(x),
        f(x),
{
    s.lemma_filter_contains_rev(f, x);
    let i = choose|i: int| 0 <= i < s.filter(f).len() && s.filter(f)[i] == x;
    s.lemma_filter_pred(f, i);
}

proof fn lemma_in_of_checked(s: Seq<ChessMove>, b: BoardModel, color: Color, x: ChessMove)
    requires
        filter_checked(s, b, color).contains(x),
    ensures
        s.contains(x),
        check_ok(b, x, color),
{
    if spec_checks_amount(b, color) == 1 {
        lemma_in_of_filter(s, check_pred(b, color), x);
    }
}

/// The moves a pawn makes forward are quiet moves and promotions.
spec fn pushes(x: ChessMove) -> bool {
    x.move_type is Move || x.move_type is PromotionMove
}

/// The moves a pawn makes diagonally are captures and promoting captures.
spec fn takes(x: ChessMove) -> bool {
    x.move_type is Capture || x.move_type is PromotionCapture
}

proof fn lemma_pawn_moves_push(
    b: BoardModel,
    start: Square,
    color: Color,
    count: nat,
    i: nat,
    res: Seq<Option<ChessMove>>,
)
    requires
        res.len() == 5,
        forall|k: int| 0 <= k < 5 ==> (#[trigger] res[k] matches Some(x) ==> pushes(x)),
    ensures
        pawn_moves_from(b, start, color, count, i, res).len() == 5,
        forall|k: int|
            0 <= k < 5 ==> (#[trigger] pawn_moves_from(b, start, color, count, i, res)[k] matches Some(x)
                ==> pushes(x)),
    decreases 3 - i,
{
    if !(i == 0 || i > count || i > 2) {
        let (t, _, promotion_rank) = pawn_params(color);
        match start.spec_c_add(scaled(t, i)) {
            None => {},
            Some(sq) => if b.piece(sq) is Some {
            } else if sq.1 == promotion_rank {
            } else {
                let r2 = res.update(i - 1, crate::move_generator::promo(MoveType::Move(PieceType::Pawn), start, sq));
                assert forall|k: int| 0 <= k < 5 implies (#[trigger] r2[k] matches Some(x) ==> pushes(x)) by {
                }
                lemma_pawn_moves_push(b, start, color, count, i + 1, r2);
            },
        }
    }
}

proof fn lemma_capture_slot_takes(b: BoardModel, start: Square, color: Color, i: int, res: Seq<Option<ChessMove>>)
    requires
        0 <= i <= 1,
        res.len() == 8,
        forall|k: int| 0 <= k < 8 ==> (#[trigger] res[k] matches Some(x) ==> takes(x)),
    ensures
        capture_slot(b, start, color, i, res).len() == 8,
        forall|k: int|
            0 <= k < 8 ==> (#[trigger] capture_slot(b, start, color, i, res)[k] matches Some(x) ==> takes(x)),
{
}

proof fn lemma_king_steps_safe(b: BoardModel, p: ChessPiece, n: int)
    ensures
        all_sat(king_steps(b, p, n), |x: ChessMove| !attacked_has(b, p.color, 13, x.to)),
    decreases n,
{
    if n > 0 {
        lemma_king_steps_safe(b, p, n - 1);
        let tail = match spec_get_move(b, p.position, king_offset(n - 1), p) {
            Some(m) => if attacked_has(b, p.color, 13, m.to) {
                Seq::<ChessMove>::empty()
            } else {
                seq![m]
            },
            None => Seq::<ChessMove>::empty(),
        };
        lemma_concat_sat(king_steps(b, p, n - 1), tail, |x: ChessMove| !attacked_has(b, p.color, 13, x.to));
    }
}

proof fn lemma_piece_pass(b: BoardModel, p: ChessPiece)
    requires
        b.piece(p.position) == Some(p),
        p.position.in_bounds(),
        castles_ready(b),
        kings_recorded(b),
        b.en_passant_square matches Some(t) ==> t.in_bounds(),
    ensures
        all_sat(spec_piece_moves(b, p), |x: ChessMove| passes_restrictions(b, x, p.color)),
{
    lemma_piece_follow(b, p);
    let moves = spec_piece_moves(b, p);
    let pin = pin_pred(b, p.color);
    let color = p.color;
    match p.piece_type {
        PieceType::King => {
            let attacked = |s: Square| attacked_has(b, color, 13, s);
            lemma_king_steps_safe(b, p, 8);
            let cs = spec_castles(b, p.position, b.castling, attacked, color);
            let tail = if spec_checks_amount(b, color) == 0 {
                somes(cs)
            } else {
                Seq::<ChessMove>::empty()
            };
            assert(moves == king_steps(b, p, 8) + tail);
            let f = |x: ChessMove| passes_restrictions(b, x, color);
            assert forall|i: int| 0 <= i < king_steps(b, p, 8).len() implies f(#[trigger] king_steps(b, p, 8)[i]) by {
                let x = king_steps(b, p, 8)[i];
                assert((king_steps(b, p, 8) + tail)[i] == x);
                assert(follows_rules(b, x, color) && x.from == p.position);
                assert(!attacked_has(b, color, 13, x.to));
                assert(!(x.move_type is CastleMove)) by {
                    assert(x.move_type is Move || x.move_type is Capture) by {
                        lemma_king_steps_kinds(b, p, 8);
                    }
                }
            }
            if spec_checks_amount(b, color) == 0 {
                assert forall|i: int| 0 <= i < cs.len() implies (#[trigger] cs[i] matches Some(x) ==> f(x)) by {
                    if let Some(x) = cs[i] {
                        lemma_castles_follow(b, p, attacked);
                        lemma_in_somes(cs, i, x);
                        let j = choose|j: int| 0 <= j < somes(cs).len() && somes(cs)[j] == x;
                        assert(follows_rules(b, somes(cs)[j], color) && somes(cs)[j].from == p.position);
                    }
                }
                lemma_somes_sat(cs, f);
            }
            lemma_concat_sat(king_steps(b, p, 8), tail, f);
        },
        _ => {
            assert forall|i: int| 0 <= i < moves.len() implies passes_restrictions(b, #[trigger] moves[i], color) by {
                let x = moves[i];
                assert(moves.contains(x));
                assert(follows_rules(b, x, color) && x.from == p.position);
                if p.piece_type == PieceType::Pawn {
                    let raw = pawn_raw(b, p);
                    lemma_in_of_filter(filter_checked(raw, b, color), pin, x);
                    lemma_in_of_checked(raw, b, color, x);
                    if x.move_type == MoveType::EnPassantMove {
                        let start = p.position;
                        let (_, double_move_rank, _) = pawn_params(color);
                        let count: nat = if start.1 == double_move_rank { 2 } else { 1 };
                        lemma_pawn_moves_push(b, start, color, count, 1, nones(5));
                        lemma_somes_sat(spec_pawn_moves(b, start, color), |y: ChessMove| pushes(y));
                        lemma_capture_slot_takes(b, start, color, 0, nones(8));
                        lemma_capture_slot_takes(b, start, color, 1, capture_slot(b, start, color, 0, nones(8)));
                        lemma_somes_sat(spec_pawn_captures(b, start, color), |y: ChessMove| takes(y));
                        let a = somes(spec_pawn_moves(b, start, color));
                        let c = somes(spec_pawn_captures(b, start, color));
                        let e = match spec_en_passant(b, start, color) {
                            Some(ep) => if pin_at(b, color, ep.from) == Some(PinDir::EnPassantBlock) {
                                Seq::<ChessMove>::empty()
                            } else {
                                seq![ep]
                            },
                            None => Seq::<ChessMove>::empty(),
                        };
                        assert(raw == a + c + e);
                        let k = choose|k: int| 0 <= k < raw.len() && raw[k] == x;
                        if k < a.len() {
                            assert(raw[k] == a[k]);
                        } else if k < a.len() + c.len() {
                            assert(raw[k] == c[k - a.len()]);
                        } else {
                            assert(raw[k] == e[k - a.len() - c.len()]);
                        }
                    }
                } else {
                    let raw = match p.piece_type {
                        PieceType::Knight => knight_raw(b, p, 8),
                        PieceType::Bishop => slider_raw(b, p, 4, 4),
                        PieceType::Rook => slider_raw(b, p, 0, 4),
                        _ => slider_raw(b, p, 0, 8),
                    };
                    lemma_in_of_checked(raw.filter(pin), b, color, x);
                    lemma_in_of_filter(raw, pin, x);
                }
            }
        },
    }
}

proof fn lemma_king_steps_kinds(b: BoardModel, p: ChessPiece, n: int)
    ensures
        all_sat(king_steps(b, p, n), |x: ChessMove| x.move_type is Move || x.move_type is Capture),
    decreases n,
{
    if n > 0 {
        lemma_king_steps_kinds(b, p, n - 1);
        let tail = match spec_get_move(b, p.position, king_offset(n - 1), p) {
            Some(m) => if attacked_has(b, p.color, 13, m.to) {
                Seq::<ChessMove>::empty()
            } else {
                seq![m]
            },
            None => Seq::<ChessMove>::empty(),
        };
        lemma_concat_sat(king_steps(b, p, n - 1), tail, |x: ChessMove| x.move_type is Move || x.move_type is Capture);
    }
}

proof fn lemma_upto_has(b: BoardModel, color: Color, n: int, i: int, p: ChessPiece, x: ChessMove)
    requires
        0 <= i < n,
        b.pieces[i] == Some(p),
        p.color == color,
        spec_piece_moves(b, p).contains(x),
    ensures
        moves_upto(b, color, n).contains(x),
    decreases n,
{
    let tail = match b.pieces[n - 1] {
        Some(q) => if q.color == color {
            spec_piece_moves(b, q)
        } else {
            Seq::<ChessMove>::empty()
        },
        None => Seq::<ChessMove>::empty(),
    };
    if i < n - 1 {
        lemma_upto_has(b, color, n - 1, i, p, x);
    }
    lemma_in_concat(moves_upto(b, color, n - 1), tail, x);
}

/// The move generator gives a side exactly the moves that follow the rules by which the
/// pieces move (`follows_rules`) and pass its restrictions for checks, pins and attacked
/// squares (`passes_restrictions`), in a position where every piece records its square,
/// every castling right has its king and rook in place, every king stands on the square its
/// side records and an en passant target lies on the board.
pub proof fn lemma_generated_moves_exactly(b: BoardModel, color: Color, m: ChessMove)
    requires
        well_placed(b),
        castles_ready(b),
        kings_recorded(b),
        b.en_passant_square matches Some(t) ==> t.in_bounds(),
    ensures
        spec_all_moves(b, color).contains(m) <==> follows_rules(b, m, color) && passes_restrictions(
            b,
            m,
            color,
        ),
{
    lemma_upto_follow(b, color, 64);
    if follows_rules(b, m, color) && passes_restrictions(b, m, color) {
        let p = b.piece(m.from)->0;
        let i = m.from.index();
        assert(b.pieces[i] == Some(p));
        assert(p.position == m.from);
        match p.piece_type {
            PieceType::Pawn => lemma_pawn_complete(b, m, p),
            PieceType::Knight => lemma_knight_complete(b, m, p),
            PieceType::King => lemma_king_complete(b, m, p),
            _ => lemma_slider_complete(b, m, p),
        }
        lemma_upto_has(b, color, 64, i, p, m);
    }
}

// ---------------------------------------------------------------------------------------
// No move is generated twice
// ---------------------------------------------------------------------------------------

/// The place of a move among those the generator forms for its piece, which it forms in
/// increasing order of this number: the knight jumps and king steps in their search order,
/// castling after the king steps, the slides direction by direction and square by square,
/// the pawn's forward moves, then its captures, then its en passant capture.
pub open spec fn gen_key(m: ChessMove) -> int {
    let dx = m.to.0 - m.from.0;
    let dy = m.to.1 - m.from.1;
    let side: int = if dx == -1 { 0 } else { 4 };
    match m.move_type {
        MoveType::Move(t) => match t {
            PieceType::Pawn => iabs(dy) - 1,
            PieceType::Knight => knight_index(dx, dy),
            PieceType::King => king_index(dx, dy),
            _ => dir_index(sign(dx), sign(dy)) * 8 + span(m.from, m.to),
        },
        MoveType::Capture(t) => match t {
            PieceType::Pawn => 5 + side,
            PieceType::Knight => knight_index(dx, dy),
            PieceType::King => king_index(dx, dy),
            _ => dir_index(sign(dx), sign(dy)) * 8 + span(m.from, m.to),
        },
        MoveType::EnPassantMove => 13,
        MoveType::CastleMove(ct) => match ct {
            CastleType::WhiteShort | CastleType::BlackShort => 8,
            CastleType::WhiteLong | CastleType::BlackLong => 9,
        },
        MoveType::PromotionMove(t) => promo_slot(t),
        MoveType::PromotionCapture(t) => 5 + side + promo_slot(t),
    }
}

/// Whether a key grows strictly along a sequence.
pub open spec fn increasing(s: Seq<ChessMove>, key: spec_fn(ChessMove) -> int) -> bool {
    forall|i: int, j: int| 0 <= i < j < s.len() ==> key(#[trigger] s[i]) < key(#[trigger] s[j])
}

/// Whether a key lies in a range for every move of a sequence.
pub open spec fn keys_within(s: Seq<ChessMove>, key: spec_fn(ChessMove) -> int, lo: int, hi: int) -> bool {
    forall|i: int| 0 <= i < s.len() ==> lo <= key(#[trigger] s[i]) < hi
}

proof fn lemma_increasing_no_dup(s: Seq<ChessMove>, key: spec_fn(ChessMove) -> int)
    requires
        increasing(s, key),
    ensures
        s.no_duplicates(),
{
    assert forall|i: int, j: int| 0 <= i < s.len() && 0 <= j < s.len() && i != j implies s[i] != s[j] by {
        if i < j {
            assert(key(s[i]) < key(s[j]));
        } else {
            assert(key(s[j]) < key(s[i]));
        }
    }
}

proof fn lemma_filter_increasing(s: Seq<ChessMove>, f: spec_fn(ChessMove) -> bool, key: spec_fn(ChessMove) -> int, lo: int, hi: int)
    requires
        increasing(s, key),
        keys_within(s, key, lo, hi),
    ensures
        increasing(s.filter(f), key),
        keys_within(s.filter(f), key, lo, hi),
    decreases s.len(),
{
    reveal(Seq::filter);
    if s.len() > 0 {
        let d = s.drop_last();
        assert forall|i: int, j: int| 0 <= i < j < d.len() implies key(#[trigger] d[i]) < key(#[trigger] d[j]) by {
            assert(d[i] == s[i] && d[j] == s[j]);
        }
        assert forall|i: int| 0 <= i < d.len() implies lo <= key(#[trigger] d[i]) < hi by {
            assert(d[i] == s[i]);
        }
        lemma_filter_increasing(d, f, key, lo, hi);
        let r = d.filter(f);
        let last = s[s.len() - 1];
        assert(lo <= key(last) < hi);
        if f(last) {
            assert(s.filter(f) == r.push(last));
            assert forall|i: int| 0 <= i < r.len() implies key(#[trigger] r[i]) < key(last) by {
                assert(r.contains(r[i]));
                d.lemma_filter_contains_rev(f, r[i]);
                let k = choose|k: int| 0 <= k < d.len() && d[k] == r[i];
                assert(s[k] == r[i]);
            }
            assert forall|i: int, j: int| 0 <= i < j < r.push(last).len() implies key(
                #[trigger] r.push(last)[i],
            ) < key(#[trigger] r.push(last)[j]) by {
                assert(r.push(last)[i] == r[i]);
                if j < r.len() {
                    assert(r.push(last)[j] == r[j]);
                }
            }
            assert forall|i: int| 0 <= i < r.push(last).len() implies lo <= key(
                #[trigger] r.push(last)[i],
            ) < hi by {
                if i < r.len() {
                    assert(r.push(last)[i] == r[i]);
                }
            }
        } else {
            assert(s.filter(f) == r);
        }
    }
}

proof fn lemma_checked_increasing(s: Seq<ChessMove>, b: BoardModel, color: Color, key: spec_fn(ChessMove) -> int, lo: int, hi: int)
    requires
        increasing(s, key),
        keys_within(s, key, lo, hi),
    ensures
        increasing(filter_checked(s, b, color), key),
        keys_within(filter_checked(s, b, color), key, lo, hi),
{
    lemma_filter_increasing(s, check_pred(b, color), key, lo, hi);
}

proof fn lemma_concat_increasing(a: Seq<ChessMove>, c: Seq<ChessMove>, key: spec_fn(ChessMove) -> int, lo: int, mid: int, hi: int)
    requires
        increasing(a, key),
        increasing(c, key),
        keys_within(a, key, lo, mid),
        keys_within(c, key, mid, hi),
        lo <= mid <= hi,
    ensures
        increasing(a + c, key),
        keys_within(a + c, key, lo, hi),
{
    assert forall|i: int, j: int| 0 <= i < j < (a + c).len() implies key(#[trigger] (a + c)[i]) < key(
        #[trigger] (a + c)[j],
    ) by {
        if j < a.len() {
            assert((a + c)[i] == a[i] && (a + c)[j] == a[j]);
        } else if i < a.len() {
            assert((a + c)[i] == a[i] && (a + c)[j] == c[j - a.len()]);
        } else {
            assert((a + c)[i] == c[i - a.len()] && (a + c)[j] == c[j - a.len()]);
        }
    }
    assert forall|i: int| 0 <= i < (a + c).len() implies lo <= key(#[trigger] (a + c)[i]) < hi by {
        if i < a.len() {
            assert((a + c)[i] == a[i]);
        } else {
            assert((a + c)[i] == c[i - a.len()]);
        }
    }
}

proof fn lemma_somes_slots(s: Seq<Option<ChessMove>>, key: spec_fn(ChessMove) -> int, base: int)
    requires
        forall|k: int| 0 <= k < s.len() ==> (#[trigger] s[k] matches Some(x) ==> key(x) == base + k),
    ensures
        increasing(somes(s), key),
        keys_within(somes(s), key, base, base + s.len()),
    decreases s.len(),
{
    if s.len() > 0 {
        let d = s.drop_last();
        assert forall|k: int| 0 <= k < d.len() implies (#[trigger] d[k] matches Some(x) ==> key(x) == base + k) by {
            assert(d[k] == s[k]);
        }
        lemma_somes_slots(d, key, base);
        let r = somes(d);
        match s.last() {
            Some(y) => {
                assert(key(y) == base + s.len() - 1);
                assert(somes(s) == r.push(y));
                assert forall|i: int, j: int| 0 <= i < j < r.push(y).len() implies key(
                    #[trigger] r.push(y)[i],
                ) < key(#[trigger] r.push(y)[j]) by {
                    assert(r.push(y)[i] == r[i]);
                    if j < r.len() {
                        assert(r.push(y)[j] == r[j]);
                    }
                }
                assert forall|i: int| 0 <= i < r.push(y).len() implies base <= key(#[trigger] r.push(y)[i])
                    < base + s.len() by {
                    if i < r.len() {
                        assert(r.push(y)[i] == r[i]);
                    }
                }
            },
            None => {},
        }
    }
}

/// `gen_key` as a function value.
pub open spec fn gen_keys() -> spec_fn(ChessMove) -> int {
    |x: ChessMove| gen_key(x)
}

proof fn lemma_knight_keys(b: BoardModel, p: ChessPiece, n: int)
    requires
        b.piece(p.position) == Some(p),
        p.position.in_bounds(),
        p.piece_type == PieceType::Knight,
        0 <= n <= 8,
    ensures
        increasing(knight_raw(b, p, n), gen_keys()),
        keys_within(knight_raw(b, p, n), gen_keys(), 0, n),
    decreases n,
{
    if n > 0 {
        lemma_knight_keys(b, p, n - 1);
        let off = knight_offset(n - 1);
        lemma_get_move_lands(b, p.position, off, p);
        let o = spec_get_move(b, p.position, off, p);
        let tail = opt_seq(o);
        if let Some(m) = o {
            assert(gen_key(m) == n - 1);
        }
        assert(keys_within(tail, gen_keys(), n - 1, n));
        lemma_concat_increasing(knight_raw(b, p, n - 1), tail, gen_keys(), 0, n - 1, n);
    }
}

proof fn lemma_king_step_keys(b: BoardModel, p: ChessPiece, n: int)
    requires
        b.piece(p.position) == Some(p),
        p.position.in_bounds(),
        p.piece_type == PieceType::King,
        0 <= n <= 8,
    ensures
        increasing(king_steps(b, p, n), gen_keys()),
        keys_within(king_steps(b, p, n), gen_keys(), 0, n),
    decreases n,
{
    if n > 0 {
        lemma_king_step_keys(b, p, n - 1);
        let off = king_offset(n - 1);
        lemma_get_move_lands(b, p.position, off, p);
        let o = spec_get_move(b, p.position, off, p);
        let tail = match o {
            Some(m) => if attacked_has(b, p.color, 13, m.to) {
                Seq::<ChessMove>::empty()
            } else {
                seq![m]
            },
            None => Seq::<ChessMove>::empty(),
        };
        if let Some(m) = o {
            assert(gen_key(m) == n - 1);
        }
        assert(keys_within(tail, gen_keys(), n - 1, n));
        lemma_concat_increasing(king_steps(b, p, n - 1), tail, gen_keys(), 0, n - 1, n);
    }
}

proof fn lemma_king_keys(b: BoardModel, p: ChessPiece)
    requires
        b.piece(p.position) == Some(p),
        p.position.in_bounds(),
        p.piece_type == PieceType::King,
    ensures
        increasing(spec_king_moves(b, p), gen_keys()),
        keys_within(spec_king_moves(b, p), gen_keys(), 0, 64),
{
    lemma_king_step_keys(b, p, 8);
    let attacked = |s: Square| attacked_has(b, p.color, 13, s);
    let cs = spec_castles(b, p.position, b.castling, attacked, p.color);
    assert forall|k: int| 0 <= k < cs.len() implies (#[trigger] cs[k] matches Some(x) ==> gen_keys()(x) == 8 + k) by {
    }
    lemma_somes_slots(cs, gen_keys(), 8);
    let tail = if spec_checks_amount(b, p.color) == 0 {
        somes(cs)
    } else {
        Seq::<ChessMove>::empty()
    };
    assert(keys_within(tail, gen_keys(), 8, 64));
    lemma_concat_increasing(king_steps(b, p, 8), tail, gen_keys(), 0, 8, 64);
}

proof fn lemma_series_keys(
    b: BoardModel,
    start: Square,
    q: int,
    piece: ChessPiece,
    i: nat,
    acc: Seq<Option<ChessMove>>,
)
    requires
        b.piece(start) == Some(piece),
        start.in_bounds(),
        0 <= q < 8,
        piece.piece_type == PieceType::Rook || piece.piece_type == PieceType::Bishop || piece.piece_type
            == PieceType::Queen,
        1 <= i,
        acc.len() == 7,
        forall|k: int| 0 <= k < 7 ==> (#[trigger] acc[k] matches Some(x) ==> gen_keys()(x) == q * 8 + 1 + k),
    ensures
        series_from(b, start, queen_dir(q).offset(), 7, piece, i, acc).len() == 7,
        forall|k: int|
            0 <= k < 7 ==> (#[trigger] series_from(b, start, queen_dir(q).offset(), 7, piece, i, acc)[k] matches Some(x)
                ==> gen_keys()(x) == q * 8 + 1 + k),
    decreases 8 - i,
{
    let d = queen_dir(q).offset();
    if !(i == 0 || i > 7) {
        let off = scaled(d, i);
        lemma_walk_scaled(d.0, i);
        lemma_walk_scaled(d.1, i);
        lemma_get_move_lands(b, start, off, piece);
        let m = spec_get_move(b, start, off, piece);
        if let Some(mv) = m {
            assert(sign(mv.to.0 - mv.from.0) == d.0 && sign(mv.to.1 - mv.from.1) == d.1);
            assert(span(mv.from, mv.to) == i);
            assert(dir_index(d.0 as int, d.1 as int) == q);
            assert(gen_key(mv) == q * 8 + i);
        }
        let acc2 = acc.update(i - 1, m);
        assert forall|k: int| 0 <= k < 7 implies (#[trigger] acc2[k] matches Some(x) ==> gen_keys()(x) == q * 8 + 1 + k) by {
            if k == i - 1 {
            }
        }
        let end = match m {
            Some(x) => !(x.move_type is Move),
            None => true,
        };
        if !end {
            lemma_series_keys(b, start, q, piece, i + 1, acc2);
        }
    }
}

proof fn lemma_slider_keys(b: BoardModel, p: ChessPiece, first: int, n: int)
    requires
        b.piece(p.position) == Some(p),
        p.position.in_bounds(),
        p.piece_type == PieceType::Rook || p.piece_type == PieceType::Bishop || p.piece_type
            == PieceType::Queen,
        0 <= first,
        0 <= n,
        first + n <= 8,
    ensures
        increasing(slider_raw(b, p, first, n), gen_keys()),
        keys_within(slider_raw(b, p, first, n), gen_keys(), first * 8, (first + n) * 8),
    decreases n,
{
    if n > 0 {
        lemma_slider_keys(b, p, first, n - 1);
        let q = first + n - 1;
        let d = queen_dir(q).offset();
        lemma_series_keys(b, p.position, q, p, 1, nones(7));
        let sr = spec_series(b, p.position, d, 7, p);
        lemma_somes_slots(sr, gen_keys(), q * 8 + 1);
        lemma_concat_increasing(slider_raw(b, p, first, n - 1), somes(sr), gen_keys(), first * 8, q * 8, (first + n) * 8);
    }
}

proof fn lemma_pawn_push_keys(
    b: BoardModel,
    start: Square,
    color: Color,
    count: nat,
    i: nat,
    res: Seq<Option<ChessMove>>,
)
    requires
        b.piece(start) matches Some(q) && q.color == color && q.piece_type == PieceType::Pawn,
        start.in_bounds(),
        count == (if start.1 == pawn_params(color).1 { 2nat } else { 1nat }),
        1 <= i,
        res.len() == 5,
        forall|k: int| 0 <= k < 5 ==> (#[trigger] res[k] matches Some(x) ==> gen_keys()(x) == k),
    ensures
        pawn_moves_from(b, start, color, count, i, res).len() == 5,
        forall|k: int|
            0 <= k < 5 ==> (#[trigger] pawn_moves_from(b, start, color, count, i, res)[k] matches Some(x)
                ==> gen_keys()(x) == k),
    decreases 3 - i,
{
    if !(i == 0 || i > count || i > 2) {
        let (t, _, promotion_rank) = pawn_params(color);
        lemma_walk_scaled(t.0, i);
        lemma_walk_scaled(t.1, i);
        match start.spec_c_add(scaled(t, i)) {
            None => {},
            Some(sq) => if b.piece(sq) is Some {
            } else if sq.1 == promotion_rank {
                assert(i == 1);
                let r2 = res.update(i - 1, crate::move_generator::promo(MoveType::PromotionMove(crate::move_register::models::PromotedPieceType::Queen), start, sq))
                    .update(i as int, crate::move_generator::promo(MoveType::PromotionMove(crate::move_register::models::PromotedPieceType::Bishop), start, sq))
                    .update(i + 1int, crate::move_generator::promo(MoveType::PromotionMove(crate::move_register::models::PromotedPieceType::Knight), start, sq))
                    .update(i + 2int, crate::move_generator::promo(MoveType::PromotionMove(crate::move_register::models::PromotedPieceType::Rook), start, sq));
                assert forall|k: int| 0 <= k < 5 implies (#[trigger] r2[k] matches Some(x) ==> gen_keys()(x) == k) by {
                }
            } else {
                let mv = ChessMove { move_type: MoveType::Move(PieceType::Pawn), from: start, to: sq };
                assert(iabs(sq.1 - start.1) == i);
                assert(gen_key(mv) == i - 1);
                let r2 = res.update(i - 1, Some(mv));
                assert forall|k: int| 0 <= k < 5 implies (#[trigger] r2[k] matches Some(x) ==> gen_keys()(x) == k) by {
                    if k == i - 1 {
                    }
                }
                lemma_pawn_push_keys(b, start, color, count, i + 1, r2);
            },
        }
    }
}

proof fn lemma_capture_slot_keys(b: BoardModel, start: Square, color: Color, i: int, res: Seq<Option<ChessMove>>)
    requires
        start.in_bounds(),
        0 <= i <= 1,
        res.len() == 8,
        forall|k: int| 0 <= k < 8 ==> (#[trigger] res[k] matches Some(x) ==> gen_keys()(x) == 5 + k),
    ensures
        capture_slot(b, start, color, i, res).len() == 8,
        forall|k: int|
            0 <= k < 8 ==> (#[trigger] capture_slot(b, start, color, i, res)[k] matches Some(x) ==> gen_keys()(x)
                == 5 + k),
{
    let off = crate::move_generator::pawn_capture_offset(color, i);
    match start.spec_c_add(off) {
        None => {},
        Some(sq) => {
            assert(sq.0 - start.0 == off.0);
        },
    }
}

proof fn lemma_pawn_keys(b: BoardModel, p: ChessPiece)
    requires
        b.piece(p.position) == Some(p),
        p.position.in_bounds(),
        p.piece_type == PieceType::Pawn,
    ensures
        increasing(spec_pawn_get_moves(b, p), gen_keys()),
        keys_within(spec_pawn_get_moves(b, p), gen_keys(), 0, 64),
{
    let start = p.position;
    let color = p.color;
    let (_, double_move_rank, _) = pawn_params(color);
    let count: nat = if start.1 == double_move_rank { 2 } else { 1 };
    lemma_pawn_push_keys(b, start, color, count, 1, nones(5));
    lemma_somes_slots(spec_pawn_moves(b, start, color), gen_keys(), 0);
    lemma_capture_slot_keys(b, start, color, 0, nones(8));
    lemma_capture_slot_keys(b, start, color, 1, capture_slot(b, start, color, 0, nones(8)));
    lemma_somes_slots(spec_pawn_captures(b, start, color), gen_keys(), 5);
    let a = somes(spec_pawn_moves(b, start, color));
    let c = somes(spec_pawn_captures(b, start, color));
    lemma_concat_increasing(a, c, gen_keys(), 0, 5, 13);
    let e = match spec_en_passant(b, start, color) {
        Some(ep) => if pin_at(b, color, ep.from) == Some(PinDir::EnPassantBlock) {
            Seq::<ChessMove>::empty()
        } else {
            seq![ep]
        },
        None => Seq::<ChessMove>::empty(),
    };
    assert(keys_within(e, gen_keys(), 13, 64));
    lemma_concat_increasing(a + c, e, gen_keys(), 0, 13, 64);
    assert(pawn_raw(b, p) == a + c + e);
    lemma_checked_increasing(pawn_raw(b, p), b, color, gen_keys(), 0, 64);
    lemma_filter_increasing(filter_checked(pawn_raw(b, p), b, color), pin_pred(b, color), gen_keys(), 0, 64);
}

proof fn lemma_piece_keys(b: BoardModel, p: ChessPiece)
    requires
        b.piece(p.position) == Some(p),
        p.position.in_bounds(),
    ensures
        increasing(spec_piece_moves(b, p), gen_keys()),
        keys_within(spec_piece_moves(b, p), gen_keys(), 0, 64),
{
    let pin = pin_pred(b, p.color);
    match p.piece_type {
        PieceType::Pawn => lemma_pawn_keys(b, p),
        PieceType::King => lemma_king_keys(b, p),
        PieceType::Knight => {
            lemma_knight_keys(b, p, 8);
            lemma_filter_increasing(knight_raw(b, p, 8), pin, gen_keys(), 0, 64);
            lemma_checked_increasing(knight_raw(b, p, 8).filter(pin), b, p.color, gen_keys(), 0, 64);
        },
        _ => {
            let (first, n) = match p.piece_type {
                PieceType::Bishop => (4int, 4int),
                PieceType::Rook => (0int, 4int),
                _ => (0int, 8int),
            };
            lemma_slider_keys(b, p, first, n);
            lemma_filter_increasing(slider_raw(b, p, first, n), pin, gen_keys(), 0, 64);
            lemma_checked_increasing(slider_raw(b, p, first, n).filter(pin), b, p.color, gen_keys(), 0, 64);
        },
    }
}

/// The place of a move in the generator's whole list: the square it starts from, then its
/// place among the moves of its piece.
pub open spec fn board_keys() -> spec_fn(ChessMove) -> int {
    |x: ChessMove| x.from.index() * 64 + gen_key(x)
}

proof fn lemma_upto_keys(b: BoardModel, color: Color, n: int)
    requires
        well_placed(b),
        castles_ready(b),
        kings_recorded(b),
        b.en_passant_square matches Some(t) ==> t.in_bounds(),
        0 <= n <= 64,
    ensures
        increasing(moves_upto(b, color, n), board_keys()),
        keys_within(moves_upto(b, color, n), board_keys(), 0, n * 64),
    decreases n,
{
    if n > 0 {
        lemma_upto_keys(b, color, n - 1);
        let tail = match b.pieces[n - 1] {
            Some(p) => if p.color == color {
                spec_piece_moves(b, p)
            } else {
                Seq::<ChessMove>::empty()
            },
            None => Seq::<ChessMove>::empty(),
        };
        if let Some(p) = b.pieces[n - 1] {
            if p.color == color {
                let i = n - 1;
                assert(b.pieces[i] matches Some(q) ==> q.position == Square((i % 8) as i8, (i / 8) as i8));
                assert(p.position.index() == i);
                lemma_piece_follow(b, p);
                lemma_piece_keys(b, p);
                assert forall|j: int, k: int| 0 <= j < k < tail.len() implies board_keys()(#[trigger] tail[j])
                    < board_keys()(#[trigger] tail[k]) by {
                    assert(gen_keys()(tail[j]) < gen_keys()(tail[k]));
                    assert(tail[j].from == p.position && tail[k].from == p.position);
                }
                assert forall|j: int| 0 <= j < tail.len() implies (n - 1) * 64 <= board_keys()(#[trigger] tail[j])
                    < n * 64 by {
                    assert(0 <= gen_keys()(tail[j]) < 64);
                    assert(tail[j].from == p.position);
                }
            }
        }
        lemma_concat_increasing(moves_upto(b, color, n - 1), tail, board_keys(), 0, (n - 1) * 64, n * 64);
    }
}

/// The move generator gives no move twice, in a position where every piece records its
/// square, every castling right has its king and rook in place, every king stands on the
/// square its side records and an en passant target lies on the board.
pub proof fn lemma_generated_moves_distinct(b: BoardModel, color: Color)
    requires
        well_placed(b),
        castles_ready(b),
        kings_recorded(b),
        b.en_passant_square matches Some(t) ==> t.in_bounds(),
    ensures
        spec_all_moves(b, color).no_duplicates(),
{
    lemma_upto_keys(b, color, 64);
    lemma_increasing_no_dup(moves_upto(b, color, 64), board_keys());
}

} // verus!
