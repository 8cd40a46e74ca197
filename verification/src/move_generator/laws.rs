use vstd::prelude::*;

use crate::board_setup::laws::well_placed;
use crate::board_setup::models::{AvailableCastles, BoardModel};
use crate::move_generator::models::{
    moves_upto, spec_all_moves, spec_mating_points, ChessPiece, Color, Offset, PieceType, Square,
};
use crate::move_generator::{
    capture_slot, filter_checked, king_offset, king_steps, knight_raw, nones, pawn_moves_from,
    pawn_raw, scaled, series_from, slider_raw, somes, spec_castles, spec_en_passant,
    spec_get_move, spec_king_moves, spec_knight_moves, spec_pawn_captures, spec_pawn_get_moves,
    spec_pawn_moves, spec_piece_moves, spec_series, spec_slider_moves,
};
use crate::move_register::models::{CastleType, ChessMove, MoveType};
use crate::move_generator::attacks::played_pieces;
use crate::move_register::{castle_color, castle_squares, ep_captured_square, ep_target_behind};

verus! {

/// Whether a position grants a castling right.
pub open spec fn castle_right(c: AvailableCastles, ct: CastleType) -> bool {
    match ct {
        CastleType::WhiteShort => c.white_short,
        CastleType::WhiteLong => c.white_long,
        CastleType::BlackShort => c.black_short,
        CastleType::BlackLong => c.black_long,
    }
}

/// Whether the king and the rook of a castling stand on their starting squares.
pub open spec fn castle_ready(b: BoardModel, ct: CastleType) -> bool {
    let (kf, rf, _, _) = castle_squares(ct);
    &&& b.piece(kf) matches Some(k) && k.piece_type == PieceType::King && k.color == castle_color(ct)
    &&& b.piece(rf) matches Some(r) && r.piece_type == PieceType::Rook && r.color == castle_color(ct)
}

/// Whether every castling right of a position has its king and rook in place.
pub open spec fn castles_ready(b: BoardModel) -> bool {
    forall|ct: CastleType| #[trigger] castle_right(b.castling, ct) ==> castle_ready(b, ct)
}

/// The mating points of the pieces of a side on the first `n` squares.
pub open spec fn mating_count(pieces: Seq<Option<ChessPiece>>, color: Color, n: int) -> int
    decreases n,
{
    if n <= 0 {
        0
    } else {
        mating_count(pieces, color, n - 1) + points_of(pieces[n - 1], color)
    }
}

/// The mating points a square adds to a side: those of a piece of that side, else none.
pub open spec fn points_of(x: Option<ChessPiece>, color: Color) -> int {
    match x {
        Some(p) => if p.color == color {
            spec_mating_points(p.piece_type) as int
        } else {
            0
        },
        None => 0,
    }
}

/// Whether a position is sound: every piece records its square, the mating material of
/// each side is that of its pieces, every castling right has its king and rook in place, an
/// en passant target is an empty square of the board behind a pawn of the side not to move,
/// and every king stands on the square its side records.
pub open spec fn sound_position(b: BoardModel) -> bool {
    &&& well_placed(b)
    &&& b.mating_material.0 == mating_count(b.pieces, Color::White, 64)
    &&& b.mating_material.1 == mating_count(b.pieces, Color::Black, 64)
    &&& castles_ready(b)
    &&& ep_sound(b)
    &&& kings_recorded(b)
}

/// Whether a position is set up consistently for the moves of its pieces: every piece
/// records its square, every castling right has its king and rook in place, an en passant
/// target is an empty square behind a pawn of the side not to move, and every king stands
/// on the square its side records. A sound position is one that also counts its mating
/// material right.
pub open spec fn consistent_setup(b: BoardModel) -> bool {
    &&& well_placed(b)
    &&& castles_ready(b)
    &&& ep_sound(b)
    &&& kings_recorded(b)
}

/// The square a side records for its king.
pub open spec fn king_of(b: BoardModel, c: Color) -> Square {
    match c {
        Color::White => b.king_positions.0,
        Color::Black => b.king_positions.1,
    }
}

/// Whether every king stands on the square its side records.
pub open spec fn kings_recorded(b: BoardModel) -> bool {
    forall|i: int|
        0 <= i < 64 ==> match #[trigger] b.pieces[i] {
            Some(q) => q.piece_type == PieceType::King ==> Square((i % 8) as i8, (i / 8) as i8)
                == king_of(b, q.color),
            None => true,
        }
}

/// Whether the en passant target of a position, if any, is an empty square of the board
/// behind a pawn of the side not to move.
pub open spec fn ep_sound(b: BoardModel) -> bool {
    match b.en_passant_square {
        None => true,
        Some(t) => t.in_bounds() && b.piece(t) is None && match b.piece(
            ep_captured_square(t, b.turn),
        ) {
            Some(q) => q.piece_type == PieceType::Pawn && q.color != b.turn,
            None => false,
        },
    }
}

/// Whether a move takes a pawn two ranks.
pub open spec fn double_step(b: BoardModel, m: ChessMove) -> bool {
    &&& b.piece(m.from) matches Some(p) && p.piece_type == PieceType::Pawn
    &&& (m.to.1 - m.from.1 == 2 || m.to.1 - m.from.1 == -2)
}

/// Whether a move of `color` fits the position: it starts on a piece of `color`; a quiet
/// move or a promotion lands on an empty square of the board, a capture on a piece of the
/// other side; a pawn's double step passes an empty square of the board; an en passant
/// capture takes a pawn to the en passant target from beside a piece of the other side; a
/// castling move is one the side has the right to, between the king's squares, with the
/// king's and the rook's target squares empty; a promotion moves a pawn.
pub open spec fn fits_move(b: BoardModel, m: ChessMove, color: Color) -> bool {
    &&& b.piece(m.from) matches Some(p) && p.color == color
    &&& match m.move_type {
        MoveType::Move(_) => {
            &&& m.to.in_bounds()
            &&& b.piece(m.to) is None
            &&& double_step(b, m) ==> ep_target_behind(m.to, color).in_bounds() && b.piece(
                ep_target_behind(m.to, color),
            ) is None
        },
        MoveType::Capture(_) => b.piece(m.to) matches Some(q) && q.color != color,
        MoveType::EnPassantMove => {
            &&& b.piece(m.from)->0.piece_type == PieceType::Pawn
            &&& b.en_passant_square == Some(m.to)
            &&& b.piece(ep_captured_square(m.to, color)) matches Some(q) && q.color != color
        },
        MoveType::CastleMove(ct) => {
            let (kf, rf, kt, rt) = castle_squares(ct);
            &&& castle_color(ct) == color
            &&& castle_right(b.castling, ct)
            &&& m.from == kf
            &&& m.to == kt
            &&& b.piece(kt) is None
            &&& b.piece(rt) is None
        },
        MoveType::PromotionMove(_) => {
            &&& b.piece(m.from)->0.piece_type == PieceType::Pawn
            &&& m.to.in_bounds()
            &&& b.piece(m.to) is None
        },
        MoveType::PromotionCapture(_) => {
            &&& b.piece(m.from)->0.piece_type == PieceType::Pawn
            &&& b.piece(m.to) matches Some(q) && q.color != color
        },
    }
}

proof fn lemma_count_nonneg(pieces: Seq<Option<ChessPiece>>, color: Color, n: int)
    ensures
        mating_count(pieces, color, n) >= 0,
    decreases n,
{
    if n > 0 {
        lemma_count_nonneg(pieces, color, n - 1);
    }
}

/// A side's mating material holds the points of each of its pieces.
proof fn lemma_count_holds(pieces: Seq<Option<ChessPiece>>, color: Color, n: int, i: int)
    requires
        0 <= i < n,
        pieces[i] matches Some(q) && q.color == color,
    ensures
        mating_count(pieces, color, n) >= spec_mating_points(pieces[i]->0.piece_type),
    decreases n,
{
    if i < n - 1 {
        lemma_count_holds(pieces, color, n - 1, i);
    } else {
        lemma_count_nonneg(pieces, color, n - 1);
    }
}

/// The mating material counter of a side holds the points of a piece of that side on the
/// board.
proof fn lemma_material_holds(b: BoardModel, sq: Square)
    requires
        sound_position(b),
        sq.in_bounds(),
        b.piece(sq) is Some,
    ensures
        ({
            let q = b.piece(sq)->0;
            let c = if q.color == Color::White {
                b.mating_material.0
            } else {
                b.mating_material.1
            };
            c >= spec_mating_points(q.piece_type)
        }),
{
    let q = b.piece(sq)->0;
    lemma_count_holds(b.pieces, q.color, 64, sq.index());
}

/// In a sound position, with room left on the clocks, every move of the side to move that
/// fits the position can be played without error.
pub proof fn lemma_fitting_move_plays(b: BoardModel, m: ChessMove)
    requires
        sound_position(b),
        b.half_move_timer_50 < u8::MAX,
        b.turn == Color::Black ==> b.full_move_number < u16::MAX,
        fits_move(b, m, b.turn),
    ensures
        b.spec_register_move(m) matches Some((_, r)) && r is Ok,
{
    let p = b.piece(m.from)->0;
    match m.move_type {
        MoveType::Capture(_) => {
            lemma_material_holds(b, m.to);
            assert(m.from != m.to);
            assert(m.to.in_bounds());
        },
        MoveType::PromotionCapture(_) => {
            lemma_material_holds(b, m.to);
            lemma_material_holds(b, m.from);
            assert(m.from != m.to);
            assert(m.to.in_bounds());
        },
        MoveType::EnPassantMove => {
            lemma_material_holds(b, ep_captured_square(m.to, b.turn));
        },
        MoveType::CastleMove(ct) => {
            assert(castle_right(b.castling, ct));
        },
        MoveType::PromotionMove(_) => {
            lemma_material_holds(b, m.from);
        },
        MoveType::Move(_) => {},
    }
}

/// Whether every move of a sequence fits the position.
pub open spec fn all_fit(b: BoardModel, s: Seq<ChessMove>, color: Color) -> bool {
    forall|i: int| 0 <= i < s.len() ==> fits_move(b, #[trigger] s[i], color)
}

/// Whether an optional move, if present, fits the position.
pub open spec fn opt_fits(b: BoardModel, o: Option<ChessMove>, color: Color) -> bool {
    match o {
        Some(m) => fits_move(b, m, color),
        None => true,
    }
}

proof fn lemma_somes_fit(b: BoardModel, s: Seq<Option<ChessMove>>, color: Color)
    requires
        forall|i: int| 0 <= i < s.len() ==> opt_fits(b, #[trigger] s[i], color),
    ensures
        all_fit(b, somes(s), color),
    decreases s.len(),
{
    if s.len() > 0 {
        assert forall|i: int| 0 <= i < s.drop_last().len() implies opt_fits(
            b,
            #[trigger] s.drop_last()[i],
            color,
        ) by {
            assert(s.drop_last()[i] == s[i]);
        }
        lemma_somes_fit(b, s.drop_last(), color);
        assert(opt_fits(b, s[s.len() - 1], color));
    }
}

proof fn lemma_concat_fit(b: BoardModel, a: Seq<ChessMove>, c: Seq<ChessMove>, color: Color)
    requires
        all_fit(b, a, color),
        all_fit(b, c, color),
    ensures
        all_fit(b, a + c, color),
{
    assert forall|i: int| 0 <= i < (a + c).len() implies fits_move(b, #[trigger] (a + c)[i], color) by {
        if i < a.len() {
            assert((a + c)[i] == a[i]);
        } else {
            assert((a + c)[i] == c[i - a.len()]);
        }
    }
}

proof fn lemma_filter_fit(b: BoardModel, s: Seq<ChessMove>, f: spec_fn(ChessMove) -> bool, color: Color)
    requires
        all_fit(b, s, color),
    ensures
        all_fit(b, s.filter(f), color),
{
    assert forall|i: int| 0 <= i < s.filter(f).len() implies fits_move(
        b,
        #[trigger] s.filter(f)[i],
        color,
    ) by {
        let x = s.filter(f)[i];
        assert(s.filter(f).contains(x));
        s.lemma_filter_contains_rev(f, x);
    }
}

proof fn lemma_checked_fit(b: BoardModel, s: Seq<ChessMove>, color: Color)
    requires
        all_fit(b, s, color),
    ensures
        all_fit(b, filter_checked(s, b, color), color),
{
    lemma_filter_fit(b, s, crate::move_generator::check_pred(b, color), color);
}

proof fn lemma_get_move_fits(b: BoardModel, start: Square, off: Offset, piece: ChessPiece)
    requires
        b.piece(start) == Some(piece),
        piece.piece_type != PieceType::Pawn,
    ensures
        opt_fits(b, spec_get_move(b, start, off, piece), piece.color),
{
}

proof fn lemma_series_fit(
    b: BoardModel,
    start: Square,
    d: Offset,
    count: nat,
    piece: ChessPiece,
    i: nat,
    acc: Seq<Option<ChessMove>>,
)
    requires
        b.piece(start) == Some(piece),
        piece.piece_type != PieceType::Pawn,
        acc.len() == 7,
        forall|k: int| 0 <= k < 7 ==> opt_fits(b, #[trigger] acc[k], piece.color),
    ensures
        series_from(b, start, d, count, piece, i, acc).len() == 7,
        forall|k: int|
            0 <= k < 7 ==> opt_fits(
                b,
                #[trigger] series_from(b, start, d, count, piece, i, acc)[k],
                piece.color,
            ),
    decreases 8 - i,
{
    if !(i == 0 || i > count || i > 7) {
        let m = spec_get_move(b, start, scaled(d, i), piece);
        lemma_get_move_fits(b, start, scaled(d, i), piece);
        let acc2 = acc.update(i - 1, m);
        assert forall|k: int| 0 <= k < 7 implies opt_fits(b, #[trigger] acc2[k], piece.color) by {
            if k == i - 1 {
            }
        }
        lemma_series_fit(b, start, d, count, piece, i + 1, acc2);
    }
}

proof fn lemma_slider_fit(b: BoardModel, p: ChessPiece, first: int, n: int)
    requires
        b.piece(p.position) == Some(p),
        p.piece_type != PieceType::Pawn,
    ensures
        all_fit(b, slider_raw(b, p, first, n), p.color),
    decreases n,
{
    if n > 0 {
        lemma_slider_fit(b, p, first, n - 1);
        let d = crate::move_generator::restrictions::queen_dir(first + n - 1).offset();
        lemma_series_fit(b, p.position, d, 7, p, 1, nones(7));
        let sr = spec_series(b, p.position, d, 7, p);
        lemma_somes_fit(b, sr, p.color);
        lemma_concat_fit(b, slider_raw(b, p, first, n - 1), somes(sr), p.color);
    }
}

proof fn lemma_knight_fit(b: BoardModel, p: ChessPiece, n: int)
    requires
        b.piece(p.position) == Some(p),
        p.piece_type != PieceType::Pawn,
    ensures
        all_fit(b, knight_raw(b, p, n), p.color),
    decreases n,
{
    if n > 0 {
        lemma_knight_fit(b, p, n - 1);
        let off = crate::move_generator::restrictions::knight_offset(n - 1);
        lemma_get_move_fits(b, p.position, off, p);
        let o = spec_get_move(b, p.position, off, p);
        let tail = crate::move_generator::opt_seq(o);
        assert(all_fit(b, tail, p.color));
        lemma_concat_fit(b, knight_raw(b, p, n - 1), tail, p.color);
    }
}

proof fn lemma_king_steps_fit(b: BoardModel, p: ChessPiece, n: int)
    requires
        b.piece(p.position) == Some(p),
        p.piece_type != PieceType::Pawn,
    ensures
        all_fit(b, king_steps(b, p, n), p.color),
    decreases n,
{
    if n > 0 {
        lemma_king_steps_fit(b, p, n - 1);
        lemma_get_move_fits(b, p.position, king_offset(n - 1), p);
        let tail = match spec_get_move(b, p.position, king_offset(n - 1), p) {
            Some(m) => if crate::move_generator::restrictions::attacked_has(b, p.color, 13, m.to) {
                Seq::<ChessMove>::empty()
            } else {
                seq![m]
            },
            None => Seq::<ChessMove>::empty(),
        };
        assert(all_fit(b, tail, p.color));
        lemma_concat_fit(b, king_steps(b, p, n - 1), tail, p.color);
    }
}

proof fn lemma_castles_fit(b: BoardModel, p: ChessPiece, attacked: spec_fn(Square) -> bool)
    requires
        b.piece(p.position) == Some(p),
        p.piece_type == PieceType::King,
        castles_ready(b),
        kings_recorded(b),
    ensures
        all_fit(b, somes(spec_castles(b, p.position, b.castling, attacked, p.color)), p.color),
{
    let s = spec_castles(b, p.position, b.castling, attacked, p.color);
    let pos = p.position;
    let i = pos.index();
    assert(i % 8 == pos.0 && i / 8 == pos.1);
    assert(b.pieces[i] == Some(p));
    assert(pos == king_of(b, p.color));
    assert(castle_right(b.castling, CastleType::WhiteShort) == b.castling.white_short);
    assert(castle_right(b.castling, CastleType::WhiteLong) == b.castling.white_long);
    assert(castle_right(b.castling, CastleType::BlackShort) == b.castling.black_short);
    assert(castle_right(b.castling, CastleType::BlackLong) == b.castling.black_long);
    if p.color == Color::White && (b.castling.white_short || b.castling.white_long) {
        if b.castling.white_short {
            assert(castle_ready(b, CastleType::WhiteShort));
        } else {
            assert(castle_ready(b, CastleType::WhiteLong));
        }
        assert(b.pieces[4] matches Some(k) && k.piece_type == PieceType::King && k.color == Color::White);
        assert(Square((4int % 8) as i8, (4int / 8) as i8) == Square(4, 0));
        assert(pos == Square(4, 0));
    }
    if p.color == Color::Black && (b.castling.black_short || b.castling.black_long) {
        if b.castling.black_short {
            assert(castle_ready(b, CastleType::BlackShort));
        } else {
            assert(castle_ready(b, CastleType::BlackLong));
        }
        assert(b.pieces[60] matches Some(k) && k.piece_type == PieceType::King && k.color == Color::Black);
        assert(Square((60int % 8) as i8, (60int / 8) as i8) == Square(4, 7));
        assert(pos == Square(4, 7));
    }
    assert forall|j: int| 0 <= j < s.len() implies opt_fits(b, #[trigger] s[j], p.color) by {
    }
    lemma_somes_fit(b, s, p.color);
}

proof fn lemma_king_fit(b: BoardModel, p: ChessPiece)
    requires
        b.piece(p.position) == Some(p),
        p.piece_type == PieceType::King,
        castles_ready(b),
        kings_recorded(b),
    ensures
        all_fit(b, spec_king_moves(b, p), p.color),
{
    lemma_king_steps_fit(b, p, 8);
    let attacked = |s: Square| crate::move_generator::restrictions::attacked_has(b, p.color, 13, s);
    lemma_castles_fit(b, p, attacked);
    let tail = if crate::move_generator::restrictions::spec_checks_amount(b, p.color) == 0 {
        somes(spec_castles(b, p.position, b.castling, attacked, p.color))
    } else {
        Seq::<ChessMove>::empty()
    };
    lemma_concat_fit(b, king_steps(b, p, 8), tail, p.color);
}

proof fn lemma_pawn_steps()
    ensures
        scaled(Offset(0, 1), 1) == Offset(0, 1),
        scaled(Offset(0, 1), 2) == Offset(0, 2),
        scaled(Offset(0, -1i8), 1) == Offset(0, -1i8),
        scaled(Offset(0, -1i8), 2) == Offset(0, -2i8),
{
}

/// Whether the square a pawn of `color` on `start` steps to first is an empty square of the
/// board.
spec fn first_step_free(b: BoardModel, start: Square, color: Color) -> bool {
    match start.spec_c_add(scaled(crate::move_generator::pawn_params(color).0, 1)) {
        Some(sq1) => b.piece(sq1) is None,
        None => false,
    }
}

proof fn lemma_pawn_moves_fit(
    b: BoardModel,
    start: Square,
    color: Color,
    count: nat,
    i: nat,
    res: Seq<Option<ChessMove>>,
)
    requires
        b.piece(start) matches Some(q) && q.color == color && q.piece_type == PieceType::Pawn,
        i == 2 ==> first_step_free(b, start, color),
        res.len() == 5,
        forall|k: int| 0 <= k < 5 ==> opt_fits(b, #[trigger] res[k], color),
    ensures
        pawn_moves_from(b, start, color, count, i, res).len() == 5,
        forall|k: int|
            0 <= k < 5 ==> opt_fits(b, #[trigger] pawn_moves_from(b, start, color, count, i, res)[k], color),
    decreases 3 - i,
{
    if !(i == 0 || i > count || i > 2) {
        let (t, _, promotion_rank) = crate::move_generator::pawn_params(color);
        match start.spec_c_add(scaled(t, i)) {
            None => {},
            Some(sq) => if b.piece(sq) is Some {
            } else if sq.1 == promotion_rank {
            } else {
                let r2 = res.update(
                    i - 1,
                    crate::move_generator::promo(MoveType::Move(PieceType::Pawn), start, sq),
                );
                assert(start.in_bounds());
                if i == 1 {
                    assert(sq.1 - start.1 == 1 || sq.1 - start.1 == -1);
                } else {
                    let sq1 = start.spec_c_add(scaled(t, 1))->0;
                    if color == Color::White {
                        lemma_pawn_steps();
                        assert(t == Offset(0, 1));
                        assert(sq == Square(start.0, (start.1 + 2) as i8));
                        assert(sq1 == Square(start.0, (start.1 + 1) as i8));
                    } else {
                        lemma_pawn_steps();
                        assert(t == Offset(0, -1i8));
                        assert(sq == Square(start.0, (start.1 - 2) as i8));
                        assert(sq1 == Square(start.0, (start.1 - 1) as i8));
                    }
                    assert(ep_target_behind(sq, color) == sq1);
                }
                assert forall|k: int| 0 <= k < 5 implies opt_fits(b, #[trigger] r2[k], color) by {
                    if k == i - 1 {
                    }
                }
                lemma_pawn_moves_fit(b, start, color, count, i + 1, r2);
            },
        }
    }
}

proof fn lemma_capture_slot_fit(
    b: BoardModel,
    start: Square,
    color: Color,
    i: int,
    res: Seq<Option<ChessMove>>,
)
    requires
        b.piece(start) matches Some(q) && q.color == color && q.piece_type == PieceType::Pawn,
        0 <= i <= 1,
        res.len() == 8,
        forall|k: int| 0 <= k < 8 ==> opt_fits(b, #[trigger] res[k], color),
    ensures
        capture_slot(b, start, color, i, res).len() == 8,
        forall|k: int| 0 <= k < 8 ==> opt_fits(b, #[trigger] capture_slot(b, start, color, i, res)[k], color),
{
}

proof fn lemma_pawn_fit(b: BoardModel, p: ChessPiece)
    requires
        b.piece(p.position) == Some(p),
        p.piece_type == PieceType::Pawn,
    ensures
        all_fit(b, spec_pawn_get_moves(b, p), p.color),
{
    let start = p.position;
    let color = p.color;
    let (_, double_move_rank, _) = crate::move_generator::pawn_params(color);
    let count: nat = if start.1 == double_move_rank { 2 } else { 1 };
    lemma_pawn_moves_fit(b, start, color, count, 1, nones(5));
    lemma_somes_fit(b, spec_pawn_moves(b, start, color), color);
    lemma_capture_slot_fit(b, start, color, 0, nones(8));
    lemma_capture_slot_fit(b, start, color, 1, capture_slot(b, start, color, 0, nones(8)));
    lemma_somes_fit(b, spec_pawn_captures(b, start, color), color);
    let a = somes(spec_pawn_moves(b, start, color));
    let c = somes(spec_pawn_captures(b, start, color));
    lemma_concat_fit(b, a, c, color);
    let e = match spec_en_passant(b, start, color) {
        Some(ep) => if crate::move_generator::pin_at(b, color, ep.from) == Some(
            crate::move_generator::models::PinDir::EnPassantBlock,
        ) {
            Seq::<ChessMove>::empty()
        } else {
            seq![ep]
        },
        None => Seq::<ChessMove>::empty(),
    };
    assert(all_fit(b, e, color));
    lemma_concat_fit(b, a + c, e, color);
    assert(pawn_raw(b, p) == a + c + e);
    lemma_checked_fit(b, pawn_raw(b, p), color);
    lemma_filter_fit(
        b,
        filter_checked(pawn_raw(b, p), b, color),
        crate::move_generator::pin_pred(b, color),
        color,
    );
}

proof fn lemma_piece_fit(b: BoardModel, p: ChessPiece)
    requires
        b.piece(p.position) == Some(p),
        castles_ready(b),
        kings_recorded(b),
    ensures
        all_fit(b, spec_piece_moves(b, p), p.color),
{
    let pin = crate::move_generator::pin_pred(b, p.color);
    match p.piece_type {
        PieceType::Pawn => lemma_pawn_fit(b, p),
        PieceType::Knight => {
            lemma_knight_fit(b, p, 8);
            lemma_filter_fit(b, knight_raw(b, p, 8), pin, p.color);
            lemma_checked_fit(b, knight_raw(b, p, 8).filter(pin), p.color);
        },
        PieceType::Bishop => {
            lemma_slider_fit(b, p, 4, 4);
            lemma_filter_fit(b, slider_raw(b, p, 4, 4), pin, p.color);
            lemma_checked_fit(b, slider_raw(b, p, 4, 4).filter(pin), p.color);
        },
        PieceType::Rook => {
            lemma_slider_fit(b, p, 0, 4);
            lemma_filter_fit(b, slider_raw(b, p, 0, 4), pin, p.color);
            lemma_checked_fit(b, slider_raw(b, p, 0, 4).filter(pin), p.color);
        },
        PieceType::Queen => {
            lemma_slider_fit(b, p, 0, 8);
            lemma_filter_fit(b, slider_raw(b, p, 0, 8), pin, p.color);
            lemma_checked_fit(b, slider_raw(b, p, 0, 8).filter(pin), p.color);
        },
        PieceType::King => lemma_king_fit(b, p),
    }
}

proof fn lemma_upto_fit(b: BoardModel, color: Color, n: int)
    requires
        well_placed(b),
        castles_ready(b),
        kings_recorded(b),
        n <= 64,
    ensures
        all_fit(b, moves_upto(b, color, n), color),
    decreases n,
{
    if n > 0 {
        lemma_upto_fit(b, color, n - 1);
        let tail = match b.pieces[n - 1] {
            Some(p) => if p.color == color {
                spec_piece_moves(b, p)
            } else {
                Seq::<ChessMove>::empty()
            },
            None => Seq::<ChessMove>::empty(),
        };
        if let Some(p) = b.pieces[n - 1] {
            if p.color == color {
                let i = n - 1;
                assert(b.pieces[i] matches Some(q) ==> q.position == Square((i % 8) as i8, (i / 8) as i8));
                assert(p.position.index() == i);
                lemma_piece_fit(b, p);
            }
        }
        assert(all_fit(b, tail, color));
        lemma_concat_fit(b, moves_upto(b, color, n - 1), tail, color);
    }
}

/// Every move the generator gives the side to move in a sound position, with room left on
/// the clocks, can be played without error, and, unless it takes a king, leaves a sound
/// position.
pub proof fn lemma_generated_moves_play(b: BoardModel, m: ChessMove)
    requires
        sound_position(b),
        b.half_move_timer_50 < u8::MAX,
        b.turn == Color::Black ==> b.full_move_number < u16::MAX,
        spec_all_moves(b, b.turn).contains(m),
    ensures
        b.spec_register_move(m) matches Some((_, r)) && r is Ok,
        !takes_king(b, m) ==> sound_position(crate::chess_bot::zobrist::registered(b, m)),
{
    lemma_upto_fit(b, b.turn, 64);
    lemma_fitting_move_plays(b, m);
    if !takes_king(b, m) {
        lemma_fitting_move_keeps_sound(b, m);
    }
}

pub(crate) proof fn lemma_count_update(s: Seq<Option<ChessPiece>>, c: Color, n: int, k: int, x: Option<ChessPiece>)
    requires
        0 <= k < s.len(),
        n <= s.len(),
    ensures
        mating_count(s.update(k, x), c, n) == mating_count(s, c, n) + (if k < n {
            points_of(x, c) - points_of(s[k], c)
        } else {
            0
        }),
    decreases n,
{
    if n > 0 {
        lemma_count_update(s, c, n - 1, k, x);
    }
}

proof fn lemma_count_set(s: Seq<Option<ChessPiece>>, sq: Square, x: Option<ChessPiece>)
    requires
        s.len() == 64,
        sq.in_bounds(),
    ensures
        mating_count(s.update(sq.index(), x), Color::White, 64) == mating_count(s, Color::White, 64)
            + points_of(x, Color::White) - points_of(s[sq.index()], Color::White),
        mating_count(s.update(sq.index(), x), Color::Black, 64) == mating_count(s, Color::Black, 64)
            + points_of(x, Color::Black) - points_of(s[sq.index()], Color::Black),
{
    lemma_count_update(s, Color::White, 64, sq.index(), x);
    lemma_count_update(s, Color::Black, 64, sq.index(), x);
}

/// A castling right that survives a move was there before, and the move neither starts on
/// the king's or the rook's square nor ends on the rook's.
proof fn lemma_right_kept(b: BoardModel, m: ChessMove, ct: CastleType)
    requires
        castle_right(b.castling_after(m), ct),
    ensures
        castle_right(b.castling, ct),
        m.from != castle_squares(ct).0,
        m.from != castle_squares(ct).1,
        m.to != castle_squares(ct).1,
{
}

proof fn lemma_index_inj(a: Square, c: Square)
    requires
        a.in_bounds(),
        c.in_bounds(),
        a != c,
    ensures
        a.index() != c.index(),
{
}

/// Whether a move takes a king.
pub open spec fn takes_king(b: BoardModel, m: ChessMove) -> bool {
    &&& (m.move_type is Capture || m.move_type is PromotionCapture)
    &&& b.piece(m.to) matches Some(q) && q.piece_type == PieceType::King
}

proof fn lemma_sound_quiet(b: BoardModel, m: ChessMove)
    requires
        sound_position(b),
        b.half_move_timer_50 < u8::MAX,
        b.turn == Color::Black ==> b.full_move_number < u16::MAX,
        fits_move(b, m, b.turn),
        m.move_type is Move,
    ensures
        sound_position(crate::chess_bot::zobrist::registered(b, m)),
        forall|t: Square| #[trigger] crate::chess_bot::zobrist::registered(b, m).piece(t) == played_pieces(b, m).piece(t),
{
    lemma_fitting_move_plays(b, m);
    crate::board_setup::laws::lemma_register_keeps_places(b, m);
    let p = b.piece(m.from)->0;
    let b2 = crate::chess_bot::zobrist::registered(b, m);
    let s0 = b.pieces;
    let s1 = s0.update(m.from.index(), None);
    let q = ChessPiece { position: m.to, ..p };
    let s2 = s1.update(m.to.index(), Some(q));
    assert(b2.pieces == s2);
    assert(played_pieces(b, m).pieces == s2);
    lemma_index_inj(m.from, m.to);
    lemma_count_set(s0, m.from, None);
    lemma_count_set(s1, m.to, Some(q));
    assert(b2.mating_material == b.mating_material);
    assert(b2.castling == b.castling_after(m));
    assert forall|ct: CastleType| #[trigger] castle_right(b2.castling, ct) implies castle_ready(b2, ct) by {
        lemma_right_kept(b, m, ct);
        let (kf, rf, _, _) = castle_squares(ct);
        assert(castle_ready(b, ct));
        lemma_index_inj(m.from, kf);
        lemma_index_inj(m.from, rf);
        lemma_index_inj(m.to, kf);
        lemma_index_inj(m.to, rf);
    }
    assert(ep_sound(b2)) by {
        if double_step(b, m) {
            let t = ep_target_behind(m.to, p.color);
            lemma_index_inj(t, m.to);
            lemma_index_inj(t, m.from);
            assert(ep_captured_square(t, b2.turn) == m.to);
        }
    }
    assert(kings_recorded(b2)) by {
        assert forall|i: int| 0 <= i < 64 implies match #[trigger] b2.pieces[i] {
            Some(k) => k.piece_type == PieceType::King ==> Square((i % 8) as i8, (i / 8) as i8)
                == king_of(b2, k.color),
            None => true,
        } by {
            if i == m.to.index() {
                assert(i % 8 == m.to.0 && i / 8 == m.to.1);
            } else if i != m.from.index() {
                assert(b2.pieces[i] == b.pieces[i]);
                let j = m.from.index();
                assert(j % 8 == m.from.0 && j / 8 == m.from.1);
                assert(b.pieces[j] == Some(p));
            }
        }
    }
}

proof fn lemma_sound_capture(b: BoardModel, m: ChessMove)
    requires
        sound_position(b),
        b.half_move_timer_50 < u8::MAX,
        b.turn == Color::Black ==> b.full_move_number < u16::MAX,
        fits_move(b, m, b.turn),
        !takes_king(b, m),
        m.move_type is Capture,
    ensures
        sound_position(crate::chess_bot::zobrist::registered(b, m)),
        forall|t: Square| #[trigger] crate::chess_bot::zobrist::registered(b, m).piece(t) == played_pieces(b, m).piece(t),
{
    lemma_fitting_move_plays(b, m);
    crate::board_setup::laws::lemma_register_keeps_places(b, m);
    let p = b.piece(m.from)->0;
    let cap = b.piece(m.to)->0;
    let b2 = crate::chess_bot::zobrist::registered(b, m);
    let s0 = b.pieces;
    let s1 = s0.update(m.from.index(), None);
    let s2 = s1.update(m.to.index(), None);
    let q = ChessPiece { position: m.to, ..p };
    let s3 = s2.update(m.to.index(), Some(q));
    assert(m.from != m.to);
    assert(m.to.in_bounds());
    assert(b2.pieces == s3);
    assert(played_pieces(b, m).pieces =~= s3);
    lemma_index_inj(m.from, m.to);
    lemma_count_set(s0, m.from, None);
    lemma_count_set(s1, m.to, None);
    lemma_count_set(s2, m.to, Some(q));
    assert(b2.castling == b.castling_after(m));
    assert forall|ct: CastleType| #[trigger] castle_right(b2.castling, ct) implies castle_ready(b2, ct) by {
        lemma_right_kept(b, m, ct);
        let (kf, rf, _, _) = castle_squares(ct);
        assert(castle_ready(b, ct));
        lemma_index_inj(m.from, kf);
        lemma_index_inj(m.from, rf);
        lemma_index_inj(m.to, kf);
        lemma_index_inj(m.to, rf);
    }
    assert(ep_sound(b2));
    assert(kings_recorded(b2)) by {
        assert forall|i: int| 0 <= i < 64 implies match #[trigger] b2.pieces[i] {
            Some(k) => k.piece_type == PieceType::King ==> Square((i % 8) as i8, (i / 8) as i8)
                == king_of(b2, k.color),
            None => true,
        } by {
            if i == m.to.index() {
                assert(i % 8 == m.to.0 && i / 8 == m.to.1);
            } else if i != m.from.index() {
                assert(b2.pieces[i] == b.pieces[i]);
                let j = m.from.index();
                assert(j % 8 == m.from.0 && j / 8 == m.from.1);
                assert(b.pieces[j] == Some(p));
            }
        }
    }
}

proof fn lemma_sound_en_passant(b: BoardModel, m: ChessMove)
    requires
        sound_position(b),
        b.half_move_timer_50 < u8::MAX,
        b.turn == Color::Black ==> b.full_move_number < u16::MAX,
        fits_move(b, m, b.turn),
        m.move_type is EnPassantMove,
    ensures
        sound_position(crate::chess_bot::zobrist::registered(b, m)),
        forall|t: Square| #[trigger] crate::chess_bot::zobrist::registered(b, m).piece(t) == played_pieces(b, m).piece(t),
{
    lemma_fitting_move_plays(b, m);
    crate::board_setup::laws::lemma_register_keeps_places(b, m);
    let p = b.piece(m.from)->0;
    let cs = ep_captured_square(m.to, p.color);
    let cap = b.piece(cs)->0;
    let b2 = crate::chess_bot::zobrist::registered(b, m);
    let s0 = b.pieces;
    let s1 = s0.update(m.from.index(), None);
    let s2 = s1.update(cs.index(), None);
    let q = ChessPiece { position: m.to, ..p };
    let s3 = s2.update(m.to.index(), Some(q));
    assert(m.to.in_bounds());
    assert(cs.in_bounds());
    assert(cs != m.from);
    assert(cs != m.to);
    assert(m.from != m.to);
    assert(b2.pieces == s3);
    assert(played_pieces(b, m).pieces =~= s3);
    lemma_index_inj(m.from, m.to);
    lemma_index_inj(m.from, cs);
    lemma_index_inj(cs, m.to);
    lemma_count_set(s0, m.from, None);
    lemma_count_set(s1, cs, None);
    lemma_count_set(s2, m.to, Some(q));
    assert(b2.castling == b.castling_after(m));
    assert forall|ct: CastleType| #[trigger] castle_right(b2.castling, ct) implies castle_ready(b2, ct) by {
        lemma_right_kept(b, m, ct);
        let (kf, rf, _, _) = castle_squares(ct);
        assert(castle_ready(b, ct));
        lemma_index_inj(m.from, kf);
        lemma_index_inj(m.from, rf);
        lemma_index_inj(m.to, kf);
        lemma_index_inj(m.to, rf);
        lemma_index_inj(cs, kf);
        lemma_index_inj(cs, rf);
    }
    assert(ep_sound(b2));
    assert(kings_recorded(b2)) by {
        assert forall|i: int| 0 <= i < 64 implies match #[trigger] b2.pieces[i] {
            Some(k) => k.piece_type == PieceType::King ==> Square((i % 8) as i8, (i / 8) as i8)
                == king_of(b2, k.color),
            None => true,
        } by {
            if i == m.to.index() {
                assert(i % 8 == m.to.0 && i / 8 == m.to.1);
            } else if i != m.from.index() && i != cs.index() {
                assert(b2.pieces[i] == b.pieces[i]);
                let j = m.from.index();
                assert(j % 8 == m.from.0 && j / 8 == m.from.1);
                assert(b.pieces[j] == Some(p));
            }
        }
    }
}

proof fn lemma_sound_promotion(b: BoardModel, m: ChessMove)
    requires
        sound_position(b),
        b.half_move_timer_50 < u8::MAX,
        b.turn == Color::Black ==> b.full_move_number < u16::MAX,
        fits_move(b, m, b.turn),
        m.move_type is PromotionMove,
    ensures
        sound_position(crate::chess_bot::zobrist::registered(b, m)),
        forall|t: Square| #[trigger] crate::chess_bot::zobrist::registered(b, m).piece(t) == played_pieces(b, m).piece(t),
{
    lemma_fitting_move_plays(b, m);
    crate::board_setup::laws::lemma_register_keeps_places(b, m);
    let p = b.piece(m.from)->0;
    let ppt = m.move_type->PromotionMove_0;
    let np = crate::move_register::spec_promote_piece(ppt, m.to, p.color);
    let b2 = crate::chess_bot::zobrist::registered(b, m);
    let s0 = b.pieces;
    let s1 = s0.update(m.from.index(), None);
    let q = ChessPiece { position: m.to, ..np };
    let s2 = s1.update(m.to.index(), Some(q));
    assert(b2.pieces == s2);
    assert(played_pieces(b, m).pieces == s2);
    lemma_index_inj(m.from, m.to);
    lemma_count_set(s0, m.from, None);
    lemma_count_set(s1, m.to, Some(q));
    assert(b2.castling == b.castling_after(m));
    assert forall|ct: CastleType| #[trigger] castle_right(b2.castling, ct) implies castle_ready(b2, ct) by {
        lemma_right_kept(b, m, ct);
        let (kf, rf, _, _) = castle_squares(ct);
        assert(castle_ready(b, ct));
        lemma_index_inj(m.from, kf);
        lemma_index_inj(m.from, rf);
        lemma_index_inj(m.to, kf);
        lemma_index_inj(m.to, rf);
    }
    assert(ep_sound(b2));
    assert(kings_recorded(b2)) by {
        assert forall|i: int| 0 <= i < 64 implies match #[trigger] b2.pieces[i] {
            Some(k) => k.piece_type == PieceType::King ==> Square((i % 8) as i8, (i / 8) as i8)
                == king_of(b2, k.color),
            None => true,
        } by {
            if i != m.to.index() && i != m.from.index() {
                assert(b2.pieces[i] == b.pieces[i]);
            }
        }
    }
}

proof fn lemma_sound_promotion_capture(b: BoardModel, m: ChessMove)
    requires
        sound_position(b),
        b.half_move_timer_50 < u8::MAX,
        b.turn == Color::Black ==> b.full_move_number < u16::MAX,
        fits_move(b, m, b.turn),
        !takes_king(b, m),
        m.move_type is PromotionCapture,
    ensures
        sound_position(crate::chess_bot::zobrist::registered(b, m)),
        forall|t: Square| #[trigger] crate::chess_bot::zobrist::registered(b, m).piece(t) == played_pieces(b, m).piece(t),
{
    lemma_fitting_move_plays(b, m);
    crate::board_setup::laws::lemma_register_keeps_places(b, m);
    let p = b.piece(m.from)->0;
    let cap = b.piece(m.to)->0;
    let ppt = m.move_type->PromotionCapture_0;
    let np = crate::move_register::spec_promote_piece(ppt, m.to, p.color);
    let b2 = crate::chess_bot::zobrist::registered(b, m);
    let s0 = b.pieces;
    let s1 = s0.update(m.from.index(), None);
    let s2 = s1.update(m.to.index(), None);
    let q = ChessPiece { position: m.to, ..np };
    let s3 = s2.update(m.to.index(), Some(q));
    assert(m.from != m.to);
    assert(m.to.in_bounds());
    assert(b2.pieces == s3);
    assert(played_pieces(b, m).pieces =~= s3);
    lemma_index_inj(m.from, m.to);
    lemma_count_set(s0, m.from, None);
    lemma_count_set(s1, m.to, None);
    lemma_count_set(s2, m.to, Some(q));
    assert(b2.castling == b.castling_after(m));
    assert forall|ct: CastleType| #[trigger] castle_right(b2.castling, ct) implies castle_ready(b2, ct) by {
        lemma_right_kept(b, m, ct);
        let (kf, rf, _, _) = castle_squares(ct);
        assert(castle_ready(b, ct));
        lemma_index_inj(m.from, kf);
        lemma_index_inj(m.from, rf);
        lemma_index_inj(m.to, kf);
        lemma_index_inj(m.to, rf);
    }
    assert(ep_sound(b2));
    assert(kings_recorded(b2)) by {
        assert forall|i: int| 0 <= i < 64 implies match #[trigger] b2.pieces[i] {
            Some(k) => k.piece_type == PieceType::King ==> Square((i % 8) as i8, (i / 8) as i8)
                == king_of(b2, k.color),
            None => true,
        } by {
            if i != m.to.index() && i != m.from.index() {
                assert(b2.pieces[i] == b.pieces[i]);
            }
        }
    }
}

proof fn lemma_sound_castle(b: BoardModel, m: ChessMove)
    requires
        sound_position(b),
        b.half_move_timer_50 < u8::MAX,
        b.turn == Color::Black ==> b.full_move_number < u16::MAX,
        fits_move(b, m, b.turn),
        m.move_type is CastleMove,
    ensures
        sound_position(crate::chess_bot::zobrist::registered(b, m)),
        forall|t: Square| #[trigger] crate::chess_bot::zobrist::registered(b, m).piece(t) == played_pieces(b, m).piece(t),
{
    lemma_fitting_move_plays(b, m);
    crate::board_setup::laws::lemma_register_keeps_places(b, m);
    let ct = m.move_type->CastleMove_0;
    let (kf, rf, kt, rt) = castle_squares(ct);
    assert(castle_ready(b, ct));
    let k = b.piece(kf)->0;
    let rook = b.piece(rf)->0;
    let b2 = crate::chess_bot::zobrist::registered(b, m);
    let s0 = b.pieces;
    let s1 = s0.update(kf.index(), None);
    let s2 = s1.update(rf.index(), None);
    let kq = ChessPiece { position: kt, ..k };
    let s3 = s2.update(kt.index(), Some(kq));
    let rq = ChessPiece { position: rt, ..rook };
    let s4 = s3.update(rt.index(), Some(rq));
    assert(b2.pieces == s4);
    assert(played_pieces(b, m).pieces == s4);
    lemma_count_set(s0, kf, None);
    lemma_count_set(s1, rf, None);
    lemma_count_set(s2, kt, Some(kq));
    lemma_count_set(s3, rt, Some(rq));
    assert(b2.castling == b.castling_after(m));
    assert(b2.king_positions == b.with_king(kt, k.color).king_positions);
    assert forall|c: CastleType| #[trigger] castle_right(b2.castling, c) implies castle_ready(b2, c) by {
        lemma_right_kept(b, m, c);
        assert(castle_ready(b, c));
    }
    assert(ep_sound(b2));
    assert(kings_recorded(b2)) by {
        assert forall|i: int| 0 <= i < 64 implies match #[trigger] b2.pieces[i] {
            Some(x) => x.piece_type == PieceType::King ==> Square((i % 8) as i8, (i / 8) as i8)
                == king_of(b2, x.color),
            None => true,
        } by {
            if i == kt.index() {
                assert(i % 8 == kt.0 && i / 8 == kt.1);
            } else if i != kf.index() && i != rf.index() && i != rt.index() {
                assert(b2.pieces[i] == b.pieces[i]);
                let j = kf.index();
                assert(j % 8 == kf.0 && j / 8 == kf.1);
                assert(b.pieces[j] == Some(k));
            }
        }
    }
}

/// Playing a move that fits a sound position, and does not take a king, with room left on
/// the clocks, gives a sound position again.
pub proof fn lemma_fitting_move_keeps_sound(b: BoardModel, m: ChessMove)
    requires
        sound_position(b),
        b.half_move_timer_50 < u8::MAX,
        b.turn == Color::Black ==> b.full_move_number < u16::MAX,
        fits_move(b, m, b.turn),
        !takes_king(b, m),
    ensures
        sound_position(crate::chess_bot::zobrist::registered(b, m)),
        forall|t: Square| #[trigger] crate::chess_bot::zobrist::registered(b, m).piece(t) == played_pieces(b, m).piece(t),
{
    match m.move_type {
        MoveType::Move(_) => lemma_sound_quiet(b, m),
        MoveType::Capture(_) => lemma_sound_capture(b, m),
        MoveType::EnPassantMove => lemma_sound_en_passant(b, m),
        MoveType::CastleMove(_) => lemma_sound_castle(b, m),
        MoveType::PromotionMove(_) => lemma_sound_promotion(b, m),
        MoveType::PromotionCapture(_) => lemma_sound_promotion_capture(b, m),
    }
}

pub(crate) proof fn lemma_count_flat(s: Seq<Option<ChessPiece>>, c: Color, a: int, n: int)
    requires
        0 <= a <= n,
        forall|i: int| a <= i < n ==> points_of(#[trigger] s[i], c) == 0,
    ensures
        mating_count(s, c, n) == mating_count(s, c, a),
    decreases n - a,
{
    if n > a {
        lemma_count_flat(s, c, a, n - 1);
    }
}

/// The starting position of a game is sound.
pub proof fn lemma_initial_position_sound()
    ensures
        sound_position(crate::board_setup::fen::initial_position()),
{
    let b = crate::board_setup::fen::initial_position();
    let s = b.pieces;
    assert forall|i: int| 0 <= i < 64 implies (#[trigger] s[i] matches Some(p) ==> p.position
        == Square((i % 8) as i8, (i / 8) as i8)) by {
    }
    assert(well_placed(b));
    // white: the back rank, then the pawns, then nothing
    assert(mating_count(s, Color::White, 0) == 0);
    assert(mating_count(s, Color::White, 1) == 3);
    assert(mating_count(s, Color::White, 2) == 4);
    assert(mating_count(s, Color::White, 3) == 6);
    assert(mating_count(s, Color::White, 4) == 9);
    assert(mating_count(s, Color::White, 5) == 9);
    assert(mating_count(s, Color::White, 6) == 11);
    assert(mating_count(s, Color::White, 7) == 12);
    assert(mating_count(s, Color::White, 8) == 15);
    assert(mating_count(s, Color::White, 9) == 18);
    assert(mating_count(s, Color::White, 10) == 21);
    assert(mating_count(s, Color::White, 11) == 24);
    assert(mating_count(s, Color::White, 12) == 27);
    assert(mating_count(s, Color::White, 13) == 30);
    assert(mating_count(s, Color::White, 14) == 33);
    assert(mating_count(s, Color::White, 15) == 36);
    assert(mating_count(s, Color::White, 16) == 39);
    lemma_count_flat(s, Color::White, 16, 64);
    // black: nothing, then the pawns, then the back rank
    lemma_count_flat(s, Color::Black, 0, 48);
    assert(mating_count(s, Color::Black, 48) == 0);
    assert(mating_count(s, Color::Black, 49) == 3);
    assert(mating_count(s, Color::Black, 50) == 6);
    assert(mating_count(s, Color::Black, 51) == 9);
    assert(mating_count(s, Color::Black, 52) == 12);
    assert(mating_count(s, Color::Black, 53) == 15);
    assert(mating_count(s, Color::Black, 54) == 18);
    assert(mating_count(s, Color::Black, 55) == 21);
    assert(mating_count(s, Color::Black, 56) == 24);
    assert(mating_count(s, Color::Black, 57) == 27);
    assert(mating_count(s, Color::Black, 58) == 28);
    assert(mating_count(s, Color::Black, 59) == 30);
    assert(mating_count(s, Color::Black, 60) == 33);
    assert(mating_count(s, Color::Black, 61) == 33);
    assert(mating_count(s, Color::Black, 62) == 35);
    assert(mating_count(s, Color::Black, 63) == 36);
    assert(mating_count(s, Color::Black, 64) == 39);
    assert forall|ct: CastleType| #[trigger] castle_right(b.castling, ct) implies castle_ready(b, ct) by {
        assert(s[4] == crate::board_setup::fen::start_piece(4));
        assert(s[0] == crate::board_setup::fen::start_piece(0));
        assert(s[7] == crate::board_setup::fen::start_piece(7));
        assert(s[60] == crate::board_setup::fen::start_piece(60));
        assert(s[56] == crate::board_setup::fen::start_piece(56));
        assert(s[63] == crate::board_setup::fen::start_piece(63));
    }
    assert forall|i: int|
        0 <= i < 64 implies match #[trigger] s[i] {
            Some(q) => q.piece_type == PieceType::King ==> Square((i % 8) as i8, (i / 8) as i8)
                == king_of(b, q.color),
            None => true,
        } by {
    }
}

/// Every move the generator gives a side fits the position, where every piece records its
/// square, every castling right has its king and rook in place and every king stands on
/// the square its side records.
pub proof fn lemma_generated_move_fits(b: BoardModel, color: Color, m: ChessMove)
    requires
        well_placed(b),
        castles_ready(b),
        kings_recorded(b),
        spec_all_moves(b, color).contains(m),
    ensures
        fits_move(b, m, color),
{
    lemma_upto_fit(b, color, 64);
}

} // verus!
