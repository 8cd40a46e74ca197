use vstd::prelude::*;

use crate::board_setup::laws::well_placed;
use crate::board_setup::models::BoardModel;
use crate::chess_bot::piece_tables::{
    lemma_piece_value_bounded, spec_evaluate_chg, spec_piece_value, spec_positional_value,
};
use crate::chess_bot::zobrist::{
    before_pieces, hash_consistent_move, hash_of, lemma_incremental_hash, pieces_moved,
    registered, spec_hash_with_move,
};
use crate::move_generator::laws::{
    castle_ready, consistent_setup, double_step, lemma_generated_move_fits,
};
use crate::move_generator::models::spec_all_moves;
use crate::chess_bot::{lemma_pst_partial_bound, material_partial, spec_evaluate_position, spec_is_endgame};
use crate::move_generator::models::{ChessPiece, Color, PieceType, Square};
use crate::move_register::models::{CastleType, ChessMove, MoveType};
use crate::move_register::{castle_color, castle_squares, ep_captured_square, spec_promote_piece};

verus! {

/// The material and table values that one square adds to a position: nothing where it is
/// empty.
pub open spec fn slot_value(x: Option<ChessPiece>, e: bool) -> (int, int) {
    match x {
        None => (0, 0),
        Some(q) => (spec_piece_value(q, e).0 as int, spec_piece_value(q, e).1 as int),
    }
}

/// The total material and table values of the pieces on the first `n` squares, from
/// white's point of view, in the endgame or not.
pub open spec fn values_total(pieces: Seq<Option<ChessPiece>>, e: bool, n: int) -> (int, int)
    decreases n,
{
    if n <= 0 {
        (0, 0)
    } else {
        let (m, p) = values_total(pieces, e, n - 1);
        let (dm, dp) = slot_value(pieces[n - 1], e);
        (m + dm, p + dp)
    }
}

proof fn lemma_update_total(
    s: Seq<Option<ChessPiece>>,
    e: bool,
    n: int,
    k: int,
    x: Option<ChessPiece>,
)
    requires
        0 <= k < s.len(),
        n <= s.len(),
    ensures
        values_total(s.update(k, x), e, n).0 == values_total(s, e, n).0 + (if k < n {
            slot_value(x, e).0 - slot_value(s[k], e).0
        } else {
            0
        }),
        values_total(s.update(k, x), e, n).1 == values_total(s, e, n).1 + (if k < n {
            slot_value(x, e).1 - slot_value(s[k], e).1
        } else {
            0
        }),
    decreases n,
{
    if n > 0 {
        lemma_update_total(s, e, n - 1, k, x);
    }
}

proof fn lemma_set_total(s: Seq<Option<ChessPiece>>, sq: Square, x: Option<ChessPiece>, e: bool)
    requires
        s.len() == 64,
        sq.in_bounds(),
    ensures
        values_total(s.update(sq.index(), x), e, 64).0 == values_total(s, e, 64).0 + slot_value(
            x,
            e,
        ).0 - slot_value(s[sq.index()], e).0,
        values_total(s.update(sq.index(), x), e, 64).1 == values_total(s, e, 64).1 + slot_value(
            x,
            e,
        ).1 - slot_value(s[sq.index()], e).1,
{
    lemma_update_total(s, e, 64, sq.index(), x);
}

/// A piece found on a square of a well placed position records that square.
proof fn lemma_placed(b: BoardModel, sq: Square)
    requires
        well_placed(b),
        sq.in_bounds(),
        b.piece(sq) is Some,
    ensures
        b.piece(sq)->0 == (ChessPiece { position: sq, ..b.piece(sq)->0 }),
        b.piece(sq)->0.position.in_bounds(),
{
    let i = sq.index();
    assert(i % 8 == sq.0 && i / 8 == sq.1);
    assert(b.pieces[i] matches Some(p) ==> p.position == Square((i % 8) as i8, (i / 8) as i8));
}

/// Whether a move agrees with the position in what the change of values takes for
/// granted: a quiet move, an en passant capture or a promotion lands on an empty square
/// (or stays where it is), an en passant capture is made by the side to move onto the en
/// passant target, a castling move takes the king between the squares of the castling
/// and finds the side's rook in its corner and the target squares empty, and a promotion
/// promotes a pawn.
pub open spec fn eval_consistent_move(b: BoardModel, m: ChessMove) -> bool {
    match b.piece(m.from) {
        None => false,
        Some(p) => match m.move_type {
            MoveType::Move(_) => m.to == m.from || b.piece(m.to) is None,
            MoveType::Capture(_) => true,
            MoveType::EnPassantMove => {
                &&& b.en_passant_square == Some(m.to)
                &&& b.turn == p.color
                &&& b.piece(m.to) is None
            },
            MoveType::CastleMove(ct) => {
                let (kf, rf, kt, rt) = castle_squares(ct);
                &&& m.from == kf
                &&& m.to == kt
                &&& b.piece(rf) matches Some(r)
                &&& r.piece_type == PieceType::Rook
                &&& r.color == castle_color(ct)
                &&& b.piece(kt) is None
                &&& b.piece(rt) is None
            },
            MoveType::PromotionMove(_) => p.piece_type == PieceType::Pawn && (m.to == m.from
                || b.piece(m.to) is None),
            MoveType::PromotionCapture(_) => p.piece_type == PieceType::Pawn,
        },
    }
}

/// Whether the change of material that `evaluate_chg` computes for a move is the true one:
/// it is not for a black pawn's promotion, whose gain it counts for white.
pub open spec fn material_chg_exact(b: BoardModel, m: ChessMove) -> bool {
    !(m.move_type is PromotionMove || m.move_type is PromotionCapture) || !(b.piece(m.from) matches Some(
        p,
    ) && p.color == Color::Black)
}

/// The piece that a promotion puts on the board.
pub open spec fn promoted_piece(b: BoardModel, m: ChessMove) -> Option<ChessPiece> {
    match (m.move_type, b.piece(m.from)) {
        (MoveType::PromotionMove(ppt), Some(p)) => Some(spec_promote_piece(ppt, m.to, p.color)),
        (MoveType::PromotionCapture(ppt), Some(p)) => Some(spec_promote_piece(ppt, m.to, p.color)),
        _ => None,
    }
}

/// Whether the change of table values that `evaluate_chg` computes for a move is the true
/// one: it is not for black's long castling, whose rook it values on white's side of the
/// table, nor for a promotion whose new piece has another table value on its square than a
/// pawn, as which it values the new piece.
pub open spec fn table_chg_exact(b: BoardModel, m: ChessMove, e: bool) -> bool {
    &&& m.move_type != MoveType::CastleMove(CastleType::BlackLong)
    &&& promoted_piece(b, m) matches Some(np) ==> spec_positional_value(np, e)
        == spec_positional_value(ChessPiece { piece_type: PieceType::Pawn, ..np }, e)
}

/// What moving the pieces of a move does to the totals, against the change computed.
spec fn eval_post(b: BoardModel, m: ChessMove, e: bool) -> bool {
    let before = values_total(b.pieces, e, 64);
    let after = values_total(pieces_moved(b, m).pieces, e, 64);
    &&& spec_evaluate_chg(b, m, e) is Some
    &&& material_chg_exact(b, m) ==> after.0 == before.0 + spec_evaluate_chg(b, m, e)->0.material
    &&& table_chg_exact(b, m, e) ==> after.1 == before.1 + spec_evaluate_chg(b, m, e)->0.pst
}

/// Whether the pieces of a move can be moved in the position.
spec fn moves_ok(b: BoardModel, m: ChessMove) -> bool {
    m.spec_register(before_pieces(b, m)) matches Some((_, r)) && r is Ok
}

proof fn lemma_values_quiet(b: BoardModel, m: ChessMove, e: bool)
    requires
        well_placed(b),
        eval_consistent_move(b, m),
        moves_ok(b, m),
        m.move_type is Move,
    ensures
        eval_post(b, m, e),
{
    let p = b.piece(m.from)->0;
    lemma_placed(b, m.from);
    lemma_piece_value_bounded(p, e);
    let q = ChessPiece { position: m.to, ..p };
    lemma_piece_value_bounded(q, e);
    let s0 = b.pieces;
    let s1 = s0.update(m.from.index(), None);
    lemma_set_total(s0, m.from, None, e);
    lemma_set_total(s1, m.to, Some(q), e);
    assert(pieces_moved(b, m).pieces == s1.update(m.to.index(), Some(q)));
}

proof fn lemma_values_capture(b: BoardModel, m: ChessMove, e: bool)
    requires
        well_placed(b),
        eval_consistent_move(b, m),
        moves_ok(b, m),
        m.move_type is Capture,
    ensures
        eval_post(b, m, e),
{
    let p = b.piece(m.from)->0;
    lemma_placed(b, m.from);
    lemma_piece_value_bounded(p, e);
    let q = ChessPiece { position: m.to, ..p };
    lemma_piece_value_bounded(q, e);
    let s0 = b.pieces;
    let s1 = s0.update(m.from.index(), None);
    assert(m.from != m.to);
    let cap = b.piece(m.to)->0;
    lemma_placed(b, m.to);
    lemma_piece_value_bounded(cap, e);
    let s2 = s1.update(m.to.index(), None);
    lemma_set_total(s0, m.from, None, e);
    lemma_set_total(s1, m.to, None, e);
    lemma_set_total(s2, m.to, Some(q), e);
    assert(pieces_moved(b, m).pieces == s2.update(m.to.index(), Some(q)));
}

proof fn lemma_values_en_passant(b: BoardModel, m: ChessMove, e: bool)
    requires
        well_placed(b),
        eval_consistent_move(b, m),
        moves_ok(b, m),
        m.move_type is EnPassantMove,
    ensures
        eval_post(b, m, e),
{
    let p = b.piece(m.from)->0;
    lemma_placed(b, m.from);
    lemma_piece_value_bounded(p, e);
    let q = ChessPiece { position: m.to, ..p };
    lemma_piece_value_bounded(q, e);
    let cs = ep_captured_square(m.to, p.color);
    let s0 = b.pieces;
    let s1 = s0.update(m.from.index(), None);
    assert(cs != m.from);
    assert(cs.index() != m.to.index());
    let cap = b.piece(cs)->0;
    lemma_placed(b, cs);
    lemma_piece_value_bounded(cap, e);
    let s2 = s1.update(cs.index(), None);
    lemma_set_total(s0, m.from, None, e);
    lemma_set_total(s1, cs, None, e);
    lemma_set_total(s2, m.to, Some(q), e);
    assert(pieces_moved(b, m).pieces == s2.update(m.to.index(), Some(q)));
}

proof fn lemma_values_castle(b: BoardModel, m: ChessMove, e: bool)
    requires
        well_placed(b),
        eval_consistent_move(b, m),
        moves_ok(b, m),
        m.move_type is CastleMove,
    ensures
        eval_post(b, m, e),
{
    let ct = m.move_type->CastleMove_0;
    let (kf, rf, kt, rt) = castle_squares(ct);
    let k = b.piece(m.from)->0;
    lemma_placed(b, m.from);
    lemma_piece_value_bounded(k, e);
    let kq = ChessPiece { position: kt, ..k };
    lemma_piece_value_bounded(kq, e);
    let rook = b.piece(rf)->0;
    lemma_placed(b, rf);
    let rq = ChessPiece { position: rt, ..rook };
    lemma_piece_value_bounded(rook, e);
    lemma_piece_value_bounded(rq, e);
    let s0 = b.pieces;
    let s1 = s0.update(kf.index(), None);
    let s2 = s1.update(rf.index(), None);
    let s3 = s2.update(kt.index(), Some(kq));
    lemma_set_total(s0, kf, None, e);
    lemma_set_total(s1, rf, None, e);
    lemma_set_total(s2, kt, Some(kq), e);
    lemma_set_total(s3, rt, Some(rq), e);
    assert(pieces_moved(b, m).pieces == s3.update(rt.index(), Some(rq)));
}

proof fn lemma_values_promotion(b: BoardModel, m: ChessMove, e: bool)
    requires
        well_placed(b),
        eval_consistent_move(b, m),
        moves_ok(b, m),
        m.move_type is PromotionMove,
    ensures
        eval_post(b, m, e),
{
    let p = b.piece(m.from)->0;
    lemma_placed(b, m.from);
    lemma_piece_value_bounded(p, e);
    let ppt = m.move_type->PromotionMove_0;
    let np = spec_promote_piece(ppt, m.to, p.color);
    let q = ChessPiece { position: m.to, ..np };
    lemma_piece_value_bounded(q, e);
    lemma_piece_value_bounded(ChessPiece { position: m.to, ..p }, e);
    let s0 = b.pieces;
    let s1 = s0.update(m.from.index(), None);
    lemma_set_total(s0, m.from, None, e);
    lemma_set_total(s1, m.to, Some(q), e);
    assert(pieces_moved(b, m).pieces == s1.update(m.to.index(), Some(q)));
}

proof fn lemma_values_promotion_capture(b: BoardModel, m: ChessMove, e: bool)
    requires
        well_placed(b),
        eval_consistent_move(b, m),
        moves_ok(b, m),
        m.move_type is PromotionCapture,
    ensures
        eval_post(b, m, e),
{
    let p = b.piece(m.from)->0;
    lemma_placed(b, m.from);
    lemma_piece_value_bounded(p, e);
    let ppt = m.move_type->PromotionCapture_0;
    let np = spec_promote_piece(ppt, m.to, p.color);
    let q = ChessPiece { position: m.to, ..np };
    lemma_piece_value_bounded(q, e);
    lemma_piece_value_bounded(ChessPiece { position: m.to, ..p }, e);
    assert(m.from != m.to);
    let cap = b.piece(m.to)->0;
    lemma_placed(b, m.to);
    lemma_piece_value_bounded(cap, e);
    let s0 = b.pieces;
    let s1 = s0.update(m.from.index(), None);
    let s2 = s1.update(m.to.index(), None);
    lemma_set_total(s0, m.from, None, e);
    lemma_set_total(s1, m.to, None, e);
    lemma_set_total(s2, m.to, Some(q), e);
    assert(pieces_moved(b, m).pieces == s2.update(m.to.index(), Some(q)));
}

/// The material and table scores of the static evaluation are the totals of the values of
/// the pieces.
proof fn lemma_partial_total(b: BoardModel, e: bool, n: int)
    ensures
        material_partial(b, e, n) matches Some((mm, pp)) ==> mm == values_total(b.pieces, e, n).0
            && pp == values_total(b.pieces, e, n).1 && i16::MIN <= mm <= i16::MAX,
    decreases n,
{
    if n > 0 {
        lemma_partial_total(b, e, n - 1);
    }
}

proof fn lemma_evaluation_totals(b: BoardModel)
    ensures
        spec_evaluate_position(b) matches Some(v) ==> v.material == values_total(
            b.pieces,
            spec_is_endgame(b),
            64,
        ).0 && v.pst == values_total(b.pieces, spec_is_endgame(b), 64).1,
{
    let e = spec_is_endgame(b);
    lemma_partial_total(b, e, 64);
    if spec_evaluate_position(b) is Some {
        lemma_pst_partial_bound(b, e, 64);
    }
}

/// Incremental evaluation: for a move that agrees with the position (see
/// `eval_consistent_move`) and is played without error, `evaluate_chg` computes the change
/// of the total material and table values of the pieces, in the endgame or not; the
/// material change is exact but for a black pawn's promotion, and the table change but for
/// black's long castling and a promotion whose new piece has another table value on its
/// square than a pawn. Where both positions have a static evaluation and agree with `e` on
/// being an endgame, the same holds of their material and table scores.
#[verifier::spinoff_prover]
pub proof fn lemma_incremental_evaluation(b: BoardModel, m: ChessMove, e: bool)
    requires
        well_placed(b),
        eval_consistent_move(b, m),
        b.spec_register_move(m) matches Some((_, r)) && r is Ok,
    ensures
        spec_evaluate_chg(b, m, e) is Some,
        ({
            let before = values_total(b.pieces, e, 64);
            let after = values_total(registered(b, m).pieces, e, 64);
            let chg = spec_evaluate_chg(b, m, e)->0;
            &&& material_chg_exact(b, m) ==> after.0 == before.0 + chg.material
            &&& table_chg_exact(b, m, e) ==> after.1 == before.1 + chg.pst
        }),
        ({
            let chg = spec_evaluate_chg(b, m, e)->0;
            let b2 = registered(b, m);
            let v0 = spec_evaluate_position(b)->0;
            let v1 = spec_evaluate_position(b2)->0;
            spec_evaluate_position(b) is Some && spec_evaluate_position(b2) is Some
                && spec_is_endgame(b) == e && spec_is_endgame(b2) == e ==> (material_chg_exact(b, m)
                ==> v1.material == v0.material + chg.material) && (table_chg_exact(b, m, e)
                ==> v1.pst == v0.pst + chg.pst)
        }),
{
    assert(moves_ok(b, m));
    match m.move_type {
        MoveType::Move(_) => lemma_values_quiet(b, m, e),
        MoveType::Capture(_) => lemma_values_capture(b, m, e),
        MoveType::EnPassantMove => lemma_values_en_passant(b, m, e),
        MoveType::CastleMove(_) => lemma_values_castle(b, m, e),
        MoveType::PromotionMove(_) => lemma_values_promotion(b, m, e),
        MoveType::PromotionCapture(_) => lemma_values_promotion_capture(b, m, e),
    }
    let b2 = registered(b, m);
    assert(b2.pieces == pieces_moved(b, m).pieces);
    lemma_evaluation_totals(b);
    lemma_evaluation_totals(b2);
}

/// Incremental hashing for generated moves: in a position set up consistently for its
/// moves, updating the hash with a move the generator gives the side to move, other than a
/// pawn's double step, gives the hash of the position after the move, whenever the move is
/// played without error (which a sound position with room left on the clocks ensures, see
/// `lemma_generated_moves_play`). For a double step the update keys the en passant target
/// on the pawn's arrival square, while the position records the square behind it.
pub proof fn lemma_generated_move_hash(b: BoardModel, m: ChessMove)
    requires
        consistent_setup(b),
        spec_all_moves(b, b.turn).contains(m),
        !double_step(b, m),
        b.spec_register_move(m) matches Some((_, r)) && r is Ok,
    ensures
        spec_hash_with_move(hash_of(b), b, m) == Some(hash_of(registered(b, m))),
{
    lemma_generated_move_fits(b, b.turn, m);
    let p = b.piece(m.from)->0;
    if let MoveType::CastleMove(ct) = m.move_type {
        assert(castle_ready(b, ct));
    }
    if let Some(t) = b.en_passant_square {
        assert(t.in_bounds());
    }
    assert(hash_consistent_move(b, m));
    lemma_incremental_hash(b, m);
}

/// Incremental evaluation for generated moves: in a position set up consistently for its
/// moves, the change of values computed for a move the generator gives the side to move,
/// whenever the move is played without error, is the change of the total material and
/// table values of the pieces, with the exceptions of `lemma_incremental_evaluation`.
pub proof fn lemma_generated_move_evaluation(b: BoardModel, m: ChessMove, e: bool)
    requires
        consistent_setup(b),
        spec_all_moves(b, b.turn).contains(m),
        b.spec_register_move(m) matches Some((_, r)) && r is Ok,
    ensures
        spec_evaluate_chg(b, m, e) is Some,
        ({
            let before = values_total(b.pieces, e, 64);
            let after = values_total(registered(b, m).pieces, e, 64);
            let chg = spec_evaluate_chg(b, m, e)->0;
            &&& material_chg_exact(b, m) ==> after.0 == before.0 + chg.material
            &&& table_chg_exact(b, m, e) ==> after.1 == before.1 + chg.pst
        }),
{
    lemma_generated_move_fits(b, b.turn, m);
    if let MoveType::CastleMove(ct) = m.move_type {
        assert(castle_ready(b, ct));
    }
    assert(eval_consistent_move(b, m));
    lemma_incremental_evaluation(b, m, e);
}

} // verus!
