use vstd::prelude::*;

use crate::board_setup::fen::{fen_text, initial_position, spec_parse_fen, start_piece};
use crate::board_setup::laws::{has_king, king_at, lemma_fen_round_trip_sound};
use crate::board_setup::models::{BoardError, BoardModel};
use crate::chess_bot::zobrist::registered;
use crate::move_generator::attacks::{
    attacked_by_other, attacks_square, is_legal, kings_in_place, lemma_king_taken_only_when_attacked,
    lemma_legal_move_keeps_kings,
};
use crate::move_generator::laws::{
    king_of, lemma_generated_moves_play, lemma_initial_position_sound, sound_position, takes_king,
};
use crate::move_generator::models::{spec_all_moves, Color, PieceType, Square};
use crate::move_generator::rules::{enemy_on, lemma_generated_moves_exactly, ray_point, sign, span};
use crate::move_register::models::ChessMove;

verus! {

/// The position reached from the start of a game by a sequence of moves, each legal for the
/// side to move and played without error, with room left on the clocks; `None` where one
/// of them is not.
pub open spec fn reached(moves: Seq<ChessMove>) -> Option<BoardModel>
    decreases moves.len(),
{
    if moves.len() == 0 {
        Some(initial_position())
    } else {
        match reached(moves.drop_last()) {
            None => None,
            Some(b) => {
                let m = moves.last();
                if is_legal(b, m, b.turn) && b.half_move_timer_50 < u8::MAX && (b.turn == Color::Black
                    ==> b.full_move_number < u16::MAX) && (b.spec_register_move(m) matches Some((_, r)) && r is Ok) {
                    Some(registered(b, m))
                } else {
                    None
                }
            },
        }
    }
}

/// At the start of a game no white piece attacks the black king: every line to it crosses
/// the row of black pawns.
proof fn lemma_initial_black_king_safe()
    ensures
        !attacked_by_other(initial_position(), Square(4, 7), Color::Black),
{
    let b = initial_position();
    let k = Square(4, 7);
    if attacked_by_other(b, k, Color::Black) {
        let a = choose|a: Square| a.in_bounds() && enemy_on(b, a, Color::Black) && #[trigger] attacks_square(b, a, k);
        let i = a.index();
        assert(i % 8 == a.0 && i / 8 == a.1);
        assert(b.piece(a) == start_piece(i));
        assert(a.1 <= 1);
        let q = b.piece(a)->0;
        if q.piece_type != PieceType::Pawn && q.piece_type != PieceType::Knight {
            let sx = sign(k.0 - a.0);
            let sy = sign(k.1 - a.1);
            let j = 6 - a.1;
            let t = ray_point(a, sx, sy, j);
            assert(0 < j < span(a, k));
            assert(t.in_bounds());
            let ti = t.index();
            assert(ti % 8 == t.0 && ti / 8 == t.1);
            assert(b.piece(t) == start_piece(ti));
            assert(b.piece(t) is Some);
        }
    }
}

/// Every position reached from the start of a game by legal moves is sound, has both kings
/// on the squares their sides record, and leaves the king of the side that has just moved
/// unattacked.
pub proof fn lemma_reached_sound(moves: Seq<ChessMove>)
    requires
        reached(moves) is Some,
    ensures
        ({
            let b = reached(moves)->0;
            &&& sound_position(b)
            &&& kings_in_place(b)
            &&& !attacked_by_other(b, king_of(b, b.turn.spec_opp()), b.turn.spec_opp())
        }),
    decreases moves.len(),
{
    if moves.len() == 0 {
        lemma_initial_position_sound();
        let b = initial_position();
        assert(b.pieces[4] == start_piece(4));
        assert(b.pieces[60] == start_piece(60));
        lemma_initial_black_king_safe();
    } else {
        let prev = moves.drop_last();
        lemma_reached_sound(prev);
        let b = reached(prev)->0;
        let m = moves.last();
        lemma_legal_move_keeps_kings(b, m);
        assert(registered(b, m).turn == b.turn.spec_opp());
    }
}

/// A position reached from the start of a game by legal moves reads back from the FEN text
/// written for it as the same position.
pub proof fn lemma_reached_fen_round_trip(moves: Seq<ChessMove>)
    requires
        reached(moves) is Some,
    ensures
        spec_parse_fen(fen_text(reached(moves)->0)) == Some(Ok::<BoardModel, BoardError>(reached(moves)->0)),
{
    lemma_reached_sound(moves);
    let b = reached(moves)->0;
    let w = king_of(b, Color::White);
    let k = king_of(b, Color::Black);
    assert(w.in_bounds() && k.in_bounds());
    assert(king_at(b.pieces[w.index()], Color::White));
    assert(king_at(b.pieces[k.index()], Color::Black));
    assert(has_king(b.pieces, Color::White));
    assert(has_king(b.pieces, Color::Black));
    lemma_fen_round_trip_sound(b);
}

/// In a position reached from the start of a game by legal moves, every move the generator
/// gives the side to move, with room left on the clocks, is played without error and
/// leaves a sound position: no generated move there takes a king.
pub proof fn lemma_reached_generated_moves_play(moves: Seq<ChessMove>, m: ChessMove)
    requires
        reached(moves) is Some,
        reached(moves)->0.half_move_timer_50 < u8::MAX,
        reached(moves)->0.turn == Color::Black ==> reached(moves)->0.full_move_number < u16::MAX,
        spec_all_moves(reached(moves)->0, reached(moves)->0.turn).contains(m),
    ensures
        reached(moves)->0.spec_register_move(m) matches Some((_, r)) && r is Ok,
        !takes_king(reached(moves)->0, m),
        sound_position(registered(reached(moves)->0, m)),
{
    lemma_reached_sound(moves);
    let b = reached(moves)->0;
    lemma_generated_moves_play(b, m);
    if takes_king(b, m) {
        let q = b.piece(m.to)->0;
        lemma_generated_moves_exactly(b, b.turn, m);
        assert(enemy_on(b, m.to, b.turn));
        lemma_king_taken_only_when_attacked(b, b.turn, m);
        assert(m.to.in_bounds());
        let i = m.to.index();
        assert(i % 8 == m.to.0 && i / 8 == m.to.1);
        assert(b.pieces[i] == b.piece(m.to));
        assert(m.to == king_of(b, q.color));
        assert(q.color == b.turn.spec_opp());
    }
}

} // verus!
