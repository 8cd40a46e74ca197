use vstd::prelude::*;

use crate::board_setup::laws::well_placed;
use crate::board_setup::models::BoardModel;
use crate::move_generator::laws::{
    castle_ready, castles_ready, king_of, kings_recorded, lemma_fitting_move_keeps_sound, lemma_generated_move_fits,
    lemma_generated_moves_play, sound_position, takes_king,
};
use crate::chess_bot::zobrist::registered;
use crate::move_generator::models::{spec_all_moves, ChessPiece, Color, Offset, PieceType, PinDir, Square};
use crate::move_generator::restrictions::{
    attacked_has, dir_checker, iabs, king_square, knight_check_has, on_ray, ray_check_has, spec_check_square, knight_check_count, knight_offset, knights_attack,
    offset_between, potentially_attacked, queen_dir, ray_check_count, ray_sq, rays_attacked,
    spec_attack_condition, spec_checks_amount, spec_is_attacked, spec_knight_attacks,
    is_pawn_of, spec_ep_ray_pin, spec_pin_condition, spec_pins, spec_ray_attacked, spec_ray_checker, spec_ray_pin,
    spec_ray_pins,
};
use crate::move_generator::{check_pred, pin_at, pin_pred};
use crate::move_generator::rules::{
    check_ok, dir_index, enemy_on, follows_rules, passes_restrictions, forward, knight_index, lemma_generated_moves_exactly,
    path_clear, ray_point, reaches, sign, span, unit,
};
use crate::move_generator::en_passant::{ep_pinned, lemma_ep_ray_pin_finds, lemma_ep_ray_pin_shape, lemma_pins_cases};
use crate::move_register::{castle_squares, ep_captured_square};
use crate::move_register::models::{CastleType, ChessMove, MoveType};

verus! {

/// Whether the piece on `a` attacks `sq`: it could take a piece standing on `sq` by the
/// rules by which it moves (a pawn diagonally forward, any other piece along its own lines
/// over empty squares).
pub open spec fn attacks_square(b: BoardModel, a: Square, sq: Square) -> bool {
    match b.piece(a) {
        None => false,
        Some(q) => if q.piece_type == PieceType::Pawn {
            iabs(sq.0 - a.0) == 1 && sq.1 - a.1 == forward(q.color)
        } else {
            reaches(q.piece_type, a, sq) && (q.piece_type != PieceType::Knight ==> path_clear(b, a, sq))
        },
    }
}

/// Whether a piece of the side other than `color` attacks `sq`.
pub open spec fn attacked_by_other(b: BoardModel, sq: Square, color: Color) -> bool {
    exists|a: Square| a.in_bounds() && enemy_on(b, a, color) && #[trigger] attacks_square(b, a, sq)
}

/// Whether no king of `color` stands anywhere but on `sq`.
pub open spec fn own_king_only_at(b: BoardModel, color: Color, sq: Square) -> bool {
    forall|t: Square|
        t != sq ==> match #[trigger] b.piece(t) {
            Some(q) => !(q.piece_type == PieceType::King && q.color == color),
            None => true,
        }
}

pub(crate) proof fn lemma_ray_sq_form(sq: Square, d: Offset, j: nat)
    requires
        sq.in_bounds(),
        unit(d),
        j <= 8,
    ensures
        ray_sq(sq, d, j) == ray_point(sq, d.0 as int, d.1 as int, j as int),
    decreases j,
{
    if j > 0 {
        lemma_ray_sq_form(sq, d, (j - 1) as nat);
    }
}

proof fn lemma_rays_mono(b: BoardModel, sq: Square, color: Color, m: int, n: int)
    requires
        m <= n,
        rays_attacked(b, sq, color, m),
    ensures
        rays_attacked(b, sq, color, n),
    decreases n - m,
{
    if m < n {
        lemma_rays_mono(b, sq, color, m, n - 1);
    }
}

proof fn lemma_knights_mono(b: BoardModel, sq: Square, color: Color, m: int, n: int)
    requires
        m <= n,
        knights_attack(b, sq, color, m),
    ensures
        knights_attack(b, sq, color, n),
    decreases n - m,
{
    if m < n {
        lemma_knights_mono(b, sq, color, m, n - 1);
    }
}

/// A ray that meets an attacker gives a piece of the other side that attacks the square.
proof fn lemma_ray_gives(b: BoardModel, sq: Square, color: Color, d: Offset, j: nat)
    requires
        sq.in_bounds(),
        unit(d),
        1 <= j,
        own_king_only_at(b, color, sq),
        forall|k: int| 1 <= k < j ==> #[trigger] b.piece(ray_point(sq, d.0 as int, d.1 as int, k)) is None,
        spec_ray_attacked(b, sq, color, d, j),
    ensures
        attacked_by_other(b, sq, color),
    decreases 8 - j,
{
    lemma_ray_sq_form(sq, d, j);
    let t = ray_sq(sq, d, j);
    assert(t != sq);
    match b.piece(t) {
        None => {
            assert forall|k: int| 1 <= k < j + 1 implies #[trigger] b.piece(ray_point(sq, d.0 as int, d.1 as int, k)) is None by {
                if k == j {
                }
            }
            lemma_ray_gives(b, sq, color, d, j + 1);
        },
        Some(p) => {
            assert(!(p.piece_type == PieceType::King && p.color == color));
            assert(spec_attack_condition(offset_between(sq, t), color, p.piece_type) && p.color != color);
            assert(t.in_bounds());
            if p.piece_type != PieceType::Pawn && p.piece_type != PieceType::Knight {
                let sx = sign(sq.0 - t.0);
                let sy = sign(sq.1 - t.1);
                assert(sx == -d.0 && sy == -d.1);
                assert(span(t, sq) == j);
                assert forall|k: int| 0 < k < span(t, sq) implies #[trigger] b.piece(ray_point(t, sx, sy, k)) is None by {
                    assert(ray_point(t, sx, sy, k) == ray_point(sq, d.0 as int, d.1 as int, j - k));
                }
                assert(path_clear(b, t, sq));
            }
            assert(attacks_square(b, t, sq));
            assert(enemy_on(b, t, color));
        },
    }
}

proof fn lemma_rays_give(b: BoardModel, sq: Square, color: Color, n: int)
    requires
        sq.in_bounds(),
        0 <= n <= 8,
        own_king_only_at(b, color, sq),
        rays_attacked(b, sq, color, n),
    ensures
        attacked_by_other(b, sq, color),
    decreases n,
{
    if rays_attacked(b, sq, color, n - 1) {
        lemma_rays_give(b, sq, color, n - 1);
    } else {
        let d = queen_dir(n - 1).offset();
        assert(unit(d));
        lemma_ray_gives(b, sq, color, d, 1);
    }
}

proof fn lemma_knights_give(b: BoardModel, sq: Square, color: Color, n: int)
    requires
        sq.in_bounds(),
        0 <= n <= 8,
        knights_attack(b, sq, color, n),
    ensures
        attacked_by_other(b, sq, color),
    decreases n,
{
    if knights_attack(b, sq, color, n - 1) {
        lemma_knights_give(b, sq, color, n - 1);
    } else {
        let t = sq.spec_add(knight_offset(n - 1));
        let p = b.piece(t)->0;
        assert(p.piece_type == PieceType::Knight);
        assert(attacks_square(b, t, sq));
        assert(enemy_on(b, t, color));
    }
}

/// A ray over empty squares to an attacker of the other side is seen as attacked.
proof fn lemma_ray_finds(b: BoardModel, sq: Square, color: Color, d: Offset, i: nat, j: nat)
    requires
        sq.in_bounds(),
        unit(d),
        1 <= i <= j <= 7,
        forall|k: int| i <= k < j ==> #[trigger] b.piece(ray_point(sq, d.0 as int, d.1 as int, k)) is None
            && ray_point(sq, d.0 as int, d.1 as int, k).in_bounds(),
        ray_point(sq, d.0 as int, d.1 as int, j as int).in_bounds(),
        b.piece(ray_point(sq, d.0 as int, d.1 as int, j as int)) matches Some(p) && p.color != color
            && spec_attack_condition(
            offset_between(sq, ray_point(sq, d.0 as int, d.1 as int, j as int)),
            color,
            p.piece_type,
        ),
    ensures
        spec_ray_attacked(b, sq, color, d, i),
    decreases j - i,
{
    lemma_ray_sq_form(sq, d, i);
    if i < j {
        lemma_ray_finds(b, sq, color, d, i + 1, j);
    }
}

/// The square's attackers by the rules are those the generator's attack test finds, where
/// no king of the defending side stands on the lines through the square.
pub proof fn lemma_attacked_by_other(b: BoardModel, sq: Square, color: Color)
    requires
        sq.in_bounds(),
        own_king_only_at(b, color, sq),
    ensures
        spec_is_attacked(b, sq, color) <==> attacked_by_other(b, sq, color),
{
    if spec_is_attacked(b, sq, color) {
        if rays_attacked(b, sq, color, 8) {
            lemma_rays_give(b, sq, color, 8);
        } else {
            lemma_knights_give(b, sq, color, 8);
        }
    }
    if attacked_by_other(b, sq, color) {
        let a = choose|a: Square| a.in_bounds() && enemy_on(b, a, color) && #[trigger] attacks_square(b, a, sq);
        let p = b.piece(a)->0;
        let dx = a.0 - sq.0;
        let dy = a.1 - sq.1;
        if p.piece_type == PieceType::Knight {
            let k = knight_index(dx, dy);
            assert(knight_offset(k).0 == dx && knight_offset(k).1 == dy);
            assert(sq.spec_add(knight_offset(k)) == a);
            assert(spec_knight_attacks(b, sq, color, k));
            lemma_knights_mono(b, sq, color, k + 1, 8);
        } else {
            let sx = sign(dx);
            let sy = sign(dy);
            let q = dir_index(sx, sy);
            let d = queen_dir(q).offset();
            assert(d.0 == sx && d.1 == sy);
            let j = span(sq, a);
            assert(1 <= j <= 7);
            assert(ray_point(sq, d.0 as int, d.1 as int, j) == a);
            assert forall|k: int| 1 <= k < j implies #[trigger] b.piece(ray_point(sq, d.0 as int, d.1 as int, k)) is None
                && ray_point(sq, d.0 as int, d.1 as int, k).in_bounds() by {
                if p.piece_type != PieceType::Pawn {
                    let rx = sign(sq.0 - a.0);
                    let ry = sign(sq.1 - a.1);
                    assert(ray_point(sq, d.0 as int, d.1 as int, k) == ray_point(a, rx, ry, j - k));
                }
            }
            assert(offset_between(sq, a) == Offset(dx as i8, dy as i8));
            lemma_ray_finds(b, sq, color, d, 1, j as nat);
            assert(rays_attacked(b, sq, color, q + 1));
            lemma_rays_mono(b, sq, color, q + 1, 8);
        }
    }
}

proof fn lemma_ray_frame(b: BoardModel, c: BoardModel, sq: Square, color: Color, from: Square, d: Offset, j: nat)
    requires
        sq.in_bounds(),
        unit(d),
        1 <= j,
        forall|t: Square| t != sq && t != from ==> #[trigger] c.piece(t) == b.piece(t),
        b.piece(from) matches Some(k) && k.piece_type == PieceType::King && k.color == color,
        c.piece(from) is None,
    ensures
        spec_ray_attacked(b, sq, color, d, j) == spec_ray_attacked(c, sq, color, d, j),
    decreases 8 - j,
{
    if j <= 7 {
        lemma_ray_sq_form(sq, d, j);
        let t = ray_sq(sq, d, j);
        assert(t != sq);
        assert(c.piece(t) == b.piece(t) || t == from);
        lemma_ray_frame(b, c, sq, color, from, d, j + 1);
    }
}

proof fn lemma_rays_frame(b: BoardModel, c: BoardModel, sq: Square, color: Color, from: Square, n: int)
    requires
        sq.in_bounds(),
        0 <= n <= 8,
        forall|t: Square| t != sq && t != from ==> #[trigger] c.piece(t) == b.piece(t),
        b.piece(from) matches Some(k) && k.piece_type == PieceType::King && k.color == color,
        c.piece(from) is None,
    ensures
        rays_attacked(b, sq, color, n) == rays_attacked(c, sq, color, n),
    decreases n,
{
    if n > 0 {
        lemma_rays_frame(b, c, sq, color, from, n - 1);
        let d = queen_dir(n - 1).offset();
        assert(unit(d));
        lemma_ray_frame(b, c, sq, color, from, d, 1);
    }
}

proof fn lemma_knights_frame(b: BoardModel, c: BoardModel, sq: Square, color: Color, from: Square, n: int)
    requires
        sq.in_bounds(),
        0 <= n <= 8,
        forall|t: Square| t != sq && t != from ==> #[trigger] c.piece(t) == b.piece(t),
        b.piece(from) matches Some(k) && k.piece_type == PieceType::King && k.color == color,
        c.piece(from) is None,
    ensures
        knights_attack(b, sq, color, n) == knights_attack(c, sq, color, n),
    decreases n,
{
    if n > 0 {
        lemma_knights_frame(b, c, sq, color, from, n - 1);
        let t = sq.spec_add(knight_offset(n - 1));
        assert(t != sq);
        assert(c.piece(t) == b.piece(t) || t == from);
    }
}

/// The attack test on a square does not change when the king of the defending side leaves
/// another square.
proof fn lemma_attack_frame(b: BoardModel, c: BoardModel, sq: Square, color: Color, from: Square)
    requires
        sq.in_bounds(),
        forall|t: Square| t != sq && t != from ==> #[trigger] c.piece(t) == b.piece(t),
        b.piece(from) matches Some(k) && k.piece_type == PieceType::King && k.color == color,
        c.piece(from) is None,
    ensures
        spec_is_attacked(b, sq, color) == spec_is_attacked(c, sq, color),
{
    lemma_rays_frame(b, c, sq, color, from, 8);
    lemma_knights_frame(b, c, sq, color, from, 8);
}

proof fn lemma_attacked_has_sound(b: BoardModel, color: Color, n: int, s: Square)
    requires
        attacked_has(b, color, n, s),
    ensures
        spec_is_attacked(b, s, color),
    decreases n,
{
    if attacked_has(b, color, n - 1, s) {
        lemma_attacked_has_sound(b, color, n - 1, s);
    }
}

proof fn lemma_attacked_has_at(b: BoardModel, color: Color, n: int, idx: int, s: Square)
    requires
        0 <= idx < n,
        king_square(b, color).spec_add(potentially_attacked(idx)) == s,
        s.in_bounds(),
        spec_is_attacked(b, s, color),
    ensures
        attacked_has(b, color, n, s),
    decreases n,
{
    if idx < n - 1 {
        lemma_attacked_has_at(b, color, n - 1, idx, s);
    }
}

/// The index among the squares watched around the king of the step to a neighbour.
spec fn watch_index(dx: int, dy: int) -> int {
    if dx == 0 && dy == 1 {
        0
    } else if dx == 0 && dy == -1 {
        1
    } else if dx == -1 && dy == 0 {
        2
    } else if dx == 1 && dy == 0 {
        3
    } else if dx == -1 && dy == 1 {
        4
    } else if dx == -1 && dy == -1 {
        5
    } else if dx == 1 && dy == 1 {
        6
    } else {
        7
    }
}

/// The position after the king on `m.from` steps to `m.to`, taking what stands there.
pub open spec fn king_step_after(b: BoardModel, m: ChessMove) -> BoardModel {
    b.set(m.from, None).set(m.to, Some(ChessPiece { position: m.to, ..b.piece(m.from)->0 }))
}

/// The king's steps are exactly the legal ones: the move generator gives a king's step (a
/// quiet move or a capture of the king of `color`) if and only if it follows the rules by
/// which the king moves and no piece of the other side attacks the king on its new square
/// in the position after the step, in a position where every piece records its square,
/// every castling right has its king and rook in place, every king stands on the square its
/// side records and an en passant target lies on the board.
pub proof fn lemma_king_steps_legal(b: BoardModel, color: Color, m: ChessMove)
    requires
        well_placed(b),
        castles_ready(b),
        kings_recorded(b),
        b.en_passant_square matches Some(t) ==> t.in_bounds(),
        b.piece(m.from) matches Some(k) && k.piece_type == PieceType::King && k.color == color,
        m.move_type is Move || m.move_type is Capture,
    ensures
        spec_all_moves(b, color).contains(m) <==> follows_rules(b, m, color) && !attacked_by_other(
            king_step_after(b, m),
            m.to,
            color,
        ),
{
    lemma_generated_moves_exactly(b, color, m);
    if follows_rules(b, m, color) {
        let from = m.from;
        let to = m.to;
        let after = king_step_after(b, m);
        assert(from.index() % 8 == from.0 && from.index() / 8 == from.1);
        assert(from == king_of(b, color));
        assert(king_square(b, color) == from);
        assert(to != from);
        assert forall|t: Square| t != to && t != from implies #[trigger] after.piece(t) == b.piece(t) by {
            if t.in_bounds() {
                assert(t.index() != from.index() && t.index() != to.index());
            }
        }
        assert(after.piece(from) is None);
        assert forall|t: Square| t != to implies match #[trigger] after.piece(t) {
            Some(q) => !(q.piece_type == PieceType::King && q.color == color),
            None => true,
        } by {
            if t != from && t.in_bounds() {
                let i = t.index();
                assert(i % 8 == t.0 && i / 8 == t.1);
                assert(after.piece(t) == b.piece(t));
            }
        }
        lemma_attacked_by_other(after, to, color);
        lemma_attack_frame(b, after, to, color, from);
        let idx = watch_index(to.0 - from.0, to.1 - from.1);
        assert(from.spec_add(potentially_attacked(idx)) == to);
        if spec_is_attacked(b, to, color) {
            lemma_attacked_has_at(b, color, 13, idx, to);
        }
        if attacked_has(b, color, 13, to) {
            lemma_attacked_has_sound(b, color, 13, to);
        }
    }
}

proof fn lemma_checker_is_attack(b: BoardModel, sq: Square, color: Color, d: Offset, j: nat)
    requires
        sq.in_bounds(),
        unit(d),
        1 <= j,
        own_king_only_at(b, color, sq),
    ensures
        spec_ray_checker(b, sq, color, d, j) is Some <==> spec_ray_attacked(b, sq, color, d, j),
    decreases 8 - j,
{
    if j <= 7 {
        lemma_ray_sq_form(sq, d, j);
        let t = ray_sq(sq, d, j);
        assert(t != sq);
        lemma_checker_is_attack(b, sq, color, d, j + 1);
    }
}

proof fn lemma_ray_count_zero(b: BoardModel, color: Color, n: int)
    requires
        king_square(b, color).in_bounds(),
        own_king_only_at(b, color, king_square(b, color)),
        0 <= n <= 8,
    ensures
        ray_check_count(b, color, n) == 0 <==> !rays_attacked(b, king_square(b, color), color, n),
    decreases n,
{
    if n > 0 {
        lemma_ray_count_zero(b, color, n - 1);
        let d = queen_dir(n - 1).offset();
        assert(unit(d));
        lemma_checker_is_attack(b, king_square(b, color), color, d, 1);
    }
}

proof fn lemma_knight_count_zero(b: BoardModel, color: Color, n: int)
    requires
        0 <= n <= 8,
    ensures
        knight_check_count(b, color, n) == 0 <==> !knights_attack(b, king_square(b, color), color, n),
    decreases n,
{
    if n > 0 {
        lemma_knight_count_zero(b, color, n - 1);
    }
}

/// No piece gives check exactly when the king's square is not attacked.
proof fn lemma_no_checks(b: BoardModel, color: Color)
    requires
        king_square(b, color).in_bounds(),
        own_king_only_at(b, color, king_square(b, color)),
    ensures
        spec_checks_amount(b, color) == 0 <==> !spec_is_attacked(b, king_square(b, color), color),
{
    lemma_ray_count_zero(b, color, 8);
    lemma_knight_count_zero(b, color, 8);
}

/// The square a castling king passes over: the one between its home square and its target.
pub open spec fn castle_passed(m: ChessMove) -> Square {
    Square(((m.from.0 + m.to.0) / 2) as i8, m.from.1)
}

/// Castling is generated exactly when it is legal: the move generator gives a castling
/// move of `color` if and only if it follows the rules for castling (the right, the king
/// on its home square, the squares up to the rook empty), the king is not attacked, and no
/// piece of the other side attacks the square the king passes over or the square it lands
/// on, with the king lifted off the board; in a position where every piece records its
/// square, every castling right has its king and rook in place, every king stands on the
/// square its side records and an en passant target lies on the board.
pub proof fn lemma_castles_legal(b: BoardModel, color: Color, m: ChessMove)
    requires
        well_placed(b),
        castles_ready(b),
        kings_recorded(b),
        b.en_passant_square matches Some(t) ==> t.in_bounds(),
        m.move_type is CastleMove,
    ensures
        spec_all_moves(b, color).contains(m) <==> follows_rules(b, m, color) && !attacked_by_other(
            b,
            m.from,
            color,
        ) && !attacked_by_other(b.set(m.from, None), castle_passed(m), color) && !attacked_by_other(
            b.set(m.from, None),
            m.to,
            color,
        ),
{
    lemma_generated_moves_exactly(b, color, m);
    if follows_rules(b, m, color) {
        let from = m.from;
        let ct = m.move_type->CastleMove_0;
        let lifted = b.set(from, None);
        assert(from.index() % 8 == from.0 && from.index() / 8 == from.1);
        assert(from == king_of(b, color));
        assert(king_square(b, color) == from);
        assert forall|t: Square| t != from implies match #[trigger] b.piece(t) {
            Some(q) => !(q.piece_type == PieceType::King && q.color == color),
            None => true,
        } by {
            if t.in_bounds() {
                let i = t.index();
                assert(i % 8 == t.0 && i / 8 == t.1);
            }
        }
        lemma_no_checks(b, color);
        lemma_attacked_by_other(b, from, color);
        let pass = castle_passed(m);
        let to = m.to;
        let (ip, it): (int, int) = match ct {
            CastleType::WhiteShort | CastleType::BlackShort => (8, 9),
            CastleType::WhiteLong | CastleType::BlackLong => (10, 11),
        };
        assert(from.spec_add(potentially_attacked(ip)) == pass);
        assert(from.spec_add(potentially_attacked(it)) == to);
        assert(pass.in_bounds() && to.in_bounds() && pass != from && to != from);
        assert forall|t: Square| t != pass && t != from implies #[trigger] lifted.piece(t) == b.piece(t) by {
            if t.in_bounds() {
                assert(t.index() != from.index());
            }
        }
        assert forall|t: Square| t != to && t != from implies #[trigger] lifted.piece(t) == b.piece(t) by {
            if t.in_bounds() {
                assert(t.index() != from.index());
            }
        }
        assert(lifted.piece(from) is None);
        assert forall|t: Square| t != pass implies match #[trigger] lifted.piece(t) {
            Some(q) => !(q.piece_type == PieceType::King && q.color == color),
            None => true,
        } by {
            if t != from && t.in_bounds() {
                assert(t.index() != from.index());
                assert(lifted.piece(t) == b.piece(t));
            }
        }
        assert forall|t: Square| t != to implies match #[trigger] lifted.piece(t) {
            Some(q) => !(q.piece_type == PieceType::King && q.color == color),
            None => true,
        } by {
            if t != from && t.in_bounds() {
                assert(t.index() != from.index());
                assert(lifted.piece(t) == b.piece(t));
            }
        }
        lemma_attack_frame(b, lifted, pass, color, from);
        lemma_attack_frame(b, lifted, to, color, from);
        lemma_attacked_by_other(lifted, pass, color);
        lemma_attacked_by_other(lifted, to, color);
        if spec_is_attacked(b, pass, color) {
            lemma_attacked_has_at(b, color, 13, ip, pass);
        }
        if spec_is_attacked(b, to, color) {
            lemma_attacked_has_at(b, color, 13, it, to);
        }
        if attacked_has(b, color, 13, pass) {
            lemma_attacked_has_sound(b, color, 13, pass);
        }
        if attacked_has(b, color, 13, to) {
            lemma_attacked_has_sound(b, color, 13, to);
        }
    }
}

// ---------------------------------------------------------------------------------------
// Pins seen by the rules
// ---------------------------------------------------------------------------------------

/// A ray from the king that meets first a piece of its own side and then, over empty
/// squares, an attacker of the other side pins that piece.
proof fn lemma_ray_pin_finds(
    b: BoardModel,
    k: Square,
    color: Color,
    d: Offset,
    i: nat,
    jf: nat,
    ja: nat,
    pin: Option<Square>,
)
    requires
        k.in_bounds(),
        unit(d),
        1 <= i <= ja <= 7,
        1 <= jf < ja,
        i <= jf ==> pin is None,
        i > jf ==> pin == Some(ray_point(k, d.0 as int, d.1 as int, jf as int)),
        forall|x: int|
            1 <= x <= ja ==> (#[trigger] ray_point(k, d.0 as int, d.1 as int, x)).in_bounds(),
        forall|x: int|
            1 <= x < ja && x != jf ==> #[trigger] b.piece(ray_point(k, d.0 as int, d.1 as int, x)) is None,
        b.piece(ray_point(k, d.0 as int, d.1 as int, jf as int)) matches Some(p) && p.color == color,
        b.piece(ray_point(k, d.0 as int, d.1 as int, ja as int)) matches Some(q) && q.color != color
            && spec_attack_condition(
            offset_between(k, ray_point(k, d.0 as int, d.1 as int, ja as int)),
            color,
            q.piece_type,
        ),
    ensures
        spec_ray_pin(b, k, color, d, i, pin) == Some(ray_point(k, d.0 as int, d.1 as int, jf as int)),
    decreases ja - i,
{
    lemma_ray_sq_form(k, d, i);
    let t = ray_point(k, d.0 as int, d.1 as int, i as int);
    assert(t.in_bounds());
    if i < ja {
        if i == jf {
            lemma_ray_pin_finds(b, k, color, d, i + 1, jf, ja, Some(t));
        } else {
            lemma_ray_pin_finds(b, k, color, d, i + 1, jf, ja, pin);
        }
    }
}

/// A piece a ray pins lies on that ray, on the board.
pub(crate) proof fn lemma_ray_pin_on_ray(b: BoardModel, k: Square, color: Color, d: Offset, j: nat, pin: Option<Square>)
    requires
        k.in_bounds(),
        unit(d),
        1 <= j,
        pin matches Some(s0) ==> s0.in_bounds() && sign(s0.0 - k.0) == d.0 && sign(s0.1 - k.1) == d.1,
    ensures
        spec_ray_pin(b, k, color, d, j, pin) matches Some(s) ==> s.in_bounds() && sign(s.0 - k.0) == d.0
            && sign(s.1 - k.1) == d.1,
    decreases 8 - j,
{
    if j <= 7 {
        lemma_ray_sq_form(k, d, j);
        let t = ray_sq(k, d, j);
        if t.in_bounds() {
            lemma_ray_pin_on_ray(b, k, color, d, j + 1, pin);
            lemma_ray_pin_on_ray(b, k, color, d, j + 1, Some(t));
        }
    }
}

/// The pin entry of a square pinned along the `q`-th queen direction.
proof fn lemma_ray_pins_entry(b: BoardModel, color: Color, n: int, q: int, s: Square)
    requires
        king_square(b, color).in_bounds(),
        0 <= q < n <= 8,
        s.in_bounds(),
        spec_ray_pin(b, king_square(b, color), color, queen_dir(q).offset(), 1, None) == Some(s),
    ensures
        spec_ray_pins(b, color, n).len() == 64,
        spec_ray_pins(b, color, n)[s.index()] == Some(PinDir::spec_from_dir(queen_dir(q))),
    decreases n,
{
    let k = king_square(b, color);
    let d = queen_dir(q).offset();
    assert(unit(d));
    lemma_ray_pin_on_ray(b, k, color, d, 1, None);
    lemma_ray_pins_len(b, color, n - 1);
    if q < n - 1 {
        lemma_ray_pins_entry(b, color, n - 1, q, s);
        let d2 = queen_dir(n - 1).offset();
        assert(unit(d2));
        lemma_ray_pin_on_ray(b, k, color, d2, 1, None);
        match spec_ray_pin(b, k, color, d2, 1, None) {
            Some(s2) => {
                if s2.index() == s.index() {
                    assert(s2.index() % 8 == s2.0 && s2.index() / 8 == s2.1);
                    assert(s.index() % 8 == s.0 && s.index() / 8 == s.1);
                    assert(s2 == s);
                    assert(d2 == d);
                }
            },
            None => {},
        }
    }
}

pub(crate) proof fn lemma_ray_pins_len(b: BoardModel, color: Color, n: int)
    requires
        king_square(b, color).in_bounds(),
        n <= 8,
    ensures
        spec_ray_pins(b, color, n).len() == 64,
    decreases n,
{
    if n > 0 {
        lemma_ray_pins_len(b, color, n - 1);
        let d = queen_dir(n - 1).offset();
        assert(unit(d));
        lemma_ray_pin_on_ray(b, king_square(b, color), color, d, 1, None);
    }
}

// ---------------------------------------------------------------------------------------
// Moves out of check leave the king unattacked
// ---------------------------------------------------------------------------------------

/// The kind of the piece on the target square after a move of a piece of kind `t`.
pub open spec fn moved_kind(m: ChessMove, t: PieceType) -> PieceType {
    match m.move_type {
        MoveType::PromotionMove(pt) => PieceType::spec_from_promoted(pt),
        MoveType::PromotionCapture(pt) => PieceType::spec_from_promoted(pt),
        _ => t,
    }
}

/// The pieces after a move other than castling: the piece leaves its square and stands on
/// the target square (as the new piece, for a promotion), taking what stood there; an en
/// passant capture also takes the pawn beside the square it leaves.
pub open spec fn move_after(b: BoardModel, m: ChessMove) -> BoardModel {
    let p = b.piece(m.from)->0;
    let moved = b.set(m.from, None).set(
        m.to,
        Some(ChessPiece { piece_type: moved_kind(m, p.piece_type), color: p.color, position: m.to }),
    );
    if m.move_type is EnPassantMove {
        moved.set(ep_captured_square(m.to, p.color), None)
    } else {
        moved
    }
}

/// The pieces after a move: for castling, the king and the rook on their targets; for any
/// other move, those `move_after` gives.
pub open spec fn played_pieces(b: BoardModel, m: ChessMove) -> BoardModel {
    match m.move_type {
        MoveType::CastleMove(ct) => {
            let (kf, rf, kt, rt) = castle_squares(ct);
            let k = b.piece(kf)->0;
            let r = b.piece(rf)->0;
            b.set(kf, None).set(rf, None).set(kt, Some(ChessPiece { position: kt, ..k })).set(
                rt,
                Some(ChessPiece { position: rt, ..r }),
            )
        },
        _ => move_after(b, m),
    }
}

/// The place of a square on the line from `k` in direction `d`, counted in steps.
spec fn line_place(k: Square, d: Offset, s: Square) -> int {
    if d.0 > 0 {
        s.0 - k.0
    } else if d.0 < 0 {
        k.0 - s.0
    } else if d.1 > 0 {
        s.1 - k.1
    } else {
        k.1 - s.1
    }
}

/// Whether a position and a move set up an attack after the move: the king of `color` is
/// on its square, the piece moved is not a king, and `a` holds a piece of the other side
/// that attacks the king after the move.
spec fn uncovers(b: BoardModel, color: Color, m: ChessMove, a: Square) -> bool {
    &&& well_placed(b)
    &&& king_square(b, color).in_bounds()
    &&& b.piece(king_square(b, color)) matches Some(kp) && kp.piece_type == PieceType::King && kp.color
        == color
    &&& own_king_only_at(b, color, king_square(b, color))
    &&& follows_rules(b, m, color)
    &&& b.piece(m.from) matches Some(p) && p.piece_type != PieceType::King
    &&& !(m.move_type is EnPassantMove)
    &&& a.in_bounds()
    &&& enemy_on(move_after(b, m), a, color)
    &&& attacks_square(move_after(b, m), a, king_square(b, color))
}

#[verifier::spinoff_prover]
#[verifier::rlimit(30)]
proof fn lemma_after_frame(b: BoardModel, color: Color, m: ChessMove, a: Square)
    requires
        uncovers(b, color, m, a),
    ensures
        forall|t: Square| t != m.from && t != m.to ==> #[trigger] move_after(b, m).piece(t) == b.piece(t),
        move_after(b, m).piece(m.from) is None,
        move_after(b, m).piece(m.to) matches Some(x) && x.color == color,
        m.from != m.to,
        a != m.from && a != m.to,
        m.to != king_square(b, color),
        m.from != king_square(b, color),
{
    let after = move_after(b, m);
    assert forall|t: Square| t != m.from && t != m.to implies #[trigger] after.piece(t) == b.piece(t) by {
        if t.in_bounds() {
            assert(t.index() != m.from.index() && t.index() != m.to.index());
        }
    }
}

/// The line of an uncovered attack: the king, the square left and the attacker stand on
/// one line, with nothing between them after the move.
#[verifier::spinoff_prover]
#[verifier::rlimit(50)]
proof fn lemma_uncovered_geometry(b: BoardModel, after: BoardModel, k: Square, from: Square, to: Square, a: Square) -> (r: (Offset, int, int))
    requires
        k.in_bounds(),
        a.in_bounds(),
        a != from && a != to,
        forall|t: Square| t != from && t != to ==> #[trigger] after.piece(t) == b.piece(t),
        after.piece(from) is None,
        after.piece(to) is Some,
        after.piece(a) matches Some(q) && q.piece_type != PieceType::Pawn && q.piece_type != PieceType::Knight,
        attacks_square(after, a, k),
        !attacks_square(b, a, k),
    ensures
        unit(r.0),
        1 <= r.1 < r.2 <= 7,
        from == ray_point(k, r.0.0 as int, r.0.1 as int, r.1),
        a == ray_point(k, r.0.0 as int, r.0.1 as int, r.2),
        forall|x: int| 1 <= x <= r.2 ==> (#[trigger] ray_point(k, r.0.0 as int, r.0.1 as int, x)).in_bounds(),
        forall|x: int| 1 <= x < r.2 ==> #[trigger] after.piece(ray_point(k, r.0.0 as int, r.0.1 as int, x)) is None,
{
    let sx = sign(k.0 - a.0);
    let sy = sign(k.1 - a.1);
    let ja = span(a, k);
    assert(after.piece(a) == b.piece(a));
    assert(path_clear(after, a, k));
    assert(!path_clear(b, a, k));
    let jj = choose|jj: int| 0 < jj < span(a, k) && !(#[trigger] b.piece(ray_point(a, sx, sy, jj)) is None);
    assert(after.piece(ray_point(a, sx, sy, jj)) is None);
    assert(ray_point(a, sx, sy, jj) == from);
    let d = Offset((-sx) as i8, (-sy) as i8);
    let jf = ja - jj;
    assert(ray_point(k, d.0 as int, d.1 as int, jf) == from);
    assert(ray_point(k, d.0 as int, d.1 as int, ja) == a);
    assert forall|x: int| 1 <= x < ja implies #[trigger] after.piece(ray_point(k, d.0 as int, d.1 as int, x)) is None by {
        assert(ray_point(k, d.0 as int, d.1 as int, x) == ray_point(a, sx, sy, ja - x));
    }
    (d, jf, ja)
}

/// The piece on a square between the king and an attacker on one line, with nothing else
/// between them, is pinned along that line.
#[verifier::spinoff_prover]
#[verifier::rlimit(50)]
proof fn lemma_pinned_on_line(b: BoardModel, color: Color, d: Offset, jf: int, ja: int)
    requires
        king_square(b, color).in_bounds(),
        unit(d),
        1 <= jf < ja <= 7,
        forall|x: int| 1 <= x <= ja ==> (#[trigger] ray_point(king_square(b, color), d.0 as int, d.1 as int, x)).in_bounds(),
        forall|x: int|
            1 <= x < ja && x != jf ==> #[trigger] b.piece(ray_point(king_square(b, color), d.0 as int, d.1 as int, x)) is None,
        b.piece(ray_point(king_square(b, color), d.0 as int, d.1 as int, jf)) matches Some(p) && p.color == color,
        ({
            let a = ray_point(king_square(b, color), d.0 as int, d.1 as int, ja);
            b.piece(a) matches Some(q) && q.color != color && reaches(q.piece_type, a, king_square(b, color))
                && q.piece_type != PieceType::Pawn && q.piece_type != PieceType::Knight
        }),
    ensures
        spec_ray_pins(b, color, 8)[ray_point(king_square(b, color), d.0 as int, d.1 as int, jf).index()] == Some(
            PinDir::spec_from_dir(queen_dir(dir_index(d.0 as int, d.1 as int))),
        ),
{
    let k = king_square(b, color);
    let a = ray_point(k, d.0 as int, d.1 as int, ja);
    let from = ray_point(k, d.0 as int, d.1 as int, jf);
    assert(offset_between(k, a) == Offset((a.0 - k.0) as i8, (a.1 - k.1) as i8));
    lemma_ray_pin_finds(b, k, color, d, 1, jf as nat, ja as nat, None);
    let qi = dir_index(d.0 as int, d.1 as int);
    assert(queen_dir(qi).offset() == d);
    lemma_ray_pins_entry(b, color, 8, qi, from);
}

/// The line of an uncovered attack, with the piece moved pinned along it.
#[verifier::spinoff_prover]
#[verifier::rlimit(60)]
proof fn lemma_uncovered_line(b: BoardModel, color: Color, m: ChessMove, a: Square) -> (r: (Offset, int, int))
    requires
        uncovers(b, color, m, a),
        !attacks_square(b, a, king_square(b, color)),
    ensures
        unit(r.0),
        1 <= r.1 < r.2 <= 7,
        m.from == ray_point(king_square(b, color), r.0.0 as int, r.0.1 as int, r.1),
        a == ray_point(king_square(b, color), r.0.0 as int, r.0.1 as int, r.2),
        forall|x: int|
            1 <= x < r.2 ==> #[trigger] move_after(b, m).piece(ray_point(king_square(b, color), r.0.0 as int, r.0.1 as int, x)) is None,
        spec_ray_pins(b, color, 8)[m.from.index()] == Some(PinDir::spec_from_dir(queen_dir(dir_index(r.0.0 as int, r.0.1 as int)))),
{
    lemma_after_frame(b, color, m, a);
    let k = king_square(b, color);
    let after = move_after(b, m);
    assert(after.piece(a) == b.piece(a));
    assert(after.piece(a) matches Some(q) && q.piece_type != PieceType::Pawn && q.piece_type != PieceType::Knight);
    let r = lemma_uncovered_geometry(b, after, k, m.from, m.to, a);
    let (d, jf, ja) = r;
    assert forall|x: int| 1 <= x < ja && x != jf implies #[trigger] b.piece(ray_point(k, d.0 as int, d.1 as int, x)) is None by {
        assert(after.piece(ray_point(k, d.0 as int, d.1 as int, x)) is None);
        assert(ray_point(k, d.0 as int, d.1 as int, x) != m.to);
    }
    let q = b.piece(a)->0;
    assert(reaches(q.piece_type, a, k));
    lemma_pinned_on_line(b, color, d, jf, ja);
    r
}

/// A move along the line of its pin neither leaves the line between the king and the
/// attacker nor passes over either.
#[verifier::spinoff_prover]
#[verifier::rlimit(50)]
proof fn lemma_pin_line_blocks(b: BoardModel, color: Color, m: ChessMove, a: Square, d: Offset, jf: int, ja: int)
    requires
        uncovers(b, color, m, a),
        unit(d),
        1 <= jf < ja <= 7,
        m.from == ray_point(king_square(b, color), d.0 as int, d.1 as int, jf),
        a == ray_point(king_square(b, color), d.0 as int, d.1 as int, ja),
        forall|x: int|
            1 <= x < ja ==> #[trigger] move_after(b, m).piece(ray_point(king_square(b, color), d.0 as int, d.1 as int, x)) is None,
    ensures
        !spec_pin_condition(
            offset_between(m.from, m.to),
            PinDir::spec_from_dir(queen_dir(dir_index(d.0 as int, d.1 as int))),
        ),
{
    lemma_after_frame(b, color, m, a);
    let k = king_square(b, color);
    let from = m.from;
    let to = m.to;
    let p = b.piece(from)->0;
    if !spec_pin_condition(
        offset_between(from, to),
        PinDir::spec_from_dir(queen_dir(dir_index(d.0 as int, d.1 as int))),
    ) {
        return;
    }
    let it = line_place(k, d, to);
    assert(to == ray_point(k, d.0 as int, d.1 as int, it));
    assert(it != jf);
    if 0 < it < ja {
    } else if it == ja {
    } else if it > ja {
        if p.piece_type == PieceType::Pawn {
        } else {
            assert(sign(to.0 - from.0) == d.0 && sign(to.1 - from.1) == d.1);
            assert(ray_point(from, d.0 as int, d.1 as int, ja - jf) == a);
        }
    } else if it == 0 {
    } else {
        if p.piece_type == PieceType::Pawn {
        } else {
            assert(sign(to.0 - from.0) == -d.0 && sign(to.1 - from.1) == -d.1);
            assert(ray_point(from, -d.0 as int, -d.1 as int, jf) == k);
        }
    }
}

/// A piece that uncovers an attack on its king when it moves is pinned, and its move leaves
/// the line of the pin.
#[verifier::spinoff_prover]
#[verifier::rlimit(60)]
proof fn lemma_uncovered_is_pinned(b: BoardModel, color: Color, m: ChessMove, a: Square) -> (pd: PinDir)
    requires
        uncovers(b, color, m, a),
        !attacks_square(b, a, king_square(b, color)),
    ensures
        spec_ray_pins(b, color, 8)[m.from.index()] == Some(pd),
        !spec_pin_condition(offset_between(m.from, m.to), pd),
{
    let (d, jf, ja) = lemma_uncovered_line(b, color, m, a);
    lemma_pin_line_blocks(b, color, m, a, d, jf, ja);
    PinDir::spec_from_dir(queen_dir(dir_index(d.0 as int, d.1 as int)))
}

/// The square of the king of `color` after a move of that side.
pub open spec fn king_after(b: BoardModel, m: ChessMove, color: Color) -> Square {
    if b.piece(m.from) matches Some(p) && p.piece_type == PieceType::King {
        m.to
    } else {
        king_square(b, color)
    }
}

/// Without an en passant target, every move the generator gives other than castling leaves
/// the king of the side unattacked by the rules by which the pieces move: in a position
/// where every piece records its square, every castling right has its king and rook in
/// place, the king of the side stands on the square its side records and no other king of
/// that side is on the board. (Castling is covered by `lemma_castles_legal`.)
#[verifier::spinoff_prover]
#[verifier::rlimit(60)]
pub proof fn lemma_generated_moves_safe(b: BoardModel, color: Color, m: ChessMove)
    requires
        well_placed(b),
        castles_ready(b),
        kings_recorded(b),
        b.en_passant_square is None,
        b.piece(king_of(b, color)) matches Some(kp) && kp.piece_type == PieceType::King && kp.color == color,
        spec_all_moves(b, color).contains(m),
        !(m.move_type is CastleMove),
    ensures
        !attacked_by_other(move_after(b, m), king_after(b, m, color), color),
{
    lemma_generated_moves_exactly(b, color, m);
    let k = king_square(b, color);
    assert(k == king_of(b, color));
    let p = b.piece(m.from)->0;
    if p.piece_type == PieceType::King {
        lemma_king_steps_legal(b, color, m);
        assert(move_after(b, m) == king_step_after(b, m));
    } else {
        assert forall|t: Square| t != k implies match #[trigger] b.piece(t) {
            Some(q) => !(q.piece_type == PieceType::King && q.color == color),
            None => true,
        } by {
            if t.in_bounds() {
                let i = t.index();
                assert(i % 8 == t.0 && i / 8 == t.1);
            }
        }
        lemma_no_checks(b, color);
        lemma_attacked_by_other(b, k, color);
        if attacked_by_other(move_after(b, m), k, color) {
            let a = choose|a: Square| a.in_bounds() && enemy_on(move_after(b, m), a, color) && #[trigger] attacks_square(
                move_after(b, m),
                a,
                k,
            );
            assert(uncovers(b, color, m, a));
            lemma_after_frame(b, color, m, a);
            assert(move_after(b, m).piece(a) == b.piece(a));
            if attacks_square(b, a, k) {
                assert(attacked_by_other(b, k, color));
                assert(spec_checks_amount(b, color) == 1);
                lemma_check_stopped(b, color, m, a);
            } else {
                lemma_uncovered_is_pinned(b, color, m, a);
                assert(m.from.index() % 8 == m.from.0 && m.from.index() / 8 == m.from.1);
            }
        }
    }
}

// ---------------------------------------------------------------------------------------
// A single check is stopped
// ---------------------------------------------------------------------------------------

proof fn lemma_ray_count_ge(b: BoardModel, color: Color, n: int, q0: int)
    requires
        0 <= q0 < n,
        dir_checker(b, color, q0) is Some,
    ensures
        ray_check_count(b, color, n) >= 1,
    decreases n,
{
    if q0 < n - 1 {
        lemma_ray_count_ge(b, color, n - 1, q0);
    }
}

proof fn lemma_ray_count_two(b: BoardModel, color: Color, n: int, q0: int, q1: int)
    requires
        0 <= q0 < q1 < n,
        dir_checker(b, color, q0) is Some,
        dir_checker(b, color, q1) is Some,
    ensures
        ray_check_count(b, color, n) >= 2,
    decreases n,
{
    if q1 < n - 1 {
        lemma_ray_count_two(b, color, n - 1, q0, q1);
    } else {
        lemma_ray_count_ge(b, color, n - 1, q0);
    }
}

proof fn lemma_knight_count_ge(b: BoardModel, color: Color, n: int, k0: int)
    requires
        0 <= k0 < n,
        spec_knight_attacks(b, king_square(b, color), color, k0),
    ensures
        knight_check_count(b, color, n) >= 1,
    decreases n,
{
    if k0 < n - 1 {
        lemma_knight_count_ge(b, color, n - 1, k0);
    }
}

proof fn lemma_knight_count_two(b: BoardModel, color: Color, n: int, k0: int, k1: int)
    requires
        0 <= k0 < k1 < n,
        spec_knight_attacks(b, king_square(b, color), color, k0),
        spec_knight_attacks(b, king_square(b, color), color, k1),
    ensures
        knight_check_count(b, color, n) >= 2,
    decreases n,
{
    if k1 < n - 1 {
        lemma_knight_count_two(b, color, n - 1, k0, k1);
    } else {
        lemma_knight_count_ge(b, color, n - 1, k0);
    }
}

proof fn lemma_ray_check_has_dir(b: BoardModel, color: Color, n: int, s: Square) -> (r: (int, nat))
    requires
        ray_check_has(b, color, n, s),
    ensures
        0 <= r.0 < n,
        dir_checker(b, color, r.0) == Some(r.1),
        on_ray(king_square(b, color), queen_dir(r.0).offset(), s, r.1),
    decreases n,
{
    if ray_check_has(b, color, n - 1, s) {
        lemma_ray_check_has_dir(b, color, n - 1, s)
    } else {
        (n - 1, dir_checker(b, color, n - 1)->0)
    }
}

proof fn lemma_knight_check_has_at(b: BoardModel, color: Color, n: int, s: Square) -> (r: int)
    requires
        knight_check_has(b, color, n, s),
    ensures
        0 <= r < n,
        spec_knight_attacks(b, king_square(b, color), color, r),
        s == king_square(b, color).spec_add(knight_offset(r)),
    decreases n,
{
    if knight_check_has(b, color, n - 1, s) {
        lemma_knight_check_has_at(b, color, n - 1, s)
    } else {
        n - 1
    }
}

proof fn lemma_on_ray_point(k: Square, d: Offset, s: Square, j: nat) -> (i: int)
    requires
        k.in_bounds(),
        unit(d),
        j <= 7,
        on_ray(k, d, s, j),
    ensures
        1 <= i <= j,
        s == ray_point(k, d.0 as int, d.1 as int, i),
    decreases j,
{
    lemma_ray_sq_form(k, d, j);
    if on_ray(k, d, s, (j - 1) as nat) {
        lemma_on_ray_point(k, d, s, (j - 1) as nat)
    } else {
        j as int
    }
}

proof fn lemma_checker_at(b: BoardModel, k: Square, color: Color, d: Offset, i: nat, ja: nat)
    requires
        k.in_bounds(),
        unit(d),
        1 <= i <= ja <= 7,
        forall|x: int| i <= x < ja ==> #[trigger] b.piece(ray_point(k, d.0 as int, d.1 as int, x)) is None
            && ray_point(k, d.0 as int, d.1 as int, x).in_bounds(),
        ray_point(k, d.0 as int, d.1 as int, ja as int).in_bounds(),
        b.piece(ray_point(k, d.0 as int, d.1 as int, ja as int)) matches Some(p) && p.color != color
            && spec_attack_condition(
            offset_between(k, ray_point(k, d.0 as int, d.1 as int, ja as int)),
            color,
            p.piece_type,
        ),
    ensures
        spec_ray_checker(b, k, color, d, i) == Some(ja),
    decreases ja - i,
{
    lemma_ray_sq_form(k, d, i);
    if i < ja {
        lemma_checker_at(b, k, color, d, i + 1, ja);
    }
}

/// With a single check given by a knight, the only square that stops it is the knight's.
#[verifier::spinoff_prover]
#[verifier::rlimit(50)]
proof fn lemma_knight_check_square(b: BoardModel, color: Color, a: Square, to: Square)
    requires
        king_square(b, color).in_bounds(),
        a.in_bounds(),
        a != to,
        b.piece(a) matches Some(q) && q.piece_type == PieceType::Knight && q.color != color,
        attacks_square(b, a, king_square(b, color)),
        spec_checks_amount(b, color) == 1,
    ensures
        !spec_check_square(b, color, to),
{
    let k = king_square(b, color);
    let idx = knight_index(a.0 - k.0, a.1 - k.1);
    assert(k.spec_add(knight_offset(idx)) == a);
    assert(spec_knight_attacks(b, k, color, idx));
    lemma_knight_count_ge(b, color, 8, idx);
    if ray_check_has(b, color, 8, to) {
        let (qq, j) = lemma_ray_check_has_dir(b, color, 8, to);
        lemma_ray_count_ge(b, color, 8, qq);
    }
    if knight_check_has(b, color, 8, to) {
        let r = lemma_knight_check_has_at(b, color, 8, to);
        if r < idx {
            lemma_knight_count_two(b, color, 8, r, idx);
        } else if r > idx {
            lemma_knight_count_two(b, color, 8, idx, r);
        }
    }
}

/// The line of a check along a queen direction: the checker is the first piece on it.
#[verifier::spinoff_prover]
#[verifier::rlimit(50)]
proof fn lemma_line_checker(b: BoardModel, color: Color, a: Square) -> (r: (int, int))
    requires
        king_square(b, color).in_bounds(),
        a.in_bounds(),
        b.piece(a) matches Some(q) && q.piece_type != PieceType::Knight && q.color != color,
        attacks_square(b, a, king_square(b, color)),
    ensures
        0 <= r.0 < 8,
        1 <= r.1 <= 7,
        unit(queen_dir(r.0).offset()),
        a == ray_point(king_square(b, color), queen_dir(r.0).offset().0 as int, queen_dir(r.0).offset().1 as int, r.1),
        dir_checker(b, color, r.0) == Some(r.1 as nat),
{
    let k = king_square(b, color);
    let q = b.piece(a)->0;
    let dx = a.0 - k.0;
    let dy = a.1 - k.1;
    let sx = sign(dx);
    let sy = sign(dy);
    let qd = dir_index(sx, sy);
    let d = queen_dir(qd).offset();
    assert(d.0 == sx && d.1 == sy);
    let ja = span(k, a);
    assert(ray_point(k, d.0 as int, d.1 as int, ja) == a);
    assert forall|x: int| 1 <= x < ja implies #[trigger] b.piece(ray_point(k, d.0 as int, d.1 as int, x)) is None
        && ray_point(k, d.0 as int, d.1 as int, x).in_bounds() by {
        if q.piece_type != PieceType::Pawn {
            let rx = sign(k.0 - a.0);
            let ry = sign(k.1 - a.1);
            assert(ray_point(k, d.0 as int, d.1 as int, x) == ray_point(a, rx, ry, ja - x));
        }
    }
    assert(offset_between(k, a) == Offset(dx as i8, dy as i8));
    lemma_checker_at(b, k, color, d, 1, ja as nat);
    (qd, ja)
}

/// With a single check given along a line, a square that stops it lies on the line between
/// the king and the checker, or is the checker's.
#[verifier::spinoff_prover]
#[verifier::rlimit(50)]
proof fn lemma_line_check_square(b: BoardModel, color: Color, a: Square, qd: int, ja: int, to: Square) -> (i: int)
    requires
        king_square(b, color).in_bounds(),
        0 <= qd < 8,
        1 <= ja <= 7,
        unit(queen_dir(qd).offset()),
        a == ray_point(king_square(b, color), queen_dir(qd).offset().0 as int, queen_dir(qd).offset().1 as int, ja),
        dir_checker(b, color, qd) == Some(ja as nat),
        spec_checks_amount(b, color) == 1,
        spec_check_square(b, color, to),
    ensures
        1 <= i <= ja,
        to == ray_point(king_square(b, color), queen_dir(qd).offset().0 as int, queen_dir(qd).offset().1 as int, i),
{
    let k = king_square(b, color);
    let d = queen_dir(qd).offset();
    lemma_ray_count_ge(b, color, 8, qd);
    if knight_check_has(b, color, 8, to) {
        let r = lemma_knight_check_has_at(b, color, 8, to);
        lemma_knight_count_ge(b, color, 8, r);
    }
    let (qq, j) = lemma_ray_check_has_dir(b, color, 8, to);
    if qq < qd {
        lemma_ray_count_two(b, color, 8, qq, qd);
    } else if qq > qd {
        lemma_ray_count_two(b, color, 8, qd, qq);
    }
    lemma_on_ray_point(k, d, to, j)
}

/// With a single check, a move that ends on a square that stops the check does stop the
/// attack of the checking piece.
#[verifier::spinoff_prover]
#[verifier::rlimit(60)]
proof fn lemma_check_stopped(b: BoardModel, color: Color, m: ChessMove, a: Square)
    requires
        uncovers(b, color, m, a),
        attacks_square(b, a, king_square(b, color)),
        spec_checks_amount(b, color) == 1,
    ensures
        !spec_check_square(b, color, m.to),
{
    lemma_after_frame(b, color, m, a);
    let k = king_square(b, color);
    let after = move_after(b, m);
    let to = m.to;
    assert(after.piece(a) == b.piece(a));
    let q = b.piece(a)->0;
    if q.piece_type == PieceType::Knight {
        lemma_knight_check_square(b, color, a, to);
    } else {
        let (qd, ja) = lemma_line_checker(b, color, a);
        if spec_check_square(b, color, to) {
            let i = lemma_line_check_square(b, color, a, qd, ja, to);
            let d = queen_dir(qd).offset();
            if i < ja {
                let rx = sign(k.0 - a.0);
                let ry = sign(k.1 - a.1);
                assert(to == ray_point(a, rx, ry, ja - i));
                assert(after.piece(to) is Some);
                assert(q.piece_type != PieceType::Pawn && q.piece_type != PieceType::King);
                assert(path_clear(after, a, k));
            }
        }
    }
}

// ---------------------------------------------------------------------------------------
// Every legal move is generated
// ---------------------------------------------------------------------------------------

/// What a ray from the king that pins a piece looks like: the pinned piece of the king's
/// side first, then, over empty squares, an attacker of the other side.
proof fn lemma_ray_pin_shape(b: BoardModel, k: Square, color: Color, d: Offset, j: nat, pin: Option<Square>, jf0: int) -> (r: (int, int))
    requires
        k.in_bounds(),
        unit(d),
        1 <= j,
        pin is None ==> forall|x: int| 1 <= x < j ==> #[trigger] b.piece(ray_point(k, d.0 as int, d.1 as int, x)) is None
            && ray_point(k, d.0 as int, d.1 as int, x).in_bounds(),
        pin matches Some(s0) ==> {
            &&& 1 <= jf0 < j
            &&& s0 == ray_point(k, d.0 as int, d.1 as int, jf0)
            &&& b.piece(s0) matches Some(p0) && p0.color == color
            &&& forall|x: int| 1 <= x < j ==> (#[trigger] ray_point(k, d.0 as int, d.1 as int, x)).in_bounds()
            &&& forall|x: int| 1 <= x < j && x != jf0 ==> #[trigger] b.piece(ray_point(k, d.0 as int, d.1 as int, x)) is None
        },
        spec_ray_pin(b, k, color, d, j, pin) is Some,
    ensures
        1 <= r.0 < r.1 <= 7,
        spec_ray_pin(b, k, color, d, j, pin) == Some(ray_point(k, d.0 as int, d.1 as int, r.0)),
        b.piece(ray_point(k, d.0 as int, d.1 as int, r.0)) matches Some(p) && p.color == color,
        forall|x: int| 1 <= x <= r.1 ==> (#[trigger] ray_point(k, d.0 as int, d.1 as int, x)).in_bounds(),
        forall|x: int| 1 <= x < r.1 && x != r.0 ==> #[trigger] b.piece(ray_point(k, d.0 as int, d.1 as int, x)) is None,
        b.piece(ray_point(k, d.0 as int, d.1 as int, r.1)) matches Some(q) && q.color != color
            && spec_attack_condition(
            offset_between(k, ray_point(k, d.0 as int, d.1 as int, r.1)),
            color,
            q.piece_type,
        ),
    decreases 8 - j,
{
    lemma_ray_sq_form(k, d, j);
    let t = ray_point(k, d.0 as int, d.1 as int, j as int);
    match b.piece(t) {
        None => lemma_ray_pin_shape(b, k, color, d, j + 1, pin, jf0),
        Some(p) => if p.color == color && pin is None {
            lemma_ray_pin_shape(b, k, color, d, j + 1, Some(t), j as int)
        } else {
            (jf0, j as int)
        },
    }
}

/// A pin entry comes from the pin along one queen direction.
proof fn lemma_ray_pins_source(b: BoardModel, color: Color, n: int, idx: int) -> (q: int)
    requires
        king_square(b, color).in_bounds(),
        0 <= n <= 8,
        0 <= idx < 64,
        spec_ray_pins(b, color, n)[idx] is Some,
    ensures
        0 <= q < n,
        spec_ray_pin(b, king_square(b, color), color, queen_dir(q).offset(), 1, None) matches Some(s) && s.index() == idx,
        spec_ray_pins(b, color, n)[idx] == Some(PinDir::spec_from_dir(queen_dir(q))),
    decreases n,
{
    lemma_ray_pins_len(b, color, n - 1);
    let d = queen_dir(n - 1).offset();
    assert(unit(d));
    lemma_ray_pin_on_ray(b, king_square(b, color), color, d, 1, None);
    match spec_ray_pin(b, king_square(b, color), color, d, 1, None) {
        Some(s) => if s.index() == idx {
            n - 1
        } else {
            lemma_ray_pins_source(b, color, n - 1, idx)
        },
        None => lemma_ray_pins_source(b, color, n - 1, idx),
    }
}

/// A pinned piece whose move leaves the line of its pin uncovers an attack on its king.
/// The attacker behind a pinned piece attacks the king once the piece has left the line
/// and nothing else has come onto it.
#[verifier::spinoff_prover]
#[verifier::rlimit(60)]
proof fn lemma_pin_line_opens(
    b: BoardModel,
    after: BoardModel,
    color: Color,
    d: Offset,
    jf: int,
    ja: int,
    from: Square,
    to: Square,
    c: Square,
)
    requires
        king_square(b, color).in_bounds(),
        unit(d),
        1 <= jf < ja <= 7,
        from == ray_point(king_square(b, color), d.0 as int, d.1 as int, jf),
        forall|x: int| 1 <= x <= ja ==> (#[trigger] ray_point(king_square(b, color), d.0 as int, d.1 as int, x)).in_bounds(),
        forall|x: int|
            1 <= x < ja && x != jf ==> #[trigger] b.piece(ray_point(king_square(b, color), d.0 as int, d.1 as int, x)) is None,
        b.piece(ray_point(king_square(b, color), d.0 as int, d.1 as int, ja)) matches Some(q) && q.color != color
            && spec_attack_condition(
            offset_between(king_square(b, color), ray_point(king_square(b, color), d.0 as int, d.1 as int, ja)),
            color,
            q.piece_type,
        ),
        forall|x: int| 1 <= x <= ja ==> #[trigger] ray_point(king_square(b, color), d.0 as int, d.1 as int, x) != to,
        c == from || (b.piece(c) matches Some(q) && q.piece_type == PieceType::Pawn),
        forall|t: Square| t != from && t != to && t != c ==> #[trigger] after.piece(t) == b.piece(t),
        after.piece(from) is None,
        after.piece(c) is None,
    ensures
        attacked_by_other(after, king_square(b, color), color),
{
    let k = king_square(b, color);
    let a = ray_point(k, d.0 as int, d.1 as int, ja);
    let q = b.piece(a)->0;
    assert(q.piece_type != PieceType::Pawn && q.piece_type != PieceType::Knight && q.piece_type != PieceType::King);
    assert(a != c);
    assert(after.piece(a) == b.piece(a));
    let rx = sign(k.0 - a.0);
    let ry = sign(k.1 - a.1);
    assert forall|x: int| 0 < x < span(a, k) implies #[trigger] after.piece(ray_point(a, rx, ry, x)) is None by {
        assert(ray_point(a, rx, ry, x) == ray_point(k, d.0 as int, d.1 as int, ja - x));
    }
    assert(attacks_square(after, a, k));
    assert(enemy_on(after, a, color));
}

/// The line of a pin recorded for a square: the pinned piece, then over empty squares its
/// attacker, with the pin's direction.
proof fn lemma_pin_source(b: BoardModel, color: Color, from: Square) -> (r: (Offset, int, int))
    requires
        well_placed(b),
        king_square(b, color).in_bounds(),
        from.in_bounds(),
        spec_ray_pins(b, color, 8)[from.index()] is Some,
    ensures
        unit(r.0),
        1 <= r.1 < r.2 <= 7,
        spec_ray_pins(b, color, 8)[from.index()] == Some(PinDir::spec_from_dir(queen_dir(dir_index(r.0.0 as int, r.0.1 as int)))),
        from == ray_point(king_square(b, color), r.0.0 as int, r.0.1 as int, r.1),
        forall|x: int| 1 <= x <= r.2 ==> (#[trigger] ray_point(king_square(b, color), r.0.0 as int, r.0.1 as int, x)).in_bounds(),
        forall|x: int|
            1 <= x < r.2 && x != r.1 ==> #[trigger] b.piece(ray_point(king_square(b, color), r.0.0 as int, r.0.1 as int, x)) is None,
        b.piece(ray_point(king_square(b, color), r.0.0 as int, r.0.1 as int, r.2)) matches Some(q) && q.color != color
            && spec_attack_condition(
            offset_between(king_square(b, color), ray_point(king_square(b, color), r.0.0 as int, r.0.1 as int, r.2)),
            color,
            q.piece_type,
        ),
{
    let k = king_square(b, color);
    assert(from.index() % 8 == from.0 && from.index() / 8 == from.1);
    let qi = lemma_ray_pins_source(b, color, 8, from.index());
    let d = queen_dir(qi).offset();
    assert(unit(d));
    assert(dir_index(d.0 as int, d.1 as int) == qi);
    let s = spec_ray_pin(b, k, color, d, 1, None)->0;
    lemma_ray_pin_on_ray(b, k, color, d, 1, None);
    assert(s.index() % 8 == s.0 && s.index() / 8 == s.1);
    assert(s == from);
    let (jf, ja) = lemma_ray_pin_shape(b, k, color, d, 1, None, 0);
    (d, jf, ja)
}

/// A pinned piece whose move leaves the line of its pin uncovers an attack on its king.
proof fn lemma_pin_needed(b: BoardModel, color: Color, m: ChessMove)
    requires
        well_placed(b),
        king_square(b, color).in_bounds(),
        follows_rules(b, m, color),
        b.piece(m.from) matches Some(p) && p.piece_type != PieceType::King,
        !(m.move_type is EnPassantMove),
        spec_ray_pins(b, color, 8)[m.from.index()] matches Some(pd) && !spec_pin_condition(
            offset_between(m.from, m.to),
            pd,
        ),
    ensures
        attacked_by_other(move_after(b, m), king_square(b, color), color),
{
    let k = king_square(b, color);
    let from = m.from;
    let to = m.to;
    let after = move_after(b, m);
    let (d, jf, ja) = lemma_pin_source(b, color, from);
    let pd = PinDir::spec_from_dir(queen_dir(dir_index(d.0 as int, d.1 as int)));
    assert forall|x: int| 1 <= x <= ja implies #[trigger] ray_point(k, d.0 as int, d.1 as int, x) != to by {
        if ray_point(k, d.0 as int, d.1 as int, x) == to {
            assert(spec_pin_condition(offset_between(from, to), pd));
        }
    }
    assert forall|t: Square| t != from && t != to && t != from implies #[trigger] after.piece(t) == b.piece(t) by {
        if t.in_bounds() {
            assert(t.index() != from.index() && t.index() != to.index());
        }
    }
    lemma_pin_line_opens(b, after, color, d, jf, ja, from, to, from);
}

proof fn lemma_ray_count_exists(b: BoardModel, color: Color, n: int) -> (q: int)
    requires
        ray_check_count(b, color, n) >= 1,
    ensures
        0 <= q < n,
        dir_checker(b, color, q) is Some,
    decreases n,
{
    if ray_check_count(b, color, n - 1) >= 1 {
        lemma_ray_count_exists(b, color, n - 1)
    } else {
        n - 1
    }
}

proof fn lemma_knight_count_exists(b: BoardModel, color: Color, n: int) -> (q: int)
    requires
        knight_check_count(b, color, n) >= 1,
    ensures
        0 <= q < n,
        spec_knight_attacks(b, king_square(b, color), color, q),
    decreases n,
{
    if knight_check_count(b, color, n - 1) >= 1 {
        lemma_knight_count_exists(b, color, n - 1)
    } else {
        n - 1
    }
}

proof fn lemma_checker_shape(b: BoardModel, k: Square, color: Color, d: Offset, j: nat)
    requires
        k.in_bounds(),
        unit(d),
        1 <= j,
        spec_ray_checker(b, k, color, d, j) is Some,
    ensures
        ({
            let jj = spec_ray_checker(b, k, color, d, j)->0;
            &&& j <= jj <= 7
            &&& forall|x: int| j <= x <= jj ==> (#[trigger] ray_point(k, d.0 as int, d.1 as int, x)).in_bounds()
            &&& forall|x: int| j <= x < jj ==> #[trigger] b.piece(ray_point(k, d.0 as int, d.1 as int, x)) is None
            &&& b.piece(ray_point(k, d.0 as int, d.1 as int, jj as int)) matches Some(q) && q.color != color
                && spec_attack_condition(
                offset_between(k, ray_point(k, d.0 as int, d.1 as int, jj as int)),
                color,
                q.piece_type,
            )
        }),
    decreases 8 - j,
{
    lemma_ray_sq_form(k, d, j);
    let t = ray_point(k, d.0 as int, d.1 as int, j as int);
    if b.piece(t) is None {
        lemma_checker_shape(b, k, color, d, j + 1);
    }
}

proof fn lemma_on_ray_has(k: Square, d: Offset, i: nat, j: nat)
    requires
        1 <= i <= j,
    ensures
        on_ray(k, d, ray_sq(k, d, i), j),
    decreases j,
{
    if i < j {
        lemma_on_ray_has(k, d, i, (j - 1) as nat);
    }
}

proof fn lemma_ray_check_has_from(b: BoardModel, color: Color, n: int, q: int, s: Square)
    requires
        0 <= q < n,
        dir_checker(b, color, q) matches Some(j) && on_ray(king_square(b, color), queen_dir(q).offset(), s, j),
    ensures
        ray_check_has(b, color, n, s),
    decreases n,
{
    if q < n - 1 {
        lemma_ray_check_has_from(b, color, n - 1, q, s);
    }
}

proof fn lemma_knight_check_has_from(b: BoardModel, color: Color, n: int, q: int)
    requires
        0 <= q < n,
        spec_knight_attacks(b, king_square(b, color), color, q),
    ensures
        knight_check_has(b, color, n, king_square(b, color).spec_add(knight_offset(q))),
    decreases n,
{
    if q < n - 1 {
        lemma_knight_check_has_from(b, color, n - 1, q);
    }
}

/// A checking piece on a line keeps its attack when neither the square left nor the square
/// reached is on that line.
#[verifier::spinoff_prover]
#[verifier::rlimit(60)]
proof fn lemma_ray_checker_stays(b: BoardModel, after: BoardModel, color: Color, from: Square, to: Square, q: int)
    requires
        king_square(b, color).in_bounds(),
        0 <= q < 8,
        dir_checker(b, color, q) is Some,
        b.piece(from) matches Some(p) && p.color == color,
        forall|x: int|
            1 <= x <= dir_checker(b, color, q)->0 ==> #[trigger] ray_point(
                king_square(b, color),
                queen_dir(q).offset().0 as int,
                queen_dir(q).offset().1 as int,
                x,
            ) != to,
        forall|t: Square| t != from && t != to ==> #[trigger] after.piece(t) == b.piece(t),
        after.piece(from) is None,
    ensures
        attacked_by_other(after, king_square(b, color), color),
{
    let k = king_square(b, color);
    let d = queen_dir(q).offset();
    assert(unit(d));
    lemma_checker_shape(b, k, color, d, 1);
    let jj = dir_checker(b, color, q)->0;
    let c = ray_point(k, d.0 as int, d.1 as int, jj as int);
    assert(c != from);
    assert(after.piece(c) == b.piece(c));
    let cp = b.piece(c)->0;
    if cp.piece_type != PieceType::Pawn && cp.piece_type != PieceType::Knight {
        let rx = sign(k.0 - c.0);
        let ry = sign(k.1 - c.1);
        assert forall|x: int| 0 < x < span(c, k) implies #[trigger] after.piece(ray_point(c, rx, ry, x)) is None by {
            assert(ray_point(c, rx, ry, x) == ray_point(k, d.0 as int, d.1 as int, jj - x));
        }
    }
    assert(offset_between(k, c) == Offset((c.0 - k.0) as i8, (c.1 - k.1) as i8));
    assert(attacks_square(after, c, k));
    assert(enemy_on(after, c, color));
}

/// With a single check, a move that does not end on a square that stops it leaves the
/// king attacked.
#[verifier::spinoff_prover]
#[verifier::rlimit(60)]
proof fn lemma_check_needed(b: BoardModel, color: Color, m: ChessMove)
    requires
        well_placed(b),
        king_square(b, color).in_bounds(),
        follows_rules(b, m, color),
        b.piece(m.from) matches Some(p) && p.piece_type != PieceType::King,
        !(m.move_type is EnPassantMove),
        spec_checks_amount(b, color) == 1,
        !spec_check_square(b, color, m.to),
    ensures
        attacked_by_other(move_after(b, m), king_square(b, color), color),
{
    let k = king_square(b, color);
    let from = m.from;
    let to = m.to;
    let after = move_after(b, m);
    assert forall|t: Square| t != from && t != to implies #[trigger] after.piece(t) == b.piece(t) by {
        if t.in_bounds() {
            assert(t.index() != from.index() && t.index() != to.index());
        }
    }
    assert(after.piece(from) is None);
    if ray_check_count(b, color, 8) >= 1 {
        let q = lemma_ray_count_exists(b, color, 8);
        let d = queen_dir(q).offset();
        assert(unit(d));
        let jj = dir_checker(b, color, q)->0;
        lemma_checker_shape(b, k, color, d, 1);
        assert forall|x: int| 1 <= x <= jj implies #[trigger] ray_point(k, d.0 as int, d.1 as int, x) != to by {
            lemma_ray_sq_form(k, d, x as nat);
            lemma_on_ray_has(k, d, x as nat, jj);
            lemma_ray_check_has_from(b, color, 8, q, ray_point(k, d.0 as int, d.1 as int, x));
        }
        lemma_ray_checker_stays(b, after, color, from, to, q);
    } else {
        let q = lemma_knight_count_exists(b, color, 8);
        let c = k.spec_add(knight_offset(q));
        lemma_knight_check_has_from(b, color, 8, q);
        assert(after.piece(c) == b.piece(c));
        assert(attacks_square(after, c, k));
        assert(enemy_on(after, c, color));
    }
}

/// A checking knight keeps its attack when the move neither lands on it nor leaves it.
proof fn lemma_knight_checker_stays(b: BoardModel, after: BoardModel, color: Color, from: Square, to: Square, q: int)
    requires
        king_square(b, color).in_bounds(),
        0 <= q < 8,
        spec_knight_attacks(b, king_square(b, color), color, q),
        king_square(b, color).spec_add(knight_offset(q)) != to,
        b.piece(from) matches Some(p) && p.color == color,
        forall|t: Square| t != from && t != to ==> #[trigger] after.piece(t) == b.piece(t),
    ensures
        attacked_by_other(after, king_square(b, color), color),
{
    let k = king_square(b, color);
    let c = k.spec_add(knight_offset(q));
    assert(c != from);
    assert(after.piece(c) == b.piece(c));
    assert(attacks_square(after, c, k));
    assert(enemy_on(after, c, color));
}

proof fn lemma_ray_count_two_exist(b: BoardModel, color: Color, n: int) -> (r: (int, int))
    requires
        ray_check_count(b, color, n) >= 2,
    ensures
        0 <= r.0 < r.1 < n,
        dir_checker(b, color, r.0) is Some,
        dir_checker(b, color, r.1) is Some,
    decreases n,
{
    if ray_check_count(b, color, n - 1) >= 2 {
        lemma_ray_count_two_exist(b, color, n - 1)
    } else {
        (lemma_ray_count_exists(b, color, n - 1), n - 1)
    }
}

proof fn lemma_knight_count_two_exist(b: BoardModel, color: Color, n: int) -> (r: (int, int))
    requires
        knight_check_count(b, color, n) >= 2,
    ensures
        0 <= r.0 < r.1 < n,
        spec_knight_attacks(b, king_square(b, color), color, r.0),
        spec_knight_attacks(b, king_square(b, color), color, r.1),
    decreases n,
{
    if knight_check_count(b, color, n - 1) >= 2 {
        lemma_knight_count_two_exist(b, color, n - 1)
    } else {
        (lemma_knight_count_exists(b, color, n - 1), n - 1)
    }
}

/// Whether a square lies on the `q`-th checking line, up to its checker.
spec fn on_check_line(b: BoardModel, color: Color, q: int, s: Square) -> bool {
    exists|x: int|
        1 <= x <= dir_checker(b, color, q)->0 && #[trigger] ray_point(
            king_square(b, color),
            queen_dir(q).offset().0 as int,
            queen_dir(q).offset().1 as int,
            x,
        ) == s
}

/// Two checks along two lines cannot both be stopped on one square.
#[verifier::spinoff_prover]
#[verifier::rlimit(60)]
proof fn lemma_two_lines(b: BoardModel, after: BoardModel, color: Color, from: Square, to: Square, q1: int, q2: int)
    requires
        king_square(b, color).in_bounds(),
        0 <= q1 < q2 < 8,
        dir_checker(b, color, q1) is Some,
        dir_checker(b, color, q2) is Some,
        b.piece(from) matches Some(p) && p.color == color,
        forall|t: Square| t != from && t != to ==> #[trigger] after.piece(t) == b.piece(t),
        after.piece(from) is None,
    ensures
        attacked_by_other(after, king_square(b, color), color),
{
    let k = king_square(b, color);
    let d1 = queen_dir(q1).offset();
    let d2 = queen_dir(q2).offset();
    assert(unit(d1) && unit(d2) && d1 != d2);
    lemma_checker_shape(b, k, color, d1, 1);
    lemma_checker_shape(b, k, color, d2, 1);
    if on_check_line(b, color, q1, to) {
        let x1 = choose|x: int| 1 <= x <= dir_checker(b, color, q1)->0 && #[trigger] ray_point(k, d1.0 as int, d1.1 as int, x) == to;
        assert(sign(to.0 - k.0) == d1.0 && sign(to.1 - k.1) == d1.1);
        assert forall|x: int| 1 <= x <= dir_checker(b, color, q2)->0 implies #[trigger] ray_point(k, d2.0 as int, d2.1 as int, x) != to by {
            if ray_point(k, d2.0 as int, d2.1 as int, x) == to {
                assert(sign(to.0 - k.0) == d2.0 && sign(to.1 - k.1) == d2.1);
            }
        }
        lemma_ray_checker_stays(b, after, color, from, to, q2);
    } else {
        lemma_ray_checker_stays(b, after, color, from, to, q1);
    }
}

/// A check along a line and a knight's check cannot both be stopped on one square.
#[verifier::spinoff_prover]
#[verifier::rlimit(60)]
proof fn lemma_line_and_knight(b: BoardModel, after: BoardModel, color: Color, from: Square, to: Square, q: int, kn: int)
    requires
        king_square(b, color).in_bounds(),
        0 <= q < 8,
        0 <= kn < 8,
        dir_checker(b, color, q) is Some,
        spec_knight_attacks(b, king_square(b, color), color, kn),
        b.piece(from) matches Some(p) && p.color == color,
        forall|t: Square| t != from && t != to ==> #[trigger] after.piece(t) == b.piece(t),
        after.piece(from) is None,
    ensures
        attacked_by_other(after, king_square(b, color), color),
{
    let k = king_square(b, color);
    let d = queen_dir(q).offset();
    assert(unit(d));
    lemma_checker_shape(b, k, color, d, 1);
    if k.spec_add(knight_offset(kn)) == to {
        assert forall|x: int| 1 <= x <= dir_checker(b, color, q)->0 implies #[trigger] ray_point(k, d.0 as int, d.1 as int, x) != to by {
        }
        lemma_ray_checker_stays(b, after, color, from, to, q);
    } else {
        lemma_knight_checker_stays(b, after, color, from, to, kn);
    }
}

/// Under a double check, no move other than the king's takes its king out of check.
#[verifier::spinoff_prover]
#[verifier::rlimit(60)]
proof fn lemma_double_check(b: BoardModel, color: Color, m: ChessMove)
    requires
        well_placed(b),
        king_square(b, color).in_bounds(),
        follows_rules(b, m, color),
        b.piece(m.from) matches Some(p) && p.piece_type != PieceType::King,
        !(m.move_type is EnPassantMove),
        spec_checks_amount(b, color) >= 2,
    ensures
        attacked_by_other(move_after(b, m), king_square(b, color), color),
{
    let k = king_square(b, color);
    let from = m.from;
    let to = m.to;
    let after = move_after(b, m);
    assert forall|t: Square| t != from && t != to implies #[trigger] after.piece(t) == b.piece(t) by {
        if t.in_bounds() {
            assert(t.index() != from.index() && t.index() != to.index());
        }
    }
    assert(after.piece(from) is None);
    if ray_check_count(b, color, 8) >= 2 {
        let (q1, q2) = lemma_ray_count_two_exist(b, color, 8);
        lemma_two_lines(b, after, color, from, to, q1, q2);
    } else if ray_check_count(b, color, 8) == 1 {
        let q = lemma_ray_count_exists(b, color, 8);
        let kn = lemma_knight_count_exists(b, color, 8);
        lemma_line_and_knight(b, after, color, from, to, q, kn);
    } else {
        let (n1, n2) = lemma_knight_count_two_exist(b, color, 8);
        if k.spec_add(knight_offset(n1)) == to {
            lemma_knight_checker_stays(b, after, color, from, to, n2);
        } else {
            lemma_knight_checker_stays(b, after, color, from, to, n1);
        }
    }
}

// ---------------------------------------------------------------------------------------
// The generated moves are the legal moves
// ---------------------------------------------------------------------------------------

/// Whether a move of `color` is legal: it follows the rules by which the pieces move; a
/// castling king is not attacked and passes over and lands on squares that no piece of the
/// other side attacks (with the king lifted off the board); any other move leaves the king
/// of `color` unattacked in the position after it.
pub open spec fn is_legal(b: BoardModel, m: ChessMove, color: Color) -> bool {
    &&& follows_rules(b, m, color)
    &&& if m.move_type is CastleMove {
        &&& !attacked_by_other(b, m.from, color)
        &&& !attacked_by_other(b.set(m.from, None), castle_passed(m), color)
        &&& !attacked_by_other(b.set(m.from, None), m.to, color)
    } else {
        !attacked_by_other(move_after(b, m), king_after(b, m, color), color)
    }
}

/// The move generator gives a side exactly its legal moves, in a position without an en
/// passant target where every piece records its square, every castling right has its king
/// and rook in place, and the king of the side stands on the square its side records (the
/// only king of that side on the board).
#[verifier::spinoff_prover]
#[verifier::rlimit(60)]
pub proof fn lemma_generated_moves_legal(b: BoardModel, color: Color, m: ChessMove)
    requires
        well_placed(b),
        castles_ready(b),
        kings_recorded(b),
        b.en_passant_square is None,
        b.piece(king_of(b, color)) matches Some(kp) && kp.piece_type == PieceType::King && kp.color == color,
    ensures
        spec_all_moves(b, color).contains(m) <==> is_legal(b, m, color),
{
    lemma_generated_moves_exactly(b, color, m);
    let k = king_square(b, color);
    assert(k == king_of(b, color));
    if m.move_type is CastleMove {
        lemma_castles_legal(b, color, m);
    } else if follows_rules(b, m, color) {
        let p = b.piece(m.from)->0;
        if p.piece_type == PieceType::King {
            lemma_king_steps_legal(b, color, m);
            assert(move_after(b, m) == king_step_after(b, m));
        } else {
            if spec_all_moves(b, color).contains(m) {
                lemma_generated_moves_safe(b, color, m);
            }
            if is_legal(b, m, color) {
                assert(!(m.move_type is EnPassantMove));
                if spec_checks_amount(b, color) >= 2 {
                    lemma_double_check(b, color, m);
                }
                if spec_checks_amount(b, color) == 1 && !spec_check_square(b, color, m.to) {
                    lemma_check_needed(b, color, m);
                }
                if !pin_pred(b, color)(m) {
                    assert(m.from.index() % 8 == m.from.0 && m.from.index() / 8 == m.from.1);
                    lemma_pin_needed(b, color, m);
                }
                assert(passes_restrictions(b, m, color));
            }
        }
    }
}

/// No move the generator gives a side lands on a king of the other side unless that king is
/// attacked: in a position where every piece records its square, every castling right has
/// its king and rook in place, every king stands on the square its side records and an en
/// passant target lies on the board.
pub proof fn lemma_king_taken_only_when_attacked(b: BoardModel, color: Color, m: ChessMove)
    requires
        well_placed(b),
        castles_ready(b),
        kings_recorded(b),
        b.en_passant_square matches Some(t) ==> t.in_bounds(),
        spec_all_moves(b, color).contains(m),
        b.piece(m.to) matches Some(q) && q.piece_type == PieceType::King && q.color != color,
    ensures
        attacked_by_other(b, m.to, b.piece(m.to)->0.color),
{
    lemma_generated_moves_exactly(b, color, m);
    let q = b.piece(m.to)->0;
    assert(!(m.move_type is CastleMove));
    assert(m.from.in_bounds());
    assert(enemy_on(b, m.from, q.color));
    assert(attacks_square(b, m.from, m.to));
}

// ---------------------------------------------------------------------------------------
// Positions with an en passant target
// ---------------------------------------------------------------------------------------

/// An en passant capture that leaves the king attacked while the pawn it takes stood on a
/// diagonal through the king: the capture opens that diagonal, which the generator does
/// not look at.
pub open spec fn ep_diagonal_exposure(b: BoardModel, m: ChessMove, color: Color) -> bool {
    let k = king_square(b, color);
    let c = ep_captured_square(m.to, color);
    &&& m.move_type is EnPassantMove
    &&& iabs(c.0 - k.0) == iabs(c.1 - k.1)
    &&& attacked_by_other(move_after(b, m), k, color)
}

/// With an en passant target set, a move of a pawn on its king's rank, other than the en
/// passant capture, that leaves the king attacked, where the en passant pin of the
/// generator marks the pawn (`ep_pinned`): that mark replaces the pawn's pin along the
/// rank, and the generator lets the pawn leave the rank.
pub open spec fn ep_rank_exposure(b: BoardModel, m: ChessMove, color: Color) -> bool {
    &&& b.en_passant_square is Some
    &&& !(m.move_type is EnPassantMove)
    &&& b.piece(m.from) matches Some(p) && p.piece_type == PieceType::Pawn
    &&& m.from.1 == king_square(b, color).1
    &&& m.from.in_bounds()
    &&& ep_pinned(b, color, m.from.index())
    &&& attacked_by_other(move_after(b, m), king_square(b, color), color)
}

/// Whether the king of `color` is set up for the attack tests: on its recorded square, the
/// only king of its side.
spec fn king_set(b: BoardModel, color: Color) -> bool {
    &&& king_square(b, color).in_bounds()
    &&& b.piece(king_square(b, color)) matches Some(kp) && kp.piece_type == PieceType::King && kp.color == color
    &&& own_king_only_at(b, color, king_square(b, color))
}

/// A move other than the king's, castling or en passant passes the generator's restrictions
/// exactly when it leaves the king unattacked, but for a pawn on the king's rank whose pin
/// the en passant pin replaces.
#[verifier::spinoff_prover]
#[verifier::rlimit(60)]
proof fn lemma_other_moves(b: BoardModel, color: Color, m: ChessMove)
    requires
        well_placed(b),
        king_set(b, color),
        follows_rules(b, m, color),
        b.piece(m.from) matches Some(p) && p.piece_type != PieceType::King,
        !(m.move_type is EnPassantMove),
        !(m.move_type is CastleMove),
        !ep_rank_exposure(b, m, color),
    ensures
        passes_restrictions(b, m, color) <==> !attacked_by_other(move_after(b, m), king_square(b, color), color),
{
    let k = king_square(b, color);
    let from = m.from;
    assert(from.index() % 8 == from.0 && from.index() / 8 == from.1);
    lemma_pins_cases(b, color, from.index());
    lemma_no_checks(b, color);
    lemma_attacked_by_other(b, k, color);
    if passes_restrictions(b, m, color) && attacked_by_other(move_after(b, m), k, color) {
        let a = choose|a: Square| a.in_bounds() && enemy_on(move_after(b, m), a, color) && #[trigger] attacks_square(
            move_after(b, m),
            a,
            k,
        );
        assert(uncovers(b, color, m, a));
        lemma_after_frame(b, color, m, a);
        assert(move_after(b, m).piece(a) == b.piece(a));
        if attacks_square(b, a, k) {
            assert(attacked_by_other(b, k, color));
            assert(spec_checks_amount(b, color) == 1);
            lemma_check_stopped(b, color, m, a);
        } else {
            let pd = lemma_uncovered_is_pinned(b, color, m, a);
            if spec_pins(b, color)[from.index()] == Some(PinDir::EnPassantBlock) {
                lemma_ep_pinned_rank(b, color, from);
            }
        }
    }
    if !attacked_by_other(move_after(b, m), k, color) {
        if spec_checks_amount(b, color) >= 2 {
            lemma_double_check(b, color, m);
        }
        if spec_checks_amount(b, color) == 1 && !spec_check_square(b, color, m.to) {
            lemma_check_needed(b, color, m);
        }
        if !pin_pred(b, color)(m) {
            lemma_pin_needed(b, color, m);
        }
    }
}

/// A square the en passant pin marks holds a pawn of the king's side on the king's rank.
proof fn lemma_ep_pinned_rank(b: BoardModel, color: Color, s: Square)
    requires
        king_square(b, color).in_bounds(),
        s.in_bounds(),
        ep_pinned(b, color, s.index()),
    ensures
        s.1 == king_square(b, color).1,
        b.piece(s) matches Some(p) && p.piece_type == PieceType::Pawn && p.color == color,
{
    let k = king_square(b, color);
    let ep = b.en_passant_square->0;
    let pawn_sq = ep_captured_square(ep, color);
    let dl = Offset(-1i8, 0);
    let dr = Offset(1, 0);
    assert(unit(dl) && unit(dr));
    assert(s.index() % 8 == s.0 && s.index() / 8 == s.1);
    if spec_ep_ray_pin(b, k, color, dl, pawn_sq, 1, None) matches Some(t) && t.index() == s.index() {
        let (jf, ja) = lemma_ep_ray_pin_shape(b, k, color, dl, pawn_sq, 1, None, 0);
        let t = ray_point(k, dl.0 as int, dl.1 as int, jf);
        assert(t.index() % 8 == t.0 && t.index() / 8 == t.1);
        assert(t == s);
    } else {
        let (jf, ja) = lemma_ep_ray_pin_shape(b, k, color, dr, pawn_sq, 1, None, 0);
        let t = ray_point(k, dr.0 as int, dr.1 as int, jf);
        assert(t.index() % 8 == t.0 && t.index() / 8 == t.1);
        assert(t == s);
    }
}

/// Whether a move is an en passant capture set up as the rules and a sound target give it:
/// a pawn of `color` takes, from beside it, the pawn of the other side behind the empty
/// target square.
spec fn ep_move(b: BoardModel, m: ChessMove, color: Color) -> bool {
    &&& well_placed(b)
    &&& follows_rules(b, m, color)
    &&& m.move_type is EnPassantMove
    &&& b.piece(m.to) is None
    &&& b.piece(ep_captured_square(m.to, color)) matches Some(q) && q.piece_type == PieceType::Pawn
}

proof fn lemma_ep_frame(b: BoardModel, color: Color, m: ChessMove)
    requires
        ep_move(b, m, color),
    ensures
        ({
            let c = ep_captured_square(m.to, color);
            let after = move_after(b, m);
            &&& c.in_bounds()
            &&& c == Square(m.to.0, m.from.1)
            &&& c != m.from && c != m.to && m.from != m.to
            &&& forall|t: Square| t != m.from && t != m.to && t != c ==> #[trigger] after.piece(t) == b.piece(t)
            &&& after.piece(m.from) is None
            &&& after.piece(c) is None
            &&& after.piece(m.to) matches Some(x) && x.color == color
            &&& b.piece(m.from) matches Some(p) && p.piece_type == PieceType::Pawn && p.color == color
        }),
{
    let c = ep_captured_square(m.to, color);
    let after = move_after(b, m);
    assert(c.in_bounds());
    assert forall|t: Square| t != m.from && t != m.to && t != c implies #[trigger] after.piece(t) == b.piece(t) by {
        if t.in_bounds() {
            assert(t.index() != m.from.index() && t.index() != m.to.index() && t.index() != c.index());
        }
    }
    assert(c.index() != m.to.index());
}

/// A checking piece on a line keeps its attack when none of the squares a move changes is
/// on that line.
#[verifier::spinoff_prover]
#[verifier::rlimit(60)]
proof fn lemma_ray_checker_stays3(
    b: BoardModel,
    after: BoardModel,
    color: Color,
    from: Square,
    to: Square,
    c: Square,
    q: int,
)
    requires
        king_square(b, color).in_bounds(),
        0 <= q < 8,
        dir_checker(b, color, q) is Some,
        b.piece(from) matches Some(p) && p.color == color,
        forall|x: int|
            1 <= x <= dir_checker(b, color, q)->0 ==> #[trigger] ray_point(
                king_square(b, color),
                queen_dir(q).offset().0 as int,
                queen_dir(q).offset().1 as int,
                x,
            ) != to && ray_point(
                king_square(b, color),
                queen_dir(q).offset().0 as int,
                queen_dir(q).offset().1 as int,
                x,
            ) != c,
        forall|t: Square| t != from && t != to && t != c ==> #[trigger] after.piece(t) == b.piece(t),
        after.piece(from) is None,
    ensures
        attacked_by_other(after, king_square(b, color), color),
{
    let k = king_square(b, color);
    let d = queen_dir(q).offset();
    assert(unit(d));
    lemma_checker_shape(b, k, color, d, 1);
    let jj = dir_checker(b, color, q)->0;
    let cs = ray_point(k, d.0 as int, d.1 as int, jj as int);
    assert(cs != from);
    assert(after.piece(cs) == b.piece(cs));
    let cp = b.piece(cs)->0;
    if cp.piece_type != PieceType::Pawn && cp.piece_type != PieceType::Knight {
        let rx = sign(k.0 - cs.0);
        let ry = sign(k.1 - cs.1);
        assert forall|x: int| 0 < x < span(cs, k) implies #[trigger] after.piece(ray_point(cs, rx, ry, x)) is None by {
            assert(ray_point(cs, rx, ry, x) == ray_point(k, d.0 as int, d.1 as int, jj - x));
        }
    }
    assert(offset_between(k, cs) == Offset((cs.0 - k.0) as i8, (cs.1 - k.1) as i8));
    assert(attacks_square(after, cs, k));
    assert(enemy_on(after, cs, color));
}

/// A checking knight keeps its attack when a move changes none of its square.
proof fn lemma_knight_checker_stays3(
    b: BoardModel,
    after: BoardModel,
    color: Color,
    from: Square,
    to: Square,
    c: Square,
    q: int,
)
    requires
        king_square(b, color).in_bounds(),
        0 <= q < 8,
        spec_knight_attacks(b, king_square(b, color), color, q),
        king_square(b, color).spec_add(knight_offset(q)) != to,
        king_square(b, color).spec_add(knight_offset(q)) != c,
        b.piece(from) matches Some(p) && p.color == color,
        forall|t: Square| t != from && t != to && t != c ==> #[trigger] after.piece(t) == b.piece(t),
    ensures
        attacked_by_other(after, king_square(b, color), color),
{
    let k = king_square(b, color);
    let ks = k.spec_add(knight_offset(q));
    assert(ks != from);
    assert(after.piece(ks) == b.piece(ks));
    assert(attacks_square(after, ks, k));
    assert(enemy_on(after, ks, color));
}

/// With a single check, an en passant capture that neither lands on a square that stops it
/// nor takes a checking pawn leaves the king attacked.
#[verifier::spinoff_prover]
#[verifier::rlimit(60)]
proof fn lemma_ep_check_needed(b: BoardModel, color: Color, m: ChessMove)
    requires
        ep_move(b, m, color),
        king_square(b, color).in_bounds(),
        spec_checks_amount(b, color) == 1,
        !spec_check_square(b, color, m.to),
        !spec_check_square(b, color, ep_captured_square(m.to, color)),
    ensures
        attacked_by_other(move_after(b, m), king_square(b, color), color),
{
    lemma_ep_frame(b, color, m);
    let k = king_square(b, color);
    let c = ep_captured_square(m.to, color);
    let after = move_after(b, m);
    if ray_check_count(b, color, 8) >= 1 {
        let q = lemma_ray_count_exists(b, color, 8);
        let d = queen_dir(q).offset();
        assert(unit(d));
        let jj = dir_checker(b, color, q)->0;
        lemma_checker_shape(b, k, color, d, 1);
        assert forall|x: int| 1 <= x <= jj implies #[trigger] ray_point(k, d.0 as int, d.1 as int, x) != m.to
            && ray_point(k, d.0 as int, d.1 as int, x) != c by {
            lemma_ray_sq_form(k, d, x as nat);
            lemma_on_ray_has(k, d, x as nat, jj);
            lemma_ray_check_has_from(b, color, 8, q, ray_point(k, d.0 as int, d.1 as int, x));
        }
        lemma_ray_checker_stays3(b, after, color, m.from, m.to, c, q);
    } else {
        let q = lemma_knight_count_exists(b, color, 8);
        lemma_knight_check_has_from(b, color, 8, q);
        lemma_knight_checker_stays3(b, after, color, m.from, m.to, c, q);
    }
}

/// A pawn of the other side that gives check stands diagonally in front of the king, so the
/// target square of an en passant capture of it is a knight's jump from the king and on no
/// line through it.
proof fn lemma_pawn_checker_target(b: BoardModel, color: Color, m: ChessMove, q: int)
    requires
        ep_move(b, m, color),
        king_square(b, color).in_bounds(),
        0 <= q < 8,
        dir_checker(b, color, q) is Some,
        on_check_line(b, color, q, ep_captured_square(m.to, color)),
    ensures
        forall|q2: int, x: int|
            0 <= q2 < 8 && 1 <= x <= 7 ==> #[trigger] ray_point(
                king_square(b, color),
                queen_dir(q2).offset().0 as int,
                queen_dir(q2).offset().1 as int,
                x,
            ) != m.to,
{
    lemma_ep_frame(b, color, m);
    let k = king_square(b, color);
    let c = ep_captured_square(m.to, color);
    let d = queen_dir(q).offset();
    assert(unit(d));
    lemma_checker_shape(b, k, color, d, 1);
    let jj = dir_checker(b, color, q)->0;
    let x0 = choose|x: int| 1 <= x <= dir_checker(b, color, q)->0 && #[trigger] ray_point(k, d.0 as int, d.1 as int, x) == c;
    assert(x0 == jj);
    assert(offset_between(k, c) == Offset((c.0 - k.0) as i8, (c.1 - k.1) as i8));
    assert(iabs(c.0 - k.0) == 1 && c.1 - k.1 == forward(color));
    assert forall|q2: int, x: int| 0 <= q2 < 8 && 1 <= x <= 7 implies #[trigger] ray_point(
        k,
        queen_dir(q2).offset().0 as int,
        queen_dir(q2).offset().1 as int,
        x,
    ) != m.to by {
        let d2 = queen_dir(q2).offset();
        assert(unit(d2));
    }
}

/// Under a double check, no en passant capture takes the king out of check.
#[verifier::spinoff_prover]
#[verifier::rlimit(60)]
proof fn lemma_ep_double_check(b: BoardModel, color: Color, m: ChessMove)
    requires
        ep_move(b, m, color),
        king_square(b, color).in_bounds(),
        spec_checks_amount(b, color) >= 2,
    ensures
        attacked_by_other(move_after(b, m), king_square(b, color), color),
{
    lemma_ep_frame(b, color, m);
    let k = king_square(b, color);
    let c = ep_captured_square(m.to, color);
    let to = m.to;
    let after = move_after(b, m);
    if knight_check_count(b, color, 8) >= 1 {
        let kn = lemma_knight_count_exists(b, color, 8);
        lemma_knight_checker_stays3(b, after, color, m.from, to, c, kn);
    } else {
        let (q1, q2) = lemma_ray_count_two_exist(b, color, 8);
        let d1 = queen_dir(q1).offset();
        let d2 = queen_dir(q2).offset();
        assert(unit(d1) && unit(d2) && d1 != d2);
        lemma_checker_shape(b, k, color, d1, 1);
        lemma_checker_shape(b, k, color, d2, 1);
        if on_check_line(b, color, q1, c) {
            lemma_pawn_checker_target(b, color, m, q1);
            lemma_ep_line_apart(b, color, q1, q2, c);
            lemma_ray_checker_stays3(b, after, color, m.from, to, c, q2);
        } else if on_check_line(b, color, q2, c) {
            lemma_pawn_checker_target(b, color, m, q2);
            lemma_ep_line_apart(b, color, q2, q1, c);
            lemma_ray_checker_stays3(b, after, color, m.from, to, c, q1);
        } else if on_check_line(b, color, q1, to) {
            lemma_ep_line_apart(b, color, q1, q2, to);
            lemma_ray_checker_stays3(b, after, color, m.from, to, c, q2);
        } else {
            lemma_ray_checker_stays3(b, after, color, m.from, to, c, q1);
        }
    }
}

/// A square on one checking line is on no other.
proof fn lemma_ep_line_apart(b: BoardModel, color: Color, q1: int, q2: int, s: Square)
    requires
        king_square(b, color).in_bounds(),
        0 <= q1 < 8,
        0 <= q2 < 8,
        q1 != q2,
        dir_checker(b, color, q1) is Some,
        dir_checker(b, color, q2) is Some,
        on_check_line(b, color, q1, s),
    ensures
        !on_check_line(b, color, q2, s),
{
    let k = king_square(b, color);
    let d1 = queen_dir(q1).offset();
    let d2 = queen_dir(q2).offset();
    assert(unit(d1) && unit(d2) && d1 != d2);
    lemma_checker_shape(b, k, color, d1, 1);
    lemma_checker_shape(b, k, color, d2, 1);
    let x1 = choose|x: int| 1 <= x <= dir_checker(b, color, q1)->0 && #[trigger] ray_point(k, d1.0 as int, d1.1 as int, x) == s;
    assert(sign(s.0 - k.0) == d1.0 && sign(s.1 - k.1) == d1.1);
    if on_check_line(b, color, q2, s) {
        let x2 = choose|x: int| 1 <= x <= dir_checker(b, color, q2)->0 && #[trigger] ray_point(k, d2.0 as int, d2.1 as int, x) == s;
        assert(sign(s.0 - k.0) == d2.0 && sign(s.1 - k.1) == d2.1);
    }
}

/// A pawn the en passant pin marks uncovers an attack along the king's rank when it takes
/// en passant.
#[verifier::spinoff_prover]
#[verifier::rlimit(60)]
proof fn lemma_ep_pinned_exposes(b: BoardModel, color: Color, m: ChessMove)
    requires
        ep_move(b, m, color),
        king_square(b, color).in_bounds(),
        ep_pinned(b, color, m.from.index()),
    ensures
        attacked_by_other(move_after(b, m), king_square(b, color), color),
{
    lemma_ep_frame(b, color, m);
    let k = king_square(b, color);
    let c = ep_captured_square(m.to, color);
    let after = move_after(b, m);
    let from = m.from;
    assert(from.index() % 8 == from.0 && from.index() / 8 == from.1);
    let dl = Offset(-1i8, 0);
    let dr = Offset(1, 0);
    assert(unit(dl) && unit(dr));
    let d = if spec_ep_ray_pin(b, k, color, dl, c, 1, None) matches Some(t) && t.index() == from.index() {
        dl
    } else {
        dr
    };
    let (jf, ja) = lemma_ep_ray_pin_shape(b, k, color, d, c, 1, None, 0);
    let t = ray_point(k, d.0 as int, d.1 as int, jf);
    assert(t.index() % 8 == t.0 && t.index() / 8 == t.1);
    assert(t == from);
    let a = ray_point(k, d.0 as int, d.1 as int, ja);
    assert(m.to.1 != k.1);
    assert(after.piece(a) == b.piece(a));
    let q = b.piece(a)->0;
    assert(q.piece_type == PieceType::Rook || q.piece_type == PieceType::Queen);
    let rx = sign(k.0 - a.0);
    let ry = sign(k.1 - a.1);
    assert forall|x: int| 0 < x < span(a, k) implies #[trigger] after.piece(ray_point(a, rx, ry, x)) is None by {
        assert(ray_point(a, rx, ry, x) == ray_point(k, d.0 as int, d.1 as int, ja - x));
    }
    assert(attacks_square(after, a, k));
    assert(enemy_on(after, a, color));
}

/// A pinned pawn whose en passant capture leaves the line of its pin uncovers an attack on
/// its king.
#[verifier::spinoff_prover]
#[verifier::rlimit(60)]
proof fn lemma_ep_pin_needed(b: BoardModel, color: Color, m: ChessMove)
    requires
        ep_move(b, m, color),
        king_square(b, color).in_bounds(),
        spec_ray_pins(b, color, 8)[m.from.index()] matches Some(pd) && !spec_pin_condition(
            offset_between(m.from, m.to),
            pd,
        ),
    ensures
        attacked_by_other(move_after(b, m), king_square(b, color), color),
{
    lemma_ep_frame(b, color, m);
    let k = king_square(b, color);
    let c = ep_captured_square(m.to, color);
    let from = m.from;
    let to = m.to;
    let after = move_after(b, m);
    let (d, jf, ja) = lemma_pin_source(b, color, from);
    let pd = PinDir::spec_from_dir(queen_dir(dir_index(d.0 as int, d.1 as int)));
    assert forall|x: int| 1 <= x <= ja implies #[trigger] ray_point(k, d.0 as int, d.1 as int, x) != to by {
        if ray_point(k, d.0 as int, d.1 as int, x) == to {
            assert(spec_pin_condition(offset_between(from, to), pd));
        }
    }
    lemma_pin_line_opens(b, after, color, d, jf, ja, from, to, c);
}

/// An en passant capture that leaves the king unattacked passes the generator's
/// restrictions.
#[verifier::spinoff_prover]
#[verifier::rlimit(60)]
proof fn lemma_ep_complete(b: BoardModel, color: Color, m: ChessMove)
    requires
        ep_move(b, m, color),
        king_set(b, color),
        !attacked_by_other(move_after(b, m), king_square(b, color), color),
    ensures
        passes_restrictions(b, m, color),
{
    lemma_ep_frame(b, color, m);
    let from = m.from;
    assert(from.index() % 8 == from.0 && from.index() / 8 == from.1);
    lemma_pins_cases(b, color, from.index());
    if spec_checks_amount(b, color) >= 2 {
        lemma_ep_double_check(b, color, m);
    }
    if spec_checks_amount(b, color) == 1 && !spec_check_square(b, color, m.to) && !spec_check_square(
        b,
        color,
        ep_captured_square(m.to, color),
    ) {
        lemma_ep_check_needed(b, color, m);
    }
    if spec_pins(b, color)[from.index()] == Some(PinDir::EnPassantBlock) {
        if ep_pinned(b, color, from.index()) {
            lemma_ep_pinned_exposes(b, color, m);
        } else {
            lemma_pin_source(b, color, from);
        }
    }
    if !pin_pred(b, color)(m) {
        if spec_pins(b, color)[from.index()] == spec_ray_pins(b, color, 8)[from.index()] {
            lemma_ep_pin_needed(b, color, m);
        }
    }
}

// ---------------------------------------------------------------------------------------
// Every en passant capture the generator gives is legal, but where it opens a diagonal
// ---------------------------------------------------------------------------------------

/// With a single check, an en passant capture after which the checking piece still
/// attacks the king neither lands on a square that stops the check nor takes a checking
/// pawn.
#[verifier::spinoff_prover]
#[verifier::rlimit(60)]
proof fn lemma_ep_check_stopped(b: BoardModel, color: Color, m: ChessMove, a: Square)
    requires
        ep_move(b, m, color),
        king_square(b, color).in_bounds(),
        a.in_bounds(),
        a != m.to,
        a != ep_captured_square(m.to, color),
        b.piece(a) matches Some(q) && q.color != color,
        attacks_square(b, a, king_square(b, color)),
        attacks_square(move_after(b, m), a, king_square(b, color)),
        spec_checks_amount(b, color) == 1,
    ensures
        !spec_check_square(b, color, m.to),
        !spec_check_square(b, color, ep_captured_square(m.to, color)),
{
    lemma_ep_frame(b, color, m);
    let k = king_square(b, color);
    let c = ep_captured_square(m.to, color);
    let after = move_after(b, m);
    let to = m.to;
    let q = b.piece(a)->0;
    assert(a != m.from);
    assert(after.piece(a) == b.piece(a));
    if q.piece_type == PieceType::Knight {
        lemma_knight_check_square(b, color, a, to);
        lemma_knight_check_square(b, color, a, c);
    } else {
        let (qd, ja) = lemma_line_checker(b, color, a);
        let d = queen_dir(qd).offset();
        if spec_check_square(b, color, to) {
            let i = lemma_line_check_square(b, color, a, qd, ja, to);
            if i < ja {
                let rx = sign(k.0 - a.0);
                let ry = sign(k.1 - a.1);
                assert(to == ray_point(a, rx, ry, ja - i));
                assert(after.piece(to) is Some);
                assert(q.piece_type != PieceType::Pawn && q.piece_type != PieceType::King);
                assert(path_clear(after, a, k));
            }
        }
        if spec_check_square(b, color, c) {
            let i = lemma_line_check_square(b, color, a, qd, ja, c);
            lemma_checker_shape(b, k, color, d, 1);
            assert(b.piece(ray_point(k, d.0 as int, d.1 as int, i)) is Some);
        }
    }
}

/// The line of an attack an en passant capture uncovers: the king and the attacker on one
/// line with nothing between them after the capture, and the square left or the square of
/// the pawn taken between them.
#[verifier::spinoff_prover]
#[verifier::rlimit(50)]
proof fn lemma_ep_uncovered_geometry(
    b: BoardModel,
    after: BoardModel,
    k: Square,
    from: Square,
    to: Square,
    c: Square,
    a: Square,
) -> (r: (Offset, int, int))
    requires
        k.in_bounds(),
        a.in_bounds(),
        a != from && a != to && a != c,
        forall|t: Square| t != from && t != to && t != c ==> #[trigger] after.piece(t) == b.piece(t),
        after.piece(from) is None,
        after.piece(c) is None,
        after.piece(to) is Some,
        after.piece(a) matches Some(q) && q.piece_type != PieceType::Pawn && q.piece_type != PieceType::Knight,
        attacks_square(after, a, k),
        !attacks_square(b, a, k),
    ensures
        unit(r.0),
        1 <= r.1 < r.2 <= 7,
        ray_point(k, r.0.0 as int, r.0.1 as int, r.1) == from || ray_point(k, r.0.0 as int, r.0.1 as int, r.1) == c,
        a == ray_point(k, r.0.0 as int, r.0.1 as int, r.2),
        forall|x: int| 1 <= x <= r.2 ==> (#[trigger] ray_point(k, r.0.0 as int, r.0.1 as int, x)).in_bounds(),
        forall|x: int| 1 <= x < r.2 ==> #[trigger] after.piece(ray_point(k, r.0.0 as int, r.0.1 as int, x)) is None,
{
    let sx = sign(k.0 - a.0);
    let sy = sign(k.1 - a.1);
    let ja = span(a, k);
    assert(after.piece(a) == b.piece(a));
    assert(path_clear(after, a, k));
    assert(!path_clear(b, a, k));
    let jj = choose|jj: int| 0 < jj < span(a, k) && !(#[trigger] b.piece(ray_point(a, sx, sy, jj)) is None);
    assert(after.piece(ray_point(a, sx, sy, jj)) is None);
    let d = Offset((-sx) as i8, (-sy) as i8);
    let jf = ja - jj;
    assert(ray_point(k, d.0 as int, d.1 as int, jf) == ray_point(a, sx, sy, jj));
    assert(ray_point(k, d.0 as int, d.1 as int, ja) == a);
    assert forall|x: int| 1 <= x < ja implies #[trigger] after.piece(ray_point(k, d.0 as int, d.1 as int, x)) is None by {
        assert(ray_point(k, d.0 as int, d.1 as int, x) == ray_point(a, sx, sy, ja - x));
    }
    (d, jf, ja)
}

/// An en passant capture whose pawn and the pawn it takes both stand between the king and
/// an attacker on the king's rank takes with a pawn the en passant pin marks.
#[verifier::spinoff_prover]
#[verifier::rlimit(60)]
proof fn lemma_ep_rank_marked(b: BoardModel, color: Color, m: ChessMove, d: Offset, xf: int, xc: int, ja: int)
    requires
        ep_move(b, m, color),
        king_set(b, color),
        unit(d),
        d.1 == 0,
        1 <= xf < ja <= 7,
        1 <= xc < ja,
        ray_point(king_square(b, color), d.0 as int, d.1 as int, xf) == m.from,
        ray_point(king_square(b, color), d.0 as int, d.1 as int, xc) == ep_captured_square(m.to, color),
        forall|x: int| 1 <= x <= ja ==> (#[trigger] ray_point(king_square(b, color), d.0 as int, d.1 as int, x)).in_bounds(),
        forall|x: int|
            1 <= x < ja ==> #[trigger] move_after(b, m).piece(ray_point(king_square(b, color), d.0 as int, d.1 as int, x)) is None,
        ({
            let a = ray_point(king_square(b, color), d.0 as int, d.1 as int, ja);
            b.piece(a) matches Some(q) && q.color != color && reaches(q.piece_type, a, king_square(b, color))
                && q.piece_type != PieceType::Pawn && q.piece_type != PieceType::Knight
        }),
    ensures
        ep_pinned(b, color, m.from.index()),
{
    lemma_ep_frame(b, color, m);
    let k = king_square(b, color);
    let c = ep_captured_square(m.to, color);
    let after = move_after(b, m);
    let from = m.from;
    let a = ray_point(k, d.0 as int, d.1 as int, ja);
    assert(b.en_passant_square == Some(m.to));
    assert(xf == xc - 1 || xf == xc + 1);
    let xo = xc + (xc - xf);
    let o = ray_point(k, d.0 as int, d.1 as int, xo);
    if xo == 0 {
        assert(o == k);
    } else if xo == ja {
        assert(o == a);
    } else {
        assert(after.piece(o) is None);
        assert(o != from && o != c && o != m.to);
        assert(b.piece(o) is None);
    }
    assert(!is_pawn_of(b, o, color));
    assert(is_pawn_of(b, from, color));
    assert((c.spec_add(Offset(-1i8, 0)) == from && c.spec_add(Offset(1, 0)) == o) || (c.spec_add(Offset(-1i8, 0)) == o
        && c.spec_add(Offset(1, 0)) == from));
    assert forall|x: int| 1 <= x < ja && x != xf implies (#[trigger] ray_point(k, d.0 as int, d.1 as int, x) == c
        || b.piece(ray_point(k, d.0 as int, d.1 as int, x)) is None) by {
        let t = ray_point(k, d.0 as int, d.1 as int, x);
        if t != c {
            assert(t != from && t != m.to);
            assert(after.piece(t) == b.piece(t));
        }
    }
    assert(a != c);
    assert(offset_between(k, a) == Offset((a.0 - k.0) as i8, (a.1 - k.1) as i8));
    lemma_ep_ray_pin_finds(b, k, color, d, c, 1, xf as nat, ja as nat, None);
    if d.0 < 0 {
        assert(d == Offset(-1i8, 0));
    } else {
        assert(d == Offset(1i8, 0));
    }
}

/// An en passant capture of a pawn pinned along a line from its king, where the capture
/// opens that line, does not keep to the line of the pin.
#[verifier::spinoff_prover]
#[verifier::rlimit(50)]
proof fn lemma_ep_pin_line_blocks(b: BoardModel, color: Color, m: ChessMove, a: Square, d: Offset, jf: int, ja: int)
    requires
        ep_move(b, m, color),
        king_set(b, color),
        unit(d),
        1 <= jf < ja <= 7,
        a != m.to,
        m.from == ray_point(king_square(b, color), d.0 as int, d.1 as int, jf),
        a == ray_point(king_square(b, color), d.0 as int, d.1 as int, ja),
        forall|x: int|
            1 <= x < ja ==> #[trigger] move_after(b, m).piece(ray_point(king_square(b, color), d.0 as int, d.1 as int, x)) is None,
    ensures
        !spec_pin_condition(
            offset_between(m.from, m.to),
            PinDir::spec_from_dir(queen_dir(dir_index(d.0 as int, d.1 as int))),
        ),
{
    lemma_ep_frame(b, color, m);
    let k = king_square(b, color);
    let from = m.from;
    let to = m.to;
    if !spec_pin_condition(
        offset_between(from, to),
        PinDir::spec_from_dir(queen_dir(dir_index(d.0 as int, d.1 as int))),
    ) {
        return;
    }
    let it = line_place(k, d, to);
    assert(to == ray_point(k, d.0 as int, d.1 as int, it));
    assert(it != jf);
    assert(it == jf - 1 || it == jf + 1);
    if 0 < it < ja {
        assert(move_after(b, m).piece(to) is Some);
    } else if it == 0 {
        assert(to == k);
    }
}

/// An en passant capture that uncovers an attack on its king fails the generator's
/// restrictions, but where the pawn it takes stood on a diagonal through the king.
#[verifier::spinoff_prover]
#[verifier::rlimit(60)]
proof fn lemma_ep_uncovered(b: BoardModel, color: Color, m: ChessMove, a: Square)
    requires
        ep_move(b, m, color),
        king_set(b, color),
        !ep_diagonal_exposure(b, m, color),
        a.in_bounds(),
        enemy_on(move_after(b, m), a, color),
        attacks_square(move_after(b, m), a, king_square(b, color)),
        !attacks_square(b, a, king_square(b, color)),
    ensures
        !passes_restrictions(b, m, color),
{
    lemma_ep_frame(b, color, m);
    let k = king_square(b, color);
    let c = ep_captured_square(m.to, color);
    let after = move_after(b, m);
    let from = m.from;
    let to = m.to;
    assert(a != from && a != c && a != to);
    assert(after.piece(a) == b.piece(a));
    let q = b.piece(a)->0;
    assert(q.piece_type != PieceType::Pawn && q.piece_type != PieceType::Knight);
    let (d, jj, ja) = lemma_ep_uncovered_geometry(b, after, k, from, to, c, a);
    assert(attacked_by_other(after, k, color));
    assert(from.index() % 8 == from.0 && from.index() / 8 == from.1);
    lemma_pins_cases(b, color, from.index());
    if exists|x: int| 1 <= x < ja && #[trigger] ray_point(k, d.0 as int, d.1 as int, x) == c {
        let xc = choose|x: int| 1 <= x < ja && #[trigger] ray_point(k, d.0 as int, d.1 as int, x) == c;
        if d.1 == 0 {
            let xf = if d.0 == from.0 - c.0 { xc + 1 } else { xc - 1 };
            assert(ray_point(k, d.0 as int, d.1 as int, xf) == from);
            assert(xf != 0);
            assert(xf != ja);
            lemma_ep_rank_marked(b, color, m, d, xf, xc, ja);
        } else if d.0 == 0 {
            let xt = if d.1 == to.1 - c.1 { xc + 1 } else { xc - 1 };
            assert(ray_point(k, d.0 as int, d.1 as int, xt) == to);
            if xt == 0 {
                assert(to == k);
            } else if xt == ja {
            } else {
                assert(after.piece(to) is Some);
            }
        } else {
            assert(iabs(c.0 - k.0) == iabs(c.1 - k.1));
            assert(ep_diagonal_exposure(b, m, color));
        }
    } else {
        assert(ray_point(k, d.0 as int, d.1 as int, jj) == from);
        assert forall|x: int| 1 <= x < ja && x != jj implies #[trigger] b.piece(ray_point(k, d.0 as int, d.1 as int, x)) is None by {
            let t = ray_point(k, d.0 as int, d.1 as int, x);
            assert(t != from && t != c && t != to);
            assert(after.piece(t) == b.piece(t));
        }
        assert(reaches(q.piece_type, a, k));
        lemma_pinned_on_line(b, color, d, jj, ja);
        if spec_pins(b, color)[from.index()] != Some(PinDir::EnPassantBlock) {
            lemma_ep_pin_line_blocks(b, color, m, a, d, jj, ja);
        }
    }
}

/// An en passant capture that passes the generator's restrictions leaves the king
/// unattacked, but where the pawn it takes stood on a diagonal through the king.
#[verifier::spinoff_prover]
#[verifier::rlimit(60)]
proof fn lemma_ep_sound(b: BoardModel, color: Color, m: ChessMove)
    requires
        ep_move(b, m, color),
        king_set(b, color),
        passes_restrictions(b, m, color),
        !ep_diagonal_exposure(b, m, color),
    ensures
        !attacked_by_other(move_after(b, m), king_square(b, color), color),
{
    lemma_ep_frame(b, color, m);
    let k = king_square(b, color);
    let c = ep_captured_square(m.to, color);
    let after = move_after(b, m);
    lemma_no_checks(b, color);
    lemma_attacked_by_other(b, k, color);
    if attacked_by_other(after, k, color) {
        let a = choose|a: Square| a.in_bounds() && enemy_on(after, a, color) && #[trigger] attacks_square(after, a, k);
        assert(a != m.from && a != m.to && a != c);
        assert(after.piece(a) == b.piece(a));
        if attacks_square(b, a, k) {
            assert(attacked_by_other(b, k, color));
            assert(spec_checks_amount(b, color) == 1);
            lemma_ep_check_stopped(b, color, m, a);
            assert(Square(m.to.0, m.from.1) == c);
            assert(check_pred(b, color)(m));
        } else {
            lemma_ep_uncovered(b, color, m, a);
        }
    }
}

/// The move generator gives a side every legal move, and every move it gives is legal but
/// for two kinds of move, which leave the king attacked: an en passant capture whose taken
/// pawn stood on a diagonal through the king (`ep_diagonal_exposure`), and a move of a
/// pawn on the king's rank that the en passant pin marks (`ep_rank_exposure`). This holds
/// in a position where every piece records its square, every castling right has its king
/// and rook in place, the king of the side stands on the square its side records (the only
/// king of that side on the board), and an en passant target, where there is one, lies on
/// the board and is empty, with nothing but a pawn on the square behind it as the side
/// sees it.
#[verifier::spinoff_prover]
#[verifier::rlimit(60)]
pub proof fn lemma_generated_moves_legal_with_target(b: BoardModel, color: Color, m: ChessMove)
    requires
        well_placed(b),
        castles_ready(b),
        kings_recorded(b),
        b.en_passant_square matches Some(t) ==> t.in_bounds() && b.piece(t) is None && (b.piece(
            ep_captured_square(t, color),
        ) matches Some(q) ==> q.piece_type == PieceType::Pawn),
        b.piece(king_of(b, color)) matches Some(kp) && kp.piece_type == PieceType::King && kp.color == color,
    ensures
        is_legal(b, m, color) ==> spec_all_moves(b, color).contains(m),
        ep_diagonal_exposure(b, m, color) || ep_rank_exposure(b, m, color) ==> !is_legal(b, m, color),
        !ep_diagonal_exposure(b, m, color) && !ep_rank_exposure(b, m, color) ==> (spec_all_moves(b, color).contains(m)
            <==> is_legal(b, m, color)),
{
    lemma_generated_moves_exactly(b, color, m);
    let k = king_square(b, color);
    assert(k == king_of(b, color));
    assert forall|t: Square| t != k implies match #[trigger] b.piece(t) {
        Some(q) => !(q.piece_type == PieceType::King && q.color == color),
        None => true,
    } by {
        if t.in_bounds() {
            let i = t.index();
            assert(i % 8 == t.0 && i / 8 == t.1);
        }
    }
    assert(king_set(b, color));
    if m.move_type is CastleMove {
        lemma_castles_legal(b, color, m);
    } else if follows_rules(b, m, color) {
        let p = b.piece(m.from)->0;
        if p.piece_type == PieceType::King {
            lemma_king_steps_legal(b, color, m);
            assert(move_after(b, m) == king_step_after(b, m));
        } else if m.move_type is EnPassantMove {
            assert(ep_move(b, m, color));
            if !attacked_by_other(move_after(b, m), k, color) {
                lemma_ep_complete(b, color, m);
            }
            if passes_restrictions(b, m, color) && !ep_diagonal_exposure(b, m, color) {
                lemma_ep_sound(b, color, m);
            }
        } else if !ep_rank_exposure(b, m, color) {
            lemma_other_moves(b, color, m);
        }
    }
}

/// A legal move of the side to move, in a sound position with room left on the clocks
/// where the king of the side to move stands on its recorded square and the other side's
/// king is not attacked, is played without error and leaves a sound position.
#[verifier::spinoff_prover]
#[verifier::rlimit(60)]
pub proof fn lemma_legal_moves_play(b: BoardModel, m: ChessMove)
    requires
        sound_position(b),
        b.half_move_timer_50 < u8::MAX,
        b.turn == Color::Black ==> b.full_move_number < u16::MAX,
        b.piece(king_of(b, b.turn)) matches Some(kp) && kp.piece_type == PieceType::King && kp.color == b.turn,
        !attacked_by_other(b, king_of(b, b.turn.spec_opp()), b.turn.spec_opp()),
        is_legal(b, m, b.turn),
    ensures
        b.spec_register_move(m) matches Some((_, r)) && r is Ok,
        sound_position(registered(b, m)),
        !takes_king(b, m),
{
    lemma_generated_moves_legal_with_target(b, b.turn, m);
    lemma_generated_moves_play(b, m);
    if takes_king(b, m) {
        let q = b.piece(m.to)->0;
        assert(enemy_on(b, m.to, b.turn));
        lemma_king_taken_only_when_attacked(b, b.turn, m);
        assert(m.to.in_bounds());
        let i = m.to.index();
        assert(i % 8 == m.to.0 && i / 8 == m.to.1);
        assert(b.pieces[i] == b.piece(m.to));
        assert(m.to == king_of(b, q.color));
        assert(q.color == b.turn.spec_opp());
    }
}

// ---------------------------------------------------------------------------------------
// Legal play keeps the kings
// ---------------------------------------------------------------------------------------

/// Whether both kings stand on the squares their sides record.
pub open spec fn kings_in_place(b: BoardModel) -> bool {
    &&& b.piece(king_of(b, Color::White)) matches Some(k) && k.piece_type == PieceType::King && k.color
        == Color::White
    &&& b.piece(king_of(b, Color::Black)) matches Some(k) && k.piece_type == PieceType::King && k.color
        == Color::Black
}

proof fn lemma_same_pieces_attacks(x: BoardModel, y: BoardModel, sq: Square, color: Color)
    requires
        forall|t: Square| #[trigger] x.piece(t) == y.piece(t),
        attacked_by_other(x, sq, color),
    ensures
        attacked_by_other(y, sq, color),
{
    let a = choose|a: Square| a.in_bounds() && enemy_on(x, a, color) && #[trigger] attacks_square(x, a, sq);
    assert(x.piece(a) == y.piece(a));
    let sx = sign(sq.0 - a.0);
    let sy = sign(sq.1 - a.1);
    assert forall|j: int| 0 < j < span(a, sq) implies #[trigger] y.piece(ray_point(a, sx, sy, j)) is None
        || !path_clear(x, a, sq) by {
        if path_clear(x, a, sq) {
            assert(x.piece(ray_point(a, sx, sy, j)) is None);
            assert(x.piece(ray_point(a, sx, sy, j)) == y.piece(ray_point(a, sx, sy, j)));
        }
    }
    assert(attacks_square(y, a, sq));
}

/// Boards with the same pieces on every square have the same attacked squares.
proof fn lemma_same_pieces_attacked(x: BoardModel, y: BoardModel, sq: Square, color: Color)
    requires
        forall|t: Square| #[trigger] x.piece(t) == y.piece(t),
    ensures
        attacked_by_other(x, sq, color) == attacked_by_other(y, sq, color),
{
    if attacked_by_other(x, sq, color) {
        lemma_same_pieces_attacks(x, y, sq, color);
    }
    if attacked_by_other(y, sq, color) {
        lemma_same_pieces_attacks(y, x, sq, color);
    }
}

/// After castling, no piece attacks the king on its target square that did not attack
/// that square with the king lifted off the board: the rook leaves a corner, which lies
/// between the target and no square of the board, and comes to stand beside it.
#[verifier::spinoff_prover]
#[verifier::rlimit(60)]
proof fn lemma_castle_target_safe(b: BoardModel, m: ChessMove, color: Color)
    requires
        well_placed(b),
        m.move_type is CastleMove,
        follows_rules(b, m, color),
        castles_ready(b),
        !attacked_by_other(b.set(m.from, None), m.to, color),
    ensures
        !attacked_by_other(played_pieces(b, m), m.to, color),
{
    let ct = m.move_type->CastleMove_0;
    let (kf, rf, kt, rt) = castle_squares(ct);
    let after = played_pieces(b, m);
    let lifted = b.set(m.from, None);
    let k = b.piece(kf)->0;
    assert(castle_ready(b, ct));
    let r = b.piece(rf)->0;
    assert(kf.index() != rf.index() && kf.index() != kt.index() && kf.index() != rt.index() && rf.index()
        != kt.index() && rf.index() != rt.index() && kt.index() != rt.index());
    assert(after.piece(kt) == Some(ChessPiece { position: kt, ..k }));
    assert(after.piece(rt) == Some(ChessPiece { position: rt, ..r }));
    assert(after.piece(rf) is None);
    assert(after.piece(kf) is None);
    if attacked_by_other(after, kt, color) {
        let a = choose|a: Square| a.in_bounds() && enemy_on(after, a, color) && #[trigger] attacks_square(after, a, kt);
        assert(a != kf && a != rf && a != kt && a != rt);
        assert(after.piece(a) == b.piece(a));
        assert(lifted.piece(a) == b.piece(a));
        let q = b.piece(a)->0;
        if q.piece_type != PieceType::Pawn && q.piece_type != PieceType::Knight {
            let sx = sign(kt.0 - a.0);
            let sy = sign(kt.1 - a.1);
            assert forall|j: int| 0 < j < span(a, kt) implies #[trigger] lifted.piece(ray_point(a, sx, sy, j)) is None by {
                let t = ray_point(a, sx, sy, j);
                assert(after.piece(t) is None);
                assert(t != rf);
                assert(t != rt && t != kt);
                if t != kf {
                    assert(after.piece(t) == b.piece(t));
                }
            }
        }
        assert(attacks_square(lifted, a, kt));
        assert(enemy_on(lifted, a, color));
    }
}

/// A move other than castling leaves every square but those it changes as it was.
proof fn lemma_after_keeps(b: BoardModel, m: ChessMove, t: Square)
    requires
        b.pieces.len() == 64,
        !(m.move_type is CastleMove),
        t.in_bounds(),
        m.from.in_bounds(),
        m.to.in_bounds(),
        t != m.from,
        t != m.to,
        m.move_type is EnPassantMove ==> t != ep_captured_square(m.to, b.piece(m.from)->0.color) && ep_captured_square(
            m.to,
            b.piece(m.from)->0.color,
        ).in_bounds(),
    ensures
        move_after(b, m).piece(t) == b.piece(t),
{
    assert(t.index() != m.from.index() && t.index() != m.to.index());
    if m.move_type is EnPassantMove {
        let cs = ep_captured_square(m.to, b.piece(m.from)->0.color);
        assert(t.index() != cs.index());
    }
}

/// A legal move of the side to move, in a sound position with room left on the clocks
/// where both kings stand on their recorded squares and the other side's king is not
/// attacked, is played without error and leaves a sound position where both kings stand on
/// their recorded squares and the king of the side that moved is not attacked.
#[verifier::spinoff_prover]
#[verifier::rlimit(80)]
pub proof fn lemma_legal_move_keeps_kings(b: BoardModel, m: ChessMove)
    requires
        sound_position(b),
        b.half_move_timer_50 < u8::MAX,
        b.turn == Color::Black ==> b.full_move_number < u16::MAX,
        kings_in_place(b),
        !attacked_by_other(b, king_of(b, b.turn.spec_opp()), b.turn.spec_opp()),
        is_legal(b, m, b.turn),
    ensures
        b.spec_register_move(m) matches Some((_, r)) && r is Ok,
        sound_position(registered(b, m)),
        kings_in_place(registered(b, m)),
        !attacked_by_other(registered(b, m), king_of(registered(b, m), b.turn), b.turn),
{
    let c = b.turn;
    let o = c.spec_opp();
    assert(b.piece(king_of(b, c)) matches Some(kp) && kp.piece_type == PieceType::King && kp.color == c);
    assert(b.piece(king_of(b, o)) matches Some(kp) && kp.piece_type == PieceType::King && kp.color == o);
    lemma_legal_moves_play(b, m);
    lemma_generated_moves_legal_with_target(b, c, m);
    lemma_generated_move_fits(b, c, m);
    lemma_fitting_move_keeps_sound(b, m);
    let b2 = registered(b, m);
    let pp = played_pieces(b, m);
    let p = b.piece(m.from)->0;
    let kc = king_of(b, c);
    let ko = king_of(b, o);
    assert(kc.in_bounds() && ko.in_bounds());
    assert(kc.index() % 8 == kc.0 && kc.index() / 8 == kc.1);
    assert(ko.index() % 8 == ko.0 && ko.index() / 8 == ko.1);
    assert(m.to.index() % 8 == m.to.0 && m.to.index() / 8 == m.to.1);
    // the other side's king stays where it was
    if m.move_type is CastleMove {
        let ct = m.move_type->CastleMove_0;
        let (kf, rf, kt, rt) = castle_squares(ct);
        assert(castle_ready(b, ct));
        assert(kf.index() != rf.index() && kf.index() != kt.index() && kf.index() != rt.index() && rf.index()
            != kt.index() && rf.index() != rt.index() && kt.index() != rt.index());
        assert(ko.index() != kf.index() && ko.index() != rf.index() && ko.index() != kt.index() && ko.index()
            != rt.index());
        assert(pp.piece(ko) == b.piece(ko));
        assert(b2.piece(kt) == pp.piece(kt));
        assert(kt.index() % 8 == kt.0 && kt.index() / 8 == kt.1);
        assert(king_of(b2, c) == kt);
        lemma_castle_target_safe(b, m, c);
        lemma_same_pieces_attacked(b2, pp, kt, c);
    } else {
        assert(ko != m.from && ko != m.to);
        if m.move_type is EnPassantMove {
            assert(ko != ep_captured_square(m.to, c));
        }
        lemma_after_keeps(b, m, ko);
        if p.piece_type == PieceType::King {
            assert(b2.piece(m.to) == pp.piece(m.to));
            assert(king_of(b2, c) == m.to);
        } else {
            assert(kc != m.from && kc != m.to);
            if m.move_type is EnPassantMove {
                assert(kc != ep_captured_square(m.to, c));
            }
            lemma_after_keeps(b, m, kc);
            assert(b2.piece(kc) == pp.piece(kc));
            assert(king_of(b2, c) == kc);
        }
        lemma_same_pieces_attacked(b2, pp, king_of(b2, c), c);
    }
    assert(b2.piece(ko) == pp.piece(ko));
    assert(king_of(b2, o) == ko);
}

} // verus!
