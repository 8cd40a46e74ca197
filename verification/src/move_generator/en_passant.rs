use vstd::prelude::*;

use crate::board_setup::laws::well_placed;
use crate::board_setup::models::BoardModel;
use crate::move_generator::attacks::{
    attacked_by_other, attacks_square, lemma_ray_pin_on_ray, lemma_ray_pins_len, lemma_ray_sq_form,
};
use crate::move_generator::models::{ChessPiece, Color, Offset, PieceType, PinDir, Square};
use crate::move_generator::restrictions::{
    is_pawn_of, king_square, offset_between, ray_sq, spec_attack_condition, spec_ep_ray_pin, spec_pins,
    spec_ray_pins,
};
use crate::move_generator::rules::{ray_point, unit};
use crate::move_register::ep_captured_square;

verus! {

/// Whether the en passant pin of the generator marks the square with index `idx` for
/// `color`: an en passant target is set, exactly one pawn of `color` stands beside the
/// pawn the capture would take, and one of the two rays along the king's rank meets first a
/// pawn of `color` on that square and then, looking through the pawn to be taken, an
/// attacker of the other side.
pub open spec fn ep_pinned(b: BoardModel, color: Color, idx: int) -> bool {
    b.en_passant_square matches Some(ep) && {
        let pawn_sq = ep_captured_square(ep, color);
        let k = king_square(b, color);
        let count = (if is_pawn_of(b, pawn_sq.spec_add(Offset(-1i8, 0)), color) { 1int } else { 0int })
            + (if is_pawn_of(b, pawn_sq.spec_add(Offset(1, 0)), color) { 1int } else { 0int });
        &&& count == 1
        &&& {
            ||| spec_ep_ray_pin(b, k, color, Offset(-1i8, 0), pawn_sq, 1, None) matches Some(s) && s.index() == idx
            ||| spec_ep_ray_pin(b, k, color, Offset(1, 0), pawn_sq, 1, None) matches Some(s) && s.index() == idx
        }
    }
}

/// A square the en passant ray pins lies on the ray, on the board.
pub(crate) proof fn lemma_ep_ray_pin_on_ray(
    b: BoardModel,
    k: Square,
    color: Color,
    d: Offset,
    skip: Square,
    j: nat,
    pin: Option<Square>,
)
    requires
        k.in_bounds(),
        unit(d),
        1 <= j,
        pin matches Some(s0) ==> s0.in_bounds(),
    ensures
        spec_ep_ray_pin(b, k, color, d, skip, j, pin) matches Some(s) ==> s.in_bounds(),
    decreases 8 - j,
{
    if j <= 7 {
        lemma_ray_sq_form(k, d, j);
        let t = ray_sq(k, d, j);
        if t.in_bounds() {
            lemma_ep_ray_pin_on_ray(b, k, color, d, skip, j + 1, pin);
            lemma_ep_ray_pin_on_ray(b, k, color, d, skip, j + 1, Some(t));
        }
    }
}

/// The pins the generator records are those along the lines from the king, except on a
/// square the en passant pin marks.
pub(crate) proof fn lemma_pins_cases(b: BoardModel, color: Color, idx: int)
    requires
        king_square(b, color).in_bounds(),
        0 <= idx < 64,
    ensures
        spec_pins(b, color).len() == 64,
        spec_pins(b, color)[idx] == spec_ray_pins(b, color, 8)[idx] || (spec_pins(b, color)[idx] == Some(
            PinDir::EnPassantBlock,
        ) && ep_pinned(b, color, idx)),
        ep_pinned(b, color, idx) ==> spec_pins(b, color)[idx] == Some(PinDir::EnPassantBlock),
{
    let k = king_square(b, color);
    lemma_ray_pins_len(b, color, 8);
    if let Some(ep) = b.en_passant_square {
        let pawn_sq = ep_captured_square(ep, color);
        let dl = Offset(-1i8, 0);
        let dr = Offset(1, 0);
        assert(unit(dl) && unit(dr));
        lemma_ep_ray_pin_on_ray(b, k, color, dl, pawn_sq, 1, None);
        lemma_ep_ray_pin_on_ray(b, k, color, dr, pawn_sq, 1, None);
        if let Some(s) = spec_ep_ray_pin(b, k, color, dl, pawn_sq, 1, None) {
            assert(s.index() % 8 == s.0 && s.index() / 8 == s.1);
        }
        if let Some(s) = spec_ep_ray_pin(b, k, color, dr, pawn_sq, 1, None) {
            assert(s.index() % 8 == s.0 && s.index() / 8 == s.1);
        }
    }
}

/// What an en passant ray from the king that marks a pawn looks like: the pawn of the
/// king's side first, then an attacker of the other side, with nothing between them but
/// the pawn to be taken.
pub(crate) proof fn lemma_ep_ray_pin_shape(
    b: BoardModel,
    k: Square,
    color: Color,
    d: Offset,
    skip: Square,
    j: nat,
    pin: Option<Square>,
    jf0: int,
) -> (r: (int, int))
    requires
        k.in_bounds(),
        unit(d),
        1 <= j,
        pin is None ==> forall|x: int|
            1 <= x < j ==> (#[trigger] ray_point(k, d.0 as int, d.1 as int, x)).in_bounds() && (ray_point(
                k,
                d.0 as int,
                d.1 as int,
                x,
            ) == skip || b.piece(ray_point(k, d.0 as int, d.1 as int, x)) is None),
        pin matches Some(s0) ==> {
            &&& 1 <= jf0 < j
            &&& s0 == ray_point(k, d.0 as int, d.1 as int, jf0)
            &&& s0 != skip
            &&& b.piece(s0) matches Some(p0) && p0.color == color && p0.piece_type == PieceType::Pawn
            &&& forall|x: int| 1 <= x < j ==> (#[trigger] ray_point(k, d.0 as int, d.1 as int, x)).in_bounds()
            &&& forall|x: int|
                1 <= x < j && x != jf0 ==> (#[trigger] ray_point(k, d.0 as int, d.1 as int, x) == skip || b.piece(
                    ray_point(k, d.0 as int, d.1 as int, x),
                ) is None)
        },
        spec_ep_ray_pin(b, k, color, d, skip, j, pin) is Some,
    ensures
        1 <= r.0 < r.1 <= 7,
        spec_ep_ray_pin(b, k, color, d, skip, j, pin) == Some(ray_point(k, d.0 as int, d.1 as int, r.0)),
        ray_point(k, d.0 as int, d.1 as int, r.0) != skip,
        b.piece(ray_point(k, d.0 as int, d.1 as int, r.0)) matches Some(p) && p.color == color && p.piece_type
            == PieceType::Pawn,
        forall|x: int| 1 <= x <= r.1 ==> (#[trigger] ray_point(k, d.0 as int, d.1 as int, x)).in_bounds(),
        forall|x: int|
            1 <= x < r.1 && x != r.0 ==> (#[trigger] ray_point(k, d.0 as int, d.1 as int, x) == skip || b.piece(
                ray_point(k, d.0 as int, d.1 as int, x),
            ) is None),
        ray_point(k, d.0 as int, d.1 as int, r.1) != skip,
        b.piece(ray_point(k, d.0 as int, d.1 as int, r.1)) matches Some(q) && q.color != color
            && spec_attack_condition(
            offset_between(k, ray_point(k, d.0 as int, d.1 as int, r.1)),
            color,
            q.piece_type,
        ),
    decreases 8 - j,
{
    lemma_ray_sq_form(k, d, j);
    let t = ray_point(k, d.0 as int, d.1 as int, j as int);
    if t == skip {
        lemma_ep_ray_pin_shape(b, k, color, d, skip, j + 1, pin, jf0)
    } else {
        match b.piece(t) {
            None => lemma_ep_ray_pin_shape(b, k, color, d, skip, j + 1, pin, jf0),
            Some(p) => if p.color == color && p.piece_type == PieceType::Pawn && pin is None {
                lemma_ep_ray_pin_shape(b, k, color, d, skip, j + 1, Some(t), j as int)
            } else {
                (jf0, j as int)
            },
        }
    }
}

/// An en passant ray from the king that meets first a pawn of the king's side and then,
/// over empty squares and the pawn to be taken, an attacker of the other side marks that
/// pawn.
pub(crate) proof fn lemma_ep_ray_pin_finds(
    b: BoardModel,
    k: Square,
    color: Color,
    d: Offset,
    skip: Square,
    i: nat,
    jf: nat,
    ja: nat,
    pin: Option<Square>,
)
    requires
        k.in_bounds(),
        unit(d),
        1 <= i <= ja <= 7,
        1 <= jf < ja,
        i <= jf ==> pin is None,
        i > jf ==> pin == Some(ray_point(k, d.0 as int, d.1 as int, jf as int)),
        forall|x: int| 1 <= x <= ja ==> (#[trigger] ray_point(k, d.0 as int, d.1 as int, x)).in_bounds(),
        forall|x: int|
            1 <= x < ja && x != jf ==> (#[trigger] ray_point(k, d.0 as int, d.1 as int, x) == skip || b.piece(
                ray_point(k, d.0 as int, d.1 as int, x),
            ) is None),
        ray_point(k, d.0 as int, d.1 as int, jf as int) != skip,
        b.piece(ray_point(k, d.0 as int, d.1 as int, jf as int)) matches Some(p) && p.color == color
            && p.piece_type == PieceType::Pawn,
        ray_point(k, d.0 as int, d.1 as int, ja as int) != skip,
        b.piece(ray_point(k, d.0 as int, d.1 as int, ja as int)) matches Some(q) && q.color != color
            && spec_attack_condition(
            offset_between(k, ray_point(k, d.0 as int, d.1 as int, ja as int)),
            color,
            q.piece_type,
        ),
    ensures
        spec_ep_ray_pin(b, k, color, d, skip, i, pin) == Some(ray_point(k, d.0 as int, d.1 as int, jf as int)),
    decreases ja - i,
{
    lemma_ray_sq_form(k, d, i);
    let t = ray_point(k, d.0 as int, d.1 as int, i as int);
    assert(t.in_bounds());
    if i < ja {
        if i == jf {
            lemma_ep_ray_pin_finds(b, k, color, d, skip, i + 1, jf, ja, Some(t));
        } else {
            lemma_ep_ray_pin_finds(b, k, color, d, skip, i + 1, jf, ja, pin);
        }
    }
}

} // verus!
