use vstd::prelude::*;

use crate::board_setup::models::{AvailableCastles, Board, BoardModel};
use crate::move_register::ep_captured_square;
use crate::move_register::models::{CastleType, ChessMove, MoveType, PromotedPieceType};

use self::models::{
    Attacked, ChessPiece, Color, MoveDir, MoveRestrictionData, Offset, PieceType, PinDir,
    Square,
};
use self::restrictions::{
    attacked_has, filter_with_checked, filter_with_pins, iabs, knight_offset, knight_offset_at,
    near_board, offset_between, passes_check, passes_pins, queen_dir, queen_dir_at,
    spec_check_square, spec_checks_amount, spec_filter_with_checked, spec_pin_condition,
    spec_pins,
};

pub mod laws;
pub mod models;
pub mod restrictions;
pub mod rules;
pub mod attacks;
pub mod en_passant;
pub mod play;

verus! {

pub open spec fn white_pawn_double_move_rank() -> i8 { 1 }
pub open spec fn black_pawn_double_move_rank() -> i8 { 6 }
pub open spec fn white_promotion_rank() -> i8 { 7 }
pub open spec fn black_promotion_rank() -> i8 { 0 }

// ---------------------------------------------------------------------------------------
// Restrictions as functions of the position
// ---------------------------------------------------------------------------------------

/// Whether a move stops the checks given to `color`.
pub open spec fn check_pred(b: BoardModel, color: Color) -> spec_fn(ChessMove) -> bool {
    |m: ChessMove| spec_check_square(b, color, m.to) || (m.move_type == MoveType::EnPassantMove
        && spec_check_square(b, color, Square(m.to.0, m.from.1)))
}

/// The moves of `color` left by the checks it is under.
pub open spec fn filter_checked(moves: Seq<ChessMove>, b: BoardModel, color: Color) -> Seq<ChessMove> {
    if spec_checks_amount(b, color) == 0 {
        moves
    } else if spec_checks_amount(b, color) == 1 {
        moves.filter(check_pred(b, color))
    } else {
        Seq::empty()
    }
}

/// The pin of the piece of `color` on a square.
pub open spec fn pin_at(b: BoardModel, color: Color, sq: Square) -> Option<PinDir> {
    if sq.in_bounds() {
        spec_pins(b, color)[sq.index()]
    } else {
        None
    }
}

/// Whether a move of `color` respects the pins.
pub open spec fn pin_pred(b: BoardModel, color: Color) -> spec_fn(ChessMove) -> bool {
    |m: ChessMove| match pin_at(b, color, m.from) {
        Some(d) => spec_pin_condition(offset_between(m.from, m.to), d),
        None => true,
    }
}

/// Whether every move starts and ends on the board.
pub open spec fn all_in_bounds(s: Seq<ChessMove>) -> bool {
    forall|i: int| 0 <= i < s.len() ==> (#[trigger] s[i]).from.in_bounds() && near_board(s[i].to, -120, 120)
}

proof fn lemma_filter_subset(s: Seq<ChessMove>, p: spec_fn(ChessMove) -> bool)
    ensures
        forall|i: int| 0 <= i < s.filter(p).len() ==> s.contains(#[trigger] s.filter(p)[i]),
    decreases s.len(),
{
    reveal(Seq::filter);
    if s.len() > 0 {
        lemma_filter_subset(s.drop_last(), p);
        let f = s.drop_last().filter(p);
        assert forall|i: int| 0 <= i < s.filter(p).len() implies s.contains(#[trigger] s.filter(p)[i]) by {
            if i < f.len() {
                assert(s.drop_last().contains(f[i]));
                let k = choose|k: int| 0 <= k < s.drop_last().len() && s.drop_last()[k] == f[i];
                assert(s[k] == f[i]);
            } else {
                assert(s[s.len() - 1] == s.filter(p)[i]);
            }
        }
    }
}

proof fn lemma_filter_in_bounds(s: Seq<ChessMove>, p: spec_fn(ChessMove) -> bool)
    requires
        all_in_bounds(s),
    ensures
        all_in_bounds(s.filter(p)),
{
    lemma_filter_subset(s, p);
    assert forall|i: int| 0 <= i < s.filter(p).len() implies (#[trigger] s.filter(p)[i]).from.in_bounds()
        && near_board(s.filter(p)[i].to, -120, 120) by {
        assert(s.contains(s.filter(p)[i]));
    }
}

/// The concrete check filter agrees with its description by the position.
proof fn lemma_checked_bridge(moves: Seq<ChessMove>, r: MoveRestrictionData, b: BoardModel, color: Color)
    requires
        r.describes(b, color),
    ensures
        spec_filter_with_checked(moves, r.check_squares) == filter_checked(moves, b, color),
{
    assert((|m: ChessMove| passes_check(m, r.check_squares)) =~= check_pred(b, color)) by {
        assert forall|m: ChessMove| #[trigger] passes_check(m, r.check_squares) == check_pred(b, color)(m) by {
            assert(r.check_squares.squares.has(m.to) == spec_check_square(b, color, m.to));
            assert(r.check_squares.squares.has(Square(m.to.0, m.from.1)) == spec_check_square(
                b,
                color,
                Square(m.to.0, m.from.1),
            ));
        }
    }
}

/// The concrete pin filter agrees with its description by the position.
proof fn lemma_pins_bridge(moves: Seq<ChessMove>, r: MoveRestrictionData, b: BoardModel, color: Color)
    requires
        r.describes(b, color),
    ensures
        moves.filter(|m: ChessMove| passes_pins(m, r.pin_squares)) == moves.filter(pin_pred(b, color)),
{
    assert((|m: ChessMove| passes_pins(m, r.pin_squares)) =~= pin_pred(b, color));
}

proof fn lemma_pin_offsets_fit(moves: Seq<ChessMove>, r: MoveRestrictionData)
    requires
        all_in_bounds(moves),
    ensures
        restrictions::pin_offsets_fit(moves, r.pin_squares),
{
    assert forall|i: int| 0 <= i < moves.len() && (#[trigger] r.pin_squares.0.spec_get(moves[i].from)) is Some
        implies models::fits_i8(moves[i].to.0 - moves[i].from.0) && models::fits_i8(moves[i].to.1 - moves[i].from.1) by {
        assert(moves[i].from.in_bounds() && near_board(moves[i].to, -120, 120));
    }
}

// ---------------------------------------------------------------------------------------
// Collecting moves
// ---------------------------------------------------------------------------------------

/// Whether an optional move, if present, starts and ends on the board.
pub open spec fn opt_in_bounds(o: Option<ChessMove>) -> bool {
    match o {
        Some(m) => m.from.in_bounds() && near_board(m.to, -120, 120),
        None => true,
    }
}

/// The moves present in a sequence of optional moves, in order.
pub open spec fn somes(s: Seq<Option<ChessMove>>) -> Seq<ChessMove>
    decreases s.len(),
{
    if s.len() == 0 {
        Seq::empty()
    } else {
        let r = somes(s.drop_last());
        match s.last() {
            Some(m) => r.push(m),
            None => r,
        }
    }
}

/// Appends the moves present in `arr`.
fn push_somes(res: &mut Vec<ChessMove>, arr: &[Option<ChessMove>])
    ensures
        final(res)@ == old(res)@ + somes(arr@),
{
    let mut i: usize = 0;
    assert(arr@.take(0) =~= Seq::<Option<ChessMove>>::empty());
    assert(old(res)@ + somes(Seq::<Option<ChessMove>>::empty()) =~= old(res)@);
    while i < arr.len()
        invariant
            0 <= i <= arr@.len(),
            res@ == old(res)@ + somes(arr@.take(i as int)),
        decreases arr@.len() - i,
    {
        assert(arr@.take(i + 1).drop_last() == arr@.take(i as int));
        if let Some(m) = arr[i] {
            res.push(m);
            assert(res@ =~= old(res)@ + somes(arr@.take(i + 1)));
        } else {
            assert(res@ =~= old(res)@ + somes(arr@.take(i + 1)));
        }
        i = i + 1;
    }
    assert(arr@.take(arr@.len() as int) == arr@);
}

proof fn lemma_somes_in_bounds(s: Seq<Option<ChessMove>>)
    requires
        forall|i: int| 0 <= i < s.len() ==> opt_in_bounds(#[trigger] s[i]),
    ensures
        all_in_bounds(somes(s)),
    decreases s.len(),
{
    if s.len() > 0 {
        lemma_somes_in_bounds(s.drop_last());
        assert forall|i: int| 0 <= i < s.drop_last().len() implies opt_in_bounds(#[trigger] s.drop_last()[i]) by {
            assert(s.drop_last()[i] == s[i]);
        }
    }
}

proof fn lemma_concat_in_bounds(a: Seq<ChessMove>, c: Seq<ChessMove>)
    requires
        all_in_bounds(a),
        all_in_bounds(c),
    ensures
        all_in_bounds(a + c),
{
    assert forall|i: int| 0 <= i < (a + c).len() implies (#[trigger] (a + c)[i]).from.in_bounds()
        && near_board((a + c)[i].to, -120, 120) by {
        if i < a.len() {
            assert((a + c)[i] == a[i]);
        } else {
            assert((a + c)[i] == c[i - a.len()]);
        }
    }
}

// ---------------------------------------------------------------------------------------
// Single moves and series
// ---------------------------------------------------------------------------------------

/// The move of `piece` from `start` by `offset`: none off the board or onto a piece of its
/// own side, a capture onto a piece of the other side, else a quiet move.
pub open spec fn spec_get_move(b: BoardModel, start: Square, offset: Offset, piece: ChessPiece) -> Option<ChessMove> {
    match start.spec_c_add(offset) {
        None => None,
        Some(sq) => match b.piece(sq) {
            Some(p) => if p.color == piece.color {
                None
            } else {
                Some(ChessMove { move_type: MoveType::Capture(piece.piece_type), from: start, to: sq })
            },
            None => Some(ChessMove { move_type: MoveType::Move(piece.piece_type), from: start, to: sq }),
        },
    }
}

/// The move of `piece` from `start` by `offset`, if the target is on the board and not held
/// by its own side.
pub fn get_move(board: &Board, start: Square, offset: Offset, piece: ChessPiece) -> (res: Option<ChessMove>)
    requires
        start.can_add(offset),
    ensures
        res == spec_get_move(board@, start, offset, piece),
        res matches Some(m) ==> m.from == start && m.to.in_bounds(),
{
    let sq = match start.c_add(offset) {
        Some(sq) => sq,
        None => return None,
    };
    match board.get_square(sq) {
        Some(p) => if p.color == piece.color {
            None
        } else {
            Some(ChessMove { move_type: MoveType::Capture(piece.piece_type), from: start, to: sq })
        },
        None => Some(ChessMove { move_type: MoveType::Move(piece.piece_type), from: start, to: sq }),
    }
}

pub open spec fn scaled(d: Offset, i: nat) -> Offset {
    Offset((d.0 * i) as i8, (d.1 * i) as i8)
}

/// The moves of a sliding piece in one direction, step `i` on, written into `acc`: each
/// step fills one slot, and the series ends after a capture or when no move is possible.
pub open spec fn series_from(
    b: BoardModel,
    start: Square,
    d: Offset,
    count: nat,
    piece: ChessPiece,
    i: nat,
    acc: Seq<Option<ChessMove>>,
) -> Seq<Option<ChessMove>>
    decreases 8 - i,
{
    if i == 0 || i > count || i > 7 {
        acc
    } else {
        let m = spec_get_move(b, start, scaled(d, i), piece);
        let acc2 = acc.update(i - 1, m);
        let end = match m {
            Some(x) => !(x.move_type is Move),
            None => true,
        };
        if end {
            acc2
        } else {
            series_from(b, start, d, count, piece, i + 1, acc2)
        }
    }
}

pub open spec fn nones(n: nat) -> Seq<Option<ChessMove>> {
    Seq::new(n, |i: int| None)
}

pub open spec fn spec_series(b: BoardModel, start: Square, d: Offset, count: nat, piece: ChessPiece) -> Seq<Option<ChessMove>> {
    series_from(b, start, d, count, piece, 1, nones(7))
}

proof fn lemma_series_in_bounds(
    b: BoardModel,
    start: Square,
    d: Offset,
    count: nat,
    piece: ChessPiece,
    i: nat,
    acc: Seq<Option<ChessMove>>,
)
    requires
        start.in_bounds(),
        acc.len() == 7,
        -1 <= d.0 <= 1,
        -1 <= d.1 <= 1,
        forall|k: int| 0 <= k < 7 ==> opt_in_bounds(#[trigger] acc[k]),
    ensures
        series_from(b, start, d, count, piece, i, acc).len() == 7,
        forall|k: int| 0 <= k < 7 ==> opt_in_bounds(#[trigger] series_from(b, start, d, count, piece, i, acc)[k]),
    decreases 8 - i,
{
    if !(i == 0 || i > count || i > 7) {
        let m = spec_get_move(b, start, scaled(d, i), piece);
        let acc2 = acc.update(i - 1, m);
        assert forall|k: int| 0 <= k < 7 implies opt_in_bounds(#[trigger] acc2[k]) by {
            if k == i - 1 {
            }
        }
        lemma_series_in_bounds(b, start, d, count, piece, i + 1, acc2);
    }
}

fn none_array7() -> (res: [Option<ChessMove>; 7])
    ensures
        res@ == nones(7),
{
    let res: [Option<ChessMove>; 7] = [None, None, None, None, None, None, None];
    assert(res@ =~= nones(7));
    res
}

/// The moves of a sliding piece in one direction, at most `count` steps long.
fn get_move_series(board: &Board, start: Square, dir: MoveDir, count: u8, piece: ChessPiece) -> (res: [Option<ChessMove>; 7])
    requires
        start.in_bounds(),
        count <= 7,
    ensures
        res@ == spec_series(board@, start, dir.offset(), count as nat, piece),
{
    let step_off = Offset::from_dir(dir);
    let mut res = none_array7();
    let mut i: u8 = 1;
    while i <= count
        invariant
            1 <= i <= 8,
            count <= 7,
            start.in_bounds(),
            step_off == dir.offset(),
            res@.len() == 7,
            spec_series(board@, start, dir.offset(), count as nat, piece) == series_from(
                board@,
                start,
                dir.offset(),
                count as nat,
                piece,
                i as nat,
                res@,
            ),
        decreases 8 - i,
    {
        assert(-7 <= step_off.0 * (i as i8) <= 7 && -7 <= step_off.1 * (i as i8) <= 7) by (nonlinear_arith)
            requires
                -1 <= step_off.0 <= 1,
                -1 <= step_off.1 <= 1,
                1 <= i <= 7,
        ;
        let off = step_off.mul(i as i8);
        assert(off == scaled(dir.offset(), i as nat));
        let m = get_move(board, start, off, piece);
        let end = match m {
            Some(x) => !matches!(x.move_type, MoveType::Move(_)),
            None => true,
        };
        res[(i - 1) as usize] = m;
        if end {
            return res;
        }
        i = i + 1;
    }
    res
}

// ---------------------------------------------------------------------------------------
// Sliding pieces
// ---------------------------------------------------------------------------------------

/// The moves of a sliding piece along the queen directions `first .. first + n`, before
/// any restriction.
pub open spec fn slider_raw(b: BoardModel, p: ChessPiece, first: int, n: int) -> Seq<ChessMove>
    decreases n,
{
    if n <= 0 {
        Seq::empty()
    } else {
        slider_raw(b, p, first, n - 1) + somes(
            spec_series(b, p.position, queen_dir(first + n - 1).offset(), 7, p),
        )
    }
}

/// The moves of a sliding piece that respect pins and checks.
pub open spec fn spec_slider_moves(b: BoardModel, p: ChessPiece, first: int, n: int) -> Seq<ChessMove> {
    filter_checked(slider_raw(b, p, first, n).filter(pin_pred(b, p.color)), b, p.color)
}

/// What `get_moves` requires of a piece and the restriction data it is given.
pub open spec fn gen_ok(b: BoardModel, p: ChessPiece, r: MoveRestrictionData) -> bool {
    &&& r.describes(b, p.color)
    &&& p.position.in_bounds()
    &&& spec_checks_amount(b, p.color) <= 2
    &&& match b.en_passant_square {
        Some(e) => near_board(e, -120, 120),
        None => true,
    }
}

fn slider_moves(piece: &ChessPiece, board: &Board, restriction: &MoveRestrictionData, first: usize, n: usize) -> (res: Vec<ChessMove>)
    requires
        gen_ok(board@, *piece, *restriction),
        first + n <= 8,
    ensures
        res@ == spec_slider_moves(board@, *piece, first as int, n as int),
{
    let mut all_moves: Vec<ChessMove> = Vec::new();
    let mut k: usize = 0;
    while k < n
        invariant
            0 <= k <= n,
            first + n <= 8,
            gen_ok(board@, *piece, *restriction),
            all_moves@ == slider_raw(board@, *piece, first as int, k as int),
            all_in_bounds(all_moves@),
        decreases n - k,
    {
        let dir = queen_dir_at(first + k);
        let series = get_move_series(board, piece.position, dir, 7, *piece);
        proof {
            lemma_series_in_bounds(board@, piece.position, dir.offset(), 7, *piece, 1, nones(7));
            lemma_somes_in_bounds(series@);
        }
        let ghost before = all_moves@;
        push_somes(&mut all_moves, &series);
        proof {
            lemma_concat_in_bounds(before, somes(series@));
        }
        k = k + 1;
    }
    proof {
        lemma_pin_offsets_fit(all_moves@, *restriction);
        lemma_pins_bridge(all_moves@, *restriction, board@, piece.color);
        lemma_filter_in_bounds(all_moves@, pin_pred(board@, piece.color));
    }
    let all_moves = filter_with_pins(all_moves, &restriction.pin_squares);
    proof {
        lemma_checked_bridge(all_moves@, *restriction, board@, piece.color);
    }
    filter_with_checked(all_moves, &restriction.check_squares)
}

fn rook_get_moves(rook: &ChessPiece, board: &Board, restriction: &MoveRestrictionData) -> (res: Vec<ChessMove>)
    requires
        gen_ok(board@, *rook, *restriction),
    ensures
        res@ == spec_slider_moves(board@, *rook, 0, 4),
{
    slider_moves(rook, board, restriction, 0, 4)
}

fn bishop_get_moves(bishop: &ChessPiece, board: &Board, restriction: &MoveRestrictionData) -> (res: Vec<ChessMove>)
    requires
        gen_ok(board@, *bishop, *restriction),
    ensures
        res@ == spec_slider_moves(board@, *bishop, 4, 4),
{
    slider_moves(bishop, board, restriction, 4, 4)
}

fn queen_get_moves(queen: &ChessPiece, board: &Board, restriction: &MoveRestrictionData) -> (res: Vec<ChessMove>)
    requires
        gen_ok(board@, *queen, *restriction),
    ensures
        res@ == spec_slider_moves(board@, *queen, 0, 8),
{
    slider_moves(queen, board, restriction, 0, 8)
}

// ---------------------------------------------------------------------------------------
// Knights and kings
// ---------------------------------------------------------------------------------------

pub open spec fn opt_seq(o: Option<ChessMove>) -> Seq<ChessMove> {
    match o {
        Some(m) => seq![m],
        None => Seq::empty(),
    }
}

/// The moves of a knight by its first `n` jumps, before any restriction.
pub open spec fn knight_raw(b: BoardModel, p: ChessPiece, n: int) -> Seq<ChessMove>
    decreases n,
{
    if n <= 0 {
        Seq::empty()
    } else {
        knight_raw(b, p, n - 1) + opt_seq(spec_get_move(b, p.position, knight_offset(n - 1), p))
    }
}

pub open spec fn spec_knight_moves(b: BoardModel, p: ChessPiece) -> Seq<ChessMove> {
    filter_checked(knight_raw(b, p, 8).filter(pin_pred(b, p.color)), b, p.color)
}

fn knight_get_moves(knight: &ChessPiece, board: &Board, restriction: &MoveRestrictionData) -> (res: Vec<ChessMove>)
    requires
        gen_ok(board@, *knight, *restriction),
    ensures
        res@ == spec_knight_moves(board@, *knight),
{
    let mut all_moves: Vec<ChessMove> = Vec::new();
    let mut k: usize = 0;
    while k < 8
        invariant
            0 <= k <= 8,
            gen_ok(board@, *knight, *restriction),
            all_moves@ == knight_raw(board@, *knight, k as int),
            all_in_bounds(all_moves@),
        decreases 8 - k,
    {
        let offset = knight_offset_at(k);
        let ghost before = all_moves@;
        match get_move(board, knight.position, offset, *knight) {
            Some(m) => {
                all_moves.push(m);
                assert(all_moves@ =~= before + seq![m]);
            },
            None => {
                assert(all_moves@ =~= before + Seq::<ChessMove>::empty());
            },
        }
        k = k + 1;
    }
    proof {
        lemma_pin_offsets_fit(all_moves@, *restriction);
        lemma_pins_bridge(all_moves@, *restriction, board@, knight.color);
        lemma_filter_in_bounds(all_moves@, pin_pred(board@, knight.color));
    }
    let all_moves = filter_with_pins(all_moves, &restriction.pin_squares);
    proof {
        lemma_checked_bridge(all_moves@, *restriction, board@, knight.color);
    }
    filter_with_checked(all_moves, &restriction.check_squares)
}

/// The eight steps of a king, in the order in which they are searched.
pub open spec fn king_offset(i: int) -> Offset {
    if i == 0 {
        Offset(1, 0)
    } else if i == 1 {
        Offset(1, 1)
    } else if i == 2 {
        Offset(0, 1)
    } else if i == 3 {
        Offset(-1i8, 1)
    } else if i == 4 {
        Offset(-1i8, 0)
    } else if i == 5 {
        Offset(-1i8, -1i8)
    } else if i == 6 {
        Offset(0, -1i8)
    } else {
        Offset(1, -1i8)
    }
}

fn king_offset_at(i: usize) -> (res: Offset)
    requires
        i < 8,
    ensures
        res == king_offset(i as int),
{
    if i == 0 {
        Offset(1, 0)
    } else if i == 1 {
        Offset(1, 1)
    } else if i == 2 {
        Offset(0, 1)
    } else if i == 3 {
        Offset(-1, 1)
    } else if i == 4 {
        Offset(-1, 0)
    } else if i == 5 {
        Offset(-1, -1)
    } else if i == 6 {
        Offset(0, -1)
    } else {
        Offset(1, -1)
    }
}

/// The steps of a king among its first `n` that do not end on an attacked square.
pub open spec fn king_steps(b: BoardModel, p: ChessPiece, n: int) -> Seq<ChessMove>
    decreases n,
{
    if n <= 0 {
        Seq::empty()
    } else {
        king_steps(b, p, n - 1) + match spec_get_move(b, p.position, king_offset(n - 1), p) {
            Some(m) => if attacked_has(b, p.color, 13, m.to) {
                Seq::empty()
            } else {
                seq![m]
            },
            None => Seq::empty(),
        }
    }
}

/// Whether a square the king passes when castling is free and not attacked.
pub open spec fn castle_path_ok(b: BoardModel, attacked: spec_fn(Square) -> bool, x: Square) -> bool {
    !attacked(x) && b.piece(x) is None
}

/// The castling moves of the king of `color` standing on `pos`: short castling in the first
/// slot, long castling in the second.
pub open spec fn spec_castles(
    b: BoardModel,
    pos: Square,
    castles: AvailableCastles,
    attacked: spec_fn(Square) -> bool,
    color: Color,
) -> Seq<Option<ChessMove>> {
    let short_ok = castle_path_ok(b, attacked, pos.spec_add(Offset(1, 0))) && castle_path_ok(
        b,
        attacked,
        pos.spec_add(Offset(2, 0)),
    );
    let long_ok = castle_path_ok(b, attacked, pos.spec_add(Offset(-1i8, 0))) && castle_path_ok(
        b,
        attacked,
        pos.spec_add(Offset(-2i8, 0)),
    ) && b.piece(pos.spec_add(Offset(-3i8, 0))) is None;
    let short = if color == Color::White && castles.white_short && short_ok {
        Some(ChessMove { move_type: MoveType::CastleMove(CastleType::WhiteShort), from: Square(4, 0), to: Square(6, 0) })
    } else if color == Color::Black && castles.black_short && short_ok {
        Some(ChessMove { move_type: MoveType::CastleMove(CastleType::BlackShort), from: Square(4, 7), to: Square(6, 7) })
    } else {
        None
    };
    let long = if color == Color::White && castles.white_long && long_ok {
        Some(ChessMove { move_type: MoveType::CastleMove(CastleType::WhiteLong), from: Square(4, 0), to: Square(2, 0) })
    } else if color == Color::Black && castles.black_long && long_ok {
        Some(ChessMove { move_type: MoveType::CastleMove(CastleType::BlackLong), from: Square(4, 7), to: Square(2, 7) })
    } else {
        None
    };
    seq![short, long]
}

/// The castling moves of the king of `color` standing on `pos`, given the rights and the
/// attacked squares: short castling in the first slot, long castling in the second.
pub fn get_castles(
    board: &Board,
    pos: Square,
    castles: &AvailableCastles,
    attacked: &Attacked,
    color: Color,
) -> (res: [Option<ChessMove>; 2])
    requires
        -125 <= pos.0 <= 125,
    ensures
        res@ == spec_castles(board@, pos, *castles, |s: Square| attacked.0.has(s), color),
{
    let set = attacked.0;
    let r1 = pos.add(Offset(1, 0));
    let r2 = pos.add(Offset(2, 0));
    let l1 = pos.add(Offset(-1, 0));
    let l2 = pos.add(Offset(-2, 0));
    let l3 = pos.add(Offset(-3, 0));
    let short_ok = !set.contains(&r1) && board.get_square(r1).is_none() && !set.contains(&r2)
        && board.get_square(r2).is_none();
    let long_ok = !set.contains(&l1) && board.get_square(l1).is_none() && !set.contains(&l2)
        && board.get_square(l2).is_none() && board.get_square(l3).is_none();
    let mut res: [Option<ChessMove>; 2] = [None, None];
    if matches!(color, Color::White) && castles.white_short && short_ok {
        res[0] = Some(ChessMove { move_type: MoveType::CastleMove(CastleType::WhiteShort), from: Square(4, 0), to: Square(6, 0) });
    }
    if matches!(color, Color::White) && castles.white_long && long_ok {
        res[1] = Some(ChessMove { move_type: MoveType::CastleMove(CastleType::WhiteLong), from: Square(4, 0), to: Square(2, 0) });
    }
    if matches!(color, Color::Black) && castles.black_short && short_ok {
        res[0] = Some(ChessMove { move_type: MoveType::CastleMove(CastleType::BlackShort), from: Square(4, 7), to: Square(6, 7) });
    }
    if matches!(color, Color::Black) && castles.black_long && long_ok {
        res[1] = Some(ChessMove { move_type: MoveType::CastleMove(CastleType::BlackLong), from: Square(4, 7), to: Square(2, 7) });
    }
    assert(res@ =~= spec_castles(board@, pos, *castles, |s: Square| attacked.0.has(s), color));
    res
}

pub open spec fn spec_king_moves(b: BoardModel, p: ChessPiece) -> Seq<ChessMove> {
    king_steps(b, p, 8) + if spec_checks_amount(b, p.color) == 0 {
        somes(spec_castles(b, p.position, b.castling, |s: Square| attacked_has(b, p.color, 13, s), p.color))
    } else {
        Seq::empty()
    }
}

fn king_get_moves(king: &ChessPiece, board: &Board, restriction: &MoveRestrictionData) -> (res: Vec<ChessMove>)
    requires
        gen_ok(board@, *king, *restriction),
    ensures
        res@ == spec_king_moves(board@, *king),
{
    let mut all_moves: Vec<ChessMove> = Vec::new();
    let mut k: usize = 0;
    while k < 8
        invariant
            0 <= k <= 8,
            gen_ok(board@, *king, *restriction),
            all_moves@ == king_steps(board@, *king, k as int),
        decreases 8 - k,
    {
        let offset = king_offset_at(k);
        let ghost before = all_moves@;
        match get_move(board, king.position, offset, *king) {
            Some(m) => {
                if !restriction.attacked.0.contains(&m.to) {
                    all_moves.push(m);
                    assert(all_moves@ =~= before + seq![m]);
                } else {
                    assert(all_moves@ =~= before + Seq::<ChessMove>::empty());
                }
            },
            None => {
                assert(all_moves@ =~= before + Seq::<ChessMove>::empty());
            },
        }
        k = k + 1;
    }
    if restriction.check_squares.checks_amount == 0 {
        let castles = get_castles(board, king.position, &board.castling, &restriction.attacked, king.color);
        assert((|s: Square| restriction.attacked.0.has(s)) =~= (|s: Square| attacked_has(board@, king.color, 13, s)));
        push_somes(&mut all_moves, &castles);
    } else {
        assert(all_moves@ =~= all_moves@ + Seq::<ChessMove>::empty());
    }
    all_moves
}

// ---------------------------------------------------------------------------------------
// Pawns
// ---------------------------------------------------------------------------------------

/// The direction of the pawns of a side, the rank of their double step and their promotion
/// rank.
pub open spec fn pawn_params(color: Color) -> (Offset, i8, i8) {
    match color {
        Color::White => (Offset(0, 1), white_pawn_double_move_rank(), white_promotion_rank()),
        Color::Black => (Offset(0, -1i8), black_pawn_double_move_rank(), black_promotion_rank()),
    }
}

pub open spec fn promo(move_type: MoveType, from: Square, to: Square) -> Option<ChessMove> {
    Some(ChessMove { move_type, from, to })
}

/// The forward moves of a pawn, step `i` on, written into `res`: a quiet move per free
/// square, the four promotions on the promotion rank.
pub open spec fn pawn_moves_from(
    b: BoardModel,
    start: Square,
    color: Color,
    count: nat,
    i: nat,
    res: Seq<Option<ChessMove>>,
) -> Seq<Option<ChessMove>>
    decreases 3 - i,
{
    if i == 0 || i > count || i > 2 {
        res
    } else {
        let (t, _, promotion_rank) = pawn_params(color);
        match start.spec_c_add(scaled(t, i)) {
            None => res,
            Some(sq) => if b.piece(sq) is Some {
                res
            } else if sq.1 == promotion_rank {
                res.update(i - 1, promo(MoveType::PromotionMove(PromotedPieceType::Queen), start, sq))
                    .update(i as int, promo(MoveType::PromotionMove(PromotedPieceType::Bishop), start, sq))
                    .update(i + 1int, promo(MoveType::PromotionMove(PromotedPieceType::Knight), start, sq))
                    .update(i + 2int, promo(MoveType::PromotionMove(PromotedPieceType::Rook), start, sq))
            } else {
                pawn_moves_from(
                    b,
                    start,
                    color,
                    count,
                    i + 1,
                    res.update(i - 1, promo(MoveType::Move(PieceType::Pawn), start, sq)),
                )
            },
        }
    }
}

/// The forward moves of a pawn of `color` on `start`, in five slots.
pub open spec fn spec_pawn_moves(b: BoardModel, start: Square, color: Color) -> Seq<Option<ChessMove>> {
    let (_, double_move_rank, _) = pawn_params(color);
    let count: nat = if start.1 == double_move_rank { 2 } else { 1 };
    pawn_moves_from(b, start, color, count, 1, nones(5))
}

/// The forward moves of a pawn of `color` on `start`: a single step, a double step from its
/// starting rank, or the four promotions, in five slots.
pub fn get_pawn_moves(board: &Board, start: Square, color: Color) -> (res: [Option<ChessMove>; 5])
    requires
        near_board(start, -126, 125),
    ensures
        res@ == spec_pawn_moves(board@, start, color),
{
    let mut res: [Option<ChessMove>; 5] = [None, None, None, None, None];
    assert(res@ =~= nones(5));
    let (step_off, double_move_rank, promotion_rank) = match color {
        Color::White => (Offset(0, 1), 1i8, 7i8),
        Color::Black => (Offset(0, -1), 6i8, 0i8),
    };
    let count: usize = if start.1 == double_move_rank { 2 } else { 1 };
    let mut i: usize = 1;
    while i <= count
        invariant
            1 <= i <= 3,
            count <= 2,
            near_board(start, -126, 125),
            res@.len() == 5,
            (step_off, double_move_rank, promotion_rank) == pawn_params(color),
            count == (if start.1 == double_move_rank { 2nat } else { 1nat }),
            spec_pawn_moves(board@, start, color) == pawn_moves_from(board@, start, color, count as nat, i as nat, res@),
        decreases 3 - i,
    {
        let off = step_off.mul(i as i8);
        assert(off == scaled(step_off, i as nat));
        let sq = match start.c_add(off) {
            Some(sq) => sq,
            None => return res,
        };
        if board.get_square(sq).is_some() {
            return res;
        }
        if sq.1 == promotion_rank {
            res[i - 1] = Some(ChessMove { move_type: MoveType::PromotionMove(PromotedPieceType::Queen), from: start, to: sq });
            res[i] = Some(ChessMove { move_type: MoveType::PromotionMove(PromotedPieceType::Bishop), from: start, to: sq });
            res[i + 1] = Some(ChessMove { move_type: MoveType::PromotionMove(PromotedPieceType::Knight), from: start, to: sq });
            res[i + 2] = Some(ChessMove { move_type: MoveType::PromotionMove(PromotedPieceType::Rook), from: start, to: sq });
            return res;
        } else {
            res[i - 1] = Some(ChessMove { move_type: MoveType::Move(PieceType::Pawn), from: start, to: sq });
        }
        i = i + 1;
    }
    res
}

/// The two capture directions of the pawns of a side.
pub open spec fn pawn_capture_offset(color: Color, i: int) -> Offset {
    match color {
        Color::White => if i == 0 { Offset(-1i8, 1) } else { Offset(1, 1) },
        Color::Black => if i == 0 { Offset(-1i8, -1i8) } else { Offset(1, -1i8) },
    }
}

/// The captures of a pawn in its `i`th capture direction, written into slots `4 i ..`.
pub open spec fn capture_slot(b: BoardModel, start: Square, color: Color, i: int, res: Seq<Option<ChessMove>>) -> Seq<Option<ChessMove>> {
    let (_, _, promotion_rank) = pawn_params(color);
    match start.spec_c_add(pawn_capture_offset(color, i)) {
        None => res,
        Some(sq) => match b.piece(sq) {
            None => res,
            Some(p) => if p.color != color && sq.1 == promotion_rank {
                res.update(4 * i, promo(MoveType::PromotionCapture(PromotedPieceType::Queen), start, sq))
                    .update(4 * i + 1, promo(MoveType::PromotionCapture(PromotedPieceType::Bishop), start, sq))
                    .update(4 * i + 2, promo(MoveType::PromotionCapture(PromotedPieceType::Knight), start, sq))
                    .update(4 * i + 3, promo(MoveType::PromotionCapture(PromotedPieceType::Rook), start, sq))
            } else if p.color != color {
                res.update(4 * i, promo(MoveType::Capture(PieceType::Pawn), start, sq))
            } else {
                res
            },
        },
    }
}

pub open spec fn spec_pawn_captures(b: BoardModel, start: Square, color: Color) -> Seq<Option<ChessMove>> {
    capture_slot(b, start, color, 1, capture_slot(b, start, color, 0, nones(8)))
}

/// The captures of a pawn of `color` on `start`: one capture or four promoting captures in
/// each of its two capture directions, in eight slots.
pub fn get_pawn_captures(board: &Board, start: Square, color: Color) -> (res: [Option<ChessMove>; 8])
    requires
        near_board(start, -127, 126),
    ensures
        res@ == spec_pawn_captures(board@, start, color),
{
    let mut res: [Option<ChessMove>; 8] = [None, None, None, None, None, None, None, None];
    assert(res@ =~= nones(8));
    let promotion_rank: i8 = match color {
        Color::White => 7,
        Color::Black => 0,
    };
    let mut i: usize = 0;
    while i < 2
        invariant
            0 <= i <= 2,
            near_board(start, -127, 126),
            res@.len() == 8,
            promotion_rank == pawn_params(color).2,
            spec_pawn_captures(board@, start, color) == if i == 0 {
                capture_slot(board@, start, color, 1, capture_slot(board@, start, color, 0, res@))
            } else if i == 1 {
                capture_slot(board@, start, color, 1, res@)
            } else {
                res@
            },
        decreases 2 - i,
    {
        let offset = match color {
            Color::White => if i == 0 { Offset(-1, 1) } else { Offset(1, 1) },
            Color::Black => if i == 0 { Offset(-1, -1) } else { Offset(1, -1) },
        };
        let ghost before = res@;
        match start.c_add(offset) {
            None => {},
            Some(sq) => match board.get_square(sq) {
                None => {},
                Some(p) => {
                    if p.color != color && sq.1 == promotion_rank {
                        res[i * 4] = Some(ChessMove { move_type: MoveType::PromotionCapture(PromotedPieceType::Queen), from: start, to: sq });
                        res[i * 4 + 1] = Some(ChessMove { move_type: MoveType::PromotionCapture(PromotedPieceType::Bishop), from: start, to: sq });
                        res[i * 4 + 2] = Some(ChessMove { move_type: MoveType::PromotionCapture(PromotedPieceType::Knight), from: start, to: sq });
                        res[i * 4 + 3] = Some(ChessMove { move_type: MoveType::PromotionCapture(PromotedPieceType::Rook), from: start, to: sq });
                    } else if p.color != color {
                        res[i * 4] = Some(ChessMove { move_type: MoveType::Capture(PieceType::Pawn), from: start, to: sq });
                    }
                },
            },
        }
        assert(res@ == capture_slot(board@, start, color, i as int, before));
        i = i + 1;
    }
    res
}

/// The en passant capture of a pawn of `color` on `start`, if the captured pawn of the other
/// side stands next to it.
pub open spec fn spec_en_passant(b: BoardModel, start: Square, color: Color) -> Option<ChessMove> {
    match b.en_passant_square {
        None => None,
        Some(target_sq) => {
            let pawn_sq = ep_captured_square(target_sq, color);
            if pawn_sq.1 - start.1 != 0 || iabs(pawn_sq.0 - start.0) != 1 {
                None
            } else {
                match b.piece(pawn_sq) {
                    None => None,
                    Some(p) => if p.color != color {
                        Some(ChessMove { move_type: MoveType::EnPassantMove, from: start, to: target_sq })
                    } else {
                        None
                    },
                }
            }
        },
    }
}

/// The en passant capture of a pawn of `color` on `start`, if there is one.
pub fn get_en_passant(board: &Board, start: Square, color: Color) -> (res: Option<ChessMove>)
    requires
        start.in_bounds(),
        board@.en_passant_square matches Some(e) ==> near_board(e, -120, 120),
    ensures
        res == spec_en_passant(board@, start, color),
{
    let target_sq = match board.en_passant_square {
        Some(t) => t,
        None => return None,
    };
    let pawn_sq = match color {
        Color::White => Square(target_sq.0, target_sq.1 - 1),
        Color::Black => Square(target_sq.0, target_sq.1 + 1),
    };
    let df = pawn_sq.0 - start.0;
    if pawn_sq.1 - start.1 != 0 || (df != 1 && df != -1) {
        return None;
    }
    match board.get_square(pawn_sq) {
        None => None,
        Some(p) => if p.color != color {
            Some(ChessMove { move_type: MoveType::EnPassantMove, from: start, to: target_sq })
        } else {
            None
        },
    }
}

/// The moves of a pawn before the check and pin restrictions; an en passant capture is left
/// out when it would open a rank to the king.
pub open spec fn pawn_raw(b: BoardModel, p: ChessPiece) -> Seq<ChessMove> {
    somes(spec_pawn_moves(b, p.position, p.color)) + somes(spec_pawn_captures(b, p.position, p.color))
        + match spec_en_passant(b, p.position, p.color) {
        Some(ep) => if pin_at(b, p.color, ep.from) == Some(PinDir::EnPassantBlock) {
            Seq::empty()
        } else {
            seq![ep]
        },
        None => Seq::empty(),
    }
}

pub open spec fn spec_pawn_get_moves(b: BoardModel, p: ChessPiece) -> Seq<ChessMove> {
    filter_checked(pawn_raw(b, p), b, p.color).filter(pin_pred(b, p.color))
}

fn pawn_get_moves(pawn: &ChessPiece, board: &Board, restriction: &MoveRestrictionData) -> (res: Vec<ChessMove>)
    requires
        gen_ok(board@, *pawn, *restriction),
    ensures
        res@ == spec_pawn_get_moves(board@, *pawn),
{
    let mut all_moves: Vec<ChessMove> = Vec::new();
    let moves = get_pawn_moves(board, pawn.position, pawn.color);
    push_somes(&mut all_moves, &moves);
    let captures = get_pawn_captures(board, pawn.position, pawn.color);
    push_somes(&mut all_moves, &captures);
    let ghost before = all_moves@;
    let en_passant = get_en_passant(board, pawn.position, pawn.color);
    match en_passant {
        Some(ep) => {
            let blocked = match restriction.pin_squares.0.get(&ep.from) {
                Some(d) => matches!(d, PinDir::EnPassantBlock),
                None => false,
            };
            if !blocked {
                all_moves.push(ep);
                assert(all_moves@ =~= before + seq![ep]);
            } else {
                assert(all_moves@ =~= before + Seq::<ChessMove>::empty());
            }
        },
        None => {
            assert(all_moves@ =~= before + Seq::<ChessMove>::empty());
        },
    }
    assert(all_moves@ =~= pawn_raw(board@, *pawn));
    proof {
        lemma_pawn_raw_in_bounds(board@, *pawn);
        lemma_checked_bridge(all_moves@, *restriction, board@, pawn.color);
    }
    let all_moves = filter_with_checked(all_moves, &restriction.check_squares);
    proof {
        lemma_filter_checked_in_bounds(pawn_raw(board@, *pawn), board@, pawn.color);
        lemma_pin_offsets_fit(all_moves@, *restriction);
        lemma_pins_bridge(all_moves@, *restriction, board@, pawn.color);
    }
    filter_with_pins(all_moves, &restriction.pin_squares)
}

proof fn lemma_filter_checked_in_bounds(s: Seq<ChessMove>, b: BoardModel, color: Color)
    requires
        all_in_bounds(s),
    ensures
        all_in_bounds(filter_checked(s, b, color)),
{
    lemma_filter_in_bounds(s, check_pred(b, color));
}

proof fn lemma_pawn_raw_in_bounds(b: BoardModel, p: ChessPiece)
    requires
        p.position.in_bounds(),
        b.en_passant_square matches Some(e) ==> near_board(e, -120, 120),
    ensures
        all_in_bounds(pawn_raw(b, p)),
{
    let mv = spec_pawn_moves(b, p.position, p.color);
    let cp = spec_pawn_captures(b, p.position, p.color);
    assert forall|i: int| 0 <= i < mv.len() implies opt_in_bounds(#[trigger] mv[i]) by {
        lemma_pawn_moves_in_bounds(b, p.position, p.color, if p.position.1 == pawn_params(p.color).1 { 2 } else { 1 }, 1, nones(5));
    }
    assert forall|i: int| 0 <= i < cp.len() implies opt_in_bounds(#[trigger] cp[i]) by {
        let c0 = capture_slot(b, p.position, p.color, 0, nones(8));
        assert forall|k: int| 0 <= k < c0.len() implies opt_in_bounds(#[trigger] c0[k]) by {}
    }
    lemma_somes_in_bounds(mv);
    lemma_somes_in_bounds(cp);
    lemma_concat_in_bounds(somes(mv), somes(cp));
    let tail = match spec_en_passant(b, p.position, p.color) {
        Some(ep) => if pin_at(b, p.color, ep.from) == Some(PinDir::EnPassantBlock) {
            Seq::empty()
        } else {
            seq![ep]
        },
        None => Seq::empty(),
    };
    assert(all_in_bounds(tail));
    lemma_concat_in_bounds(somes(mv) + somes(cp), tail);
}

proof fn lemma_pawn_moves_in_bounds(b: BoardModel, start: Square, color: Color, count: nat, i: nat, res: Seq<Option<ChessMove>>)
    requires
        start.in_bounds(),
        res.len() == 5,
        count <= 2,
        forall|k: int| 0 <= k < 5 ==> opt_in_bounds(#[trigger] res[k]),
    ensures
        pawn_moves_from(b, start, color, count, i, res).len() == 5,
        forall|k: int| 0 <= k < 5 ==> opt_in_bounds(#[trigger] pawn_moves_from(b, start, color, count, i, res)[k]),
    decreases 3 - i,
{
    if !(i == 0 || i > count || i > 2) {
        let (t, _, promotion_rank) = pawn_params(color);
        match start.spec_c_add(scaled(t, i)) {
            None => {},
            Some(sq) => {
                if b.piece(sq) is Some {
                } else if sq.1 == promotion_rank {
                } else {
                    let r2 = res.update(i - 1, promo(MoveType::Move(PieceType::Pawn), start, sq));
                    assert forall|k: int| 0 <= k < 5 implies opt_in_bounds(#[trigger] r2[k]) by {}
                    lemma_pawn_moves_in_bounds(b, start, color, count, i + 1, r2);
                }
            },
        }
    }
}

// ---------------------------------------------------------------------------------------
// All pieces
// ---------------------------------------------------------------------------------------

/// The moves of a piece, given the position, after the check and pin restrictions.
pub open spec fn spec_piece_moves(b: BoardModel, p: ChessPiece) -> Seq<ChessMove> {
    match p.piece_type {
        PieceType::Pawn => spec_pawn_get_moves(b, p),
        PieceType::Knight => spec_knight_moves(b, p),
        PieceType::Bishop => spec_slider_moves(b, p, 4, 4),
        PieceType::Rook => spec_slider_moves(b, p, 0, 4),
        PieceType::Queen => spec_slider_moves(b, p, 0, 8),
        PieceType::King => spec_king_moves(b, p),
    }
}

impl ChessPiece {
    /// The moves of the piece, given the restrictions on its side.
    pub fn get_moves(&self, board: &Board, restriction: &MoveRestrictionData) -> (res: Vec<ChessMove>)
        requires
            gen_ok(board@, *self, *restriction),
        ensures
            res@ == spec_piece_moves(board@, *self),
    {
        match self.piece_type {
            PieceType::Pawn => pawn_get_moves(self, board, restriction),
            PieceType::Knight => knight_get_moves(self, board, restriction),
            PieceType::Bishop => bishop_get_moves(self, board, restriction),
            PieceType::Rook => rook_get_moves(self, board, restriction),
            PieceType::Queen => queen_get_moves(self, board, restriction),
            PieceType::King => king_get_moves(self, board, restriction),
        }
    }
}

} // verus!
