use vstd::prelude::*;

use crate::board_setup::models::{Board, BoardModel};
use crate::move_generator::models::{fits_i8, ChessPiece, Color, Offset, PieceType, Square};
use crate::move_register::models::{CastleType, ChessMove, MoveType};
use crate::move_register::{castle_squares, ep_captured_square};

verus! {

/// Random keys for Zobrist hashing: one per square and piece kind (the thirteenth for an
/// en passant target), and five more for the castling rights and the side to move.
#[derive(Clone, Copy, Debug)]
pub struct ZobristBitmasks {
    pub square: [[u64; 13]; 64],
    pub additional: [u64; 5],
}

/// A random number from `rand::random`; nothing is claimed of its value.
#[verifier::external_body]
fn random_u64() -> u64 {
    rand::random::<u64>()
}

impl ZobristBitmasks {
    /// The key table filled from a sequence of draws: the thirteen keys of each square in
    /// turn, square by square, then the five further keys.
    pub fn from_draws(draws: &[u64; 837]) -> (res: ZobristBitmasks)
        ensures
            forall|i: int, j: int|
                0 <= i < 64 && 0 <= j < 13 ==> #[trigger] res.square[i][j] == draws[13 * i + j],
            forall|k: int| 0 <= k < 5 ==> #[trigger] res.additional[k] == draws[832 + k],
    {
        let mut square = [[0u64; 13]; 64];
        let mut i: usize = 0;
        while i < 64
            invariant
                i <= 64,
                forall|a: int, c: int|
                    0 <= a < i && 0 <= c < 13 ==> #[trigger] square[a][c] == draws[13 * a + c],
            decreases 64 - i,
        {
            let mut row = [0u64; 13];
            let mut j: usize = 0;
            while j < 13
                invariant
                    i < 64,
                    j <= 13,
                    forall|c: int| 0 <= c < j ==> #[trigger] row[c] == draws[13 * i + c],
                decreases 13 - j,
            {
                row[j] = draws[13 * i + j];
                j = j + 1;
            }
            square[i] = row;
            i = i + 1;
        }
        let mut additional = [0u64; 5];
        let mut k: usize = 0;
        while k < 5
            invariant
                k <= 5,
                forall|c: int| 0 <= c < k ==> #[trigger] additional[c] == draws[832 + c],
            decreases 5 - k,
        {
            additional[k] = draws[832 + k];
            k = k + 1;
        }
        ZobristBitmasks { square, additional }
    }

    /// A fresh set of keys: 837 random draws placed by `from_draws`.
    pub fn new() -> (res: ZobristBitmasks) {
        let mut draws = [0u64; 837];
        let mut n: usize = 0;
        while n < 837
            invariant
                n <= 837,
            decreases 837 - n,
        {
            draws[n] = random_u64();
            n = n + 1;
        }
        Self::from_draws(&draws)
    }
}

/// One part of a position that the hash keys.
#[derive(Clone, Copy, PartialEq, Eq, Structural, Debug)]
pub enum HashedData {
    Square(Square, PieceType, Color),
    Castling(CastleType),
    EnPassant(Square),
    Turn,
}

/// The column of the key table for a kind of piece of a side.
pub open spec fn spec_to_hash_idx(piece_type: PieceType, color: Color) -> int {
    match (piece_type, color) {
        (PieceType::Pawn, Color::White) => 0,
        (PieceType::Pawn, Color::Black) => 1,
        (PieceType::Knight, Color::White) => 2,
        (PieceType::Knight, Color::Black) => 3,
        (PieceType::Bishop, Color::White) => 4,
        (PieceType::Bishop, Color::Black) => 5,
        (PieceType::Rook, Color::White) => 6,
        (PieceType::Rook, Color::Black) => 7,
        (PieceType::Queen, Color::White) => 8,
        (PieceType::Queen, Color::Black) => 9,
        (PieceType::King, Color::White) => 10,
        (PieceType::King, Color::Black) => 11,
    }
}

/// The column of the key table for a kind of piece of a side.
pub fn to_hash_idx(piece_type: PieceType, color: Color) -> (res: usize)
    ensures
        res == spec_to_hash_idx(piece_type, color),
{
    match (piece_type, color) {
        (PieceType::Pawn, Color::White) => 0,
        (PieceType::Pawn, Color::Black) => 1,
        (PieceType::Knight, Color::White) => 2,
        (PieceType::Knight, Color::Black) => 3,
        (PieceType::Bishop, Color::White) => 4,
        (PieceType::Bishop, Color::Black) => 5,
        (PieceType::Rook, Color::White) => 6,
        (PieceType::Rook, Color::Black) => 7,
        (PieceType::Queen, Color::White) => 8,
        (PieceType::Queen, Color::Black) => 9,
        (PieceType::King, Color::White) => 10,
        (PieceType::King, Color::Black) => 11,
    }
}

/// The index of the key of a castling right.
pub open spec fn spec_castle_to_hash_idx(castle_type: CastleType) -> int {
    match castle_type {
        CastleType::WhiteShort => 0,
        CastleType::WhiteLong => 1,
        CastleType::BlackShort => 2,
        CastleType::BlackLong => 3,
    }
}

/// The index of the key of a castling right.
pub fn castle_to_hash_idx(castle_type: CastleType) -> (res: usize)
    ensures
        res == spec_castle_to_hash_idx(castle_type),
{
    match castle_type {
        CastleType::WhiteShort => 0,
        CastleType::WhiteLong => 1,
        CastleType::BlackShort => 2,
        CastleType::BlackLong => 3,
    }
}

/// The bit mixer of the SplitMix64 generator.
pub open spec fn mix64(z: u64) -> u64 {
    let z1 = (z ^ (z >> 30u64)).wrapping_mul(0xbf58476d1ce4e5b9u64);
    let z2 = (z1 ^ (z1 >> 27u64)).wrapping_mul(0x94d049bb133111ebu64);
    z2 ^ (z2 >> 31u64)
}

/// The `n`-th key of the fixed key table: the SplitMix64 output for `n + 1`.
pub open spec fn table_key(n: int) -> u64 {
    mix64(((n + 1) as u64).wrapping_mul(0x9e3779b97f4a7c15u64))
}

fn table_key_exec(n: u64) -> (res: u64)
    requires
        n < 1000,
    ensures
        res == table_key(n as int),
{
    let z = (n + 1).wrapping_mul(0x9e3779b97f4a7c15u64);
    let z1 = (z ^ (z >> 30u64)).wrapping_mul(0xbf58476d1ce4e5b9u64);
    let z2 = (z1 ^ (z1 >> 27u64)).wrapping_mul(0x94d049bb133111ebu64);
    z2 ^ (z2 >> 31u64)
}

/// The key of a square slot (0 to 63) and column (0 to 12).
pub open spec fn square_key(slot: int, column: int) -> u64 {
    table_key(slot * 13 + column)
}

/// The key of a castling right (0 to 3) or of the side to move (4).
pub open spec fn additional_key(k: int) -> u64 {
    table_key(832 + k)
}

/// Whether a square has a slot in the key table: its number `rank * 8 + file`, computed
/// in `i8`, lies between 0 and 63.
pub open spec fn slot_ok(sq: Square) -> bool {
    -16 <= sq.1 <= 15 && 0 <= sq.1 * 8 + sq.0 < 64
}

pub open spec fn slot(sq: Square) -> int {
    sq.1 * 8 + sq.0
}

/// Whether the key of a part of a position exists.
pub open spec fn data_ok(data: HashedData) -> bool {
    match data {
        HashedData::Square(sq, _, _) => slot_ok(sq),
        HashedData::EnPassant(sq) => slot_ok(sq),
        _ => true,
    }
}

/// The key of a part of a position.
pub open spec fn key_of(data: HashedData) -> u64 {
    match data {
        HashedData::Square(sq, t, c) => square_key(slot(sq), spec_to_hash_idx(t, c)),
        HashedData::Castling(c) => additional_key(spec_castle_to_hash_idx(c)),
        HashedData::EnPassant(sq) => square_key(slot(sq), 12),
        HashedData::Turn => additional_key(4),
    }
}

/// Combining a hash with one part of a position.
pub trait ZobristHash: Sized {
    fn with(self, data: HashedData) -> (res: Self)
        requires
            data_ok(data),
    ;
}

impl ZobristHash for u64 {
    /// The hash with the key of `data` added in or taken out (by exclusive or).
    fn with(self, data: HashedData) -> (res: u64)
        ensures
            res == self ^ key_of(data),
    {
        let key = match data {
            HashedData::Square(sq, t, c) => {
                let s = (sq.1 * 8 + sq.0) as u64;
                table_key_exec(s * 13 + to_hash_idx(t, c) as u64)
            },
            HashedData::Castling(c) => table_key_exec(832 + castle_to_hash_idx(c) as u64),
            HashedData::EnPassant(sq) => {
                let s = (sq.1 * 8 + sq.0) as u64;
                table_key_exec(s * 13 + 12)
            },
            HashedData::Turn => table_key_exec(836),
        };
        self ^ key
    }
}

/// The hash of the pieces on the first `n` squares (in rank-major order).
pub open spec fn pieces_hash(pieces: Seq<Option<ChessPiece>>, n: int) -> u64
    decreases n,
{
    if n <= 0 {
        0
    } else {
        let h = pieces_hash(pieces, n - 1);
        match pieces[n - 1] {
            Some(p) => h ^ square_key(n - 1, spec_to_hash_idx(p.piece_type, p.color)),
            None => h,
        }
    }
}

/// The hash with a key added in when a condition holds.
pub open spec fn xor_if(h: u64, cond: bool, key: u64) -> u64 {
    if cond {
        h ^ key
    } else {
        h
    }
}

/// The Zobrist hash of a position: its pieces, castling rights, side to move and en
/// passant target.
pub open spec fn hash_of(b: BoardModel) -> u64 {
    let h0 = pieces_hash(b.pieces, 64);
    let h1 = xor_if(h0, b.castling.white_short, additional_key(0));
    let h2 = xor_if(h1, b.castling.white_long, additional_key(1));
    let h3 = xor_if(h2, b.castling.black_short, additional_key(2));
    let h4 = xor_if(h3, b.castling.black_long, additional_key(3));
    let h5 = xor_if(h4, b.turn == Color::Black, additional_key(4));
    match b.en_passant_square {
        Some(sq) => h5 ^ square_key(slot(sq), 12),
        None => h5,
    }
}

/// Whether two positions hold the same kind and side of piece on every square.
pub open spec fn same_kinds(a: Seq<Option<ChessPiece>>, c: Seq<Option<ChessPiece>>) -> bool {
    &&& a.len() == c.len()
    &&& forall|i: int|
        0 <= i < a.len() ==> match (#[trigger] a[i], c[i]) {
            (Some(p), Some(q)) => p.piece_type == q.piece_type && p.color == q.color,
            (None, None) => true,
            _ => false,
        }
}

proof fn lemma_pieces_hash_kinds(a: Seq<Option<ChessPiece>>, c: Seq<Option<ChessPiece>>, n: int)
    requires
        same_kinds(a, c),
        n <= a.len(),
    ensures
        pieces_hash(a, n) == pieces_hash(c, n),
    decreases n,
{
    if n > 0 {
        lemma_pieces_hash_kinds(a, c, n - 1);
    }
}

/// The hash of a position depends only on the kinds and sides of its pieces square by
/// square, its castling rights, the side to move and the en passant target: not on the
/// clocks, the mating material, the recorded king squares or the positions the pieces
/// record.
pub proof fn lemma_hash_depends_on_kinds(a: BoardModel, c: BoardModel)
    requires
        a.pieces.len() == 64,
        same_kinds(a.pieces, c.pieces),
        a.castling == c.castling,
        a.turn == c.turn,
        a.en_passant_square == c.en_passant_square,
    ensures
        hash_of(a) == hash_of(c),
{
    lemma_pieces_hash_kinds(a.pieces, c.pieces, 64);
}

/// Whether a position can be hashed: its en passant target, if any, has a key.
pub open spec fn hashable(b: BoardModel) -> bool {
    match b.en_passant_square {
        Some(sq) => slot_ok(sq),
        None => true,
    }
}

/// The Zobrist hash of a position.
pub fn zobrist_hash(board: &Board) -> (res: u64)
    requires
        hashable(board@),
    ensures
        res == hash_of(board@),
{
    let mut res: u64 = 0;
    let mut rank: i8 = 0;
    while rank < 8
        invariant
            0 <= rank <= 8,
            res == pieces_hash(board@.pieces, rank * 8),
        decreases 8 - rank,
    {
        let mut file: i8 = 0;
        while file < 8
            invariant
                0 <= rank < 8,
                0 <= file <= 8,
                res == pieces_hash(board@.pieces, rank * 8 + file),
            decreases 8 - file,
        {
            if let Some(piece) = board.get_square(Square(file, rank)) {
                res = res.with(HashedData::Square(Square(file, rank), piece.piece_type, piece.color));
            }
            file = file + 1;
        }
        rank = rank + 1;
    }
    if board.castling.white_short {
        res = res.with(HashedData::Castling(CastleType::WhiteShort));
    }
    if board.castling.white_long {
        res = res.with(HashedData::Castling(CastleType::WhiteLong));
    }
    if board.castling.black_short {
        res = res.with(HashedData::Castling(CastleType::BlackShort));
    }
    if board.castling.black_long {
        res = res.with(HashedData::Castling(CastleType::BlackLong));
    }
    if matches!(board.turn, Color::Black) {
        res = res.with(HashedData::Turn);
    }
    if let Some(sq) = board.en_passant_square {
        res = res.with(HashedData::EnPassant(sq));
    }
    res
}

impl Board {
    /// The Zobrist hash of the position.
    pub fn hash_board(&self) -> (res: u64)
        requires
            hashable(self@),
        ensures
            res == hash_of(self@),
    {
        zobrist_hash(self)
    }
}

/// The key of a piece kind of a side on a square.
pub open spec fn piece_key(sq: Square, t: PieceType, c: Color) -> u64 {
    key_of(HashedData::Square(sq, t, c))
}

/// The castling squares of the rook: where it starts and where it ends.
pub open spec fn rook_castle_squares(castle_type: CastleType) -> (Square, Square) {
    match castle_type {
        CastleType::WhiteShort => (Square(7, 0), Square(5, 0)),
        CastleType::WhiteLong => (Square(0, 0), Square(3, 0)),
        CastleType::BlackShort => (Square(7, 7), Square(5, 7)),
        CastleType::BlackLong => (Square(0, 7), Square(3, 7)),
    }
}

/// The hash with the castling rights that a move ends taken out.
pub open spec fn spec_hash_with_castling(hash: u64, b: BoardModel, m: ChessMove) -> u64 {
    let c = b.castling;
    let h1 = xor_if(
        hash,
        c.white_long && (m.from == Square(0, 0) || m.to == Square(0, 0) || m.from == Square(4, 0)),
        additional_key(1),
    );
    let h2 = xor_if(
        h1,
        c.white_short && (m.from == Square(7, 0) || m.to == Square(7, 0) || m.from == Square(4, 0)),
        additional_key(0),
    );
    let h3 = xor_if(
        h2,
        c.black_long && (m.from == Square(0, 7) || m.to == Square(0, 7) || m.from == Square(4, 7)),
        additional_key(3),
    );
    xor_if(
        h3,
        c.black_short && (m.from == Square(7, 7) || m.to == Square(7, 7) || m.from == Square(4, 7)),
        additional_key(2),
    )
}

/// The hash after the moved piece has arrived, for each kind of move; `None` where it
/// cannot be computed (a piece or en passant target that is missing, a square without a
/// key, a coordinate that leaves `i8`).
pub open spec fn hash_arrival(h: u64, b: BoardModel, m: ChessMove, p: ChessPiece) -> Option<u64> {
    match m.move_type {
        MoveType::Move(_) => if !slot_ok(m.to) {
            None
        } else {
            let h1 = h ^ piece_key(m.to, p.piece_type, p.color);
            if p.piece_type == PieceType::Pawn {
                let d0 = m.to.0 - m.from.0;
                let d1 = m.to.1 - m.from.1;
                if !(fits_i8(d0) && fits_i8(d1) && d1 != i8::MIN) {
                    None
                } else if d1 == 2 || d1 == -2 {
                    Some(h1 ^ square_key(slot(m.to), 12))
                } else {
                    Some(h1)
                }
            } else {
                Some(h1)
            }
        },
        MoveType::Capture(_) => match b.piece(m.to) {
            None => None,
            Some(cap) => Some(
                h ^ piece_key(m.to, p.piece_type, p.color) ^ piece_key(
                    m.to,
                    cap.piece_type,
                    cap.color,
                ),
            ),
        },
        MoveType::EnPassantMove => match b.en_passant_square {
            None => None,
            Some(ep) => {
                let dr: int = if b.turn == Color::White {
                    -1
                } else {
                    1
                };
                if !fits_i8(ep.1 + dr) || !slot_ok(m.to) {
                    None
                } else {
                    let pawn_sq = Square(ep.0, (ep.1 + dr) as i8);
                    if !slot_ok(pawn_sq) {
                        None
                    } else {
                        Some(
                            h ^ piece_key(m.to, p.piece_type, p.color) ^ piece_key(
                                pawn_sq,
                                PieceType::Pawn,
                                p.color.spec_opp(),
                            ),
                        )
                    }
                }
            },
        },
        MoveType::CastleMove(ct) => if !slot_ok(m.to) {
            None
        } else {
            let (rook_from, rook_to) = rook_castle_squares(ct);
            Some(
                h ^ piece_key(m.to, p.piece_type, p.color) ^ piece_key(
                    rook_from,
                    PieceType::Rook,
                    p.color,
                ) ^ piece_key(rook_to, PieceType::Rook, p.color),
            )
        },
        MoveType::PromotionMove(ppt) => if !slot_ok(m.to) {
            None
        } else {
            Some(h ^ piece_key(m.to, PieceType::spec_from_promoted(ppt), p.color))
        },
        MoveType::PromotionCapture(ppt) => match b.piece(m.to) {
            None => None,
            Some(cap) => Some(
                h ^ piece_key(m.to, cap.piece_type, cap.color) ^ piece_key(
                    m.to,
                    PieceType::spec_from_promoted(ppt),
                    p.color,
                ),
            ),
        },
    }
}

/// The hash of the position after a move, computed from the hash before it; `None` where
/// it cannot be computed (no piece on the start square, an en passant target without a
/// key, or the cases of `hash_arrival`).
pub open spec fn spec_hash_with_move(hash: u64, b: BoardModel, m: ChessMove) -> Option<u64> {
    match b.piece(m.from) {
        None => None,
        Some(p) => {
            let h1 = hash ^ piece_key(m.from, p.piece_type, p.color);
            let h2: Option<u64> = match b.en_passant_square {
                None => Some(h1),
                Some(sq) => if slot_ok(sq) {
                    Some(h1 ^ square_key(slot(sq), 12))
                } else {
                    None
                },
            };
            match h2 {
                None => None,
                Some(h2) => match hash_arrival(h2, b, m, p) {
                    None => None,
                    Some(h3) => Some(
                        spec_hash_with_castling(h3, b, m) ^ additional_key(4),
                    ),
                },
            }
        },
    }
}

fn hash_with_castling(hash: u64, board: &Board, played_move: ChessMove) -> (res: u64)
    ensures
        res == spec_hash_with_castling(hash, board@, played_move),
{
    let mut hash = hash;
    let m = played_move;
    if board.castling.white_long && (m.from == Square(0, 0) || m.to == Square(0, 0) || m.from
        == Square(4, 0)) {
        hash = hash.with(HashedData::Castling(CastleType::WhiteLong));
    }
    if board.castling.white_short && (m.from == Square(7, 0) || m.to == Square(7, 0) || m.from
        == Square(4, 0)) {
        hash = hash.with(HashedData::Castling(CastleType::WhiteShort));
    }
    if board.castling.black_long && (m.from == Square(0, 7) || m.to == Square(0, 7) || m.from
        == Square(4, 7)) {
        hash = hash.with(HashedData::Castling(CastleType::BlackLong));
    }
    if board.castling.black_short && (m.from == Square(7, 7) || m.to == Square(7, 7) || m.from
        == Square(4, 7)) {
        hash = hash.with(HashedData::Castling(CastleType::BlackShort));
    }
    hash
}

/// Whether a position can be hashed (its en passant target, if any, has a key), checked at
/// run time.
pub fn can_hash(board: &Board) -> (res: bool)
    ensures
        res == hashable(board@),
{
    match board.en_passant_square {
        Some(sq) => has_slot(sq),
        None => true,
    }
}

/// Whether a square has a key, checked at run time.
fn has_slot(sq: Square) -> (res: bool)
    ensures
        res == slot_ok(sq),
{
    -16 <= sq.1 && sq.1 <= 15 && 0 <= sq.1 as i16 * 8 + sq.0 as i16 && (sq.1 as i16 * 8
        + sq.0 as i16) < 64
}

/// Decides at run time whether the hash of a move can be computed.
pub fn hash_move_ok(hash: u64, board: &Board, m: ChessMove) -> (res: bool)
    ensures
        res == spec_hash_with_move(hash, board@, m) is Some,
{
    let p = match board.get_square(m.from) {
        Some(p) => p,
        None => return false,
    };
    if let Some(sq) = board.en_passant_square {
        if !has_slot(sq) {
            return false;
        }
    }
    match m.move_type {
        MoveType::Move(_) => {
            if !has_slot(m.to) {
                return false;
            }
            if matches!(p.piece_type, PieceType::Pawn) {
                let d0 = m.to.0 as i16 - m.from.0 as i16;
                let d1 = m.to.1 as i16 - m.from.1 as i16;
                -128 <= d0 && d0 <= 127 && -127 <= d1 && d1 <= 127
            } else {
                true
            }
        },
        MoveType::Capture(_) => board.get_square(m.to).is_some(),
        MoveType::EnPassantMove => match board.en_passant_square {
            None => false,
            Some(ep) => {
                let y: i16 = if matches!(board.turn, Color::White) {
                    ep.1 as i16 - 1
                } else {
                    ep.1 as i16 + 1
                };
                if !(-128 <= y && y <= 127) || !has_slot(m.to) {
                    false
                } else {
                    has_slot(Square(ep.0, y as i8))
                }
            },
        },
        MoveType::CastleMove(_) => has_slot(m.to),
        MoveType::PromotionMove(_) => has_slot(m.to),
        MoveType::PromotionCapture(_) => board.get_square(m.to).is_some(),
    }
}

/// The hash of the position after a move, computed from the hash before it.
pub fn hash_with_move(hash: u64, board: &Board, played_move: ChessMove) -> (res: u64)
    requires
        spec_hash_with_move(hash, board@, played_move) is Some,
    ensures
        Some(res) == spec_hash_with_move(hash, board@, played_move),
{
    let m = played_move;
    let moved_piece = match board.get_square(m.from) {
        Some(p) => p,
        None => {
            assert(false);
            return hash;
        },
    };
    let mut hash = hash.with(HashedData::Square(m.from, moved_piece.piece_type, moved_piece.color));
    if let Some(sq) = board.en_passant_square {
        hash = hash.with(HashedData::EnPassant(sq));
    }
    match m.move_type {
        MoveType::Move(_) => {
            hash = hash.with(HashedData::Square(m.to, moved_piece.piece_type, moved_piece.color));
            if matches!(moved_piece.piece_type, PieceType::Pawn) {
                let d = m.to.1 - m.from.1;
                if d == 2 || d == -2 {
                    hash = hash.with(HashedData::EnPassant(m.to));
                }
            }
        },
        MoveType::Capture(_) => {
            let captured = match board.get_square(m.to) {
                Some(p) => p,
                None => {
                    assert(false);
                    return hash;
                },
            };
            hash = hash.with(HashedData::Square(m.to, moved_piece.piece_type, moved_piece.color)).with(
                HashedData::Square(m.to, captured.piece_type, captured.color),
            );
        },
        MoveType::EnPassantMove => {
            let ep = match board.en_passant_square {
                Some(sq) => sq,
                None => {
                    assert(false);
                    return hash;
                },
            };
            let pawn_sq = match board.turn {
                Color::White => ep.add(Offset(0, -1)),
                Color::Black => ep.add(Offset(0, 1)),
            };
            hash = hash.with(HashedData::Square(m.to, moved_piece.piece_type, moved_piece.color)).with(
                HashedData::Square(pawn_sq, PieceType::Pawn, moved_piece.color.opp()),
            );
        },
        MoveType::CastleMove(castle_type) => {
            let (rook_from, rook_to) = match castle_type {
                CastleType::WhiteShort => (Square(7, 0), Square(5, 0)),
                CastleType::WhiteLong => (Square(0, 0), Square(3, 0)),
                CastleType::BlackShort => (Square(7, 7), Square(5, 7)),
                CastleType::BlackLong => (Square(0, 7), Square(3, 7)),
            };
            hash = hash.with(HashedData::Square(m.to, moved_piece.piece_type, moved_piece.color)).with(
                HashedData::Square(rook_from, PieceType::Rook, moved_piece.color),
            ).with(HashedData::Square(rook_to, PieceType::Rook, moved_piece.color));
        },
        MoveType::PromotionMove(ppt) => {
            hash = hash.with(
                HashedData::Square(m.to, PieceType::from_promoted(ppt), moved_piece.color),
            );
        },
        MoveType::PromotionCapture(ppt) => {
            let captured = match board.get_square(m.to) {
                Some(p) => p,
                None => {
                    assert(false);
                    return hash;
                },
            };
            hash = hash.with(HashedData::Square(m.to, captured.piece_type, captured.color)).with(
                HashedData::Square(m.to, PieceType::from_promoted(ppt), moved_piece.color),
            );
        },
    }
    hash = hash_with_castling(hash, board, m);
    hash.with(HashedData::Turn)
}

/// The contribution of a square's contents to the hash.
pub open spec fn pk(j: int, x: Option<ChessPiece>) -> u64 {
    match x {
        Some(p) => square_key(j, spec_to_hash_idx(p.piece_type, p.color)),
        None => 0,
    }
}

proof fn lemma_xor_zero(h: u64)
    ensures
        h ^ 0u64 == h,
{
    assert(h ^ 0u64 == h) by (bit_vector);
}

proof fn lemma_xor_unchanged(p: u64, a: u64, b: u64, c: u64)
    ensures
        ((p ^ a) ^ b) ^ c == ((p ^ c) ^ a) ^ b,
{
    assert(((p ^ a) ^ b) ^ c == ((p ^ c) ^ a) ^ b) by (bit_vector);
}

proof fn lemma_xor_changed(p: u64, a: u64, x: u64)
    ensures
        p ^ x == ((p ^ a) ^ a) ^ x,
{
    assert(p ^ x == ((p ^ a) ^ a) ^ x) by (bit_vector);
}

proof fn lemma_pieces_hash_step(ps: Seq<Option<ChessPiece>>, n: int)
    requires
        1 <= n,
    ensures
        pieces_hash(ps, n) == pieces_hash(ps, n - 1) ^ pk(n - 1, ps[n - 1]),
{
    lemma_xor_zero(pieces_hash(ps, n - 1));
}

proof fn lemma_update_hash(ps: Seq<Option<ChessPiece>>, j: int, x: Option<ChessPiece>, n: int)
    requires
        0 <= j < ps.len(),
        0 <= n <= ps.len(),
    ensures
        pieces_hash(ps.update(j, x), n) == if n <= j {
            pieces_hash(ps, n)
        } else {
            (pieces_hash(ps, n) ^ pk(j, ps[j])) ^ pk(j, x)
        },
    decreases n,
{
    if n > 0 {
        lemma_update_hash(ps, j, x, n - 1);
        lemma_pieces_hash_step(ps, n);
        lemma_pieces_hash_step(ps.update(j, x), n);
        if n - 1 == j {
            lemma_xor_changed(pieces_hash(ps, j), pk(j, ps[j]), pk(j, x));
        } else if n - 1 > j {
            lemma_xor_unchanged(
                pieces_hash(ps, n - 1),
                pk(j, ps[j]),
                pk(j, x),
                pk(n - 1, ps[n - 1]),
            );
        }
    }
}

/// Changing one square of a position changes the hash of its pieces by the keys of what
/// the square held and holds.
proof fn lemma_set_hash(b: BoardModel, sq: Square, x: Option<ChessPiece>)
    requires
        b.pieces.len() == 64,
        sq.in_bounds(),
    ensures
        pieces_hash(b.set(sq, x).pieces, 64) == (pieces_hash(b.pieces, 64) ^ pk(
            sq.index(),
            b.piece(sq),
        )) ^ pk(sq.index(), x),
        b.set(sq, x).pieces.len() == 64,
{
    lemma_update_hash(b.pieces, sq.index(), x, 64);
}

/// Whether a move agrees with the position in the ways the hash update relies on: its
/// piece stands on its start square; a quiet move or promotion goes to an empty square and
/// is not a double pawn step; an en passant capture goes to the en passant target, by the
/// side to move, and takes a pawn of the other side; a castling move is the king's, its
/// rook stands ready and the squares it goes to are empty.
pub open spec fn hash_consistent_move(b: BoardModel, m: ChessMove) -> bool {
    match b.piece(m.from) {
        None => false,
        Some(p) => match m.move_type {
            MoveType::Move(_) => b.piece(m.to) is None && !(p.piece_type == PieceType::Pawn && (
            m.to.1 - m.from.1 == 2 || m.to.1 - m.from.1 == -2)),
            MoveType::Capture(_) => true,
            MoveType::EnPassantMove => {
                &&& b.en_passant_square == Some(m.to)
                &&& b.turn == p.color
                &&& b.piece(m.to) is None
                &&& b.piece(ep_captured_square(m.to, p.color)) matches Some(q)
                &&& q.piece_type == PieceType::Pawn
                &&& q.color == p.color.spec_opp()
            },
            MoveType::CastleMove(ct) => {
                let (kf, rf, kt, rt) = castle_squares(ct);
                &&& m.from == kf
                &&& m.to == kt
                &&& b.piece(rf) matches Some(r)
                &&& r.piece_type == PieceType::Rook
                &&& r.color == p.color
                &&& b.piece(kt) is None
                &&& b.piece(rt) is None
            },
            MoveType::PromotionMove(_) => b.piece(m.to) is None,
            MoveType::PromotionCapture(_) => true,
        },
    }
}

/// The keys that the arrival of a move adds to the hash.
pub open spec fn arrival_delta(b: BoardModel, m: ChessMove, p: ChessPiece) -> u64 {
    match m.move_type {
        MoveType::Move(_) => piece_key(m.to, p.piece_type, p.color),
        MoveType::Capture(_) => piece_key(m.to, p.piece_type, p.color) ^ piece_key(
            m.to,
            b.piece(m.to)->0.piece_type,
            b.piece(m.to)->0.color,
        ),
        MoveType::EnPassantMove => piece_key(m.to, p.piece_type, p.color) ^ piece_key(
            ep_captured_square(m.to, p.color),
            PieceType::Pawn,
            p.color.spec_opp(),
        ),
        MoveType::CastleMove(ct) => (piece_key(m.to, p.piece_type, p.color) ^ piece_key(
            rook_castle_squares(ct).0,
            PieceType::Rook,
            p.color,
        )) ^ piece_key(rook_castle_squares(ct).1, PieceType::Rook, p.color),
        MoveType::PromotionMove(ppt) => piece_key(
            m.to,
            PieceType::spec_from_promoted(ppt),
            p.color,
        ),
        MoveType::PromotionCapture(ppt) => piece_key(
            m.to,
            b.piece(m.to)->0.piece_type,
            b.piece(m.to)->0.color,
        ) ^ piece_key(m.to, PieceType::spec_from_promoted(ppt), p.color),
    }
}

proof fn lemma_xor_assoc(h: u64, a: u64, b: u64)
    ensures
        (h ^ a) ^ b == h ^ (a ^ b),
{
    assert((h ^ a) ^ b == h ^ (a ^ b)) by (bit_vector);
}

proof fn lemma_xor_assoc4(h: u64, a: u64, b: u64, c: u64)
    ensures
        ((h ^ a) ^ b) ^ c == h ^ ((a ^ b) ^ c),
{
    assert(((h ^ a) ^ b) ^ c == h ^ ((a ^ b) ^ c)) by (bit_vector);
}

/// A key when a condition holds, else zero.
pub open spec fn cond_key(c: bool, k: u64) -> u64 {
    if c {
        k
    } else {
        0
    }
}

proof fn lemma_xor_if(h: u64, c: bool, k: u64)
    ensures
        xor_if(h, c, k) == h ^ cond_key(c, k),
{
    lemma_xor_zero(h);
}

proof fn lemma_split_key(c: bool, l: bool, k: u64)
    ensures
        cond_key(c && !l, k) == cond_key(c, k) ^ cond_key(c && l, k),
{
    assert(k ^ k == 0u64) by (bit_vector);
    assert(0u64 ^ 0u64 == 0u64) by (bit_vector);
    lemma_xor_zero(k);
}

proof fn lemma_turn_key(t: bool, k: u64)
    ensures
        cond_key(!t, k) == cond_key(t, k) ^ k,
{
    assert(k ^ k == 0u64) by (bit_vector);
    assert(0u64 ^ k == k) by (bit_vector);
}

proof fn lemma_xor_identity(
    h: u64,
    kf: u64,
    x: u64,
    u0: u64,
    u1: u64,
    u2: u64,
    u3: u64,
    ut: u64,
    e: u64,
    l0: u64,
    l1: u64,
    l2: u64,
    l3: u64,
    a4: u64,
)
    ensures
        ({
            let l = ((h ^ kf) ^ x) ^ (u0 ^ l0);
            let l = ((l ^ (u1 ^ l1)) ^ (u2 ^ l2)) ^ (u3 ^ l3);
            let l = l ^ (ut ^ a4);
            let r = (((h ^ u0) ^ u1) ^ u2) ^ u3;
            let r = (((r ^ ut) ^ e) ^ kf) ^ e;
            let r = (((r ^ x) ^ l1) ^ l0) ^ l3;
            let r = (r ^ l2) ^ a4;
            l == r
        }),
{
    assert({
        let l = ((h ^ kf) ^ x) ^ (u0 ^ l0);
        let l = ((l ^ (u1 ^ l1)) ^ (u2 ^ l2)) ^ (u3 ^ l3);
        let l = l ^ (ut ^ a4);
        let r = (((h ^ u0) ^ u1) ^ u2) ^ u3;
        let r = (((r ^ ut) ^ e) ^ kf) ^ e;
        let r = (((r ^ x) ^ l1) ^ l0) ^ l3;
        let r = (r ^ l2) ^ a4;
        l == r
    }) by (bit_vector);
}

proof fn lemma_xor_two(a: u64, b: u64, c: u64)
    ensures
        (a ^ b) ^ c == a ^ (c ^ b),
        (a ^ b) ^ c == a ^ (b ^ c),
{
    assert((a ^ b) ^ c == a ^ (c ^ b)) by (bit_vector);
    assert((a ^ b) ^ c == a ^ (b ^ c)) by (bit_vector);
}

proof fn lemma_xor_three(a: u64, b: u64, c: u64, d: u64)
    ensures
        ((a ^ b) ^ c) ^ d == a ^ ((c ^ b) ^ d),
{
    assert(((a ^ b) ^ c) ^ d == a ^ ((c ^ b) ^ d)) by (bit_vector);
}

/// The position in which the pieces of a move are moved: the clock and castling rights
/// already updated and the en passant target cleared.
pub open spec fn before_pieces(b: BoardModel, m: ChessMove) -> BoardModel {
    let b1 = BoardModel {
        half_move_timer_50: if crate::board_setup::models::resets_half_move_timer(m) {
            0
        } else {
            (b.half_move_timer_50 + 1) as u8
        },
        ..b
    };
    BoardModel { en_passant_square: None, castling: b1.castling_after(m), ..b1 }
}

/// The position after the pieces of a move have been moved.
pub open spec fn pieces_moved(b: BoardModel, m: ChessMove) -> BoardModel {
    match m.spec_register(before_pieces(b, m)) {
        Some((b3, _)) => b3,
        None => b,
    }
}

/// What moving the pieces of a move does to the hash of the pieces and to the rest.
spec fn pieces_post(b: BoardModel, m: ChessMove) -> bool {
    let p = b.piece(m.from)->0;
    let b3 = pieces_moved(b, m);
    &&& pieces_hash(b3.pieces, 64) == pieces_hash(b.pieces, 64) ^ piece_key(
        m.from,
        p.piece_type,
        p.color,
    ) ^ arrival_delta(b, m, p)
    &&& b3.castling == before_pieces(b, m).castling
    &&& b3.turn == b.turn
    &&& b3.en_passant_square is None
    &&& b3.pieces.len() == 64
    &&& m.from.in_bounds()
    &&& m.to.in_bounds()
    &&& (m.move_type is Capture || m.move_type is PromotionCapture ==> b.piece(m.to) is Some)
    &&& (m.move_type is EnPassantMove ==> ep_captured_square(m.to, p.color).in_bounds())
}

/// Whether the pieces of a move can be moved in the position.
spec fn pieces_move_ok(b: BoardModel, m: ChessMove) -> bool {
    m.spec_register(before_pieces(b, m)) matches Some((_, r)) && r is Ok
}

proof fn lemma_pieces_start(b: BoardModel, m: ChessMove)
    requires
        b.pieces.len() == 64,
        hash_consistent_move(b, m),
        pieces_move_ok(b, m),
    ensures
        ({
            let p = b.piece(m.from)->0;
            let h = pieces_hash(b.pieces, 64);
            let kf = piece_key(m.from, p.piece_type, p.color);
            &&& before_pieces(b, m).pieces == b.pieces
            &&& pieces_hash(before_pieces(b, m).set(m.from, None).pieces, 64) == h ^ kf
            &&& before_pieces(b, m).set(m.from, None).pieces.len() == 64
        }),
{
    let p = b.piece(m.from)->0;
    let bm = before_pieces(b, m);
    let h = pieces_hash(b.pieces, 64);
    let kf = piece_key(m.from, p.piece_type, p.color);
    lemma_set_hash(bm, m.from, None);
    lemma_xor_zero(h ^ kf);
}

proof fn lemma_pieces_quiet(b: BoardModel, m: ChessMove)
    requires
        b.pieces.len() == 64,
        hash_consistent_move(b, m),
        pieces_move_ok(b, m),
        m.move_type is Move,
    ensures
        pieces_post(b, m),
{
    lemma_pieces_start(b, m);
    let p = b.piece(m.from)->0;
    let h = pieces_hash(b.pieces, 64);
    let kf = piece_key(m.from, p.piece_type, p.color);
    let b1 = before_pieces(b, m).set(m.from, None);
    let b2 = if p.piece_type == PieceType::King { b1.with_king(m.to, p.color) } else { b1 };
    let b3 = if p.piece_type == PieceType::Pawn {
        BoardModel { half_move_timer_50: 0, ..b2 }
    } else {
        b2
    };
    lemma_set_hash(b3, m.to, Some(ChessPiece { position: m.to, ..p }));
    lemma_xor_zero(h ^ kf);
}

proof fn lemma_pieces_capture(b: BoardModel, m: ChessMove)
    requires
        b.pieces.len() == 64,
        hash_consistent_move(b, m),
        pieces_move_ok(b, m),
        m.move_type is Capture,
    ensures
        pieces_post(b, m),
{
    lemma_pieces_start(b, m);
    let p = b.piece(m.from)->0;
    let h = pieces_hash(b.pieces, 64);
    let kf = piece_key(m.from, p.piece_type, p.color);
    let b1 = before_pieces(b, m).set(m.from, None);
    let cap = b.piece(m.to)->0;
    let kc = piece_key(m.to, cap.piece_type, cap.color);
    let kt = piece_key(m.to, p.piece_type, p.color);
    lemma_set_hash(b1, m.to, None);
    let b2 = b1.set(m.to, None);
    lemma_xor_zero((h ^ kf) ^ kc);
    let b3 = if p.piece_type == PieceType::King { b2.with_king(m.to, p.color) } else { b2 };
    let b4 = b3.with_material_change(
        cap.color,
        -(crate::move_generator::models::spec_mating_points(cap.piece_type) as int),
    )->0;
    lemma_set_hash(b4, m.to, Some(ChessPiece { position: m.to, ..p }));
    lemma_xor_two(h ^ kf, kc, kt);
}

proof fn lemma_pieces_en_passant(b: BoardModel, m: ChessMove)
    requires
        b.pieces.len() == 64,
        hash_consistent_move(b, m),
        pieces_move_ok(b, m),
        m.move_type is EnPassantMove,
    ensures
        pieces_post(b, m),
{
    lemma_pieces_start(b, m);
    let p = b.piece(m.from)->0;
    let h = pieces_hash(b.pieces, 64);
    let kf = piece_key(m.from, p.piece_type, p.color);
    let b1 = before_pieces(b, m).set(m.from, None);
    let cs = ep_captured_square(m.to, p.color);
    let cap = b.piece(cs)->0;
    let kc = piece_key(cs, cap.piece_type, cap.color);
    let kt = piece_key(m.to, p.piece_type, p.color);
    lemma_set_hash(b1, cs, None);
    let b2 = b1.set(cs, None);
    lemma_xor_zero((h ^ kf) ^ kc);
    let b3 = b2.with_material_change(cap.color, -3)->0;
    lemma_set_hash(b3, m.to, Some(ChessPiece { position: m.to, ..p }));
    lemma_xor_two(h ^ kf, kc, kt);
}

proof fn lemma_pieces_castle(b: BoardModel, m: ChessMove)
    requires
        b.pieces.len() == 64,
        hash_consistent_move(b, m),
        pieces_move_ok(b, m),
        m.move_type is CastleMove,
    ensures
        pieces_post(b, m),
{
    lemma_pieces_start(b, m);
    let p = b.piece(m.from)->0;
    let h = pieces_hash(b.pieces, 64);
    let kf = piece_key(m.from, p.piece_type, p.color);
    let b1 = before_pieces(b, m).set(m.from, None);
    let ct = m.move_type->CastleMove_0;
    let (kfs, rf, kts, rt) = castle_squares(ct);
    let rook = b.piece(rf)->0;
    let kr = piece_key(rf, rook.piece_type, rook.color);
    let kt = piece_key(m.to, p.piece_type, p.color);
    let krt = piece_key(rt, rook.piece_type, rook.color);
    let b2 = b1.with_king(kts, p.color);
    lemma_set_hash(b2, rf, None);
    let b3 = b2.set(rf, None);
    lemma_xor_zero((h ^ kf) ^ kr);
    lemma_set_hash(b3, kts, Some(ChessPiece { position: kts, ..p }));
    let b4 = b3.set(kts, Some(ChessPiece { position: kts, ..p }));
    lemma_set_hash(b4, rt, Some(ChessPiece { position: rt, ..rook }));
    lemma_xor_zero(((h ^ kf) ^ kr) ^ kt);
    lemma_xor_three(h ^ kf, kr, kt, krt);
}

proof fn lemma_pieces_promotion(b: BoardModel, m: ChessMove)
    requires
        b.pieces.len() == 64,
        hash_consistent_move(b, m),
        pieces_move_ok(b, m),
        m.move_type is PromotionMove,
    ensures
        pieces_post(b, m),
{
    lemma_pieces_start(b, m);
    let p = b.piece(m.from)->0;
    let h = pieces_hash(b.pieces, 64);
    let kf = piece_key(m.from, p.piece_type, p.color);
    let b1 = before_pieces(b, m).set(m.from, None);
    let ppt = m.move_type->PromotionMove_0;
    let new_p = crate::move_register::spec_promote_piece(ppt, m.to, p.color);
    let b2 = b1.with_material_change(
        new_p.color,
        crate::move_generator::models::spec_mating_points(new_p.piece_type) - 3,
    )->0;
    lemma_set_hash(b2, m.to, Some(ChessPiece { position: m.to, ..new_p }));
    lemma_xor_zero(h ^ kf);
}

proof fn lemma_pieces_promotion_capture(b: BoardModel, m: ChessMove)
    requires
        b.pieces.len() == 64,
        hash_consistent_move(b, m),
        pieces_move_ok(b, m),
        m.move_type is PromotionCapture,
    ensures
        pieces_post(b, m),
{
    lemma_pieces_start(b, m);
    let p = b.piece(m.from)->0;
    let h = pieces_hash(b.pieces, 64);
    let kf = piece_key(m.from, p.piece_type, p.color);
    let b1 = before_pieces(b, m).set(m.from, None);
    let ppt = m.move_type->PromotionCapture_0;
    let cap = b.piece(m.to)->0;
    let kc = piece_key(m.to, cap.piece_type, cap.color);
    let new_p = crate::move_register::spec_promote_piece(ppt, m.to, p.color);
    let kp = piece_key(m.to, new_p.piece_type, new_p.color);
    lemma_set_hash(b1, m.to, None);
    let b2 = b1.set(m.to, None);
    lemma_xor_zero((h ^ kf) ^ kc);
    let b3 = b2.with_material_change(
        cap.color,
        -(crate::move_generator::models::spec_mating_points(cap.piece_type) as int),
    )->0;
    let b4 = b3.with_material_change(
        new_p.color,
        crate::move_generator::models::spec_mating_points(new_p.piece_type) - 3,
    )->0;
    lemma_set_hash(b4, m.to, Some(ChessPiece { position: m.to, ..new_p }));
    lemma_xor_two(h ^ kf, kc, kp);
}

proof fn lemma_register_pieces(b: BoardModel, m: ChessMove)
    requires
        b.pieces.len() == 64,
        hash_consistent_move(b, m),
        pieces_move_ok(b, m),
    ensures
        pieces_post(b, m),
{
    match m.move_type {
        MoveType::Move(_) => lemma_pieces_quiet(b, m),
        MoveType::Capture(_) => lemma_pieces_capture(b, m),
        MoveType::EnPassantMove => lemma_pieces_en_passant(b, m),
        MoveType::CastleMove(_) => lemma_pieces_castle(b, m),
        MoveType::PromotionMove(_) => lemma_pieces_promotion(b, m),
        MoveType::PromotionCapture(_) => lemma_pieces_promotion_capture(b, m),
    }
}

proof fn lemma_arrival(h: u64, b: BoardModel, m: ChessMove)
    requires
        b.pieces.len() == 64,
        hash_consistent_move(b, m),
        m.from.in_bounds(),
        m.to.in_bounds(),
        m.move_type is EnPassantMove ==> ep_captured_square(m.to, b.piece(m.from)->0.color).in_bounds(),
        m.move_type is Capture || m.move_type is PromotionCapture ==> b.piece(m.to) is Some,
    ensures
        hash_arrival(h, b, m, b.piece(m.from)->0) == Some(h ^ arrival_delta(b, m, b.piece(m.from)->0)),
{
    let p = b.piece(m.from)->0;
    assert(slot_ok(m.to));
    match m.move_type {
        MoveType::Move(_) => {
            assert(fits_i8(m.to.0 - m.from.0) && fits_i8(m.to.1 - m.from.1));
        },
        MoveType::Capture(_) => {
            let cap = b.piece(m.to)->0;
            lemma_xor_assoc(h, piece_key(m.to, p.piece_type, p.color), piece_key(m.to, cap.piece_type, cap.color));
        },
        MoveType::EnPassantMove => {
            let cs = ep_captured_square(m.to, p.color);
            lemma_xor_assoc(h, piece_key(m.to, p.piece_type, p.color), piece_key(cs, PieceType::Pawn, p.color.spec_opp()));
        },
        MoveType::CastleMove(ct) => {
            let (rf, rt) = rook_castle_squares(ct);
            lemma_xor_assoc4(h, piece_key(m.to, p.piece_type, p.color), piece_key(rf, PieceType::Rook, p.color), piece_key(rt, PieceType::Rook, p.color));
        },
        MoveType::PromotionMove(_) => {},
        MoveType::PromotionCapture(ppt) => {
            let cap = b.piece(m.to)->0;
            lemma_xor_assoc(h, piece_key(m.to, cap.piece_type, cap.color), piece_key(m.to, PieceType::spec_from_promoted(ppt), p.color));
        },
    }
}

/// The position after a move, where it can be played.
pub open spec fn registered(b: BoardModel, m: ChessMove) -> BoardModel {
    match b.spec_register_move(m) {
        Some((b2, _)) => b2,
        None => b,
    }
}

/// Incremental hashing: for a move that agrees with the position (see
/// `hash_consistent_move`) and is played without error, updating the hash of the position
/// with the move gives the hash of the position after the move.
#[verifier::spinoff_prover]
#[verifier::rlimit(40)]
pub proof fn lemma_incremental_hash(b: BoardModel, m: ChessMove)
    requires
        b.pieces.len() == 64,
        hashable(b),
        hash_consistent_move(b, m),
        b.spec_register_move(m) matches Some((_, r)) && r is Ok,
    ensures
        spec_hash_with_move(hash_of(b), b, m) == Some(hash_of(registered(b, m))),
{
    let bm = before_pieces(b, m);
    assert(pieces_move_ok(b, m));
    lemma_register_pieces(b, m);
    let p = b.piece(m.from)->0;
    let b3 = pieces_moved(b, m);
    let b4 = registered(b, m);
    assert(b4.pieces == b3.pieces);
    assert(b4.castling == bm.castling);
    assert(b4.turn == b.turn.spec_opp());
    assert(b4.en_passant_square is None);
    let h = pieces_hash(b.pieces, 64);
    let kf = piece_key(m.from, p.piece_type, p.color);
    let x = arrival_delta(b, m, p);
    let c = b.castling;
    let a0 = additional_key(0);
    let a1 = additional_key(1);
    let a2 = additional_key(2);
    let a3 = additional_key(3);
    let a4 = additional_key(4);
    let lws = m.from == Square(7, 0) || m.to == Square(7, 0) || m.from == Square(4, 0);
    let lwl = m.from == Square(0, 0) || m.to == Square(0, 0) || m.from == Square(4, 0);
    let lbs = m.from == Square(7, 7) || m.to == Square(7, 7) || m.from == Square(4, 7);
    let lbl = m.from == Square(0, 7) || m.to == Square(0, 7) || m.from == Square(4, 7);
    let tb = b.turn == Color::Black;
    let has_ep = b.en_passant_square is Some;
    let epk = square_key(slot(b.en_passant_square->0), 12);
    let u0 = cond_key(c.white_short, a0);
    let u1 = cond_key(c.white_long, a1);
    let u2 = cond_key(c.black_short, a2);
    let u3 = cond_key(c.black_long, a3);
    let ut = cond_key(tb, a4);
    let e = cond_key(has_ep, epk);
    let l0 = cond_key(c.white_short && lws, a0);
    let l1 = cond_key(c.white_long && lwl, a1);
    let l2 = cond_key(c.black_short && lbs, a2);
    let l3 = cond_key(c.black_long && lbl, a3);
    // the hash of the position after the move
    let g0 = (h ^ kf) ^ x;
    lemma_xor_if(g0, c.white_short && !lws, a0);
    lemma_split_key(c.white_short, lws, a0);
    let g1 = g0 ^ (u0 ^ l0);
    lemma_xor_if(g1, c.white_long && !lwl, a1);
    lemma_split_key(c.white_long, lwl, a1);
    let g2 = g1 ^ (u1 ^ l1);
    lemma_xor_if(g2, c.black_short && !lbs, a2);
    lemma_split_key(c.black_short, lbs, a2);
    let g3 = g2 ^ (u2 ^ l2);
    lemma_xor_if(g3, c.black_long && !lbl, a3);
    lemma_split_key(c.black_long, lbl, a3);
    let g4 = g3 ^ (u3 ^ l3);
    lemma_xor_if(g4, !tb, a4);
    lemma_turn_key(tb, a4);
    assert(b4.turn == Color::Black <==> !tb);
    assert(hash_of(b4) == g4 ^ (ut ^ a4));
    // the hash of the position before the move
    lemma_xor_if(h, c.white_short, a0);
    let f0 = h ^ u0;
    lemma_xor_if(f0, c.white_long, a1);
    let f1 = f0 ^ u1;
    lemma_xor_if(f1, c.black_short, a2);
    let f2 = f1 ^ u2;
    lemma_xor_if(f2, c.black_long, a3);
    let f3 = f2 ^ u3;
    lemma_xor_if(f3, tb, a4);
    let f4 = f3 ^ ut;
    lemma_xor_zero(f4);
    assert(hash_of(b) == f4 ^ e);
    // the update
    let k1 = (f4 ^ e) ^ kf;
    lemma_xor_zero(k1);
    let k2 = k1 ^ e;
    lemma_arrival(k2, b, m);
    let k3 = k2 ^ x;
    lemma_xor_if(k3, c.white_long && lwl, a1);
    lemma_xor_if(k3 ^ l1, c.white_short && lws, a0);
    lemma_xor_if((k3 ^ l1) ^ l0, c.black_long && lbl, a3);
    lemma_xor_if(((k3 ^ l1) ^ l0) ^ l3, c.black_short && lbs, a2);
    assert(spec_hash_with_castling(k3, b, m) == (((k3 ^ l1) ^ l0) ^ l3) ^ l2);
    lemma_xor_identity(h, kf, x, u0, u1, u2, u3, ut, e, l0, l1, l2, l3, a4);
}

} // verus!
