use vstd::prelude::*;

use crate::board_setup::models::{AvailableCastles, Board, BoardError, BoardModel, FenNotation};
use crate::move_generator::models::{ChessPiece, Color, PieceType, Square};
use crate::move_generator::models::{push_char, push_str};
use crate::text::{
    chars_of, dec, int_dec, is_digit, parse_unsigned, parse_unsigned_exec, push_dec,
    push_int_dec, seqs_of, split_words, words,
};

verus! {

/// The piece a FEN letter stands for: an upper-case letter is a white piece, a lower-case
/// one a black piece.
pub open spec fn piece_of_char(c: char) -> Option<(PieceType, Color)> {
    if c == 'P' { Some((PieceType::Pawn, Color::White)) }
    else if c == 'N' { Some((PieceType::Knight, Color::White)) }
    else if c == 'B' { Some((PieceType::Bishop, Color::White)) }
    else if c == 'R' { Some((PieceType::Rook, Color::White)) }
    else if c == 'Q' { Some((PieceType::Queen, Color::White)) }
    else if c == 'K' { Some((PieceType::King, Color::White)) }
    else if c == 'p' { Some((PieceType::Pawn, Color::Black)) }
    else if c == 'n' { Some((PieceType::Knight, Color::Black)) }
    else if c == 'b' { Some((PieceType::Bishop, Color::Black)) }
    else if c == 'r' { Some((PieceType::Rook, Color::Black)) }
    else if c == 'q' { Some((PieceType::Queen, Color::Black)) }
    else if c == 'k' { Some((PieceType::King, Color::Black)) }
    else { None }
}

/// The piece a FEN letter stands for, placed on a square.
pub fn piece_from_char(c: char, sq: Square) -> (res: Result<ChessPiece, BoardError>)
    ensures
        match piece_of_char(c) {
            Some((t, col)) => res == Ok::<ChessPiece, BoardError>(
                ChessPiece { piece_type: t, color: col, position: sq },
            ),
            None => res == Err::<ChessPiece, BoardError>(BoardError::ConversionFailure),
        },
{
    let (piece_type, color) = if c == 'P' { (PieceType::Pawn, Color::White) }
    else if c == 'N' { (PieceType::Knight, Color::White) }
    else if c == 'B' { (PieceType::Bishop, Color::White) }
    else if c == 'R' { (PieceType::Rook, Color::White) }
    else if c == 'Q' { (PieceType::Queen, Color::White) }
    else if c == 'K' { (PieceType::King, Color::White) }
    else if c == 'p' { (PieceType::Pawn, Color::Black) }
    else if c == 'n' { (PieceType::Knight, Color::Black) }
    else if c == 'b' { (PieceType::Bishop, Color::Black) }
    else if c == 'r' { (PieceType::Rook, Color::Black) }
    else if c == 'q' { (PieceType::Queen, Color::Black) }
    else if c == 'k' { (PieceType::King, Color::Black) }
    else { return Err(BoardError::ConversionFailure) };
    Ok(ChessPiece { piece_type, color, position: sq })
}

/// What has been read of the piece placement field so far.
pub struct Placement {
    pub pieces: Seq<Option<ChessPiece>>,
    pub rank: int,
    pub file: int,
    pub white_material: int,
    pub black_material: int,
    pub white_king: Square,
    pub black_king: Square,
}

/// The state before the first character: an empty board, at the start of the eighth rank.
pub open spec fn placement_start() -> Placement {
    Placement {
        pieces: Seq::new(64, |i: int| None),
        rank: 7,
        file: 0,
        white_material: 0,
        black_material: 0,
        white_king: Square(0, 0),
        black_king: Square(0, 0),
    }
}

/// Reading one character of the placement field: a digit skips squares, `/` starts the
/// next rank down, a letter puts a piece. `None` for a character that cannot be read at
/// this point: a `/` below the first rank, or a piece beyond the h-file.
pub open spec fn placement_step(st: Placement, c: char) -> Option<Result<Placement, BoardError>> {
    if '1' <= c <= '8' {
        Some(Ok(Placement { file: st.file + (c as int - 48), ..st }))
    } else if c == '/' {
        if st.rank == 0 {
            None
        } else {
            Some(Ok(Placement { rank: st.rank - 1, file: 0, ..st }))
        }
    } else {
        match piece_of_char(c) {
            None => Some(Err(BoardError::ConversionFailure)),
            Some((t, col)) => if st.file >= 8 {
                None
            } else {
                let pos = Square(st.file as i8, st.rank as i8);
                let p = ChessPiece { piece_type: t, color: col, position: pos };
                let pts = crate::move_generator::models::spec_mating_points(t) as int;
                Some(
                    Ok(
                        Placement {
                            pieces: st.pieces.update(st.rank * 8 + st.file, Some(p)),
                            file: st.file + 1,
                            white_material: if col == Color::White {
                                st.white_material + pts
                            } else {
                                st.white_material
                            },
                            black_material: if col == Color::Black {
                                st.black_material + pts
                            } else {
                                st.black_material
                            },
                            white_king: if t == PieceType::King && col == Color::White {
                                pos
                            } else {
                                st.white_king
                            },
                            black_king: if t == PieceType::King && col == Color::Black {
                                pos
                            } else {
                                st.black_king
                            },
                            ..st
                        },
                    ),
                )
            },
        }
    }
}

/// Reading the rest of the placement field from a state.
pub open spec fn placement_from(st: Placement, cs: Seq<char>) -> Option<
    Result<Placement, BoardError>,
>
    decreases cs.len(),
{
    if cs.len() == 0 {
        Some(Ok(st))
    } else {
        match placement_step(st, cs[0]) {
            None => None,
            Some(Err(e)) => Some(Err(e)),
            Some(Ok(st2)) => placement_from(st2, cs.drop_first()),
        }
    }
}

/// Reading the castling field from the rights found so far; `None` on a character other
/// than `K`, `Q`, `k`, `q` or `-`.
pub open spec fn castling_from(c: AvailableCastles, cs: Seq<char>) -> Option<AvailableCastles>
    decreases cs.len(),
{
    if cs.len() == 0 {
        Some(c)
    } else {
        let ch = cs[0];
        if ch == 'K' {
            castling_from(AvailableCastles { white_short: true, ..c }, cs.drop_first())
        } else if ch == 'k' {
            castling_from(AvailableCastles { black_short: true, ..c }, cs.drop_first())
        } else if ch == 'Q' {
            castling_from(AvailableCastles { white_long: true, ..c }, cs.drop_first())
        } else if ch == 'q' {
            castling_from(AvailableCastles { black_long: true, ..c }, cs.drop_first())
        } else if ch == '-' {
            castling_from(c, cs.drop_first())
        } else {
            None
        }
    }
}

pub open spec fn no_castles() -> AvailableCastles {
    AvailableCastles { white_short: false, white_long: false, black_short: false, black_long: false }
}

/// The number of bytes of a character in UTF-8.
pub open spec fn utf8_width(c: char) -> int {
    if (c as u32) < 0x80 {
        1
    } else if (c as u32) < 0x800 {
        2
    } else if (c as u32) < 0x10000 {
        3
    } else {
        4
    }
}

/// The number of bytes of a text in UTF-8.
pub open spec fn byte_len(s: Seq<char>) -> int
    decreases s.len(),
{
    if s.len() == 0 {
        0
    } else {
        byte_len(s.drop_last()) + utf8_width(s.last())
    }
}

/// The low byte of a character's code.
pub open spec fn low_byte(c: char) -> int {
    (c as u32) as int % 256
}

/// Reading a square such as `e3`: the file is the low byte of the first character's code
/// minus 97, the rank the second character's digit minus one. `None` for a first
/// character whose low byte is below 97; an error for a text that is not two bytes long or
/// whose second character is not a digit.
pub open spec fn square_of_word(w: Seq<char>) -> Option<Result<Square, BoardError>> {
    if byte_len(w) != 2 {
        Some(Err(BoardError::ConversionFailure))
    } else if low_byte(w[0]) < 97 {
        None
    } else if w.len() < 2 || !is_digit(w[1]) {
        Some(Err(BoardError::ConversionFailure))
    } else {
        Some(Ok(Square((low_byte(w[0]) - 97) as i8, (w[1] as int - 49) as i8)))
    }
}

/// The position a FEN text describes: the position, an error, or `None` for a text that
/// cannot be read at all (too few fields, a side to move other than `w` or `b`, and the
/// cases of `placement_step` and `square_of_word`).
pub open spec fn spec_parse_fen(s: Seq<char>) -> Option<Result<BoardModel, BoardError>> {
    let w = words(s);
    if w.len() == 0 {
        None
    } else {
        match placement_from(placement_start(), w[0]) {
            None => None,
            Some(Err(e)) => Some(Err(e)),
            Some(Ok(pl)) => if w.len() < 2 {
                None
            } else if w[1] != seq!['w'] && w[1] != seq!['b'] {
                None
            } else if w.len() < 3 {
                None
            } else {
                match castling_from(no_castles(), w[2]) {
                    None => Some(Err(BoardError::ConversionFailure)),
                    Some(castling) => if w.len() < 4 {
                        None
                    } else {
                        let ep: Option<Result<Option<Square>, BoardError>> = if w[3] == seq![
                            '-',
                        ] {
                            Some(Ok(None))
                        } else {
                            match square_of_word(w[3]) {
                                None => None,
                                Some(Err(e)) => Some(Err(e)),
                                Some(Ok(sq)) => Some(Ok(Some(sq))),
                            }
                        };
                        match ep {
                            None => None,
                            Some(Err(e)) => Some(Err(e)),
                            Some(Ok(en_passant_square)) => if w.len() < 5 {
                                None
                            } else {
                                match parse_unsigned(w[4], 255) {
                                    None => Some(Err(BoardError::ConversionFailure)),
                                    Some(half) => if w.len() < 6 {
                                        None
                                    } else {
                                        match parse_unsigned(w[5], 65535) {
                                            None => Some(Err(BoardError::ConversionFailure)),
                                            Some(full) => Some(
                                                Ok(
                                                    BoardModel {
                                                        pieces: pl.pieces,
                                                        turn: if w[1] == seq!['w'] {
                                                            Color::White
                                                        } else {
                                                            Color::Black
                                                        },
                                                        castling,
                                                        en_passant_square,
                                                        half_move_timer_50: half as u8,
                                                        full_move_number: full as u16,
                                                        mating_material: (
                                                            pl.white_material as u8,
                                                            pl.black_material as u8,
                                                        ),
                                                        king_positions: (
                                                            pl.white_king,
                                                            pl.black_king,
                                                        ),
                                                    },
                                                ),
                                            ),
                                        }
                                    },
                                }
                            },
                        }
                    },
                }
            },
        }
    }
}

/// Whether a word is the one given character.
fn is_single(w: &Vec<char>, c: char) -> (res: bool)
    ensures
        res == (w@ == seq![c]),
{
    if w.len() == 1 && w[0] == c {
        assert(w@ =~= seq![c]);
        true
    } else {
        proof {
            if w@ == seq![c] {
                assert(w@.len() == 1 && w@[0] == c);
            }
        }
        false
    }
}

fn width(c: char) -> (res: usize)
    ensures
        res == utf8_width(c),
{
    let u = c as u32;
    if u < 0x80 {
        1
    } else if u < 0x800 {
        2
    } else if u < 0x10000 {
        3
    } else {
        4
    }
}

proof fn lemma_byte_len_grows(s: Seq<char>, i: int)
    requires
        0 <= i <= s.len(),
    ensures
        byte_len(s.take(i)) <= byte_len(s),
        byte_len(s.take(i)) >= i,
    decreases s.len() - i,
{
    lemma_byte_len_at_least_len(s.take(i));
    if i < s.len() {
        lemma_byte_len_grows(s, i + 1);
        assert(s.take(i + 1).drop_last() =~= s.take(i));
    } else {
        assert(s.take(i) =~= s);
        lemma_byte_len_at_least_len(s);
    }
}

proof fn lemma_byte_len_at_least_len(s: Seq<char>)
    ensures
        byte_len(s) >= s.len(),
    decreases s.len(),
{
    if s.len() > 0 {
        lemma_byte_len_at_least_len(s.drop_last());
    }
}

/// Whether a text is two bytes long in UTF-8.
fn has_two_bytes(w: &Vec<char>) -> (res: bool)
    ensures
        res == (byte_len(w@) == 2),
{
    let mut total: usize = 0;
    let mut i: usize = 0;
    while i < w.len()
        invariant
            i <= w.len(),
            total == byte_len(w@.take(i as int)),
            total <= 2,
        decreases w.len() - i,
    {
        assert(w@.take(i as int + 1).drop_last() =~= w@.take(i as int));
        total = total + width(w[i]);
        if total > 2 {
            proof {
                lemma_byte_len_grows(w@, i as int + 1);
            }
            return false;
        }
        i = i + 1;
    }
    assert(w@.take(w@.len() as int) =~= w@);
    total == 2
}

/// Reads a square such as `e3` (see `square_of_word`).
pub fn square_from_word(w: &Vec<char>) -> (res: Option<Result<Square, BoardError>>)
    ensures
        res == square_of_word(w@),
{
    if !has_two_bytes(w) {
        return Some(Err(BoardError::ConversionFailure));
    }
    proof {
        lemma_byte_len_at_least_len(w@);
        if w@.len() == 0 {
            assert(byte_len(w@) == 0);
        }
    }
    let low = (w[0] as u32) % 256;
    if low < 97 {
        return None;
    }
    if w.len() < 2 {
        return Some(Err(BoardError::ConversionFailure));
    }
    let c1 = w[1];
    if !('0' <= c1 && c1 <= '9') {
        return Some(Err(BoardError::ConversionFailure));
    }
    let file = ((low - 97) as u8) as i8;
    let rank = ((c1 as u32) - 48) as i8 - 1;
    proof {
        assert(file == (low - 97) as i8) by (bit_vector)
            requires
                97 <= low < 256,
                file == ((low - 97) as u8) as i8,
        ;
        assert(low_byte(w@[0]) == low);
    }
    Some(Ok(Square(file, rank)))
}

/// The state of reading the placement field, held in a board.
spec fn placement_held(b: Board, file: usize, placed: int, st: Placement) -> bool {
    &&& b@.pieces == st.pieces
    &&& b@.mating_material.0 == st.white_material
    &&& b@.mating_material.1 == st.black_material
    &&& b@.king_positions == (st.white_king, st.black_king)
    &&& 0 <= st.rank <= 7
    &&& st.file >= 0
    &&& file == (if st.file < 9 { st.file } else { 9 })
    &&& 0 <= placed
    &&& st.white_material + st.black_material <= 3 * placed
    &&& placed <= 8 * (7 - st.rank) + (if st.file < 8 { st.file } else { 8 })
}

proof fn lemma_placement_unfold(st: Placement, cs: Seq<char>, i: int)
    requires
        0 <= i < cs.len(),
    ensures
        placement_from(st, cs.skip(i)) == match placement_step(st, cs[i]) {
            None => None,
            Some(Err(e)) => Some(Err(e)),
            Some(Ok(st2)) => placement_from(st2, cs.skip(i + 1)),
        },
{
    assert(cs.skip(i).drop_first() =~= cs.skip(i + 1));
    assert(cs.skip(i)[0] == cs[i]);
}

/// Reads the placement field into a board; `None` for a field that cannot be read (see
/// `placement_step`).
fn read_placement(cs: &Vec<char>, b: &mut Board) -> (res: Option<Result<(), BoardError>>)
    requires
        old(b)@.pieces == placement_start().pieces,
        old(b)@.mating_material == (0u8, 0u8),
        old(b)@.king_positions == (Square(0, 0), Square(0, 0)),
    ensures
        match placement_from(placement_start(), cs@) {
            None => res is None,
            Some(Err(e)) => res == Some(Err::<(), BoardError>(e)),
            Some(Ok(pl)) => res == Some(Ok::<(), BoardError>(())) && final(b)@ == (BoardModel {
                pieces: pl.pieces,
                mating_material: (pl.white_material as u8, pl.black_material as u8),
                king_positions: (pl.white_king, pl.black_king),
                ..old(b)@
            }),
        },
{
    let ghost start = placement_start();
    let ghost mut st = start;
    let ghost mut placed: int = 0;
    let mut rank: usize = 7;
    let mut file: usize = 0;
    let mut i: usize = 0;
    assert(cs@.skip(0) =~= cs@);
    while i < cs.len()
        invariant
            i <= cs.len(),
            start == placement_start(),
            placement_from(start, cs@) == placement_from(st, cs@.skip(i as int)),
            placement_held(*b, file, placed, st),
            rank == st.rank,
            b@ == (BoardModel {
                pieces: b@.pieces,
                mating_material: b@.mating_material,
                king_positions: b@.king_positions,
                ..old(b)@
            }),
        decreases cs.len() - i,
    {
        let c = cs[i];
        proof {
            lemma_placement_unfold(st, cs@, i as int);
        }
        if '1' <= c && c <= '8' {
            let d = (c as u32 - 48) as usize;
            file = if file + d < 9 { file + d } else { 9 };
            proof {
                st = Placement { file: st.file + (c as int - 48), ..st };
            }
        } else if c == '/' {
            if rank == 0 {
                return None;
            }
            rank = rank - 1;
            file = 0;
            proof {
                st = Placement { rank: st.rank - 1, file: 0, ..st };
            }
        } else {
            let sq = Square(file as i8, rank as i8);
            let piece = match piece_from_char(c, sq) {
                Ok(p) => p,
                Err(e) => return Some(Err(e)),
            };
            if file >= 8 {
                return None;
            }
            let ghost old_st = st;
            let ghost step = placement_step(st, c);
            let pts = piece.mating_material_points();
            proof {
                assert(pts <= 3);
            }
            match piece.color {
                Color::White => b.mating_material.0 = b.mating_material.0 + pts,
                Color::Black => b.mating_material.1 = b.mating_material.1 + pts,
            }
            if matches!(piece.piece_type, PieceType::King) {
                match piece.color {
                    Color::White => b.king_positions.0 = sq,
                    Color::Black => b.king_positions.1 = sq,
                }
            }
            b.set_square(sq, Some(piece));
            file = file + 1;
            proof {
                st = step->0->Ok_0;
                placed = placed + 1;
                assert(sq.index() == old_st.rank * 8 + old_st.file);
            }
        }
        i = i + 1;
    }
    assert(cs@.skip(cs@.len() as int) =~= Seq::<char>::empty());
    Some(Ok(()))
}

/// Reads the castling field (see `castling_from`); `None` on a character other than
/// `K`, `Q`, `k`, `q` or `-`.
fn read_castling(cs: &Vec<char>) -> (res: Option<AvailableCastles>)
    ensures
        res == castling_from(no_castles(), cs@),
{
    let mut c = AvailableCastles::all_false();
    let mut i: usize = 0;
    assert(cs@.skip(0) =~= cs@);
    while i < cs.len()
        invariant
            i <= cs.len(),
            castling_from(no_castles(), cs@) == castling_from(c, cs@.skip(i as int)),
        decreases cs.len() - i,
    {
        let ch = cs[i];
        assert(cs@.skip(i as int).drop_first() =~= cs@.skip(i as int + 1));
        assert(cs@.skip(i as int)[0] == ch);
        if ch == 'K' {
            c.white_short = true;
        } else if ch == 'k' {
            c.black_short = true;
        } else if ch == 'Q' {
            c.white_long = true;
        } else if ch == 'q' {
            c.black_long = true;
        } else if ch == '-' {
        } else {
            return None;
        }
        i = i + 1;
    }
    assert(cs@.skip(cs@.len() as int) =~= Seq::<char>::empty());
    Some(c)
}

/// Reads a FEN text: the position, an error, or `None` for a text that cannot be read at
/// all (see `spec_parse_fen`).
pub fn parse_fen(s: &str) -> (res: Option<Result<Board, BoardError>>)
    ensures
        match spec_parse_fen(s@) {
            None => res is None,
            Some(Err(e)) => res == Some(Err::<Board, BoardError>(e)),
            Some(Ok(m)) => res matches Some(Ok(b)) && b@ == m,
        },
{
    let cs = chars_of(s);
    let ws = split_words(&cs);
    proof {
        assert(seqs_of(ws@).len() == ws@.len());
        assert(forall|i: int| 0 <= i < ws@.len() ==> #[trigger] seqs_of(ws@)[i] == ws@[i]@);
    }
    if ws.len() == 0 {
        return None;
    }
    let mut b = Board {
        board: [[None; 8]; 8],
        turn: Color::White,
        castling: AvailableCastles::all_false(),
        en_passant_square: None,
        half_move_timer_50: 0,
        full_move_number: 0,
        mating_material: (0, 0),
        king_positions: (Square(0, 0), Square(0, 0)),
    };
    assert(b@.pieces =~= placement_start().pieces);
    match read_placement(&ws[0], &mut b) {
        None => return None,
        Some(Err(e)) => return Some(Err(e)),
        Some(Ok(())) => {},
    }
    if ws.len() < 2 {
        return None;
    }
    let turn = if is_single(&ws[1], 'w') {
        Color::White
    } else if is_single(&ws[1], 'b') {
        Color::Black
    } else {
        return None;
    };
    if ws.len() < 3 {
        return None;
    }
    let castling = match read_castling(&ws[2]) {
        None => return Some(Err(BoardError::ConversionFailure)),
        Some(c) => c,
    };
    if ws.len() < 4 {
        return None;
    }
    let en_passant_square = if is_single(&ws[3], '-') {
        None
    } else {
        match square_from_word(&ws[3]) {
            None => return None,
            Some(Err(e)) => return Some(Err(e)),
            Some(Ok(sq)) => Some(sq),
        }
    };
    if ws.len() < 5 {
        return None;
    }
    let half = match parse_unsigned_exec(&ws[4], 255) {
        None => return Some(Err(BoardError::ConversionFailure)),
        Some(v) => v as u8,
    };
    if ws.len() < 6 {
        return None;
    }
    let full = match parse_unsigned_exec(&ws[5], 65535) {
        None => return Some(Err(BoardError::ConversionFailure)),
        Some(v) => v as u16,
    };
    b.turn = turn;
    b.castling = castling;
    b.en_passant_square = en_passant_square;
    b.half_move_timer_50 = half;
    b.full_move_number = full;
    Some(Ok(b))
}

impl Board {
    /// Reads a position from FEN text.
    pub fn try_from(val: FenNotation) -> (res: Result<Board, BoardError>)
        requires
            spec_parse_fen(val.0@) is Some,
        ensures
            match spec_parse_fen(val.0@) {
                Some(Err(e)) => res == Err::<Board, BoardError>(e),
                Some(Ok(m)) => res matches Ok(b) && b@ == m,
                None => false,
            },
    {
        match parse_fen(val.0.as_str()) {
            Some(r) => r,
            None => Err(BoardError::ConversionFailure),
        }
    }
}

/// The FEN letter of a piece.
pub open spec fn fen_letter(p: ChessPiece) -> char {
    match (p.piece_type, p.color) {
        (PieceType::Pawn, Color::White) => 'P',
        (PieceType::Knight, Color::White) => 'N',
        (PieceType::Bishop, Color::White) => 'B',
        (PieceType::Rook, Color::White) => 'R',
        (PieceType::Queen, Color::White) => 'Q',
        (PieceType::King, Color::White) => 'K',
        (PieceType::Pawn, Color::Black) => 'p',
        (PieceType::Knight, Color::Black) => 'n',
        (PieceType::Bishop, Color::Black) => 'b',
        (PieceType::Rook, Color::Black) => 'r',
        (PieceType::Queen, Color::Black) => 'q',
        (PieceType::King, Color::Black) => 'k',
    }
}

fn fen_letter_exec(p: ChessPiece) -> (res: char)
    ensures
        res == fen_letter(p),
{
    match (p.piece_type, p.color) {
        (PieceType::Pawn, Color::White) => 'P',
        (PieceType::Knight, Color::White) => 'N',
        (PieceType::Bishop, Color::White) => 'B',
        (PieceType::Rook, Color::White) => 'R',
        (PieceType::Queen, Color::White) => 'Q',
        (PieceType::King, Color::White) => 'K',
        (PieceType::Pawn, Color::Black) => 'p',
        (PieceType::Knight, Color::Black) => 'n',
        (PieceType::Bishop, Color::Black) => 'b',
        (PieceType::Rook, Color::Black) => 'r',
        (PieceType::Queen, Color::Black) => 'q',
        (PieceType::King, Color::Black) => 'k',
    }
}

/// The count of empty squares before a piece or the end of a rank, if there are any.
pub open spec fn empty_run(k: int) -> Seq<char> {
    if k != 0 {
        dec(k as nat)
    } else {
        Seq::empty()
    }
}

/// The text of a rank from a column on, after `k` empty squares not yet written.
pub open spec fn rank_text_from(b: BoardModel, r: int, c: int, k: int) -> Seq<char>
    decreases 8 - c,
{
    if c >= 8 {
        empty_run(k)
    } else {
        match b.piece(Square(c as i8, r as i8)) {
            Some(p) => empty_run(k) + seq![fen_letter(p)] + rank_text_from(b, r, c + 1, 0),
            None => rank_text_from(b, r, c + 1, k + 1),
        }
    }
}

/// The placement text of the ranks from the eighth down to rank `r`, each but the first
/// rank followed by `/`.
pub open spec fn ranks_text_down_to(b: BoardModel, r: int) -> Seq<char>
    decreases 8 - r,
{
    if r > 7 {
        Seq::empty()
    } else {
        ranks_text_down_to(b, r + 1) + rank_text_from(b, r, 0, 0) + if r != 0 {
            seq!['/']
        } else {
            Seq::empty()
        }
    }
}

/// The castling field: the letters of the castles still allowed, or `-`.
pub open spec fn castling_text(c: AvailableCastles) -> Seq<char> {
    let t = (if c.white_short { seq!['K'] } else { Seq::empty() }) + (if c.white_long {
        seq!['Q']
    } else {
        Seq::empty()
    }) + (if c.black_short { seq!['k'] } else { Seq::empty() }) + (if c.black_long {
        seq!['q']
    } else {
        Seq::empty()
    });
    if t.len() == 0 {
        seq!['-']
    } else {
        t
    }
}

/// Whether a square can be written: its file letter is a byte and its rank number fits.
pub open spec fn square_printable(sq: Square) -> bool {
    (sq.0 as u8) as int + 97 <= 255 && sq.1 < 127
}

/// A square as it is written: the character whose code is the file plus 97, then the
/// rank plus one in decimal.
pub open spec fn square_text(sq: Square) -> Seq<char> {
    seq![((sq.0 as u8) as int + 97) as char] + int_dec(sq.1 + 1)
}

/// The en passant field: the target square, or `-`.
pub open spec fn ep_text(ep: Option<Square>) -> Seq<char> {
    match ep {
        None => seq!['-'],
        Some(sq) => square_text(sq),
    }
}

/// The FEN text of a position.
pub open spec fn fen_text(b: BoardModel) -> Seq<char> {
    ranks_text_down_to(b, 0) + (if b.turn == Color::White {
        seq![' ', 'w', ' ']
    } else {
        seq![' ', 'b', ' ']
    }) + castling_text(b.castling) + seq![' '] + ep_text(b.en_passant_square) + seq![' ']
        + dec(b.half_move_timer_50 as nat) + seq![' '] + dec(b.full_move_number as nat)
}

fn push_rank(s: &mut String, b: &Board, r: i8)
    requires
        0 <= r <= 7,
    ensures
        final(s)@ == old(s)@ + rank_text_from(b@, r as int, 0, 0),
{
    let mut c: i8 = 0;
    let mut k: u32 = 0;
    while c < 8
        invariant
            0 <= c <= 8,
            0 <= r <= 7,
            k <= c,
            old(s)@ + rank_text_from(b@, r as int, 0, 0) == s@ + rank_text_from(
                b@,
                r as int,
                c as int,
                k as int,
            ),
        decreases 8 - c,
    {
        let ghost before = s@;
        let ghost k0 = k as int;
        match b.get_square(Square(c, r)) {
            Some(p) => {
                if k != 0 {
                    push_dec(s, k);
                }
                push_char(s, fen_letter_exec(p));
                k = 0;
                assert(s@ =~= before + empty_run(k0) + seq![fen_letter(p)]);
                assert(before + rank_text_from(b@, r as int, c as int, k0) =~= s@
                    + rank_text_from(b@, r as int, c + 1, 0));
            },
            None => {
                k = k + 1;
            },
        }
        c = c + 1;
    }
    if k != 0 {
        push_dec(s, k);
    }
    assert(rank_text_from(b@, r as int, 8, k as int) == empty_run(k as int));
}

fn push_placement(res: &mut String, val: &Board)
    ensures
        final(res)@ == old(res)@ + ranks_text_down_to(val@, 0),
{
    let mut r: i8 = 7;
    assert(old(res)@ =~= old(res)@ + ranks_text_down_to(val@, 8));
    while r >= 0
        invariant
            -1 <= r <= 7,
            res@ == old(res)@ + ranks_text_down_to(val@, r + 1),
        decreases r + 1,
    {
        let ghost before = res@;
        push_rank(res, val, r);
        if r != 0 {
            push_char(res, '/');
        }
        assert(res@ =~= old(res)@ + ranks_text_down_to(val@, r as int));
        r = r - 1;
    }
}

fn push_castling(res: &mut String, c: AvailableCastles)
    ensures
        final(res)@ == old(res)@ + castling_text(c),
{
    if !c.white_short && !c.white_long && !c.black_short && !c.black_long {
        push_char(res, '-');
    } else {
        if c.white_short {
            push_char(res, 'K');
        }
        if c.white_long {
            push_char(res, 'Q');
        }
        if c.black_short {
            push_char(res, 'k');
        }
        if c.black_long {
            push_char(res, 'q');
        }
    }
    assert(final(res)@ =~= old(res)@ + castling_text(c));
}

fn push_ep(res: &mut String, ep: Option<Square>)
    requires
        match ep {
            Some(sq) => square_printable(sq),
            None => true,
        },
    ensures
        final(res)@ == old(res)@ + ep_text(ep),
{
    match ep {
        Some(sq) => {
            let f = ((sq.0 as u8) + 97) as char;
            push_char(res, f);
            push_int_dec(res, sq.1 as i32 + 1);
        },
        None => push_char(res, '-'),
    }
    assert(final(res)@ =~= old(res)@ + ep_text(ep));
}

impl FenNotation {
    /// The FEN text of a position.
    pub fn from(val: &Board) -> (res: FenNotation)
        requires
            match val.en_passant_square {
                Some(sq) => square_printable(sq),
                None => true,
            },
        ensures
            res.0@ == fen_text(val@),
    {
        let mut res = String::new();
        push_placement(&mut res, val);
        let ghost a = res@;
        match val.turn {
            Color::White => push_str(&mut res, " w "),
            Color::Black => push_str(&mut res, " b "),
        }
        proof {
            reveal_strlit(" w ");
            reveal_strlit(" b ");
        }
        let ghost b = res@;
        push_castling(&mut res, val.castling);
        push_char(&mut res, ' ');
        push_ep(&mut res, val.en_passant_square);
        push_char(&mut res, ' ');
        push_dec(&mut res, val.half_move_timer_50 as u32);
        push_char(&mut res, ' ');
        push_dec(&mut res, val.full_move_number as u32);
        assert(res@ =~= fen_text(val@));
        FenNotation(res)
    }

    /// The first three fields of the text (placement, side to move and castling rights),
    /// joined by single spaces.
    pub fn to_draw_fen(&self) -> (res: String)
        requires
            words(self.0@).len() >= 3,
        ensures
            res@ == words(self.0@)[0] + seq![' '] + words(self.0@)[1] + seq![' '] + words(
                self.0@,
            )[2],
    {
        let cs = chars_of(self.0.as_str());
        let ws = split_words(&cs);
        proof {
            assert(seqs_of(ws@).len() == ws@.len());
            assert(forall|i: int| 0 <= i < ws@.len() ==> #[trigger] seqs_of(ws@)[i] == ws@[i]@);
        }
        let mut res = String::new();
        push_chars(&mut res, &ws[0]);
        push_char(&mut res, ' ');
        push_chars(&mut res, &ws[1]);
        push_char(&mut res, ' ');
        push_chars(&mut res, &ws[2]);
        res
    }
}

/// The key of a position in the opening book: the first three fields of its FEN text
/// (placement, side to move, castling rights) joined by single spaces.
pub open spec fn draw_key(s: Seq<char>) -> Seq<char> {
    words(s)[0] + seq![' '] + words(s)[1] + seq![' '] + words(s)[2]
}

impl FenNotation {
    /// The first three fields joined by single spaces, or `None` if the text has fewer than
    /// three fields.
    pub fn to_draw_fen_checked(&self) -> (res: Option<String>)
        ensures
            match res {
                Some(r) => words(self.0@).len() >= 3 && r@ == draw_key(self.0@),
                None => words(self.0@).len() < 3,
            },
    {
        let cs = chars_of(self.0.as_str());
        let ws = split_words(&cs);
        proof {
            assert(seqs_of(ws@).len() == ws@.len());
            assert(forall|i: int| 0 <= i < ws@.len() ==> #[trigger] seqs_of(ws@)[i] == ws@[i]@);
        }
        if ws.len() < 3 {
            return None;
        }
        let mut res = String::new();
        push_chars(&mut res, &ws[0]);
        push_char(&mut res, ' ');
        push_chars(&mut res, &ws[1]);
        push_char(&mut res, ' ');
        push_chars(&mut res, &ws[2]);
        Some(res)
    }
}

/// Appends characters to a string.
pub fn push_chars(s: &mut String, cs: &Vec<char>)
    ensures
        final(s)@ == old(s)@ + cs@,
{
    let mut i: usize = 0;
    while i < cs.len()
        invariant
            i <= cs.len(),
            s@ == old(s)@ + cs@.take(i as int),
        decreases cs.len() - i,
    {
        push_char(s, cs[i]);
        assert(cs@.take(i as int + 1) =~= cs@.take(i as int).push(cs@[i as int]));
        i = i + 1;
    }
    assert(cs@.take(cs@.len() as int) =~= cs@);
}

/// The kind of piece that starts the game on a file of the first or last rank.
pub open spec fn back_rank_type(file: int) -> PieceType {
    if file == 0 || file == 7 {
        PieceType::Rook
    } else if file == 1 || file == 6 {
        PieceType::Knight
    } else if file == 2 || file == 5 {
        PieceType::Bishop
    } else if file == 3 {
        PieceType::Queen
    } else {
        PieceType::King
    }
}

fn back_rank_type_exec(file: i8) -> (res: PieceType)
    ensures
        res == back_rank_type(file as int),
{
    if file == 0 || file == 7 {
        PieceType::Rook
    } else if file == 1 || file == 6 {
        PieceType::Knight
    } else if file == 2 || file == 5 {
        PieceType::Bishop
    } else if file == 3 {
        PieceType::Queen
    } else {
        PieceType::King
    }
}

/// The piece on a square (given by its index) at the start of a game.
pub open spec fn start_piece(i: int) -> Option<ChessPiece> {
    let file = i % 8;
    let rank = i / 8;
    let sq = Square(file as i8, rank as i8);
    if rank == 1 {
        Some(ChessPiece { piece_type: PieceType::Pawn, color: Color::White, position: sq })
    } else if rank == 6 {
        Some(ChessPiece { piece_type: PieceType::Pawn, color: Color::Black, position: sq })
    } else if rank == 0 {
        Some(ChessPiece { piece_type: back_rank_type(file), color: Color::White, position: sq })
    } else if rank == 7 {
        Some(ChessPiece { piece_type: back_rank_type(file), color: Color::Black, position: sq })
    } else {
        None
    }
}

/// The position at the start of a game.
pub open spec fn initial_position() -> BoardModel {
    BoardModel {
        pieces: Seq::new(64, |i: int| start_piece(i)),
        turn: Color::White,
        castling: AvailableCastles {
            white_short: true,
            white_long: true,
            black_short: true,
            black_long: true,
        },
        en_passant_square: None,
        half_move_timer_50: 0,
        full_move_number: 1,
        mating_material: (39, 39),
        king_positions: (Square(4, 0), Square(4, 7)),
    }
}

/// The position without pieces, white to move, with no castling rights.
pub open spec fn empty_position() -> BoardModel {
    BoardModel {
        pieces: Seq::new(64, |i: int| None),
        turn: Color::White,
        castling: no_castles(),
        en_passant_square: None,
        half_move_timer_50: 0,
        full_move_number: 1,
        mating_material: (0, 0),
        king_positions: (Square(0, 0), Square(0, 0)),
    }
}

impl Board {
    /// A board without pieces (the FEN `8/8/8/8/8/8/8/8 w - - 0 1`).
    pub fn new_empty() -> (res: Board)
        ensures
            res@ == empty_position(),
    {
        let b = Board {
            board: [[None; 8]; 8],
            turn: Color::White,
            castling: AvailableCastles::all_false(),
            en_passant_square: None,
            half_move_timer_50: 0,
            full_move_number: 1,
            mating_material: (0, 0),
            king_positions: (Square(0, 0), Square(0, 0)),
        };
        assert(b@.pieces =~= empty_position().pieces);
        b
    }

    /// The board at the start of a game (the FEN
    /// `rnbqkbnr/pppppppp/8/8/8/8/PPPPPPPP/RNBQKBNR w KQkq - 0 1`).
    pub fn new_game() -> (res: Board)
        ensures
            res@ == initial_position(),
    {
        let mut b = Board::new_empty();
        let mut f: i8 = 0;
        while f < 8
            invariant
                0 <= f <= 8,
                b@ == (BoardModel { pieces: b@.pieces, ..empty_position() }),
                b@.pieces.len() == 64,
                forall|i: int|
                    0 <= i < 64 ==> #[trigger] b@.pieces[i] == if i % 8 < f {
                        start_piece(i)
                    } else {
                        None
                    },
            decreases 8 - f,
        {
            let t = back_rank_type_exec(f);
            b.set_square(
                Square(f, 0),
                Some(ChessPiece { piece_type: t, color: Color::White, position: Square(f, 0) }),
            );
            b.set_square(
                Square(f, 1),
                Some(
                    ChessPiece {
                        piece_type: PieceType::Pawn,
                        color: Color::White,
                        position: Square(f, 1),
                    },
                ),
            );
            b.set_square(
                Square(f, 6),
                Some(
                    ChessPiece {
                        piece_type: PieceType::Pawn,
                        color: Color::Black,
                        position: Square(f, 6),
                    },
                ),
            );
            b.set_square(
                Square(f, 7),
                Some(ChessPiece { piece_type: t, color: Color::Black, position: Square(f, 7) }),
            );
            f = f + 1;
        }
        b.castling = AvailableCastles {
            white_short: true,
            white_long: true,
            black_short: true,
            black_long: true,
        };
        b.mating_material = (39, 39);
        b.king_positions = (Square(4, 0), Square(4, 7));
        assert(b@.pieces =~= initial_position().pieces);
        b
    }
}

/// A square of the board as the board is drawn: the FEN letter of its piece, or `.`.
pub open spec fn square_char(b: BoardModel, r: int, f: int) -> char {
    match b.piece(Square(f as i8, r as i8)) {
        Some(p) => fen_letter(p),
        None => '.',
    }
}

/// The drawing of a rank from a file on.
pub open spec fn rank_drawing(b: BoardModel, r: int, f: int) -> Seq<char>
    decreases 8 - f,
{
    if f >= 8 {
        Seq::empty()
    } else {
        seq![square_char(b, r, f)] + rank_drawing(b, r, f + 1)
    }
}

/// The drawing of the ranks from the eighth down to rank `r`, one line each.
pub open spec fn board_drawing_down_to(b: BoardModel, r: int) -> Seq<char>
    decreases 8 - r,
{
    if r > 7 {
        Seq::empty()
    } else {
        board_drawing_down_to(b, r + 1) + rank_drawing(b, r, 0) + seq!['\n']
    }
}

impl Board {
    /// The board drawn as text: one line per rank from the eighth down, a FEN letter for
    /// each piece and `.` for each empty square.
    pub fn to_string(&self) -> (res: String)
        ensures
            res@ == board_drawing_down_to(self@, 0),
    {
        let mut res = String::new();
        let mut r: i8 = 7;
        while r >= 0
            invariant
                -1 <= r <= 7,
                res@ == board_drawing_down_to(self@, r + 1),
            decreases r + 1,
        {
            let ghost start = res@;
            let mut f: i8 = 0;
            while f < 8
                invariant
                    0 <= r <= 7,
                    0 <= f <= 8,
                    start + rank_drawing(self@, r as int, 0) == res@ + rank_drawing(
                        self@,
                        r as int,
                        f as int,
                    ),
                decreases 8 - f,
            {
                let c = match self.get_square(Square(f, r)) {
                    Some(p) => fen_letter_exec(p),
                    None => '.',
                };
                let ghost before = res@;
                push_char(&mut res, c);
                assert(before + rank_drawing(self@, r as int, f as int) =~= res@ + rank_drawing(
                    self@,
                    r as int,
                    f + 1,
                ));
                f = f + 1;
            }
            assert(rank_drawing(self@, r as int, 8) =~= Seq::<char>::empty());
            push_char(&mut res, '\n');
            assert(res@ =~= board_drawing_down_to(self@, r as int));
            r = r - 1;
        }
        res
    }
}

impl FenNotation {
    /// The FEN text.
    pub fn to_string(&self) -> (res: String)
        ensures
            res@ == self.0@,
    {
        self.0.clone()
    }
}

} // verus!
