use vstd::prelude::*;

use crate::board_setup::fen::{parse_fen, spec_parse_fen};
use crate::board_setup::models::{Board, BoardError, BoardModel, FenNotation};
use crate::move_generator::models::{
    move_gen_ok, moving_piece_type, promoted_type, raw_move_type, spec_all_moves, Color, Moves,
    PieceType, Square,
};
use crate::move_register::models::{CastleType, ChessMove, MoveType, PromotedPieceType, RawMoveType};
use crate::text::chars_of;

verus! {

/// Why a move in standard algebraic notation could not be read.
#[derive(Debug, Clone, Copy, PartialEq, Eq, Structural)]
pub enum MoveParseError {
    InvalidMove,
    BoardError(BoardError),
}

/// The shapes of move that the reader knows, with what they name.
#[derive(Debug, Clone, Copy, PartialEq, Eq, Structural)]
pub enum SanPattern {
    /// A pawn step such as `e4`; the flag tells whether a check sign follows.
    PawnMove(Square, bool),
    /// A piece move such as `Nf3`.
    PieceMove(PieceType, Square),
    /// A pawn capture such as `exd5`: the file the pawn comes from and the target.
    PawnCapture(i8, Square),
    /// A piece capture such as `Bxc6`.
    PieceCapture(PieceType, Square),
    /// A piece move with the file it comes from, such as `Rad1`.
    PieceMoveFile(PieceType, i8, Square),
    /// A piece move with the rank it comes from, such as `R3b2`.
    PieceMoveRank(PieceType, i8, Square),
    /// A piece capture with the file it comes from, such as `Rfxc8`.
    PieceCaptureFile(PieceType, i8, Square),
    /// A piece capture with the rank it comes from, such as `R8xb7`.
    PieceCaptureRank(PieceType, i8, Square),
    /// A promotion such as `b8=Q`.
    Promotion(Square, PromotedPieceType),
    /// A promotion with capture such as `bxc8=Q`.
    PromotionCapture(i8, Square, PromotedPieceType),
    /// `O-O`.
    CastleShort,
    /// `O-O-O`.
    CastleLong,
    /// Anything else.
    Invalid,
}

pub open spec fn is_file_char(c: char) -> bool {
    'a' <= c <= 'h'
}

pub open spec fn is_rank_char(c: char) -> bool {
    '1' <= c <= '8'
}

/// The kind of piece a letter of `BKNQR` names.
pub open spec fn piece_letter(c: char) -> Option<PieceType> {
    if c == 'B' {
        Some(PieceType::Bishop)
    } else if c == 'K' {
        Some(PieceType::King)
    } else if c == 'N' {
        Some(PieceType::Knight)
    } else if c == 'Q' {
        Some(PieceType::Queen)
    } else if c == 'R' {
        Some(PieceType::Rook)
    } else {
        None
    }
}

/// The kind of piece a letter of `BNQR` names as a promotion.
pub open spec fn promotion_letter(c: char) -> Option<PromotedPieceType> {
    if c == 'B' {
        Some(PromotedPieceType::Bishop)
    } else if c == 'N' {
        Some(PromotedPieceType::Knight)
    } else if c == 'Q' {
        Some(PromotedPieceType::Queen)
    } else if c == 'R' {
        Some(PromotedPieceType::Rook)
    } else {
        None
    }
}

/// The end of a move: nothing, `+`, `#` or `+#`.
pub open spec fn check_suffix(t: Seq<char>) -> bool {
    t.len() == 0 || t == seq!['+'] || t == seq!['#'] || t == seq!['+', '#']
}

/// The file a letter names, from 0.
pub open spec fn file_of(c: char) -> i8 {
    (c as int - 97) as i8
}

/// The rank a digit names, from 0.
pub open spec fn rank_of(c: char) -> i8 {
    (c as int - 49) as i8
}

/// The square two characters name.
pub open spec fn square_of(f: char, r: char) -> Square {
    Square(file_of(f), rank_of(r))
}

/// The shape of a move text.
pub open spec fn san_pattern(s: Seq<char>) -> SanPattern {
    if s.len() >= 2 && is_file_char(s[0]) && is_rank_char(s[1]) && check_suffix(s.skip(2)) {
        SanPattern::PawnMove(square_of(s[0], s[1]), s.len() > 2)
    } else if s.len() >= 3 && piece_letter(s[0]) is Some && is_file_char(s[1]) && is_rank_char(s[2])
        && check_suffix(s.skip(3)) {
        SanPattern::PieceMove(piece_letter(s[0])->0, square_of(s[1], s[2]))
    } else if s.len() >= 4 && is_file_char(s[0]) && s[1] == 'x' && is_file_char(s[2])
        && is_rank_char(s[3]) && check_suffix(s.skip(4)) {
        SanPattern::PawnCapture(file_of(s[0]), square_of(s[2], s[3]))
    } else if s.len() >= 4 && piece_letter(s[0]) is Some && s[1] == 'x' && is_file_char(s[2])
        && is_rank_char(s[3]) && check_suffix(s.skip(4)) {
        SanPattern::PieceCapture(piece_letter(s[0])->0, square_of(s[2], s[3]))
    } else if s.len() >= 4 && piece_letter(s[0]) is Some && is_file_char(s[1]) && is_file_char(s[2])
        && is_rank_char(s[3]) && check_suffix(s.skip(4)) {
        SanPattern::PieceMoveFile(piece_letter(s[0])->0, file_of(s[1]), square_of(s[2], s[3]))
    } else if s.len() >= 4 && piece_letter(s[0]) is Some && is_rank_char(s[1]) && is_file_char(s[2])
        && is_rank_char(s[3]) && check_suffix(s.skip(4)) {
        SanPattern::PieceMoveRank(piece_letter(s[0])->0, rank_of(s[1]), square_of(s[2], s[3]))
    } else if s.len() >= 5 && piece_letter(s[0]) is Some && is_file_char(s[1]) && s[2] == 'x'
        && is_file_char(s[3]) && is_rank_char(s[4]) && check_suffix(s.skip(5)) {
        SanPattern::PieceCaptureFile(piece_letter(s[0])->0, file_of(s[1]), square_of(s[3], s[4]))
    } else if s.len() >= 5 && piece_letter(s[0]) is Some && is_rank_char(s[1]) && s[2] == 'x'
        && is_file_char(s[3]) && is_rank_char(s[4]) && check_suffix(s.skip(5)) {
        SanPattern::PieceCaptureRank(piece_letter(s[0])->0, rank_of(s[1]), square_of(s[3], s[4]))
    } else if s.len() >= 4 && is_file_char(s[0]) && is_rank_char(s[1]) && s[2] == '='
        && promotion_letter(s[3]) is Some && check_suffix(s.skip(4)) {
        SanPattern::Promotion(square_of(s[0], s[1]), promotion_letter(s[3])->0)
    } else if s.len() >= 6 && is_file_char(s[0]) && s[1] == 'x' && is_file_char(s[2])
        && is_rank_char(s[3]) && s[4] == '=' && promotion_letter(s[5]) is Some && check_suffix(
        s.skip(6),
    ) {
        SanPattern::PromotionCapture(
            file_of(s[0]),
            square_of(s[2], s[3]),
            promotion_letter(s[5])->0,
        )
    } else if s == seq!['O', '-', 'O'] {
        SanPattern::CastleShort
    } else if s == seq!['O', '-', 'O', '-', 'O'] {
        SanPattern::CastleLong
    } else {
        SanPattern::Invalid
    }
}

fn is_file_exec(c: char) -> (res: bool)
    ensures
        res == is_file_char(c),
{
    'a' <= c && c <= 'h'
}

fn is_rank_exec(c: char) -> (res: bool)
    ensures
        res == is_rank_char(c),
{
    '1' <= c && c <= '8'
}

fn piece_letter_exec(c: char) -> (res: Option<PieceType>)
    ensures
        res == piece_letter(c),
{
    if c == 'B' {
        Some(PieceType::Bishop)
    } else if c == 'K' {
        Some(PieceType::King)
    } else if c == 'N' {
        Some(PieceType::Knight)
    } else if c == 'Q' {
        Some(PieceType::Queen)
    } else if c == 'R' {
        Some(PieceType::Rook)
    } else {
        None
    }
}

fn promotion_letter_exec(c: char) -> (res: Option<PromotedPieceType>)
    ensures
        res == promotion_letter(c),
{
    if c == 'B' {
        Some(PromotedPieceType::Bishop)
    } else if c == 'N' {
        Some(PromotedPieceType::Knight)
    } else if c == 'Q' {
        Some(PromotedPieceType::Queen)
    } else if c == 'R' {
        Some(PromotedPieceType::Rook)
    } else {
        None
    }
}

/// Whether the characters from `start` on are a check sign ending.
fn suffix_exec(s: &Vec<char>, start: usize) -> (res: bool)
    requires
        start <= s.len(),
    ensures
        res == check_suffix(s@.skip(start as int)),
{
    let n = s.len() - start;
    let ghost t = s@.skip(start as int);
    if n == 0 {
        true
    } else if n == 1 {
        let ok = s[start] == '+' || s[start] == '#';
        proof {
            if ok {
                assert(t =~= seq![s@[start as int]]);
            } else {
                assert(t[0] == s@[start as int]);
            }
        }
        ok
    } else if n == 2 {
        let ok = s[start] == '+' && s[start + 1] == '#';
        proof {
            if ok {
                assert(t =~= seq!['+', '#']);
            } else {
                assert(t[0] == s@[start as int] && t[1] == s@[start + 1]);
            }
        }
        ok
    } else {
        false
    }
}

fn file_exec(c: char) -> (res: i8)
    requires
        is_file_char(c),
    ensures
        res == file_of(c),
{
    (c as u32 - 97) as i8
}

fn rank_exec(c: char) -> (res: i8)
    requires
        is_rank_char(c),
    ensures
        res == rank_of(c),
{
    (c as u32 - 49) as i8
}

fn square_exec(f: char, r: char) -> (res: Square)
    requires
        is_file_char(f),
        is_rank_char(r),
    ensures
        res == square_of(f, r),
{
    Square(file_exec(f), rank_exec(r))
}

fn is_word(s: &Vec<char>, w: &Vec<char>) -> (res: bool)
    ensures
        res == (s@ == w@),
{
    if s.len() != w.len() {
        return false;
    }
    let mut i: usize = 0;
    while i < s.len()
        invariant
            i <= s.len(),
            s.len() == w.len(),
            forall|j: int| 0 <= j < i ==> s@[j] == w@[j],
        decreases s.len() - i,
    {
        if s[i] != w[i] {
            return false;
        }
        i = i + 1;
    }
    assert(s@ =~= w@);
    true
}

/// The shape of a move text.
pub fn san_pattern_exec(s: &Vec<char>) -> (res: SanPattern)
    ensures
        res == san_pattern(s@),
{
    let n = s.len();
    if n >= 2 && is_file_exec(s[0]) && is_rank_exec(s[1]) && suffix_exec(s, 2) {
        return SanPattern::PawnMove(square_exec(s[0], s[1]), n > 2);
    }
    if n >= 3 && piece_letter_exec(s[0]).is_some() && is_file_exec(s[1]) && is_rank_exec(s[2])
        && suffix_exec(s, 3) {
        return SanPattern::PieceMove(piece_letter_exec(s[0]).unwrap(), square_exec(s[1], s[2]));
    }
    if n >= 4 && is_file_exec(s[0]) && s[1] == 'x' && is_file_exec(s[2]) && is_rank_exec(s[3])
        && suffix_exec(s, 4) {
        return SanPattern::PawnCapture(file_exec(s[0]), square_exec(s[2], s[3]));
    }
    if n >= 4 && piece_letter_exec(s[0]).is_some() && s[1] == 'x' && is_file_exec(s[2])
        && is_rank_exec(s[3]) && suffix_exec(s, 4) {
        return SanPattern::PieceCapture(piece_letter_exec(s[0]).unwrap(), square_exec(s[2], s[3]));
    }
    if n >= 4 && piece_letter_exec(s[0]).is_some() && is_file_exec(s[1]) && is_file_exec(s[2])
        && is_rank_exec(s[3]) && suffix_exec(s, 4) {
        return SanPattern::PieceMoveFile(
            piece_letter_exec(s[0]).unwrap(),
            file_exec(s[1]),
            square_exec(s[2], s[3]),
        );
    }
    if n >= 4 && piece_letter_exec(s[0]).is_some() && is_rank_exec(s[1]) && is_file_exec(s[2])
        && is_rank_exec(s[3]) && suffix_exec(s, 4) {
        return SanPattern::PieceMoveRank(
            piece_letter_exec(s[0]).unwrap(),
            rank_exec(s[1]),
            square_exec(s[2], s[3]),
        );
    }
    if n >= 5 && piece_letter_exec(s[0]).is_some() && is_file_exec(s[1]) && s[2] == 'x'
        && is_file_exec(s[3]) && is_rank_exec(s[4]) && suffix_exec(s, 5) {
        return SanPattern::PieceCaptureFile(
            piece_letter_exec(s[0]).unwrap(),
            file_exec(s[1]),
            square_exec(s[3], s[4]),
        );
    }
    if n >= 5 && piece_letter_exec(s[0]).is_some() && is_rank_exec(s[1]) && s[2] == 'x'
        && is_file_exec(s[3]) && is_rank_exec(s[4]) && suffix_exec(s, 5) {
        return SanPattern::PieceCaptureRank(
            piece_letter_exec(s[0]).unwrap(),
            rank_exec(s[1]),
            square_exec(s[3], s[4]),
        );
    }
    if n >= 4 && is_file_exec(s[0]) && is_rank_exec(s[1]) && s[2] == '='
        && promotion_letter_exec(s[3]).is_some() && suffix_exec(s, 4) {
        return SanPattern::Promotion(square_exec(s[0], s[1]), promotion_letter_exec(s[3]).unwrap());
    }
    if n >= 6 && is_file_exec(s[0]) && s[1] == 'x' && is_file_exec(s[2]) && is_rank_exec(s[3])
        && s[4] == '=' && promotion_letter_exec(s[5]).is_some() && suffix_exec(s, 6) {
        return SanPattern::PromotionCapture(
            file_exec(s[0]),
            square_exec(s[2], s[3]),
            promotion_letter_exec(s[5]).unwrap(),
        );
    }
    let short = vec!['O', '-', 'O'];
    if is_word(s, &short) {
        return SanPattern::CastleShort;
    }
    let long = vec!['O', '-', 'O', '-', 'O'];
    if is_word(s, &long) {
        return SanPattern::CastleLong;
    }
    SanPattern::Invalid
}

pub open spec fn by_raw(s: Seq<ChessMove>, types: Seq<RawMoveType>) -> Seq<ChessMove> {
    s.filter(|m: ChessMove| types.contains(raw_move_type(m.move_type)))
}

pub open spec fn by_type(s: Seq<ChessMove>, pt: PieceType) -> Seq<ChessMove> {
    s.filter(|m: ChessMove| moving_piece_type(m.move_type) == pt)
}

pub open spec fn by_to(s: Seq<ChessMove>, sq: Square) -> Seq<ChessMove> {
    s.filter(|m: ChessMove| m.to == sq)
}

pub open spec fn by_file(s: Seq<ChessMove>, f: i8) -> Seq<ChessMove> {
    s.filter(|m: ChessMove| m.from.0 == f)
}

pub open spec fn by_rank(s: Seq<ChessMove>, r: i8) -> Seq<ChessMove> {
    s.filter(|m: ChessMove| m.from.1 == r)
}

pub open spec fn by_promoted(s: Seq<ChessMove>, p: PromotedPieceType) -> Seq<ChessMove> {
    s.filter(|m: ChessMove| promoted_type(m.move_type) == Some(p))
}

/// The first of the moves that fit, or `None` where none does.
pub open spec fn first_fit(s: Seq<ChessMove>) -> Option<Result<ChessMove, MoveParseError>> {
    if s.len() > 0 {
        Some(Ok(s[0]))
    } else {
        None
    }
}

/// The castling move of a side, short or long.
pub open spec fn castle_move(turn: Color, short: bool) -> ChessMove {
    match (turn, short) {
        (Color::White, true) => ChessMove {
            move_type: MoveType::CastleMove(CastleType::WhiteShort),
            from: Square(4, 0),
            to: Square(6, 0),
        },
        (Color::Black, true) => ChessMove {
            move_type: MoveType::CastleMove(CastleType::BlackShort),
            from: Square(4, 7),
            to: Square(6, 7),
        },
        (Color::White, false) => ChessMove {
            move_type: MoveType::CastleMove(CastleType::WhiteLong),
            from: Square(4, 0),
            to: Square(2, 0),
        },
        (Color::Black, false) => ChessMove {
            move_type: MoveType::CastleMove(CastleType::BlackLong),
            from: Square(4, 7),
            to: Square(2, 7),
        },
    }
}

/// The move a text of a given shape names among the legal moves, found by narrowing them
/// down by kind, piece, start file or rank, target and promotion; castling is named
/// directly. `None` where no move fits (or a pawn step is followed by a check sign).
pub open spec fn resolve(turn: Color, moves: Seq<ChessMove>, pat: SanPattern) -> Option<
    Result<ChessMove, MoveParseError>,
> {
    match pat {
        SanPattern::PawnMove(sq, suffixed) => if suffixed {
            None
        } else {
            first_fit(by_to(by_raw(by_type(moves, PieceType::Pawn), seq![RawMoveType::Move]), sq))
        },
        SanPattern::PieceMove(pt, sq) => first_fit(
            by_to(by_type(by_raw(moves, seq![RawMoveType::Move]), pt), sq),
        ),
        SanPattern::PawnCapture(f, sq) => first_fit(
            by_to(
                by_file(
                    by_raw(
                        by_type(moves, PieceType::Pawn),
                        seq![RawMoveType::Capture, RawMoveType::EnPassantMove],
                    ),
                    f,
                ),
                sq,
            ),
        ),
        SanPattern::PieceCapture(pt, sq) => first_fit(
            by_to(by_type(by_raw(moves, seq![RawMoveType::Capture]), pt), sq),
        ),
        SanPattern::PieceMoveFile(pt, f, sq) => first_fit(
            by_to(by_file(by_type(by_raw(moves, seq![RawMoveType::Move]), pt), f), sq),
        ),
        SanPattern::PieceMoveRank(pt, r, sq) => first_fit(
            by_to(by_rank(by_type(by_raw(moves, seq![RawMoveType::Move]), pt), r), sq),
        ),
        SanPattern::PieceCaptureFile(pt, f, sq) => first_fit(
            by_to(by_file(by_type(by_raw(moves, seq![RawMoveType::Capture]), pt), f), sq),
        ),
        SanPattern::PieceCaptureRank(pt, r, sq) => first_fit(
            by_to(by_rank(by_type(by_raw(moves, seq![RawMoveType::Capture]), pt), r), sq),
        ),
        SanPattern::Promotion(sq, p) => first_fit(
            by_promoted(by_to(by_raw(moves, seq![RawMoveType::PromotionMove]), sq), p),
        ),
        SanPattern::PromotionCapture(f, sq, p) => first_fit(
            by_promoted(
                by_to(by_file(by_raw(moves, seq![RawMoveType::PromotionCapture]), f), sq),
                p,
            ),
        ),
        SanPattern::CastleShort => Some(Ok(castle_move(turn, true))),
        SanPattern::CastleLong => Some(Ok(castle_move(turn, false))),
        SanPattern::Invalid => Some(Err(MoveParseError::InvalidMove)),
    }
}

/// Whether the move a text names is found among the legal moves.
pub open spec fn needs_moves(pat: SanPattern) -> bool {
    !(pat is CastleShort || pat is CastleLong || pat is Invalid)
}

/// Reading a move in standard algebraic notation in the position a FEN text describes: the
/// move, an error, or `None` where the text cannot be read at all (see `spec_parse_fen` and
/// `resolve`) or the legal moves of the position cannot be generated (see `move_gen_ok`).
pub open spec fn spec_parse_move(fen: Seq<char>, san: Seq<char>) -> Option<
    Result<ChessMove, MoveParseError>,
> {
    match spec_parse_fen(fen) {
        None => None,
        Some(Err(e)) => Some(Err(MoveParseError::BoardError(e))),
        Some(Ok(b)) => {
            let pat = san_pattern(san);
            if !needs_moves(pat) {
                resolve(b.turn, Seq::empty(), pat)
            } else if move_gen_ok(b, b.turn) {
                resolve(b.turn, spec_all_moves(b, b.turn), pat)
            } else {
                None
            }
        },
    }
}

fn first_fit_exec(m: &Moves) -> (res: Option<Result<ChessMove, MoveParseError>>)
    ensures
        res == first_fit(m.0@),
{
    if m.0.len() > 0 {
        Some(Ok(m.0[0]))
    } else {
        None
    }
}

fn castle_move_exec(turn: Color, short: bool) -> (res: ChessMove)
    ensures
        res == castle_move(turn, short),
{
    match (turn, short) {
        (Color::White, true) => ChessMove {
            move_type: MoveType::CastleMove(CastleType::WhiteShort),
            from: Square(4, 0),
            to: Square(6, 0),
        },
        (Color::Black, true) => ChessMove {
            move_type: MoveType::CastleMove(CastleType::BlackShort),
            from: Square(4, 7),
            to: Square(6, 7),
        },
        (Color::White, false) => ChessMove {
            move_type: MoveType::CastleMove(CastleType::WhiteLong),
            from: Square(4, 0),
            to: Square(2, 0),
        },
        (Color::Black, false) => ChessMove {
            move_type: MoveType::CastleMove(CastleType::BlackLong),
            from: Square(4, 7),
            to: Square(2, 7),
        },
    }
}

/// Finds the move a text of a given shape names among the legal moves.
fn resolve_exec(turn: Color, moves: &Moves, pat: SanPattern) -> (res: Option<
    Result<ChessMove, MoveParseError>,
>)
    ensures
        res == resolve(turn, moves.0@, pat),
{
    let only_moves = [RawMoveType::Move];
    let only_captures = [RawMoveType::Capture];
    assert(only_moves@ =~= seq![RawMoveType::Move]);
    assert(only_captures@ =~= seq![RawMoveType::Capture]);
    match pat {
        SanPattern::PawnMove(sq, suffixed) => {
            if suffixed {
                return None;
            }
            let m = moves.search_with_piece_type(PieceType::Pawn).search_with_raw_move_types(
                &only_moves,
            ).search_with_to(sq);
            first_fit_exec(&m)
        },
        SanPattern::PieceMove(pt, sq) => {
            let m = moves.search_with_raw_move_types(&only_moves).search_with_piece_type(
                pt,
            ).search_with_to(sq);
            first_fit_exec(&m)
        },
        SanPattern::PawnCapture(f, sq) => {
            let takes = [RawMoveType::Capture, RawMoveType::EnPassantMove];
            assert(takes@ =~= seq![RawMoveType::Capture, RawMoveType::EnPassantMove]);
            let m = moves.search_with_piece_type(PieceType::Pawn).search_with_raw_move_types(
                &takes,
            ).search_with_from_file(f).search_with_to(sq);
            first_fit_exec(&m)
        },
        SanPattern::PieceCapture(pt, sq) => {
            let m = moves.search_with_raw_move_types(&only_captures).search_with_piece_type(
                pt,
            ).search_with_to(sq);
            first_fit_exec(&m)
        },
        SanPattern::PieceMoveFile(pt, f, sq) => {
            let m = moves.search_with_raw_move_types(&only_moves).search_with_piece_type(
                pt,
            ).search_with_from_file(f).search_with_to(sq);
            first_fit_exec(&m)
        },
        SanPattern::PieceMoveRank(pt, r, sq) => {
            let m = moves.search_with_raw_move_types(&only_moves).search_with_piece_type(
                pt,
            ).search_with_from_rank(r).search_with_to(sq);
            first_fit_exec(&m)
        },
        SanPattern::PieceCaptureFile(pt, f, sq) => {
            let m = moves.search_with_raw_move_types(&only_captures).search_with_piece_type(
                pt,
            ).search_with_from_file(f).search_with_to(sq);
            first_fit_exec(&m)
        },
        SanPattern::PieceCaptureRank(pt, r, sq) => {
            let m = moves.search_with_raw_move_types(&only_captures).search_with_piece_type(
                pt,
            ).search_with_from_rank(r).search_with_to(sq);
            first_fit_exec(&m)
        },
        SanPattern::Promotion(sq, p) => {
            let promos = [RawMoveType::PromotionMove];
            assert(promos@ =~= seq![RawMoveType::PromotionMove]);
            let m = moves.search_with_raw_move_types(&promos).search_with_to(
                sq,
            ).search_with_promoted_piece_type(p);
            first_fit_exec(&m)
        },
        SanPattern::PromotionCapture(f, sq, p) => {
            let promos = [RawMoveType::PromotionCapture];
            assert(promos@ =~= seq![RawMoveType::PromotionCapture]);
            let m = moves.search_with_raw_move_types(&promos).search_with_from_file(
                f,
            ).search_with_to(sq).search_with_promoted_piece_type(p);
            first_fit_exec(&m)
        },
        SanPattern::CastleShort => Some(Ok(castle_move_exec(turn, true))),
        SanPattern::CastleLong => Some(Ok(castle_move_exec(turn, false))),
        SanPattern::Invalid => Some(Err(MoveParseError::InvalidMove)),
    }
}

/// Reads a move in standard algebraic notation in the position a FEN text describes;
/// `None` where the text cannot be read at all or the legal moves cannot be generated (see
/// `spec_parse_move`).
pub fn parse_move_checked(fen: &FenNotation, san: &String) -> (res: Option<
    Result<ChessMove, MoveParseError>,
>)
    ensures
        res == spec_parse_move(fen.0@, san@),
{
    let board = match parse_fen(fen.0.as_str()) {
        None => return None,
        Some(Err(e)) => return Some(Err(MoveParseError::BoardError(e))),
        Some(Ok(b)) => b,
    };
    let cs = chars_of(san.as_str());
    let pat = san_pattern_exec(&cs);
    let needs = !(matches!(pat, SanPattern::CastleShort) || matches!(pat, SanPattern::CastleLong)
        || matches!(pat, SanPattern::Invalid));
    if !needs {
        return resolve_exec(board.turn, &Moves(Vec::new()), pat);
    }
    if !Moves::can_generate(&board, board.turn) {
        return None;
    }
    let moves = Moves::get_all_moves(&board, board.turn);
    resolve_exec(board.turn, &moves, pat)
}

/// Reads a move in standard algebraic notation in the position a FEN text describes.
pub fn parse_move(fen: FenNotation, san: String) -> (res: Result<ChessMove, MoveParseError>)
    requires
        spec_parse_move(fen.0@, san@) is Some,
    ensures
        Some(res) == spec_parse_move(fen.0@, san@),
{
    match parse_move_checked(&fen, &san) {
        Some(r) => r,
        None => Err(MoveParseError::InvalidMove),
    }
}

/// Whether a text of a given shape names a move: the move is of the kind of piece and the
/// kind of move the text gives, comes from the file or rank the text gives, goes to the
/// text's target square and promotes to the text's piece.
pub open spec fn names_move(pat: SanPattern, m: ChessMove) -> bool {
    let raw = raw_move_type(m.move_type);
    let pt_of = moving_piece_type(m.move_type);
    match pat {
        SanPattern::PawnMove(sq, _) => pt_of == PieceType::Pawn && raw == RawMoveType::Move && m.to == sq,
        SanPattern::PieceMove(pt, sq) => raw == RawMoveType::Move && pt_of == pt && m.to == sq,
        SanPattern::PawnCapture(f, sq) => pt_of == PieceType::Pawn && (raw == RawMoveType::Capture || raw
            == RawMoveType::EnPassantMove) && m.from.0 == f && m.to == sq,
        SanPattern::PieceCapture(pt, sq) => raw == RawMoveType::Capture && pt_of == pt && m.to == sq,
        SanPattern::PieceMoveFile(pt, f, sq) => raw == RawMoveType::Move && pt_of == pt && m.from.0 == f && m.to
            == sq,
        SanPattern::PieceMoveRank(pt, r, sq) => raw == RawMoveType::Move && pt_of == pt && m.from.1 == r && m.to
            == sq,
        SanPattern::PieceCaptureFile(pt, f, sq) => raw == RawMoveType::Capture && pt_of == pt && m.from.0 == f
            && m.to == sq,
        SanPattern::PieceCaptureRank(pt, r, sq) => raw == RawMoveType::Capture && pt_of == pt && m.from.1 == r
            && m.to == sq,
        SanPattern::Promotion(sq, pp) => raw == RawMoveType::PromotionMove && m.to == sq && promoted_type(
            m.move_type,
        ) == Some(pp),
        SanPattern::PromotionCapture(f, sq, pp) => raw == RawMoveType::PromotionCapture && m.from.0 == f && m.to
            == sq && promoted_type(m.move_type) == Some(pp),
        _ => false,
    }
}

/// The moves `resolve` narrows the legal moves down to for a text that names a move.
spec fn candidates(moves: Seq<ChessMove>, pat: SanPattern) -> Seq<ChessMove> {
    match pat {
        SanPattern::PawnMove(sq, _) => by_to(by_raw(by_type(moves, PieceType::Pawn), seq![RawMoveType::Move]), sq),
        SanPattern::PieceMove(pt, sq) => by_to(by_type(by_raw(moves, seq![RawMoveType::Move]), pt), sq),
        SanPattern::PawnCapture(f, sq) => by_to(
            by_file(
                by_raw(by_type(moves, PieceType::Pawn), seq![RawMoveType::Capture, RawMoveType::EnPassantMove]),
                f,
            ),
            sq,
        ),
        SanPattern::PieceCapture(pt, sq) => by_to(by_type(by_raw(moves, seq![RawMoveType::Capture]), pt), sq),
        SanPattern::PieceMoveFile(pt, f, sq) => by_to(
            by_file(by_type(by_raw(moves, seq![RawMoveType::Move]), pt), f),
            sq,
        ),
        SanPattern::PieceMoveRank(pt, r, sq) => by_to(
            by_rank(by_type(by_raw(moves, seq![RawMoveType::Move]), pt), r),
            sq,
        ),
        SanPattern::PieceCaptureFile(pt, f, sq) => by_to(
            by_file(by_type(by_raw(moves, seq![RawMoveType::Capture]), pt), f),
            sq,
        ),
        SanPattern::PieceCaptureRank(pt, r, sq) => by_to(
            by_rank(by_type(by_raw(moves, seq![RawMoveType::Capture]), pt), r),
            sq,
        ),
        SanPattern::Promotion(sq, pp) => by_promoted(by_to(by_raw(moves, seq![RawMoveType::PromotionMove]), sq), pp),
        SanPattern::PromotionCapture(f, sq, pp) => by_promoted(
            by_to(by_file(by_raw(moves, seq![RawMoveType::PromotionCapture]), f), sq),
            pp,
        ),
        _ => Seq::empty(),
    }
}

proof fn lemma_filter_has(s: Seq<ChessMove>, p: spec_fn(ChessMove) -> bool, x: ChessMove)
    ensures
        s.filter(p).contains(x) <==> s.contains(x) && p(x),
{
    if s.filter(p).contains(x) {
        s.lemma_filter_contains_rev(p, x);
        let j = choose|j: int| 0 <= j < s.filter(p).len() && s.filter(p)[j] == x;
        s.lemma_filter_pred(p, j);
    }
    if s.contains(x) && p(x) {
        let i = choose|i: int| 0 <= i < s.len() && s[i] == x;
        s.lemma_filter_contains(p, i);
    }
}

proof fn lemma_one_of(a: RawMoveType, b: RawMoveType, r: RawMoveType)
    ensures
        seq![a].contains(r) <==> r == a,
        seq![a, b].contains(r) <==> r == a || r == b,
{
    assert(seq![a][0] == a);
    assert(seq![a, b][0] == a && seq![a, b][1] == b);
}

/// What `candidates` keeps of the legal moves: those the text names.
proof fn lemma_candidates_has(moves: Seq<ChessMove>, pat: SanPattern, x: ChessMove)
    requires
        needs_moves(pat),
    ensures
        candidates(moves, pat).contains(x) <==> moves.contains(x) && names_move(pat, x),
{
    let raw = raw_move_type(x.move_type);
    lemma_one_of(RawMoveType::Move, RawMoveType::Move, raw);
    lemma_one_of(RawMoveType::Capture, RawMoveType::EnPassantMove, raw);
    lemma_one_of(RawMoveType::PromotionMove, RawMoveType::PromotionMove, raw);
    lemma_one_of(RawMoveType::PromotionCapture, RawMoveType::PromotionCapture, raw);
    match pat {
        SanPattern::PawnMove(sq, _) => {
            let s1 = by_type(moves, PieceType::Pawn);
            let s2 = by_raw(s1, seq![RawMoveType::Move]);
            lemma_filter_has(moves, |m: ChessMove| moving_piece_type(m.move_type) == PieceType::Pawn, x);
            lemma_filter_has(s1, |m: ChessMove| seq![RawMoveType::Move].contains(raw_move_type(m.move_type)), x);
            lemma_filter_has(s2, |m: ChessMove| m.to == sq, x);
        },
        SanPattern::PieceMove(pt, sq) => {
            let s1 = by_raw(moves, seq![RawMoveType::Move]);
            let s2 = by_type(s1, pt);
            lemma_filter_has(moves, |m: ChessMove| seq![RawMoveType::Move].contains(raw_move_type(m.move_type)), x);
            lemma_filter_has(s1, |m: ChessMove| moving_piece_type(m.move_type) == pt, x);
            lemma_filter_has(s2, |m: ChessMove| m.to == sq, x);
        },
        SanPattern::PawnCapture(f, sq) => {
            let s1 = by_type(moves, PieceType::Pawn);
            let s2 = by_raw(s1, seq![RawMoveType::Capture, RawMoveType::EnPassantMove]);
            let s3 = by_file(s2, f);
            lemma_filter_has(moves, |m: ChessMove| moving_piece_type(m.move_type) == PieceType::Pawn, x);
            lemma_filter_has(
                s1,
                |m: ChessMove| seq![RawMoveType::Capture, RawMoveType::EnPassantMove].contains(raw_move_type(m.move_type)),
                x,
            );
            lemma_filter_has(s2, |m: ChessMove| m.from.0 == f, x);
            lemma_filter_has(s3, |m: ChessMove| m.to == sq, x);
        },
        SanPattern::PieceCapture(pt, sq) => {
            let s1 = by_raw(moves, seq![RawMoveType::Capture]);
            let s2 = by_type(s1, pt);
            lemma_filter_has(moves, |m: ChessMove| seq![RawMoveType::Capture].contains(raw_move_type(m.move_type)), x);
            lemma_filter_has(s1, |m: ChessMove| moving_piece_type(m.move_type) == pt, x);
            lemma_filter_has(s2, |m: ChessMove| m.to == sq, x);
        },
        SanPattern::PieceMoveFile(pt, f, sq) => {
            let s1 = by_raw(moves, seq![RawMoveType::Move]);
            let s2 = by_type(s1, pt);
            let s3 = by_file(s2, f);
            lemma_filter_has(moves, |m: ChessMove| seq![RawMoveType::Move].contains(raw_move_type(m.move_type)), x);
            lemma_filter_has(s1, |m: ChessMove| moving_piece_type(m.move_type) == pt, x);
            lemma_filter_has(s2, |m: ChessMove| m.from.0 == f, x);
            lemma_filter_has(s3, |m: ChessMove| m.to == sq, x);
        },
        SanPattern::PieceMoveRank(pt, r, sq) => {
            let s1 = by_raw(moves, seq![RawMoveType::Move]);
            let s2 = by_type(s1, pt);
            let s3 = by_rank(s2, r);
            lemma_filter_has(moves, |m: ChessMove| seq![RawMoveType::Move].contains(raw_move_type(m.move_type)), x);
            lemma_filter_has(s1, |m: ChessMove| moving_piece_type(m.move_type) == pt, x);
            lemma_filter_has(s2, |m: ChessMove| m.from.1 == r, x);
            lemma_filter_has(s3, |m: ChessMove| m.to == sq, x);
        },
        SanPattern::PieceCaptureFile(pt, f, sq) => {
            let s1 = by_raw(moves, seq![RawMoveType::Capture]);
            let s2 = by_type(s1, pt);
            let s3 = by_file(s2, f);
            lemma_filter_has(moves, |m: ChessMove| seq![RawMoveType::Capture].contains(raw_move_type(m.move_type)), x);
            lemma_filter_has(s1, |m: ChessMove| moving_piece_type(m.move_type) == pt, x);
            lemma_filter_has(s2, |m: ChessMove| m.from.0 == f, x);
            lemma_filter_has(s3, |m: ChessMove| m.to == sq, x);
        },
        SanPattern::PieceCaptureRank(pt, r, sq) => {
            let s1 = by_raw(moves, seq![RawMoveType::Capture]);
            let s2 = by_type(s1, pt);
            let s3 = by_rank(s2, r);
            lemma_filter_has(moves, |m: ChessMove| seq![RawMoveType::Capture].contains(raw_move_type(m.move_type)), x);
            lemma_filter_has(s1, |m: ChessMove| moving_piece_type(m.move_type) == pt, x);
            lemma_filter_has(s2, |m: ChessMove| m.from.1 == r, x);
            lemma_filter_has(s3, |m: ChessMove| m.to == sq, x);
        },
        SanPattern::Promotion(sq, pp) => {
            let s1 = by_raw(moves, seq![RawMoveType::PromotionMove]);
            let s2 = by_to(s1, sq);
            lemma_filter_has(
                moves,
                |m: ChessMove| seq![RawMoveType::PromotionMove].contains(raw_move_type(m.move_type)),
                x,
            );
            lemma_filter_has(s1, |m: ChessMove| m.to == sq, x);
            lemma_filter_has(s2, |m: ChessMove| promoted_type(m.move_type) == Some(pp), x);
        },
        SanPattern::PromotionCapture(f, sq, pp) => {
            let s1 = by_raw(moves, seq![RawMoveType::PromotionCapture]);
            let s2 = by_file(s1, f);
            let s3 = by_to(s2, sq);
            lemma_filter_has(
                moves,
                |m: ChessMove| seq![RawMoveType::PromotionCapture].contains(raw_move_type(m.move_type)),
                x,
            );
            lemma_filter_has(s1, |m: ChessMove| m.from.0 == f, x);
            lemma_filter_has(s2, |m: ChessMove| m.to == sq, x);
            lemma_filter_has(s3, |m: ChessMove| promoted_type(m.move_type) == Some(pp), x);
        },
        _ => {},
    }
}

/// A text naming a move other than castling (and other than a pawn step with a check sign,
/// which is not read) reads, in a position whose moves can be generated, as a move the
/// generator gives the side to move and that the text names: of the text's kind of piece
/// and of move, from the file or rank it gives, to its target, promoting to its piece. It
/// reads as a move exactly when some generated move is named by the text, and never as an
/// error.
pub proof fn lemma_parsed_move_named(fen: Seq<char>, san: Seq<char>, b: BoardModel)
    requires
        spec_parse_fen(fen) == Some(Ok::<BoardModel, BoardError>(b)),
        move_gen_ok(b, b.turn),
        needs_moves(san_pattern(san)),
        !(san_pattern(san) matches SanPattern::PawnMove(_, true)),
    ensures
        spec_parse_move(fen, san) matches Some(Ok(m)) ==> spec_all_moves(b, b.turn).contains(m) && names_move(
            san_pattern(san),
            m,
        ),
        spec_parse_move(fen, san) is Some <==> exists|i: int|
            0 <= i < spec_all_moves(b, b.turn).len() && names_move(san_pattern(san), #[trigger] spec_all_moves(b, b.turn)[i]),
        !(spec_parse_move(fen, san) matches Some(Err(_))),
{
    let pat = san_pattern(san);
    let moves = spec_all_moves(b, b.turn);
    let c = candidates(moves, pat);
    assert(resolve(b.turn, moves, pat) == first_fit(c));
    if c.len() > 0 {
        lemma_candidates_has(moves, pat, c[0]);
        assert(c.contains(c[0]));
        let i = choose|i: int| 0 <= i < moves.len() && moves[i] == c[0];
        assert(names_move(pat, moves[i]));
    }
    if exists|i: int| 0 <= i < moves.len() && names_move(pat, #[trigger] moves[i]) {
        let i = choose|i: int| 0 <= i < moves.len() && names_move(pat, #[trigger] moves[i]);
        lemma_candidates_has(moves, pat, moves[i]);
        assert(moves.contains(moves[i]));
    }
}

/// The letter a move text starts with names the kind of piece that moves: a move read from
/// a text starting with `B` is a bishop's, with `N` a knight's, with `R` a rook's, with `Q`
/// a queen's and with `K` the king's.
pub proof fn lemma_piece_letter_names_mover(fen: Seq<char>, san: Seq<char>)
    requires
        spec_parse_move(fen, san) matches Some(Ok(m)),
        san.len() > 0,
    ensures
        spec_parse_move(fen, san) matches Some(Ok(m)) && {
            &&& san[0] == 'B' ==> moving_piece_type(m.move_type) == PieceType::Bishop
            &&& san[0] == 'N' ==> moving_piece_type(m.move_type) == PieceType::Knight
            &&& san[0] == 'R' ==> moving_piece_type(m.move_type) == PieceType::Rook
            &&& san[0] == 'Q' ==> moving_piece_type(m.move_type) == PieceType::Queen
            &&& san[0] == 'K' ==> moving_piece_type(m.move_type) == PieceType::King
        },
{
    let c = san[0];
    if c == 'B' || c == 'N' || c == 'R' || c == 'Q' || c == 'K' {
        let pat = san_pattern(san);
        assert(!is_file_char(c));
        assert(c != 'O');
        assert(!(pat is PawnMove || pat is PawnCapture || pat is Promotion || pat is PromotionCapture));
        if !(pat is CastleShort || pat is CastleLong || pat is Invalid) {
            let b = spec_parse_fen(fen)->0->Ok_0;
            assert(spec_parse_fen(fen) == Some(Ok::<BoardModel, BoardError>(b)));
            assert(move_gen_ok(b, b.turn));
            lemma_parsed_move_named(fen, san, b);
        }
    }
}

/// A move text names its squares by file letters from `a` and rank digits from `1`: the
/// target in `e4`, `Nf3` and `Bxc6`, the target and the file or rank the piece comes from
/// in `exd5`, `Rad1` and `R1a3`, and the target and the new piece in `e8=Q`.
pub proof fn lemma_move_text_names_target(fen: Seq<char>, san: Seq<char>)
    requires
        spec_parse_move(fen, san) matches Some(Ok(m)),
        san.len() >= 2,
    ensures
        spec_parse_move(fen, san) matches Some(Ok(m)) && {
            &&& (san.len() == 2 && is_file_char(san[0]) && is_rank_char(san[1])) ==> m.to == Square(
                (san[0] as int - 'a' as int) as i8,
                (san[1] as int - '1' as int) as i8,
            )
            &&& (san.len() == 3 && (san[0] == 'B' || san[0] == 'N' || san[0] == 'R' || san[0] == 'Q' || san[0]
                == 'K') && is_file_char(san[1]) && is_rank_char(san[2])) ==> m.to == Square(
                (san[1] as int - 'a' as int) as i8,
                (san[2] as int - '1' as int) as i8,
            )
            &&& (san.len() == 4 && san[1] == 'x' && is_file_char(san[2]) && is_rank_char(san[3])) ==> m.to
                == Square((san[2] as int - 'a' as int) as i8, (san[3] as int - '1' as int) as i8)
            &&& (san.len() == 4 && is_file_char(san[0]) && san[1] == 'x' && is_file_char(san[2]) && is_rank_char(
                san[3],
            )) ==> m.from.0 == san[0] as int - 'a' as int
            &&& (san.len() == 4 && !is_file_char(san[0]) && is_file_char(san[1]) && is_file_char(san[2])
                && is_rank_char(san[3])) ==> m.from.0 == san[1] as int - 'a' as int && m.to == Square(
                (san[2] as int - 'a' as int) as i8,
                (san[3] as int - '1' as int) as i8,
            )
            &&& (san.len() == 4 && !is_file_char(san[0]) && is_rank_char(san[1]) && is_file_char(san[2])
                && is_rank_char(san[3])) ==> m.from.1 == san[1] as int - '1' as int && m.to == Square(
                (san[2] as int - 'a' as int) as i8,
                (san[3] as int - '1' as int) as i8,
            )
            &&& (san.len() == 4 && is_file_char(san[0]) && is_rank_char(san[1]) && san[2] == '=') ==> {
                &&& m.to == Square((san[0] as int - 'a' as int) as i8, (san[1] as int - '1' as int) as i8)
                &&& san[3] == 'Q' ==> promoted_type(m.move_type) == Some(PromotedPieceType::Queen)
                &&& san[3] == 'R' ==> promoted_type(m.move_type) == Some(PromotedPieceType::Rook)
                &&& san[3] == 'B' ==> promoted_type(m.move_type) == Some(PromotedPieceType::Bishop)
                &&& san[3] == 'N' ==> promoted_type(m.move_type) == Some(PromotedPieceType::Knight)
            }
        },
{
    let pat = san_pattern(san);
    assert(san.skip(san.len() as int) =~= Seq::<char>::empty());
    if !(pat is CastleShort || pat is CastleLong || pat is Invalid) {
        let b = spec_parse_fen(fen)->0->Ok_0;
        assert(spec_parse_fen(fen) == Some(Ok::<BoardModel, BoardError>(b)));
        assert(move_gen_ok(b, b.turn));
        if !(pat matches SanPattern::PawnMove(_, true)) {
            lemma_parsed_move_named(fen, san, b);
        }
    }
}

} // verus!
