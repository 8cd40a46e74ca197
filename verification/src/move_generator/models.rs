use vstd::prelude::*;
use vstd::string::StringExecFns;

use crate::board_setup::models::{Board, FenPieceType};
use crate::move_register::models::{ChessMove, MoveType, PromotedPieceType, RawMoveType};
use crate::board_setup::models::BoardModel;
use super::{spec_piece_moves, gen_ok};
use super::restrictions::{near_board, 
    attacked_has, ep_sq_ok, get_attacked, get_checked, get_pins, king_sq_ok, king_square,
    spec_check_square, spec_checks_amount, spec_pins,
};

verus! {

/// The six kinds of chess pieces.
#[derive(Debug, Clone, Copy, PartialEq, Eq, Structural)]
pub enum PieceType {
    Pawn,
    Knight,
    Bishop,
    Rook,
    Queen,
    King,
}

impl PieceType {
    /// The kind of piece a promotion produces.
    pub open spec fn spec_from_promoted(p: PromotedPieceType) -> PieceType {
        match p {
            PromotedPieceType::Queen => PieceType::Queen,
            PromotedPieceType::Knight => PieceType::Knight,
            PromotedPieceType::Bishop => PieceType::Bishop,
            PromotedPieceType::Rook => PieceType::Rook,
        }
    }

    /// The kind of piece a promotion produces.
    pub fn from_promoted(p: PromotedPieceType) -> (res: PieceType)
        ensures
            res == Self::spec_from_promoted(p),
    {
        match p {
            PromotedPieceType::Queen => PieceType::Queen,
            PromotedPieceType::Knight => PieceType::Knight,
            PromotedPieceType::Bishop => PieceType::Bishop,
            PromotedPieceType::Rook => PieceType::Rook,
        }
    }

    pub open spec fn spec_letter(self) -> char {
        match self {
            PieceType::Pawn => ' ',
            PieceType::Knight => 'N',
            PieceType::Bishop => 'B',
            PieceType::Rook => 'R',
            PieceType::Queen => 'Q',
            PieceType::King => 'K',
        }
    }

    /// The letter of the piece in algebraic notation (a space for a pawn).
    pub fn to_char(self) -> (res: char)
        ensures
            res == self.spec_letter(),
    {
        match self {
            PieceType::Pawn => ' ',
            PieceType::Knight => 'N',
            PieceType::Bishop => 'B',
            PieceType::Rook => 'R',
            PieceType::Queen => 'Q',
            PieceType::King => 'K',
        }
    }

    /// The piece as it is written in a move: nothing for a pawn, else its letter.
    pub fn to_string(self) -> (res: String)
        ensures
            self == PieceType::Pawn ==> res@ == Seq::<char>::empty(),
            self != PieceType::Pawn ==> res@ == seq![self.spec_letter()],
    {
        let mut s = String::new();
        if !matches!(self, PieceType::Pawn) {
            push_char(&mut s, self.to_char());
        }
        s
    }
}

/// Appends one character to a string with the standard library's `String::push`; the
/// contract claims what its documentation says: the character is added at the end.
#[verifier::external_body]
pub(crate) fn push_char(s: &mut String, c: char)
    ensures
        final(s)@ == old(s)@.push(c),
{
    s.push(c);
}

/// Appends a string to another.
pub(crate) fn push_str(s: &mut String, t: &str)
    ensures
        final(s)@ == old(s)@ + t@,
{
    s.append(t);
}

/// The two sides.
#[derive(PartialEq, Eq, Structural, Clone, Copy, Debug)]
pub enum Color {
    White,
    Black,
}

impl Color {
    pub open spec fn spec_opp(self) -> Color {
        match self {
            Color::Black => Color::White,
            Color::White => Color::Black,
        }
    }

    /// The other side.
    pub fn opp(&self) -> (res: Self)
        ensures
            res == self.spec_opp(),
            res != *self,
            res.spec_opp() == *self,
    {
        match self {
            Color::Black => Color::White,
            Color::White => Color::Black,
        }
    }

    /// The name of the side.
    pub fn to_string(&self) -> (res: String)
        ensures
            *self == Color::White ==> res@ == "White"@,
            *self == Color::Black ==> res@ == "Black"@,
    {
        let mut s = String::new();
        match self {
            Color::White => push_str(&mut s, "White"),
            Color::Black => push_str(&mut s, "Black"),
        }
        s
    }
}

/// Whether an integer fits in an `i8`.
pub open spec fn fits_i8(x: int) -> bool {
    i8::MIN <= x <= i8::MAX
}

/// A square given by file (`.0`, 0 for the a-file) and rank (`.1`, 0 for the first rank).
#[derive(Debug, Clone, Copy, PartialEq, Eq, Structural, Hash)]
pub struct Square(pub i8, pub i8);

/// A displacement between two squares: files, then ranks.
#[derive(Debug, Clone, Copy, PartialEq, Eq, Structural)]
pub struct Offset(pub i8, pub i8);

impl Square {
    pub open spec fn in_bounds(self) -> bool {
        0 <= self.0 <= 7 && 0 <= self.1 <= 7
    }

    /// The index of an in-bounds square in a rank-major array of 64 squares.
    pub open spec fn index(self) -> int {
        self.1 * 8 + self.0
    }

    /// Whether `self + o` can be computed without leaving the range of `i8`.
    pub open spec fn can_add(self, o: Offset) -> bool {
        fits_i8(self.0 + o.0) && fits_i8(self.1 + o.1)
    }

    pub open spec fn spec_add(self, o: Offset) -> Square {
        Square((self.0 + o.0) as i8, (self.1 + o.1) as i8)
    }

    pub open spec fn spec_c_add(self, o: Offset) -> Option<Square> {
        if self.spec_add(o).in_bounds() {
            Some(self.spec_add(o))
        } else {
            None
        }
    }

    /// Whether the square lies on the board.
    pub fn is_in_bounds(&self) -> (res: bool)
        ensures
            res == self.in_bounds(),
    {
        !(self.0 < 0) && self.0 <= 7 && !(self.1 < 0) && self.1 <= 7
    }

    /// The square reached by an offset.
    pub fn add(self, o: Offset) -> (res: Square)
        requires
            self.can_add(o),
        ensures
            res == self.spec_add(o),
            res.0 == self.0 + o.0,
            res.1 == self.1 + o.1,
    {
        Square(self.0 + o.0, self.1 + o.1)
    }

    /// The square reached by going back by an offset.
    pub fn sub(self, o: Offset) -> (res: Square)
        requires
            fits_i8(self.0 - o.0),
            fits_i8(self.1 - o.1),
        ensures
            res.0 == self.0 - o.0,
            res.1 == self.1 - o.1,
    {
        Square(self.0 - o.0, self.1 - o.1)
    }

    /// The offset that leads from `other` to `self`.
    pub fn offset_from(self, other: Square) -> (res: Offset)
        requires
            fits_i8(self.0 - other.0),
            fits_i8(self.1 - other.1),
        ensures
            res.0 == self.0 - other.0,
            res.1 == self.1 - other.1,
    {
        Offset(self.0 - other.0, self.1 - other.1)
    }

    /// The square reached by an offset, if it lies on the board.
    pub fn c_add(self, o: Offset) -> (res: Option<Square>)
        requires
            self.can_add(o),
        ensures
            res == self.spec_c_add(o),
            res is Some <==> self.spec_add(o).in_bounds(),
    {
        let res = Square(self.0 + o.0, self.1 + o.1);
        if res.is_in_bounds() {
            Some(res)
        } else {
            None
        }
    }

    pub open spec fn spec_name(self) -> Seq<char> {
        seq![(self.0 + 97) as char, (self.1 + 49) as char]
    }

    /// The algebraic name of an in-bounds square, such as `e4`.
    pub fn to_string(&self) -> (res: String)
        requires
            self.in_bounds(),
        ensures
            res@ == self.spec_name(),
    {
        let mut s = String::new();
        push_char(&mut s, file_char(self.0));
        push_char(&mut s, rank_char(self.1));
        s
    }
}

/// The letter of a file, `a` for 0.
pub fn file_char(file: i8) -> (res: char)
    requires
        0 <= file <= 7,
    ensures
        res == (file + 97) as char,
{
    if file == 0 { 'a' }
    else if file == 1 { 'b' }
    else if file == 2 { 'c' }
    else if file == 3 { 'd' }
    else if file == 4 { 'e' }
    else if file == 5 { 'f' }
    else if file == 6 { 'g' }
    else { 'h' }
}

/// The digit of a rank, `1` for 0.
pub fn rank_char(rank: i8) -> (res: char)
    requires
        0 <= rank <= 7,
    ensures
        res == (rank + 49) as char,
{
    if rank == 0 { '1' }
    else if rank == 1 { '2' }
    else if rank == 2 { '3' }
    else if rank == 3 { '4' }
    else if rank == 4 { '5' }
    else if rank == 5 { '6' }
    else if rank == 6 { '7' }
    else { '8' }
}

impl Offset {
    pub open spec fn spec_mul(self, k: i8) -> Offset {
        Offset((self.0 * k) as i8, (self.1 * k) as i8)
    }

    /// The offset repeated `k` times.
    pub fn mul(self, k: i8) -> (res: Offset)
        requires
            fits_i8(self.0 * k),
            fits_i8(self.1 * k),
        ensures
            res == self.spec_mul(k),
            res.0 == self.0 * k,
            res.1 == self.1 * k,
    {
        Offset(self.0 * k, self.1 * k)
    }

    /// The offset of one step in a direction.
    pub fn from_dir(dir: MoveDir) -> (res: Offset)
        ensures
            res == dir.offset(),
    {
        match dir {
            MoveDir::Up => Offset(0, 1),
            MoveDir::UpRight => Offset(1, 1),
            MoveDir::Right => Offset(1, 0),
            MoveDir::DownRight => Offset(1, -1),
            MoveDir::Down => Offset(0, -1),
            MoveDir::DownLeft => Offset(-1, -1),
            MoveDir::Left => Offset(-1, 0),
            MoveDir::UpLeft => Offset(-1, 1),
        }
    }
}

/// A piece standing on a square.
#[derive(Debug, Clone, Copy, PartialEq, Eq, Structural)]
pub struct ChessPiece {
    pub piece_type: PieceType,
    pub color: Color,
    pub position: Square,
}

pub open spec fn spec_fen_piece_type(piece_type: PieceType, color: Color) -> FenPieceType {
    match (piece_type, color) {
        (PieceType::Pawn, Color::White) => FenPieceType::WhitePawn,
        (PieceType::Pawn, Color::Black) => FenPieceType::BlackPawn,
        (PieceType::Knight, Color::White) => FenPieceType::WhiteKnight,
        (PieceType::Knight, Color::Black) => FenPieceType::BlackKnight,
        (PieceType::Bishop, Color::White) => FenPieceType::WhiteBishop,
        (PieceType::Bishop, Color::Black) => FenPieceType::BlackBishop,
        (PieceType::Rook, Color::White) => FenPieceType::WhiteRook,
        (PieceType::Rook, Color::Black) => FenPieceType::BlackRook,
        (PieceType::Queen, Color::White) => FenPieceType::WhiteQueen,
        (PieceType::Queen, Color::Black) => FenPieceType::BlackQueen,
        (PieceType::King, Color::White) => FenPieceType::WhiteKing,
        (PieceType::King, Color::Black) => FenPieceType::BlackKing,
    }
}

/// The points a piece counts towards having enough material to mate.
pub open spec fn spec_mating_points(piece_type: PieceType) -> u8 {
    match piece_type {
        PieceType::Pawn => 3,
        PieceType::Knight => 1,
        PieceType::Bishop => 2,
        PieceType::Rook => 3,
        PieceType::Queen => 3,
        PieceType::King => 0,
    }
}

impl ChessPiece {
    /// The piece as FEN writes it.
    pub fn fen_piece_type(&self) -> (res: FenPieceType)
        ensures
            res == spec_fen_piece_type(self.piece_type, self.color),
    {
        match (self.piece_type, self.color) {
            (PieceType::Pawn, Color::White) => FenPieceType::WhitePawn,
            (PieceType::Pawn, Color::Black) => FenPieceType::BlackPawn,
            (PieceType::Knight, Color::White) => FenPieceType::WhiteKnight,
            (PieceType::Knight, Color::Black) => FenPieceType::BlackKnight,
            (PieceType::Bishop, Color::White) => FenPieceType::WhiteBishop,
            (PieceType::Bishop, Color::Black) => FenPieceType::BlackBishop,
            (PieceType::Rook, Color::White) => FenPieceType::WhiteRook,
            (PieceType::Rook, Color::Black) => FenPieceType::BlackRook,
            (PieceType::Queen, Color::White) => FenPieceType::WhiteQueen,
            (PieceType::Queen, Color::Black) => FenPieceType::BlackQueen,
            (PieceType::King, Color::White) => FenPieceType::WhiteKing,
            (PieceType::King, Color::Black) => FenPieceType::BlackKing,
        }
    }

    /// Moves the piece to another square.
    pub fn set_position(&mut self, pos: Square)
        ensures
            *final(self) == (ChessPiece { position: pos, ..*old(self) }),
    {
        self.position = pos;
    }

    /// The points this piece counts towards having enough material to mate.
    pub fn mating_material_points(&self) -> (res: u8)
        ensures
            res == spec_mating_points(self.piece_type),
    {
        match self.piece_type {
            PieceType::Pawn => 3,
            PieceType::Knight => 1,
            PieceType::Bishop => 2,
            PieceType::Rook => 3,
            PieceType::Queen => 3,
            PieceType::King => 0,
        }
    }
}

/// The eight directions a piece can move in.
#[derive(Clone, Copy, PartialEq, Eq, Structural, PartialOrd, Ord, Debug)]
pub enum MoveDir {
    Up,
    UpRight,
    Right,
    DownRight,
    Down,
    DownLeft,
    Left,
    UpLeft,
}

impl MoveDir {
    pub open spec fn offset(self) -> Offset {
        match self {
            MoveDir::Up => Offset(0i8, 1i8),
            MoveDir::UpRight => Offset(1, 1),
            MoveDir::Right => Offset(1, 0),
            MoveDir::DownRight => Offset(1, -1i8),
            MoveDir::Down => Offset(0, -1i8),
            MoveDir::DownLeft => Offset(-1i8, -1i8),
            MoveDir::Left => Offset(-1i8, 0),
            MoveDir::UpLeft => Offset(-1i8, 1),
        }
    }
}

/// The directions along which a pinned piece may still move.
#[derive(Debug, PartialEq, Eq, Structural, Hash, Clone, Copy)]
pub enum PinDir {
    Vertical,
    Horizontal,
    LeftDiagonal,
    RightDiagonal,
    EnPassantBlock,
}

impl PinDir {
    pub open spec fn spec_from_dir(dir: MoveDir) -> PinDir {
        match dir {
            MoveDir::Up | MoveDir::Down => PinDir::Vertical,
            MoveDir::UpRight | MoveDir::DownLeft => PinDir::RightDiagonal,
            MoveDir::Right | MoveDir::Left => PinDir::Horizontal,
            MoveDir::DownRight | MoveDir::UpLeft => PinDir::LeftDiagonal,
        }
    }

    /// The pin a direction from the king gives.
    pub fn from_dir(dir: MoveDir) -> (res: PinDir)
        ensures
            res == Self::spec_from_dir(dir),
    {
        match dir {
            MoveDir::Up | MoveDir::Down => PinDir::Vertical,
            MoveDir::UpRight | MoveDir::DownLeft => PinDir::RightDiagonal,
            MoveDir::Right | MoveDir::Left => PinDir::Horizontal,
            MoveDir::DownRight | MoveDir::UpLeft => PinDir::LeftDiagonal,
        }
    }
}


/// A set of squares on the board.
#[derive(Clone, Copy, Debug)]
pub struct SquareSet(pub [bool; 64]);

impl SquareSet {
    /// Whether the set holds a square.
    pub open spec fn has(self, sq: Square) -> bool {
        sq.in_bounds() && self.0@[sq.index()]
    }

    /// The set as a mathematical set.
    pub open spec fn view_set(self) -> Set<Square> {
        Set::new(|sq: Square| self.has(sq))
    }

    /// The empty set.
    pub fn new() -> (res: SquareSet)
        ensures
            forall|sq: Square| !res.has(sq),
    {
        SquareSet([false; 64])
    }

    /// Whether the set holds a square.
    pub fn contains(&self, sq: &Square) -> (res: bool)
        ensures
            res == self.has(*sq),
    {
        if sq.is_in_bounds() {
            self.0[(sq.1 * 8 + sq.0) as usize]
        } else {
            false
        }
    }

    /// Adds an in-bounds square.
    pub fn insert(&mut self, sq: Square)
        requires
            sq.in_bounds(),
        ensures
            forall|s: Square| #[trigger] final(self).has(s) == (old(self).has(s) || s == sq),
    {
        let i = (sq.1 * 8 + sq.0) as usize;
        self.0[i] = true;
        assert forall|s: Square| final(self).has(s) == (old(self).has(s) || s == sq) by {
            if s.in_bounds() && s.index() == sq.index() {
                assert(s == sq);
            }
        }
    }

    /// Adds every square of another set.
    pub fn extend(&mut self, other: &SquareSet)
        ensures
            forall|s: Square| #[trigger] final(self).has(s) == (old(self).has(s) || other.has(s)),
    {
        let mut i: usize = 0;
        while i < 64
            invariant
                0 <= i <= 64,
                self.0@.len() == 64,
                forall|j: int| 0 <= j < i ==> #[trigger] self.0@[j] == (old(self).0@[j] || other.0@[j]),
                forall|j: int| i <= j < 64 ==> #[trigger] self.0@[j] == old(self).0@[j],
            decreases 64 - i,
        {
            if other.0[i] {
                self.0[i] = true;
            }
            i = i + 1;
        }
        assert forall|s: Square| final(self).has(s) == (old(self).has(s) || other.has(s)) by {
            if s.in_bounds() {
                assert(0 <= s.index() < 64);
            }
        }
    }

    /// Whether the set holds one of the given squares.
    pub fn contains_from(&self, elems: &[Square]) -> (res: bool)
        ensures
            res == exists|k: int| 0 <= k < elems@.len() && self.has(#[trigger] elems@[k]),
    {
        let mut i: usize = 0;
        while i < elems.len()
            invariant
                0 <= i <= elems@.len(),
                forall|k: int| 0 <= k < i ==> !self.has(#[trigger] elems@[k]),
            decreases elems@.len() - i,
        {
            if self.contains(&elems[i]) {
                return true;
            }
            i = i + 1;
        }
        false
    }
}

/// For each square of the board, the pin of the piece standing there, if any.
#[derive(Clone, Copy, Debug)]
pub struct PinMap(pub [Option<PinDir>; 64]);

impl PinMap {
    pub open spec fn spec_get(self, sq: Square) -> Option<PinDir> {
        if sq.in_bounds() {
            self.0@[sq.index()]
        } else {
            None
        }
    }

    /// The map without pins.
    pub fn new() -> (res: PinMap)
        ensures
            forall|sq: Square| res.spec_get(sq) is None,
    {
        PinMap([None; 64])
    }

    /// The pin recorded for a square.
    pub fn get(&self, sq: &Square) -> (res: Option<PinDir>)
        ensures
            res == self.spec_get(*sq),
    {
        if sq.is_in_bounds() {
            self.0[(sq.1 * 8 + sq.0) as usize]
        } else {
            None
        }
    }

    /// Records a pin for an in-bounds square, replacing any earlier one.
    pub fn insert(&mut self, sq: Square, dir: PinDir)
        requires
            sq.in_bounds(),
        ensures
            forall|s: Square| final(self).spec_get(s) == if s == sq {
                Some(dir)
            } else {
                old(self).spec_get(s)
            },
    {
        let i = (sq.1 * 8 + sq.0) as usize;
        self.0[i] = Some(dir);
        assert forall|s: Square| final(self).spec_get(s) == if s == sq {
            Some(dir)
        } else {
            old(self).spec_get(s)
        } by {
            if s.in_bounds() && s.index() == sq.index() {
                assert(s == sq);
            }
        }
    }
}

/// The squares next to a king that the other side attacks.
#[derive(Debug, Clone, Copy)]
pub struct Attacked(pub SquareSet);

/// The squares on which a piece may stop a check, and how many pieces give check.
#[derive(Debug, Clone, Copy)]
pub struct CheckSquares {
    pub squares: SquareSet,
    pub checks_amount: u8,
}

/// The pieces pinned to their king, with the line of the pin.
#[derive(Debug, Clone, Copy)]
pub struct PinSquares(pub PinMap);

/// What restricts the moves of one side.
#[derive(Debug, Clone, Copy)]
pub struct MoveRestrictionData {
    pub attacked: Attacked,
    pub check_squares: CheckSquares,
    pub pin_squares: PinSquares,
}

impl MoveRestrictionData {
    /// Whether this data is what `get` computes for `color` on the position `b`.
    pub open spec fn describes(self, b: BoardModel, color: Color) -> bool {
        &&& forall|s: Square| #[trigger] self.attacked.0.has(s) == attacked_has(b, color, 13, s)
        &&& self.check_squares.checks_amount == spec_checks_amount(b, color)
        &&& forall|s: Square| #[trigger] self.check_squares.squares.has(s) == spec_check_square(
            b,
            color,
            s,
        )
        &&& (self.pin_squares.0).0@ == spec_pins(b, color)
    }

    /// What restricts the moves of `color`: attacked squares around its king, checks and pins.
    pub fn get(board: &Board, color: Color) -> (res: Self)
        requires
            king_sq_ok(king_square(board@, color)),
            ep_sq_ok(board@),
        ensures
            res.describes(board@, color),
    {
        Self {
            attacked: get_attacked(board, color),
            check_squares: get_checked(board, color),
            pin_squares: get_pins(board, color),
        }
    }
}

/// The raw kind of a move type.
pub open spec fn raw_move_type(t: MoveType) -> RawMoveType {
    match t {
        MoveType::Move(_) => RawMoveType::Move,
        MoveType::Capture(_) => RawMoveType::Capture,
        MoveType::EnPassantMove => RawMoveType::EnPassantMove,
        MoveType::CastleMove(_) => RawMoveType::CastleMove,
        MoveType::PromotionMove(_) => RawMoveType::PromotionMove,
        MoveType::PromotionCapture(_) => RawMoveType::PromotionCapture,
    }
}

/// The kind of piece that makes a move.
pub open spec fn moving_piece_type(t: MoveType) -> PieceType {
    match t {
        MoveType::Move(pt) | MoveType::Capture(pt) => pt,
        MoveType::EnPassantMove | MoveType::PromotionMove(_) | MoveType::PromotionCapture(_) => PieceType::Pawn,
        MoveType::CastleMove(_) => PieceType::King,
    }
}

/// The piece a move promotes to, if it promotes.
pub open spec fn promoted_type(t: MoveType) -> Option<PromotedPieceType> {
    match t {
        MoveType::PromotionMove(ppt) | MoveType::PromotionCapture(ppt) => Some(ppt),
        _ => None,
    }
}

/// A criterion that selects moves.
#[derive(Clone, Copy)]
enum Criterion {
    From(Square),
    FromFile(i8),
    FromRank(i8),
    To(Square),
    Piece(PieceType),
    Promoted(PromotedPieceType),
    FromTo(Square, Square),
}

spec fn accepts(c: Criterion, m: ChessMove) -> bool {
    match c {
        Criterion::From(sq) => m.from == sq,
        Criterion::FromFile(f) => m.from.0 == f,
        Criterion::FromRank(r) => m.from.1 == r,
        Criterion::To(sq) => m.to == sq,
        Criterion::Piece(pt) => moving_piece_type(m.move_type) == pt,
        Criterion::Promoted(ppt) => promoted_type(m.move_type) == Some(ppt),
        Criterion::FromTo(from, to) => m.from == from && m.to == to,
    }
}

fn accepts_exec(c: Criterion, m: ChessMove) -> (res: bool)
    ensures
        res == accepts(c, m),
{
    match c {
        Criterion::From(sq) => m.from == sq,
        Criterion::FromFile(f) => m.from.0 == f,
        Criterion::FromRank(r) => m.from.1 == r,
        Criterion::To(sq) => m.to == sq,
        Criterion::Piece(pt) => match m.move_type {
            MoveType::Move(t) | MoveType::Capture(t) => t == pt,
            MoveType::EnPassantMove | MoveType::PromotionMove(_) | MoveType::PromotionCapture(_) => matches!(pt, PieceType::Pawn),
            MoveType::CastleMove(_) => matches!(pt, PieceType::King),
        },
        Criterion::Promoted(ppt) => match m.move_type {
            MoveType::PromotionMove(t) | MoveType::PromotionCapture(t) => t == ppt,
            _ => false,
        },
        Criterion::FromTo(from, to) => m.from == from && m.to == to,
    }
}

fn filter_moves(v: &Vec<ChessMove>, c: Criterion) -> (res: Vec<ChessMove>)
    ensures
        res@ == v@.filter(|m: ChessMove| accepts(c, m)),
{
    let ghost pred = |m: ChessMove| accepts(c, m);
    let mut res: Vec<ChessMove> = Vec::new();
    let mut i: usize = 0;
    while i < v.len()
        invariant
            0 <= i <= v@.len(),
            res@ == v@.take(i as int).filter(pred),
            pred == (|m: ChessMove| accepts(c, m)),
        decreases v@.len() - i,
    {
        let m = v[i];
        proof {
            assert(v@.take(i + 1) == v@.take(i as int).push(m));
            v@.take(i as int).lemma_filter_push(m, pred);
        }
        if accepts_exec(c, m) {
            res.push(m);
        }
        i = i + 1;
    }
    assert(v@.take(v@.len() as int) == v@);
    res
}

/// Whether every piece on the board records a square on the board as its position.
pub open spec fn positions_in_bounds(b: BoardModel) -> bool {
    forall|i: int| 0 <= i < 64 ==> match #[trigger] b.pieces[i] {
        Some(p) => p.position.in_bounds(),
        None => true,
    }
}

/// What `Moves::get_all_moves` requires of a position: the king and en passant squares lie
/// near the board, every piece records a position on the board, and the side is not checked
/// by more than two pieces.
pub open spec fn move_gen_ok(b: BoardModel, color: Color) -> bool {
    &&& king_sq_ok(king_square(b, color))
    &&& match b.en_passant_square {
        Some(e) => near_board(e, -120, 120),
        None => true,
    }
    &&& positions_in_bounds(b)
    &&& spec_checks_amount(b, color) <= 2
}

/// The moves of `color` from the pieces on the first `n` squares, rank by rank.
pub open spec fn moves_upto(b: BoardModel, color: Color, n: int) -> Seq<ChessMove>
    decreases n,
{
    if n <= 0 {
        Seq::empty()
    } else {
        moves_upto(b, color, n - 1) + match b.pieces[n - 1] {
            Some(p) => if p.color == color {
                spec_piece_moves(b, p)
            } else {
                Seq::empty()
            },
            None => Seq::empty(),
        }
    }
}

/// The moves the generator gives `color` in a position: the moves of its pieces that
/// follow the rules by which they move and pass the restrictions for checks, pins and
/// attacked squares (`rules::lemma_generated_moves_exactly`), each once
/// (`rules::lemma_generated_moves_distinct`); they include every legal move, and all of
/// them are legal but for two kinds of move that open a line to the king around an en
/// passant target (`attacks::lemma_generated_moves_legal_with_target`); without an en
/// passant target they are exactly the legal moves (`attacks::lemma_generated_moves_legal`).
pub open spec fn spec_all_moves(b: BoardModel, color: Color) -> Seq<ChessMove> {
    moves_upto(b, color, 64)
}

/// A list of moves.
#[derive(Debug, Clone)]
pub struct Moves(pub Vec<ChessMove>);

impl Moves {
    /// Adds a move at the end.
    pub fn add_move(&mut self, m: ChessMove)
        ensures
            final(self).0@ == old(self).0@.push(m),
    {
        self.0.push(m);
    }

    /// The moves of `color`: those of its pieces, square by square from a1 to h8.
    pub fn get_all_moves(board: &Board, color: Color) -> (res: Self)
        requires
            move_gen_ok(board@, color),
        ensures
            res.0@ == spec_all_moves(board@, color),
    {
        let restrictions = MoveRestrictionData::get(board, color);
        let mut res: Vec<ChessMove> = Vec::new();
        let mut n: usize = 0;
        while n < 64
            invariant
                0 <= n <= 64,
                move_gen_ok(board@, color),
                restrictions.describes(board@, color),
                res@ == moves_upto(board@, color, n as int),
            decreases 64 - n,
        {
            let sq = Square((n % 8) as i8, (n / 8) as i8);
            assert(sq.in_bounds() && sq.index() == n);
            let ghost before = res@;
            match board.get_square(sq) {
                Some(p) => {
                    if p.color == color {
                        assert(p.position.in_bounds());
                        let mut moves = p.get_moves(board, &restrictions);
                        res.append(&mut moves);
                    } else {
                        assert(res@ =~= before + Seq::<ChessMove>::empty());
                    }
                },
                None => {
                    assert(res@ =~= before + Seq::<ChessMove>::empty());
                },
            }
            n = n + 1;
        }
        Moves(res)
    }

    /// Whether `get_all_moves` can be called on a position for a side, checked at run time.
    pub fn can_generate(board: &Board, color: Color) -> (res: bool)
        ensures
            res == move_gen_ok(board@, color),
    {
        let k = match color {
            Color::White => board.king_positions.0,
            Color::Black => board.king_positions.1,
        };
        if !(-125 <= k.0 && k.0 <= 125 && -126 <= k.1 && k.1 <= 125) {
            return false;
        }
        match board.en_passant_square {
            Some(e) => {
                if !(-120 <= e.0 && e.0 <= 120 && -120 <= e.1 && e.1 <= 120) {
                    return false;
                }
            },
            None => {},
        }
        let mut n: usize = 0;
        while n < 64
            invariant
                n <= 64,
                forall|i: int| 0 <= i < n ==> match #[trigger] board@.pieces[i] {
                    Some(p) => p.position.in_bounds(),
                    None => true,
                },
            decreases 64 - n,
        {
            let sq = Square((n % 8) as i8, (n / 8) as i8);
            assert(sq.in_bounds() && sq.index() == n);
            match board.get_square(sq) {
                Some(p) => {
                    if !p.position.is_in_bounds() {
                        return false;
                    }
                },
                None => {},
            }
            n = n + 1;
        }
        get_checked(board, color).checks_amount <= 2
    }

    /// The moves that start on a square.
    pub fn search_with_from(&self, from: Square) -> (res: Self)
        ensures
            res.0@ == self.0@.filter(|m: ChessMove| m.from == from),
    {
        let r = filter_moves(&self.0, Criterion::From(from));
        assert((|m: ChessMove| accepts(Criterion::From(from), m)) =~= (|m: ChessMove| m.from == from));
        Moves(r)
    }

    /// The moves that start on a file.
    pub fn search_with_from_file(&self, from_file: i8) -> (res: Self)
        ensures
            res.0@ == self.0@.filter(|m: ChessMove| m.from.0 == from_file),
    {
        let r = filter_moves(&self.0, Criterion::FromFile(from_file));
        assert((|m: ChessMove| accepts(Criterion::FromFile(from_file), m)) =~= (|m: ChessMove| m.from.0 == from_file));
        Moves(r)
    }

    /// The moves that start on a rank.
    pub fn search_with_from_rank(&self, from_rank: i8) -> (res: Self)
        ensures
            res.0@ == self.0@.filter(|m: ChessMove| m.from.1 == from_rank),
    {
        let r = filter_moves(&self.0, Criterion::FromRank(from_rank));
        assert((|m: ChessMove| accepts(Criterion::FromRank(from_rank), m)) =~= (|m: ChessMove| m.from.1 == from_rank));
        Moves(r)
    }

    /// The moves that end on a square.
    pub fn search_with_to(&self, to: Square) -> (res: Self)
        ensures
            res.0@ == self.0@.filter(|m: ChessMove| m.to == to),
    {
        let r = filter_moves(&self.0, Criterion::To(to));
        assert((|m: ChessMove| accepts(Criterion::To(to), m)) =~= (|m: ChessMove| m.to == to));
        Moves(r)
    }

    /// The moves made by a kind of piece: en passant and promotions by a pawn, castling by
    /// the king.
    pub fn search_with_piece_type(&self, piece_type: PieceType) -> (res: Self)
        ensures
            res.0@ == self.0@.filter(|m: ChessMove| moving_piece_type(m.move_type) == piece_type),
    {
        let r = filter_moves(&self.0, Criterion::Piece(piece_type));
        assert((|m: ChessMove| accepts(Criterion::Piece(piece_type), m)) =~= (|m: ChessMove| moving_piece_type(m.move_type) == piece_type));
        Moves(r)
    }

    /// The promotions to a kind of piece.
    pub fn search_with_promoted_piece_type(&self, piece_type: PromotedPieceType) -> (res: Self)
        ensures
            res.0@ == self.0@.filter(|m: ChessMove| promoted_type(m.move_type) == Some(piece_type)),
    {
        let r = filter_moves(&self.0, Criterion::Promoted(piece_type));
        assert((|m: ChessMove| accepts(Criterion::Promoted(piece_type), m)) =~= (|m: ChessMove| promoted_type(m.move_type) == Some(piece_type)));
        Moves(r)
    }

    /// The moves whose raw kind is one of the given ones.
    pub fn search_with_raw_move_types(&self, move_types: &[RawMoveType]) -> (res: Self)
        ensures
            res.0@ == self.0@.filter(|m: ChessMove| move_types@.contains(raw_move_type(m.move_type))),
    {
        let ghost pred = |m: ChessMove| move_types@.contains(raw_move_type(m.move_type));
        let mut res: Vec<ChessMove> = Vec::new();
        let mut i: usize = 0;
        while i < self.0.len()
            invariant
                0 <= i <= self.0@.len(),
                res@ == self.0@.take(i as int).filter(pred),
                pred == (|m: ChessMove| move_types@.contains(raw_move_type(m.move_type))),
            decreases self.0@.len() - i,
        {
            let m = self.0[i];
            proof {
                assert(self.0@.take(i + 1) == self.0@.take(i as int).push(m));
                self.0@.take(i as int).lemma_filter_push(m, pred);
            }
            let raw = match m.move_type {
                MoveType::Move(_) => RawMoveType::Move,
                MoveType::Capture(_) => RawMoveType::Capture,
                MoveType::EnPassantMove => RawMoveType::EnPassantMove,
                MoveType::CastleMove(_) => RawMoveType::CastleMove,
                MoveType::PromotionMove(_) => RawMoveType::PromotionMove,
                MoveType::PromotionCapture(_) => RawMoveType::PromotionCapture,
            };
            let mut found = false;
            let mut j: usize = 0;
            while j < move_types.len()
                invariant
                    0 <= j <= move_types@.len(),
                    found == exists|k: int| 0 <= k < j && move_types@[k] == raw,
                decreases move_types@.len() - j,
            {
                if move_types[j] == raw {
                    found = true;
                }
                j = j + 1;
            }
            if found {
                res.push(m);
            }
            i = i + 1;
        }
        assert(self.0@.take(self.0@.len() as int) == self.0@);
        Moves(res)
    }

    /// The first move from `from` to `to`, if there is one.
    pub fn find(&self, from: Square, to: Square) -> (res: Option<ChessMove>)
        ensures
            ({
                let f = self.0@.filter(|m: ChessMove| m.from == from && m.to == to);
                res == if f.len() > 0 { Some(f[0]) } else { None }
            }),
    {
        let r = filter_moves(&self.0, Criterion::FromTo(from, to));
        assert((|m: ChessMove| accepts(Criterion::FromTo(from, to), m)) =~= (|m: ChessMove| m.from == from && m.to == to));
        if r.len() > 0 {
            Some(r[0])
        } else {
            None
        }
    }
}

} // verus!
