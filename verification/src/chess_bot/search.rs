use vstd::multiset::Multiset;
use vstd::prelude::*;

use super::evaluation::Evaluation;
use super::piece_tables::{evaluate_chg, evaluate_chg_ok, spec_evaluate_chg};
use super::evaluation::add_fits;
use super::zobrist::{hash_move_ok, hash_with_move, spec_hash_with_move};
use super::{
    add_king_dist, evaluate_position, is_attacked_by_pawn, is_endgame, is_forcing, is_in_check,
    kings_on_board, spec_evaluate_position, spec_is_attacked_by_pawn, spec_is_endgame,
    spec_is_forcing, spec_king_dist_chg, MVV_LVA_TABLE,
};
use crate::board_setup::models::{Board, BoardModel};
use crate::move_generator::models::{move_gen_ok, spec_all_moves, Color, Moves, PieceType};
use crate::move_generator::restrictions::spec_checks_amount;
use crate::move_register::models::{ChessMove, MoveType};
use crate::board_setup::fen::{draw_key, fen_text, square_printable};
use crate::text::words;
use crate::board_setup::models::FenNotation;
use crate::chess_bot::zobrist::{hash_of, hashable};
use crate::opening_book::move_parser::{parse_move_checked, spec_parse_move};
use crate::opening_book::{choose_weighted_san, popularity_sum, OpeningBook};
use std::collections::BTreeMap;

verus! {

/// The index of a kind of piece in the capture ordering table, from king (0) to pawn (5).
pub open spec fn victim_index(t: PieceType) -> int {
    match t {
        PieceType::Pawn => 5,
        PieceType::Knight => 4,
        PieceType::Bishop => 3,
        PieceType::Rook => 2,
        PieceType::Queen => 1,
        PieceType::King => 0,
    }
}

fn victim_index_exec(t: PieceType) -> (res: usize)
    ensures
        res == victim_index(t),
{
    match t {
        PieceType::Pawn => 5,
        PieceType::Knight => 4,
        PieceType::Bishop => 3,
        PieceType::Rook => 2,
        PieceType::Queen => 1,
        PieceType::King => 0,
    }
}

/// The key by which moves are tried, smallest first: promotions, captures by the capture
/// table, en passant, castling, then quiet moves by how much they lose on the tables
/// (those to a square a pawn attacks last).
pub open spec fn spec_order_key(b: BoardModel, m: ChessMove) -> i16 {
    match m.move_type {
        MoveType::Move(pt) => {
            let chg = spec_evaluate_chg(b, m, spec_is_endgame(b))->0.spec_total();
            let ec: int = if b.turn == Color::White {
                -chg
            } else {
                chg
            };
            if spec_is_attacked_by_pawn(b, m.to) && pt != PieceType::Pawn {
                (2000 + (ec as i16)) as i16
            } else {
                (1000 + (ec as i16)) as i16
            }
        },
        MoveType::Capture(attacker) => MVV_LVA_TABLE@[victim_index(
            b.piece(m.to)->0.piece_type,
        )]@[victim_index(attacker)],
        MoveType::EnPassantMove => 100,
        MoveType::CastleMove(_) => 101,
        MoveType::PromotionMove(_) => 1,
        MoveType::PromotionCapture(_) => 0,
    }
}

/// Whether the ordering key of a move can be computed.
pub open spec fn key_ok(b: BoardModel, m: ChessMove) -> bool {
    match m.move_type {
        MoveType::Move(_) => spec_evaluate_chg(b, m, spec_is_endgame(b)) is Some,
        MoveType::Capture(_) => b.piece(m.to) is Some,
        _ => true,
    }
}

/// Whether the moves of the side to move can be generated and ordered.
pub open spec fn ordering_ok(b: BoardModel) -> bool {
    &&& move_gen_ok(b, b.turn)
    &&& forall|i: int|
        0 <= i < spec_all_moves(b, b.turn).len() ==> key_ok(b, #[trigger] spec_all_moves(
            b,
            b.turn,
        )[i])
}

/// Inserting a move into a list after every move whose key is not larger.
pub open spec fn insert_by_key(b: BoardModel, s: Seq<ChessMove>, m: ChessMove) -> Seq<ChessMove>
    decreases s.len(),
{
    if s.len() == 0 {
        seq![m]
    } else if spec_order_key(b, s.last()) > spec_order_key(b, m) {
        insert_by_key(b, s.drop_last(), m).push(s.last())
    } else {
        s.push(m)
    }
}

/// The moves sorted by key, moves with equal keys keeping their order (insertion sort).
pub open spec fn sorted_by_key(b: BoardModel, s: Seq<ChessMove>) -> Seq<ChessMove>
    decreases s.len(),
{
    if s.len() == 0 {
        Seq::empty()
    } else {
        insert_by_key(b, sorted_by_key(b, s.drop_last()), s.last())
    }
}

/// Whether the keys of a list of moves never decrease.
pub open spec fn keys_ascending(b: BoardModel, s: Seq<ChessMove>) -> bool {
    forall|i: int, j: int|
        0 <= i < j < s.len() ==> spec_order_key(b, #[trigger] s[i]) <= spec_order_key(
            b,
            #[trigger] s[j],
        )
}

proof fn lemma_insert_by_key(b: BoardModel, s: Seq<ChessMove>, m: ChessMove)
    requires
        keys_ascending(b, s),
    ensures
        keys_ascending(b, insert_by_key(b, s, m)),
        insert_by_key(b, s, m).to_multiset() == s.to_multiset().insert(m),
        insert_by_key(b, s, m).len() == s.len() + 1,
        forall|i: int|
            0 <= i < insert_by_key(b, s, m).len() ==> #[trigger] insert_by_key(b, s, m)[i] == m
                || s.contains(insert_by_key(b, s, m)[i]),
    decreases s.len(),
{
    broadcast use vstd::seq_lib::group_seq_properties;
    broadcast use vstd::multiset::group_multiset_axioms;

    if s.len() == 0 {
        assert(seq![m].to_multiset() =~= Multiset::<ChessMove>::empty().insert(m)) by {
            vstd::seq_lib::lemma_seq_union_to_multiset_commutative(Seq::<ChessMove>::empty(), seq![m]);
            assert(seq![m] =~= Seq::<ChessMove>::empty().push(m));
        }
    } else if spec_order_key(b, s.last()) > spec_order_key(b, m) {
        let t = s.drop_last();
        assert(keys_ascending(b, t));
        lemma_insert_by_key(b, t, m);
        let r = insert_by_key(b, t, m);
        assert(s =~= t.push(s.last()));
        assert forall|i: int, j: int| 0 <= i < j < r.push(s.last()).len() implies spec_order_key(
            b,
            #[trigger] r.push(s.last())[i],
        ) <= spec_order_key(b, #[trigger] r.push(s.last())[j]) by {
            if j == r.len() {
                if r[i] != m {
                    let k = choose|k: int| 0 <= k < t.len() && t[k] == r[i];
                    assert(s[k] == t[k]);
                    assert(spec_order_key(b, s[k]) <= spec_order_key(b, s[s.len() - 1]));
                }
            }
        }
        assert forall|i: int| 0 <= i < r.push(s.last()).len() implies #[trigger] r.push(s.last())[i] == m
            || s.contains(r.push(s.last())[i]) by {
            if i < r.len() && r[i] != m {
                let k = choose|k: int| 0 <= k < t.len() && t[k] == r[i];
                assert(s[k] == t[k]);
            } else if i == r.len() {
                assert(s[s.len() - 1] == s.last());
            }
        }
    } else {
        assert forall|i: int, j: int| 0 <= i < j < s.push(m).len() implies spec_order_key(
            b,
            #[trigger] s.push(m)[i],
        ) <= spec_order_key(b, #[trigger] s.push(m)[j]) by {
            if j == s.len() {
                assert(spec_order_key(b, s[i]) <= spec_order_key(b, s[s.len() - 1]));
            }
        }
        assert forall|i: int| 0 <= i < s.push(m).len() implies #[trigger] s.push(m)[i] == m
            || s.contains(s.push(m)[i]) by {
            if i < s.len() {
                assert(s.push(m)[i] == s[i]);
            }
        }
    }
}

/// Sorting by key yields ascending keys and the same moves.
pub proof fn lemma_sorted_by_key(b: BoardModel, s: Seq<ChessMove>)
    ensures
        keys_ascending(b, sorted_by_key(b, s)),
        sorted_by_key(b, s).to_multiset() == s.to_multiset(),
        sorted_by_key(b, s).len() == s.len(),
    decreases s.len(),
{
    broadcast use vstd::seq_lib::group_seq_properties;

    if s.len() > 0 {
        lemma_sorted_by_key(b, s.drop_last());
        lemma_insert_by_key(b, sorted_by_key(b, s.drop_last()), s.last());
        assert(s =~= s.drop_last().push(s.last()));
    }
}

/// Sorts moves by their keys, stably.
fn sort_moves(moves: &Vec<ChessMove>, keys: &Vec<i16>, Ghost(b): Ghost<BoardModel>) -> (res: Vec<
    ChessMove,
>)
    requires
        moves.len() == keys.len(),
        forall|i: int| 0 <= i < moves.len() ==> keys@[i] == spec_order_key(b, #[trigger] moves@[i]),
    ensures
        res@ == sorted_by_key(b, moves@),
{
    let mut r: Vec<ChessMove> = Vec::new();
    let mut rk: Vec<i16> = Vec::new();
    let mut i: usize = 0;
    while i < moves.len()
        invariant
            i <= moves.len(),
            moves.len() == keys.len(),
            forall|j: int| 0 <= j < moves.len() ==> keys@[j] == spec_order_key(b, #[trigger] moves@[j]),
            r@ == sorted_by_key(b, moves@.take(i as int)),
            rk.len() == r.len(),
            forall|j: int| 0 <= j < r.len() ==> rk@[j] == spec_order_key(b, #[trigger] r@[j]),
        decreases moves.len() - i,
    {
        let x = moves[i];
        let kx = keys[i];
        assert(moves@.take(i as int + 1).drop_last() =~= moves@.take(i as int));
        assert(moves@.take(i as int + 1).last() == x);
        let mut p = r.len();
        assert(r@.take(p as int) =~= r@);
        assert(r@.skip(p as int) =~= Seq::<ChessMove>::empty());
        assert(insert_by_key(b, r@, x) =~= insert_by_key(b, r@.take(p as int), x) + r@.skip(p as int));
        while p > 0 && rk[p - 1] > kx
            invariant
                p <= r.len(),
                rk.len() == r.len(),
                kx == spec_order_key(b, x),
                forall|j: int| 0 <= j < r.len() ==> rk@[j] == spec_order_key(b, #[trigger] r@[j]),
                insert_by_key(b, r@, x) == insert_by_key(b, r@.take(p as int), x) + r@.skip(p as int),
            decreases p,
        {
            let ghost t = r@.take(p as int);
            assert(t.drop_last() =~= r@.take(p - 1));
            assert(t.last() == r@[p - 1]);
            assert(r@.skip(p - 1) =~= seq![r@[p - 1]] + r@.skip(p as int));
            assert(insert_by_key(b, t, x) == insert_by_key(b, r@.take(p - 1), x).push(r@[p - 1]));
            assert(insert_by_key(b, r@.take(p - 1), x).push(r@[p - 1]) + r@.skip(p as int)
                =~= insert_by_key(b, r@.take(p - 1), x) + r@.skip(p - 1));
            p = p - 1;
        }
        proof {
            let t = r@.take(p as int);
            if p == 0 {
                assert(t =~= Seq::<ChessMove>::empty());
            } else {
                assert(t.last() == r@[p - 1]);
            }
            assert(insert_by_key(b, t, x) == t.push(x));
            assert(r@.insert(p as int, x) =~= t.push(x) + r@.skip(p as int));
        }
        let ghost old_r = r@;
        let ghost old_rk = rk@;
        r.insert(p, x);
        rk.insert(p, kx);
        proof {
            assert forall|j: int| 0 <= j < r.len() implies rk@[j] == spec_order_key(b, #[trigger] r@[j]) by {
                if j < p {
                    assert(r@[j] == old_r[j] && rk@[j] == old_rk[j]);
                } else if j > p {
                    assert(r@[j] == old_r[j - 1] && rk@[j] == old_rk[j - 1]);
                }
            }
        }
        i = i + 1;
    }
    assert(moves@.take(moves@.len() as int) =~= moves@);
    r
}

/// The ordering key of a move.
fn order_key(board: &Board, m: ChessMove, endgame: bool) -> (res: i16)
    requires
        key_ok(board@, m),
        endgame == spec_is_endgame(board@),
    ensures
        res == spec_order_key(board@, m),
{
    match m.move_type {
        MoveType::Move(pt) => {
            let base_eval_chg = evaluate_chg(board, m, endgame);
            let eval_chg: i32 = match board.turn {
                Color::White => -base_eval_chg.total(),
                Color::Black => base_eval_chg.total(),
            };
            if is_attacked_by_pawn(board, m.to) && !matches!(pt, PieceType::Pawn) {
                2000 + eval_chg as i16
            } else {
                1000 + eval_chg as i16
            }
        },
        MoveType::Capture(attacker) => {
            let victim = match board.get_square(m.to) {
                Some(p) => p.piece_type,
                None => {
                    assert(false);
                    PieceType::King
                },
            };
            MVV_LVA_TABLE[victim_index_exec(victim)][victim_index_exec(attacker)]
        },
        MoveType::EnPassantMove => 100,
        MoveType::CastleMove(_) => 101,
        MoveType::PromotionMove(_) => 1,
        MoveType::PromotionCapture(_) => 0,
    }
}

/// The moves of the side to move in the order the search tries them; `None` where they
/// cannot be generated or ordered (see `ordering_ok`).
pub fn ordered_moves_checked(board: &Board) -> (res: Option<Vec<ChessMove>>)
    ensures
        match res {
            Some(v) => ordering_ok(board@) && v@ == sorted_by_key(
                board@,
                spec_all_moves(board@, board.turn),
            ),
            None => !ordering_ok(board@),
        },
{
    if !Moves::can_generate(board, board.turn) {
        return None;
    }
    let Moves(moves) = Moves::get_all_moves(board, board.turn);
    let endgame = is_endgame(board);
    let mut keys: Vec<i16> = Vec::new();
    let mut i: usize = 0;
    while i < moves.len()
        invariant
            i <= moves.len(),
            moves@ == spec_all_moves(board@, board.turn),
            endgame == spec_is_endgame(board@),
            keys.len() == i,
            forall|j: int| 0 <= j < i ==> key_ok(board@, #[trigger] moves@[j]),
            forall|j: int| 0 <= j < i ==> keys@[j] == spec_order_key(board@, #[trigger] moves@[j]),
        decreases moves.len() - i,
    {
        let m = moves[i];
        let ok = match m.move_type {
            MoveType::Move(_) => evaluate_chg_ok(board, m, endgame),
            MoveType::Capture(_) => board.get_square(m.to).is_some(),
            _ => true,
        };
        if !ok {
            assert(!key_ok(board@, moves@[i as int]));
            return None;
        }
        keys.push(order_key(board, m, endgame));
        i = i + 1;
    }
    Some(sort_moves(&moves, &keys, Ghost(board@)))
}

/// The moves of the side to move in the order the search tries them: sorted by
/// `spec_order_key`, moves with equal keys in the order they were generated.
pub fn get_ordered_moves(board: &Board) -> (res: Vec<ChessMove>)
    requires
        ordering_ok(board@),
    ensures
        res@ == sorted_by_key(board@, spec_all_moves(board@, board.turn)),
{
    match ordered_moves_checked(board) {
        Some(v) => v,
        None => Vec::new(),
    }
}

/// How much the positional components count in the search, in percent.
pub const POSITIONAL_VALUE_FACTOR: i32 = 60;

/// Whether the search cuts off branches that cannot change the result.
pub const PRUNING: bool = true;

/// Whether the search reports the evaluation of each move at the root.
pub const EVAL_PRINT: bool = true;

/// The depth of the search, in half moves.
pub const SEARCH_DEPTH: u8 = 6;

/// A move found by the search, its evaluation, and the line of play that follows it
/// (last move first).
#[derive(Clone)]
pub struct MovePayload {
    pub played_move: Option<ChessMove>,
    pub eval: Evaluation,
    pub line: Vec<ChessMove>,
}

/// Whether a payload is strictly better than another for a side: a higher total for white,
/// a lower one for black.
pub open spec fn strictly_better(a: Evaluation, b: Evaluation, turn: Color) -> bool {
    match turn {
        Color::White => a.spec_total() > b.spec_total(),
        Color::Black => a.spec_total() < b.spec_total(),
    }
}

impl MovePayload {
    /// A payload from its parts.
    pub fn new(played_move: Option<ChessMove>, eval: Evaluation, line: Vec<ChessMove>) -> (res: Self)
        ensures
            res.played_move == played_move,
            res.eval == eval,
            res.line@ == line@,
    {
        Self { played_move, eval, line }
    }

    /// The payload a search starts from: no move, and the worst evaluation for the side.
    pub fn with_turn(turn: Color) -> (res: Self)
        ensures
            res.played_move is None,
            res.line@.len() == 0,
            turn == Color::White ==> res.eval == super::evaluation::all_components(i16::MIN),
            turn == Color::Black ==> res.eval == super::evaluation::all_components(i16::MAX),
    {
        Self {
            played_move: None,
            eval: match turn {
                Color::White => Evaluation::min(),
                Color::Black => Evaluation::max(),
            },
            line: Vec::new(),
        }
    }

    /// The better of two payloads for a side: this one if its evaluation is strictly
    /// better, else the other.
    pub fn better_move(self, other: Self, turn: Color) -> (res: Self)
        ensures
            strictly_better(self.eval, other.eval, turn) ==> res == self,
            !strictly_better(self.eval, other.eval, turn) ==> res == other,
    {
        let c = self.eval.compare(&other.eval);
        match turn {
            Color::White => if c == 1 {
                self
            } else {
                other
            },
            Color::Black => if c == -1 {
                self
            } else {
                other
            },
        }
    }
}

/// What the search found for one move at the root: its evaluation and the line that
/// follows, unless the branch was cut off or had no legal move.
pub struct RootLine {
    pub played_move: ChessMove,
    pub evaluated: bool,
    pub eval: Evaluation,
    pub line: Vec<ChessMove>,
}

/// How often a position (by its hash) has occurred; absent counts as zero.
pub open spec fn rep_count(m: Map<u64, u8>, k: u64) -> int {
    if m.contains_key(k) {
        m[k] as int
    } else {
        0
    }
}

/// Whether two repetition tables hold the same counts.
pub open spec fn same_counts(a: Map<u64, u8>, b: Map<u64, u8>) -> bool {
    forall|k: u64| #[trigger] rep_count(a, k) == rep_count(b, k)
}

/// Whether a repetition table `b` keeps every entry of `a` with its count, and holds
/// beyond them only entries with a count of zero.
pub open spec fn table_kept(a: Map<u64, u8>, b: Map<u64, u8>) -> bool {
    &&& forall|k: u64| #[trigger] a.contains_key(k) ==> b.contains_key(k) && b[k] == a[k]
    &&& forall|k: u64| #[trigger] b.contains_key(k) && !a.contains_key(k) ==> b[k] == 0
}

proof fn lemma_table_kept_counts(a: Map<u64, u8>, b: Map<u64, u8>)
    requires
        table_kept(a, b),
    ensures
        same_counts(b, a),
{
    assert forall|k: u64| #[trigger] rep_count(b, k) == rep_count(a, k) by {
        if a.contains_key(k) {
        } else if b.contains_key(k) {
        }
    }
}

proof fn lemma_table_kept_trans(a: Map<u64, u8>, b: Map<u64, u8>, c: Map<u64, u8>)
    requires
        table_kept(a, b),
        table_kept(b, c),
    ensures
        table_kept(a, c),
{
    assert forall|k: u64| #[trigger] c.contains_key(k) && !a.contains_key(k) implies c[k] == 0 by {
        if b.contains_key(k) {
            assert(b[k] == 0);
        }
    }
}

pub(crate) fn rep_get(rep_map: &BTreeMap<u64, u8>, k: u64) -> (res: u8)
    ensures
        res == rep_count(rep_map@, k),
{
    broadcast use vstd::std_specs::btree::group_btree_axioms, vstd::laws_cmp::group_laws_cmp;

    match rep_map.get(&k) {
        Some(x) => *x,
        None => 0,
    }
}

pub(crate) fn rep_set(rep_map: &mut BTreeMap<u64, u8>, k: u64, v: u8)
    ensures
        final(rep_map)@ == old(rep_map)@.insert(k, v),
{
    broadcast use vstd::std_specs::btree::group_btree_axioms, vstd::laws_cmp::group_laws_cmp;

    rep_map.insert(k, v);
}

/// The evaluation of a lost position for the side to move: a mate found at `depth`
/// (earlier mates score higher for the winner).
pub open spec fn mate_score(turn: Color, depth: int) -> int {
    match turn {
        Color::White => -25000 + depth * 100,
        Color::Black => 25000 - depth * 100,
    }
}

/// What the search finds: the evaluation, the move played (if any) and the line of play
/// that follows it (last move first).
pub type Found = (Evaluation, Option<ChessMove>, Seq<ChessMove>);

/// The repetition counts of a table, as a function of the hash.
pub open spec fn counts_of(m: Map<u64, u8>) -> spec_fn(u64) -> int {
    |k: u64| rep_count(m, k)
}

/// The counts with one more occurrence of a hash whose count was `cur`.
pub open spec fn counts_with(counts: spec_fn(u64) -> int, h: u64, cur: int) -> spec_fn(u64) -> int {
    |k: u64|
        if k == h {
            cur + 1
        } else {
            counts(k)
        }
}

/// The evaluation the search starts from for a side: the worst one for it.
pub open spec fn worst_for(turn: Color) -> Evaluation {
    match turn {
        Color::White => super::evaluation::all_components(i16::MIN),
        Color::Black => super::evaluation::all_components(i16::MAX),
    }
}

/// The evaluation with every component zero.
pub open spec fn zero_eval() -> Evaluation {
    super::evaluation::all_components(0)
}

/// The evaluation of a position without a legal move: mate against the side to move
/// when it is in check, else a draw.
#[verifier::opaque]
pub open spec fn no_move_eval(b: BoardModel, depth: u8) -> Evaluation {
    Evaluation {
        material: if spec_checks_amount(b, b.turn) != 0 {
            mate_score(b.turn, depth as int) as i16
        } else {
            0
        },
        ..zero_eval()
    }
}

/// The value of a move at the last level: the static evaluation plus the change the move
/// makes with the positional factor applied; `None` where the change cannot be computed or
/// the sum leaves `i16`.
pub open spec fn leaf_value(b: BoardModel, m: ChessMove, endgame: bool, base: Evaluation) -> Option<
    (Found, nat),
> {
    match spec_evaluate_chg(b, m, endgame) {
        None => None,
        Some(c) => {
            let chg = c.spec_with_positional_factor(POSITIONAL_VALUE_FACTOR);
            if i16::MIN <= base.material + chg.material <= i16::MAX && i16::MIN <= base.pst
                + chg.pst <= i16::MAX {
                Some(((base.spec_add(chg), Some(m), Seq::empty()), 1))
            } else {
                None
            }
        },
    }
}

/// A found value with the king distance of the position after the move added; `None`
/// where a king is off the board or the score could leave `i16`.
pub open spec fn king_dist_value(f: Found, nb: BoardModel, n: nat) -> Option<(Found, nat)> {
    let k0 = nb.king_positions.0;
    let k1 = nb.king_positions.1;
    let dx = k0.0 - k1.0;
    let dy = k0.1 - k1.1;
    let d = 2 * ((if dx < 0 { -dx } else { dx }) + (if dy < 0 { -dy } else { dy }));
    let kd = f.0.king_dist;
    if !(k0.in_bounds() && k1.in_bounds()) || !(kd + d <= i16::MAX && kd - d >= i16::MIN) {
        None
    } else {
        Some(
            (
                (
                    Evaluation { king_dist: (kd + spec_king_dist_chg(nb)) as i16, ..f.0 },
                    f.1,
                    f.2,
                ),
                n,
            ),
        )
    }
}

/// Whether the search can start in a position: its moves can be generated and ordered
/// and it has a static evaluation.
#[verifier::opaque]
pub open spec fn search_ready(b: BoardModel) -> bool {
    ordering_ok(b) && spec_evaluate_position(b) is Some
}

/// The moves the search tries in a position, in the order it tries them.
#[verifier::opaque]
pub open spec fn search_moves(b: BoardModel) -> Seq<ChessMove> {
    sorted_by_key(b, spec_all_moves(b, b.turn))
}

/// The static evaluation of a position with the positional factor applied, to which the
/// search adds the changes of the moves at the last level.
#[verifier::opaque]
pub open spec fn search_base(b: BoardModel) -> Evaluation {
    spec_evaluate_position(b)->0.spec_with_positional_factor(POSITIONAL_VALUE_FACTOR)
}

/// What the search finds for one move: `None` where it cannot be hashed or played or the
/// position's count is full; a draw where the position occurs for the third time; a deeper
/// search where depth is left (or the move forces a reply at the last level), else the
/// value at the last level; at the root of an endgame, with the king distance added.
#[verifier::opaque]
pub open spec fn explore_value(
    b: BoardModel,
    depth: u8,
    max_depth: u8,
    limit: int,
    hash: u64,
    m: ChessMove,
    endgame: bool,
    base: Evaluation,
    counts: spec_fn(u64) -> int,
) -> Option<(Found, nat)>
    decreases max_depth - depth, 0nat, 0nat,
{
    if !(spec_hash_with_move(hash, b, m) is Some && b.spec_register_move(m) is Some) {
        None
    } else {
        let new_hash = spec_hash_with_move(hash, b, m)->0;
        let (nb, r) = b.spec_register_move(m)->0;
        let cur = counts(new_hash);
        if r is Err || cur == 255 {
            None
        } else if cur + 1 >= 3 {
            Some(((zero_eval(), None, Seq::empty()), 1))
        } else {
            let sub = if depth < max_depth - 1 || (depth == max_depth - 1 && spec_is_forcing(m)) {
                search_value(
                    nb,
                    (depth + 1) as u8,
                    max_depth,
                    limit,
                    new_hash,
                    counts_with(counts, new_hash, cur),
                )
            } else {
                leaf_value(b, m, endgame, base)
            };
            match sub {
                None => None,
                Some((f, n)) => if endgame && depth == 0 && f.1 is Some {
                    king_dist_value(f, nb, n)
                } else {
                    Some((f, n))
                },
            }
        }
    }
}

/// The search over the moves from the `i`-th on, with the best found so far and the
/// number of positions evaluated: each move is explored with the best total as its limit
/// and replaces the best where that is not strictly better for the side to move; a move
/// whose total reaches `limit` (at least it for white, at most it for black) cuts the
/// search off with the extreme evaluation; at the end the best move is added to its line.
pub open spec fn loop_value(
    b: BoardModel,
    depth: u8,
    max_depth: u8,
    limit: int,
    hash: u64,
    counts: spec_fn(u64) -> int,
    endgame: bool,
    base: Evaluation,
    moves: Seq<ChessMove>,
    i: int,
    best: Found,
    count: nat,
) -> Option<(Found, nat)>
    decreases max_depth - depth, 1nat, moves.len() - i,
{
    if i < 0 || i >= moves.len() {
        Some(
            (
                (
                    best.0,
                    best.1,
                    match best.1 {
                        Some(m) => best.2.push(m),
                        None => best.2,
                    },
                ),
                count,
            ),
        )
    } else {
        let m = moves[i];
        match explore_value(b, depth, max_depth, best.0.spec_total(), hash, m, endgame, base, counts) {
            None => None,
            Some((f, n)) => {
                let cand: Found = (f.0, Some(m), f.2);
                let next = if strictly_better(best.0, cand.0, b.turn) {
                    best
                } else {
                    cand
                };
                let c = count + n;
                if c > u64::MAX {
                    None
                } else if b.turn == Color::White && f.0.spec_total() >= limit {
                    Some(((super::evaluation::all_components(i16::MAX), None, Seq::empty()), c))
                } else if b.turn == Color::Black && f.0.spec_total() <= limit {
                    Some(((super::evaluation::all_components(i16::MIN), None, Seq::empty()), c))
                } else {
                    loop_value(
                        b,
                        depth,
                        max_depth,
                        limit,
                        hash,
                        counts,
                        endgame,
                        base,
                        moves,
                        i + 1,
                        next,
                        c,
                    )
                }
            },
        }
    }
}

/// What the search of a position finds, with the repetition counts it starts from:
/// `None` where the moves cannot be generated or ordered or the position cannot be
/// evaluated; for a position without a legal move, mate or a draw; else the search over
/// the ordered moves, starting from the worst evaluation for the side to move.
pub open spec fn search_value(
    b: BoardModel,
    depth: u8,
    max_depth: u8,
    limit: int,
    hash: u64,
    counts: spec_fn(u64) -> int,
) -> Option<(Found, nat)>
    decreases max_depth - depth, 2nat, 0nat,
{
    if !search_ready(b) {
        None
    } else if search_moves(b).len() == 0 {
        Some(((no_move_eval(b, depth), None, Seq::empty()), 1))
    } else {
        loop_value(
            b,
            depth,
            max_depth,
            limit,
            hash,
            counts,
            spec_is_endgame(b),
            search_base(b),
            search_moves(b),
            0,
            (worst_for(b.turn), None, Seq::empty()),
            0,
        )
    }
}

/// Whether a move, explored with some limit, finds a value no better for the side to move
/// than `e`.
pub open spec fn searched_no_better(
    b: BoardModel,
    depth: u8,
    max_depth: u8,
    hash: u64,
    counts: spec_fn(u64) -> int,
    endgame: bool,
    base: Evaluation,
    m: ChessMove,
    e: Evaluation,
) -> bool {
    exists|l: int|
        #[trigger] explore_value(b, depth, max_depth, l, hash, m, endgame, base, counts) matches Some((g, _))
            && !strictly_better(g.0, e, b.turn)
}

/// The search over the moves from the `i`-th on, where it ends with a move (it was not cut
/// off): that move is the best found before or one of the moves tried, its evaluation is
/// no worse for the side to move than the best found before, and each move tried was
/// explored, with some limit, to a value no better for the side to move than the one
/// returned.
#[verifier::spinoff_prover]
#[verifier::rlimit(80)]
proof fn lemma_loop_best(
    b: BoardModel,
    depth: u8,
    max_depth: u8,
    limit: int,
    hash: u64,
    counts: spec_fn(u64) -> int,
    endgame: bool,
    base: Evaluation,
    moves: Seq<ChessMove>,
    i: int,
    best: Found,
    count: nat,
)
    requires
        0 <= i <= moves.len(),
        found_move(loop_value(b, depth, max_depth, limit, hash, counts, endgame, base, moves, i, best, count)) is Some,
    ensures
        loop_value(b, depth, max_depth, limit, hash, counts, endgame, base, moves, i, best, count) matches Some((f, _))
            && (best.1 == f.1 || exists|j: int| i <= j < moves.len() && Some(moves[j]) == f.1),
        loop_value(b, depth, max_depth, limit, hash, counts, endgame, base, moves, i, best, count) matches Some((f, _))
            && !strictly_better(best.0, f.0, b.turn),
        loop_value(b, depth, max_depth, limit, hash, counts, endgame, base, moves, i, best, count) matches Some((f, _))
            && forall|j: int|
            i <= j < moves.len() ==> #[trigger] searched_no_better(b, depth, max_depth, hash, counts, endgame, base, moves[j], f.0),
    decreases moves.len() - i,
{
    let (f, _) = loop_value(b, depth, max_depth, limit, hash, counts, endgame, base, moves, i, best, count)->0;
    reveal_with_fuel(loop_value, 2);
    if i < moves.len() {
        let mv = moves[i];
        let l0 = best.0.spec_total();
        let (g, n) = explore_value(b, depth, max_depth, l0, hash, mv, endgame, base, counts)->0;
        let cand: Found = (g.0, Some(mv), g.2);
        let next = if strictly_better(best.0, cand.0, b.turn) {
            best
        } else {
            cand
        };
        let c = count + n;
        assert(loop_value(b, depth, max_depth, limit, hash, counts, endgame, base, moves, i, best, count)
            == loop_value(b, depth, max_depth, limit, hash, counts, endgame, base, moves, i + 1, next, c));
        lemma_loop_best(b, depth, max_depth, limit, hash, counts, endgame, base, moves, i + 1, next, c);
        assert(!strictly_better(next.0, f.0, b.turn));
        assert(!strictly_better(best.0, f.0, b.turn));
        assert(!strictly_better(g.0, f.0, b.turn));
        assert(searched_no_better(b, depth, max_depth, hash, counts, endgame, base, moves[i], f.0)) by {
            assert(explore_value(b, depth, max_depth, l0, hash, moves[i], endgame, base, counts) matches Some((g2, _))
                && !strictly_better(g2.0, f.0, b.turn));
        }
        if next.1 == f.1 {
            if next != best {
                assert(Some(moves[i]) == f.1);
            }
        } else {
            let j = choose|j: int| i + 1 <= j < moves.len() && Some(moves[j]) == f.1;
            assert(i <= j < moves.len() && Some(moves[j]) == f.1);
        }
        assert(best.1 == f.1 || exists|j: int| i <= j < moves.len() && Some(moves[j]) == f.1);
    } else {
        assert(f.0 == best.0 && f.1 == best.1);
    }
}

/// Where the search of a position ends with a move, that move is one the generator gives
/// the side to move, and every move the generator gives was searched, with some limit, to
/// a value no better for the side to move than the one returned.
pub proof fn lemma_search_best(b: BoardModel, depth: u8, max_depth: u8, limit: int, hash: u64, counts: spec_fn(u64) -> int)
    requires
        found_move(search_value(b, depth, max_depth, limit, hash, counts)) is Some,
    ensures
        search_value(b, depth, max_depth, limit, hash, counts) matches Some((f, _)) && {
            &&& spec_all_moves(b, b.turn).contains(f.1->0)
            &&& forall|m: ChessMove|
                spec_all_moves(b, b.turn).contains(m) ==> #[trigger] searched_no_better(
                    b,
                    depth,
                    max_depth,
                    hash,
                    counts,
                    spec_is_endgame(b),
                    search_base(b),
                    m,
                    f.0,
                )
        },
{
    let (f, _) = search_value(b, depth, max_depth, limit, hash, counts)->0;
    let moves = search_moves(b);
    let all = spec_all_moves(b, b.turn);
    let endgame = spec_is_endgame(b);
    let base = search_base(b);
    let start: Found = (worst_for(b.turn), None, Seq::empty());
    assert(search_ready(b) && moves.len() > 0);
    lemma_loop_best(b, depth, max_depth, limit, hash, counts, endgame, base, moves, 0, start, 0);
    reveal(search_moves);
    lemma_sorted_by_key(b, all);
    let j = choose|j: int| 0 <= j < moves.len() && Some(moves[j]) == f.1;
    lemma_member(moves, all, j);
    assert forall|m: ChessMove| all.contains(m) implies #[trigger] searched_no_better(
        b,
        depth,
        max_depth,
        hash,
        counts,
        endgame,
        base,
        m,
        f.0,
    ) by {
        let i = choose|i: int| 0 <= i < all.len() && all[i] == m;
        lemma_member(all, moves, i);
        let k = choose|k: int| 0 <= k < moves.len() && moves[k] == m;
        assert(searched_no_better(b, depth, max_depth, hash, counts, endgame, base, moves[k], f.0));
    }
}

/// A side to move that has no move and is in check is mated: the search gives no move
/// and scores the position as lost for that side, by twenty-five thousand less a hundred
/// for each level of depth, so that it is worse for the mated side than any evaluation
/// the tables give: at most -25000 + 100 * depth when white is mated, at least
/// 25000 - 100 * depth when black is.
pub proof fn lemma_mate_is_lost(b: BoardModel, depth: u8, max_depth: u8, limit: int, hash: u64, counts: spec_fn(u64) -> int)
    requires
        search_value(b, depth, max_depth, limit, hash, counts) is Some,
        spec_all_moves(b, b.turn).len() == 0,
        spec_checks_amount(b, b.turn) != 0,
    ensures
        search_value(b, depth, max_depth, limit, hash, counts) matches Some((f, n)) && {
            &&& f.1 is None
            &&& n == 1
            &&& b.turn == Color::White ==> f.0.material == -25000 + 100 * depth && f.0.spec_total() <= -25000 + 100
                * depth
            &&& b.turn == Color::Black ==> f.0.material == 25000 - 100 * depth && f.0.spec_total() >= 25000 - 100
                * depth
        },
{
    reveal(search_moves);
    lemma_sorted_by_key(b, spec_all_moves(b, b.turn));
    assert(search_moves(b).len() == 0);
    reveal(no_move_eval);
    let e = no_move_eval(b, depth);
    assert(e.spec_total() == e.material);
}

/// A side to move with no move that is not in check is stalemated: the search gives no
/// move and scores the position as a draw.
pub proof fn lemma_stalemate_is_drawn(b: BoardModel, depth: u8, max_depth: u8, limit: int, hash: u64, counts: spec_fn(u64) -> int)
    requires
        search_value(b, depth, max_depth, limit, hash, counts) is Some,
        spec_all_moves(b, b.turn).len() == 0,
        spec_checks_amount(b, b.turn) == 0,
    ensures
        search_value(b, depth, max_depth, limit, hash, counts) matches Some((f, n)) && f.1 is None && n == 1
            && f.0.spec_total() == 0,
{
    reveal(search_moves);
    lemma_sorted_by_key(b, spec_all_moves(b, b.turn));
    assert(search_moves(b).len() == 0);
    reveal(no_move_eval);
}

/// A line of the report as plain values: the move, whether it was evaluated, its
/// evaluation and the line that follows it.
pub type RootEntry = (ChessMove, bool, Evaluation, Seq<ChessMove>);

/// A line of the report as plain values.
pub open spec fn root_view(r: RootLine) -> RootEntry {
    (r.played_move, r.evaluated, r.eval, r.line@)
}

/// The lines of a report as plain values.
pub open spec fn report_view(s: Seq<RootLine>) -> Seq<RootEntry> {
    s.map_values(|r: RootLine| root_view(r))
}

/// The lines the search at the root reports for the moves from the `i`-th on, given the
/// best found so far and the number of positions evaluated: one for each move explored,
/// up to and including the one that ends the search.
pub open spec fn loop_lines(
    b: BoardModel,
    depth: u8,
    max_depth: u8,
    limit: int,
    hash: u64,
    counts: spec_fn(u64) -> int,
    endgame: bool,
    base: Evaluation,
    moves: Seq<ChessMove>,
    i: int,
    best: Found,
    count: nat,
) -> Seq<RootEntry>
    decreases moves.len() - i,
{
    if i < 0 || i >= moves.len() {
        Seq::empty()
    } else {
        let m = moves[i];
        match explore_value(b, depth, max_depth, best.0.spec_total(), hash, m, endgame, base, counts) {
            None => Seq::empty(),
            Some((f, n)) => {
                let entry: RootEntry = (m, f.1 is Some, f.0, f.2);
                let cand: Found = (f.0, Some(m), f.2);
                let next = if strictly_better(best.0, cand.0, b.turn) {
                    best
                } else {
                    cand
                };
                let c = count + n;
                if c > u64::MAX || (b.turn == Color::White && f.0.spec_total() >= limit) || (
                b.turn == Color::Black && f.0.spec_total() <= limit) {
                    seq![entry]
                } else {
                    seq![entry] + loop_lines(
                        b,
                        depth,
                        max_depth,
                        limit,
                        hash,
                        counts,
                        endgame,
                        base,
                        moves,
                        i + 1,
                        next,
                        c,
                    )
                }
            },
        }
    }
}

/// The lines the search of a position reports: at the root, one for each move it explores,
/// in order; none below the root.
pub open spec fn search_lines(
    b: BoardModel,
    depth: u8,
    max_depth: u8,
    limit: int,
    hash: u64,
    counts: spec_fn(u64) -> int,
) -> Seq<RootEntry> {
    if depth != 0 || !search_ready(b) || search_moves(b).len() == 0 {
        Seq::empty()
    } else {
        loop_lines(
            b,
            depth,
            max_depth,
            limit,
            hash,
            counts,
            spec_is_endgame(b),
            search_base(b),
            search_moves(b),
            0,
            (worst_for(b.turn), None, Seq::empty()),
            0,
        )
    }
}

/// Whether a payload and a count are what the search finds.
pub open spec fn found_as(res: Option<(MovePayload, u64)>, v: Option<(Found, nat)>) -> bool {
    match (res, v) {
        (Some((p, n)), Some((f, k))) => p.eval == f.0 && p.played_move == f.1 && p.line@ == f.2
            && n == k,
        (None, None) => true,
        _ => false,
    }
}

proof fn lemma_member(s: Seq<ChessMove>, all: Seq<ChessMove>, i: int)
    requires
        s.to_multiset() == all.to_multiset(),
        0 <= i < s.len(),
    ensures
        all.contains(s[i]),
{
    vstd::seq_lib::to_multiset_contains(s, s[i]);
    vstd::seq_lib::to_multiset_contains(all, s[i]);
    assert(s.contains(s[i]));
}

/// Plays one move of the search and evaluates the position it leads to: a draw if the
/// position occurs for the third time, a deeper search if depth is left (or the move
/// forces a reply at the last level), else the static evaluation after the move. The
/// repetition counts are the same afterwards as before.
#[verifier::spinoff_prover]
#[verifier::rlimit(60)]
fn explore_move(
    board: &Board,
    depth: u8,
    max_depth: u8,
    limit: i32,
    hash: u64,
    test_move: ChessMove,
    endgame: bool,
    base_eval: Evaluation,
    rep_map: &mut BTreeMap<u64, u8>,
    report: &mut Vec<RootLine>,
) -> (res: Option<(MovePayload, u64)>)
    requires
        1 <= max_depth,
        endgame == spec_is_endgame(board@),
    ensures
        same_counts(final(rep_map)@, old(rep_map)@),
        table_kept(old(rep_map)@, final(rep_map)@),
        final(report)@ == old(report)@,
        res matches Some((p, n)) ==> n >= 1,
        found_as(
            res,
            explore_value(
                board@,
                depth,
                max_depth,
                limit as int,
                hash,
                test_move,
                endgame,
                base_eval,
                counts_of(old(rep_map)@),
            ),
        ),
    decreases max_depth - depth, 0nat,
{
    proof {
        reveal(explore_value);
    }
    if !hash_move_ok(hash, board, test_move) || !board.can_register_exec(test_move) {
        return None;
    }
    let new_hash = hash_with_move(hash, board, test_move);
    let mut new_board = *board;
    match new_board.register_move(test_move) {
        Ok(()) => {},
        Err(_) => return None,
    }
    let cur = rep_get(rep_map, new_hash);
    if cur == 255 {
        return None;
    }
    let ghost before = rep_map@;
    rep_set(rep_map, new_hash, cur + 1);
    proof {
        assert(counts_of(rep_map@) =~= counts_with(counts_of(old(rep_map)@), new_hash, cur as int));
    }
    let branch: Option<(MovePayload, u64)> = if cur + 1 >= 3 {
        Some((MovePayload::new(None, Evaluation::new(), Vec::new()), 1))
    } else {
        let sub = if depth < max_depth - 1 || (depth == max_depth - 1 && is_forcing(test_move)) {
            search_game_tree(&new_board, depth + 1, max_depth, limit, new_hash, rep_map, report)
        } else {
            leaf_payload(board, test_move, endgame, base_eval)
        };
        match sub {
            None => None,
            Some((bp, bc)) => {
                if endgame && depth == 0 && bp.played_move.is_some() {
                    with_king_dist(bp, &new_board, bc)
                } else {
                    Some((bp, bc))
                }
            },
        }
    };
    let ghost mid = rep_map@;
    rep_set(rep_map, new_hash, cur);
    proof {
        let b1 = before.insert(new_hash, (cur + 1) as u8);
        assert(table_kept(b1, mid));
        assert forall|k: u64| #[trigger] old(rep_map)@.contains_key(k) implies rep_map@.contains_key(k)
            && rep_map@[k] == old(rep_map)@[k] by {
            if k != new_hash {
                assert(b1.contains_key(k));
            }
        }
        assert forall|k: u64| #[trigger] rep_map@.contains_key(k) && !old(rep_map)@.contains_key(k)
            implies rep_map@[k] == 0 by {
            if k != new_hash {
                assert(mid.contains_key(k) && !b1.contains_key(k));
            }
        }
        assert forall|k: u64| #[trigger] rep_count(rep_map@, k) == rep_count(old(rep_map)@, k) by {
            if k != new_hash {
                assert(rep_count(rep_map@, k) == rep_count(mid, k));
                assert(rep_count(before.insert(new_hash, (cur + 1) as u8), k) == rep_count(before, k));
            }
        }
    }
    branch
}

/// The payload of a move at the last level: the static evaluation plus the change the move
/// makes, both with the positional factor applied.
fn leaf_payload(board: &Board, test_move: ChessMove, endgame: bool, base_eval: Evaluation) -> (res:
    Option<(MovePayload, u64)>)
    requires
        endgame == spec_is_endgame(board@),
    ensures
        found_as(res, leaf_value(board@, test_move, endgame, base_eval)),
{
    if !evaluate_chg_ok(board, test_move, endgame) {
        return None;
    }
    let chg = evaluate_chg(board, test_move, endgame).with_positional_factor(
        POSITIONAL_VALUE_FACTOR,
    );
    let m = base_eval.material as i32 + chg.material as i32;
    let p = base_eval.pst as i32 + chg.pst as i32;
    if !(-32768 <= m && m <= 32767 && -32768 <= p && p <= 32767) {
        return None;
    }
    Some((MovePayload::new(Some(test_move), base_eval.add(chg), Vec::new()), 1))
}

/// The payload with the king distance of the position after the move added.
fn with_king_dist(bp: MovePayload, new_board: &Board, bc: u64) -> (res: Option<(MovePayload, u64)>)
    ensures
        found_as(res, king_dist_value((bp.eval, bp.played_move, bp.line@), new_board@, bc as nat)),
{
    let mut bp = bp;
    let k0 = new_board.king_positions.0;
    let k1 = new_board.king_positions.1;
    if !(k0.is_in_bounds() && k1.is_in_bounds()) {
        return None;
    }
    let dx: i32 = if k0.0 >= k1.0 { (k0.0 - k1.0) as i32 } else { (k1.0 - k0.0) as i32 };
    let dy: i32 = if k0.1 >= k1.1 { (k0.1 - k1.1) as i32 } else { (k1.1 - k0.1) as i32 };
    let d = (dx + dy) * 2;
    let kd = bp.eval.king_dist as i32;
    if !(kd + d <= 32767 && kd - d >= -32768) {
        return None;
    }
    add_king_dist(&mut bp.eval, new_board);
    Some((bp, bc))
}

/// Searches the game tree to `max_depth` half moves (one more for forcing moves at the
/// last level), with alpha-beta pruning against `limit` and a draw for a position that
/// occurs for the third time. Returns the best move, its evaluation and line, and the
/// number of positions evaluated; `None` where the search cannot go on: a position
/// whose moves cannot be generated, ordered, hashed, played or evaluated, or a counter
/// that would overflow. What it returns is `search_value` of the position with the
/// repetition counts it is given. At the root, a line for each move explored is added to
/// `report` (see `search_lines`). Every entry of the repetition table keeps its count, the
/// entries the search adds hold zero, and a position without a legal move leaves the table
/// untouched; `max_depth` may be zero only for such a position.
#[verifier::spinoff_prover]
#[verifier::rlimit(100)]
pub fn search_game_tree(
    board: &Board,
    depth: u8,
    max_depth: u8,
    limit: i32,
    hash: u64,
    rep_map: &mut BTreeMap<u64, u8>,
    report: &mut Vec<RootLine>,
) -> (res: Option<(MovePayload, u64)>)
    requires
        1 <= max_depth || spec_all_moves(board@, board.turn).len() == 0,
    ensures
        same_counts(final(rep_map)@, old(rep_map)@),
        table_kept(old(rep_map)@, final(rep_map)@),
        spec_all_moves(board@, board.turn).len() == 0 ==> final(rep_map)@ == old(rep_map)@,
        res matches Some((p, n)) ==> n >= 1 && (p.played_move matches Some(m)
            ==> spec_all_moves(board@, board.turn).contains(m)),
        res matches Some((p, n)) ==> (spec_all_moves(board@, board.turn).len() == 0 ==> {
            &&& n == 1
            &&& p.played_move is None
            &&& p.eval.material == if spec_checks_amount(board@, board.turn) != 0 {
                mate_score(board.turn, depth as int)
            } else {
                0
            }
        }),
        found_as(
            res,
            search_value(board@, depth, max_depth, limit as int, hash, counts_of(old(rep_map)@)),
        ),
        depth != 0 ==> final(report)@ == old(report)@,
        report_view(final(report)@) == report_view(old(report)@) + search_lines(
            board@,
            depth,
            max_depth,
            limit as int,
            hash,
            counts_of(old(rep_map)@),
        ),
    decreases max_depth - depth, 1nat,
{
    let move_set = match ordered_moves_checked(board) {
        Some(v) => v,
        None => {
            proof {
                reveal(search_ready);
                assert(report_view(old(report)@) + Seq::<RootEntry>::empty() =~= report_view(
                    old(report)@,
                ));
            }
            return None;
        },
    };
    proof {
        lemma_sorted_by_key(board@, spec_all_moves(board@, board.turn));
    }
    let base = match evaluate_position(board) {
        Some(e) => e,
        None => {
            proof {
                reveal(search_ready);
                assert(report_view(old(report)@) + Seq::<RootEntry>::empty() =~= report_view(
                    old(report)@,
                ));
            }
            return None;
        },
    };
    let base_eval = base.with_positional_factor(POSITIONAL_VALUE_FACTOR);
    let endgame = is_endgame(board);
    proof {
        assert(search_ready(board@)) by {
            reveal(search_ready);
        }
        assert(search_moves(board@) == move_set@) by {
            reveal(search_moves);
        }
        assert(search_base(board@) == base_eval) by {
            reveal(search_base);
        }
    }
    if move_set.len() == 0 {
        let mut res = Evaluation::new();
        if is_in_check(board) {
            let d = depth as i16;
            res.material = match board.turn {
                Color::White => -25000 + d * 100,
                Color::Black => 25000 - d * 100,
            };
        }
        proof {
            reveal(no_move_eval);
            assert(res == no_move_eval(board@, depth));
            assert(report_view(old(report)@) + Seq::<RootEntry>::empty() =~= report_view(
                old(report)@,
            ));
        }
        return Some((MovePayload::new(None, res, Vec::new()), 1));
    }
    let ghost all = spec_all_moves(board@, board.turn);
    let ghost counts = counts_of(old(rep_map)@);
    let ghost goal = search_value(board@, depth, max_depth, limit as int, hash, counts);
    let mut payload = MovePayload::with_turn(board.turn);
    let ghost goal_lines = search_lines(board@, depth, max_depth, limit as int, hash, counts);
    proof {
        assert(payload.line@ =~= Seq::<ChessMove>::empty());
        assert(payload.eval == worst_for(board.turn));
        assert(all.len() == move_set@.len());
        assert(1 <= max_depth);
    }
    let mut position_count: u64 = 0;
    let mut i: usize = 0;
    while i < move_set.len()
        invariant
            1 <= max_depth,
            i <= move_set.len(),
            all == spec_all_moves(board@, board.turn),
            move_set@.to_multiset() == all.to_multiset(),
            endgame == spec_is_endgame(board@),
            same_counts(rep_map@, old(rep_map)@),
            table_kept(old(rep_map)@, rep_map@),
            payload.played_move matches Some(m) ==> all.contains(m),
            i > 0 ==> position_count >= 1,
            counts == counts_of(old(rep_map)@),
            goal == search_value(board@, depth, max_depth, limit as int, hash, counts),
            base_eval == spec_evaluate_position(board@)->0.spec_with_positional_factor(
                POSITIONAL_VALUE_FACTOR,
            ),
            goal == loop_value(
                board@,
                depth,
                max_depth,
                limit as int,
                hash,
                counts,
                endgame,
                base_eval,
                move_set@,
                i as int,
                (payload.eval, payload.played_move, payload.line@),
                position_count as nat,
            ),
            depth != 0 ==> report@ == old(report)@,
            goal_lines == search_lines(board@, depth, max_depth, limit as int, hash, counts),
            depth == 0 ==> report_view(report@) + loop_lines(
                board@,
                depth,
                max_depth,
                limit as int,
                hash,
                counts,
                endgame,
                base_eval,
                move_set@,
                i as int,
                (payload.eval, payload.played_move, payload.line@),
                position_count as nat,
            ) == report_view(old(report)@) + goal_lines,
        decreases move_set.len() - i,
    {
        let test_move = move_set[i];
        let ghost lines_here = loop_lines(
            board@,
            depth,
            max_depth,
            limit as int,
            hash,
            counts,
            endgame,
            base_eval,
            move_set@,
            i as int,
            (payload.eval, payload.played_move, payload.line@),
            position_count as nat,
        );
        proof {
            lemma_member(move_set@, all, i as int);
        }
        let ghost before = rep_map@;
        proof {
            assert(counts_of(rep_map@) =~= counts);
        }
        let branch = explore_move(
            board,
            depth,
            max_depth,
            payload.eval.total(),
            hash,
            test_move,
            endgame,
            base_eval,
            rep_map,
            report,
        );
        proof {
            assert forall|k: u64| #[trigger] rep_count(rep_map@, k) == rep_count(old(rep_map)@, k) by {
                assert(rep_count(rep_map@, k) == rep_count(before, k));
            }
            lemma_table_kept_trans(old(rep_map)@, before, rep_map@);
        }
        let (branch_payload, branch_pos_count) = match branch {
            Some(b) => b,
            None => {
                proof {
                    assert(report_view(report@) + Seq::<RootEntry>::empty() =~= report_view(
                        report@,
                    ));
                }
                return None;
            },
        };
        let branch_total = branch_payload.eval.total();
        let ghost rv_before = report@;
        let ghost entry: RootEntry = (
            test_move,
            branch_payload.played_move is Some,
            branch_payload.eval,
            branch_payload.line@,
        );
        if depth == 0 && EVAL_PRINT {
            let line = branch_payload.line.clone();
            proof {
                assert(line@ =~= branch_payload.line@);
            }
            report.push(
                RootLine {
                    played_move: test_move,
                    evaluated: branch_payload.played_move.is_some(),
                    eval: branch_payload.eval,
                    line,
                },
            );
            proof {
                assert(report_view(report@) =~= report_view(rv_before) + seq![entry]);
            }
        }
        payload = payload.better_move(
            MovePayload {
                played_move: Some(test_move),
                eval: branch_payload.eval,
                line: branch_payload.line,
            },
            board.turn,
        );
        position_count = match position_count.checked_add(branch_pos_count) {
            Some(c) => c,
            None => {
                proof {
                    if depth == 0 {
                        assert(lines_here == seq![entry]);
                    }
                }
                return None;
            },
        };
        if PRUNING {
            match board.turn {
                Color::White => {
                    if branch_total >= limit {
                        proof {
                            if depth == 0 {
                                assert(lines_here == seq![entry]);
                            }
                        }
                        return Some(
                            (MovePayload::new(None, Evaluation::max(), Vec::new()), position_count),
                        );
                    }
                },
                Color::Black => {
                    if branch_total <= limit {
                        proof {
                            if depth == 0 {
                                assert(lines_here == seq![entry]);
                            }
                        }
                        return Some(
                            (MovePayload::new(None, Evaluation::min(), Vec::new()), position_count),
                        );
                    }
                },
            }
        }
        proof {
            if depth == 0 {
                let rest = loop_lines(
                    board@,
                    depth,
                    max_depth,
                    limit as int,
                    hash,
                    counts,
                    endgame,
                    base_eval,
                    move_set@,
                    i + 1,
                    (payload.eval, payload.played_move, payload.line@),
                    position_count as nat,
                );
                assert(lines_here == seq![entry] + rest);
                assert(report_view(report@) + rest =~= report_view(rv_before) + lines_here);
            }
        }
        i = i + 1;
    }
    proof {
        if depth == 0 {
            assert(report_view(report@) + Seq::<RootEntry>::empty() =~= report_view(report@));
        }
    }
    if let Some(m) = payload.played_move {
        payload.line.push(m);
    }
    Some((payload, position_count))
}

/// Whether the book surely gives a move for a position: the position can be written and
/// the book has it, with popularities that add up within `u32` to more than zero, and every
/// move of it that was played can be read in the position.
pub open spec fn book_sure(b: BoardModel, book: &OpeningBook) -> bool {
    let fen = fen_text(b);
    &&& b.en_passant_square matches Some(sq) ==> square_printable(sq)
    &&& words(fen).len() >= 3
    &&& book.spec_find(draw_key(fen)) matches Some(k) && {
        let moves = book.0@[k].1@;
        &&& 0 < popularity_sum(moves) <= u32::MAX
        &&& forall|i: int|
            0 <= i < moves.len() && (#[trigger] moves[i]).1 > 0 ==> spec_parse_move(
                fen,
                moves[i].0@,
            ) is Some && spec_parse_move(fen, moves[i].0@)->0 is Ok
    }
}

/// The limit the search starts from at the root: the best a side could reach.
pub open spec fn root_limit(turn: Color) -> int {
    match turn {
        Color::White => 32767,
        Color::Black => -32768,
    }
}

/// The move a search result plays, if any.
pub open spec fn found_move(v: Option<(Found, nat)>) -> Option<ChessMove> {
    match v {
        Some((f, _)) => f.1,
        None => None,
    }
}

/// Whether a move is one the book offers in a position: one of the moves of the book
/// entry with a positive popularity, read in the position.
pub open spec fn book_offers(b: BoardModel, book: &OpeningBook, m: ChessMove) -> bool {
    let fen = fen_text(b);
    match book.spec_find(draw_key(fen)) {
        Some(k) => exists|i: int|
            0 <= i < book.0@[k].1@.len() && (#[trigger] book.0@[k].1@[i]).1 > 0 && spec_parse_move(
                fen,
                book.0@[k].1@[i].0@,
            ) == Some(Ok::<ChessMove, crate::opening_book::move_parser::MoveParseError>(m)),
        None => false,
    }
}

fn total_popularity(moves: &Vec<(String, u32)>) -> (res: Option<u32>)
    ensures
        match res {
            Some(t) => t == popularity_sum(moves@),
            None => popularity_sum(moves@) > u32::MAX,
        },
{
    let mut t: u32 = 0;
    let mut i: usize = 0;
    while i < moves.len()
        invariant
            i <= moves.len(),
            t == popularity_sum(moves@.take(i as int)),
        decreases moves.len() - i,
    {
        assert(moves@.take(i as int + 1).drop_last() =~= moves@.take(i as int));
        let w = moves[i].1;
        if t > u32::MAX - w {
            proof {
                lemma_popularity_grows(moves@, i as int + 1);
            }
            return None;
        }
        t = t + w;
        i = i + 1;
    }
    assert(moves@.take(moves@.len() as int) =~= moves@);
    Some(t)
}

proof fn lemma_popularity_grows(s: Seq<(String, u32)>, i: int)
    requires
        0 <= i <= s.len(),
    ensures
        popularity_sum(s.take(i)) <= popularity_sum(s),
    decreases s.len() - i,
{
    if i < s.len() {
        lemma_popularity_grows(s, i + 1);
        assert(s.take(i + 1).drop_last() =~= s.take(i));
    } else {
        assert(s.take(i) =~= s);
    }
}

/// The move the bot plays: a move of the opening book, chosen at random by popularity,
/// where the book has the position; otherwise the move the game tree search finds. `None`
/// where no move is found or the choice cannot be made (the position cannot be written or
/// hashed, a book move cannot be read, or the search cannot go on). The search's line for
/// each root move is added to `report`.
pub fn choose_move(
    board: &Board,
    rep_map: BTreeMap<u64, u8>,
    book: &OpeningBook,
    report: &mut Vec<RootLine>,
) -> (res: Option<ChessMove>)
    ensures
        res matches Some(m) ==> book_offers(board@, book, m) || (book.spec_find(
            draw_key(fen_text(board@)),
        ) is None && spec_all_moves(board@, board.turn).contains(m)),
        (board.en_passant_square matches Some(sq) ==> square_printable(sq)) && words(
            fen_text(board@),
        ).len() >= 3 && book.spec_find(draw_key(fen_text(board@))) is None && hashable(board@)
            ==> res == found_move(
            search_value(
                board@,
                0,
                SEARCH_DEPTH,
                root_limit(board.turn),
                hash_of(board@),
                counts_of(rep_map@),
            ),
        ),
        !(board.en_passant_square matches Some(sq) ==> square_printable(sq)) ==> res is None,
        book_sure(board@, book) ==> res is Some,
{
    let mut rep_map = rep_map;
    let limit: i32 = match board.turn {
        Color::White => 32767,
        Color::Black => -32768,
    };
    let printable = match board.en_passant_square {
        Some(sq) => sq.1 < 127 && (sq.0 as u8) as u32 + 97 <= 255,
        None => true,
    };
    if !printable {
        return None;
    }
    let fen = FenNotation::from(board);
    let key = match fen.to_draw_fen_checked() {
        Some(k) => k,
        None => return None,
    };
    match book.get(&key) {
        Some(move_vec) => {
            match total_popularity(move_vec) {
                None => None,
                Some(_) => {
                    let san = match choose_weighted_san(move_vec) {
                        Some(s) => s,
                        None => return None,
                    };
                    match parse_move_checked(&fen, &san) {
                        Some(Ok(m)) => Some(m),
                        _ => None,
                    }
                },
            }
        },
        None => {
            let hashable_board = match board.en_passant_square {
                Some(sq) => -16 <= sq.1 && sq.1 <= 15 && 0 <= sq.1 as i16 * 8 + sq.0 as i16 && (
                sq.1 as i16 * 8 + sq.0 as i16) < 64,
                None => true,
            };
            if !hashable_board {
                return None;
            }
            let hash = board.hash_board();
            match search_game_tree(board, 0, SEARCH_DEPTH, limit, hash, &mut rep_map, report) {
                Some((payload, _)) => payload.played_move,
                None => None,
            }
        },
    }
}

} // verus!
